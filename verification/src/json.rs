//! [`Json`]: the runtime's value type at its public boundary.
//!
//! Spawn arguments, event payloads, snapshot blobs and export documents cross
//! the API as [`Json`]: a shared tree of plain values. Reading the tree is
//! verified here; turning bytes into a tree and back is `serde_json`'s work.

use std::sync::Arc;

use serde_json::Value;
use vstd::prelude::*;
use vstd::string::StringExecFns;

use crate::text::decimal;
use crate::text::decimal_text;
use crate::text::law_lex_order;
use crate::text::lex_less;
use crate::text::text_before;

verus! {

/// A JSON number: a non-negative integer, a negative integer, or a float held
/// as its JSON text.
#[derive(Debug, PartialEq)]
pub enum JsonNumber {
    /// An integer that is not negative.
    PosInt(u64),
    /// An integer below zero.
    NegInt(i64),
    /// Any other number, as its shortest JSON text.
    Float(String),
}

/// A JSON tree.
#[derive(Debug, PartialEq)]
pub enum JsonTree {
    /// `null`.
    Null,
    /// `true` or `false`.
    Bool(bool),
    /// A number.
    Number(JsonNumber),
    /// A string.
    Text(String),
    /// An array.
    Array(Vec<JsonTree>),
    /// An object: its members by name.
    Object(Vec<(String, JsonTree)>),
}

/// The mathematical form of a [`JsonNumber`].
pub enum NumberView {
    /// An integer that is not negative.
    PosInt(u64),
    /// An integer below zero.
    NegInt(i64),
    /// Any other number, as its JSON text.
    Float(Seq<char>),
}

/// The mathematical form of a [`JsonTree`].
#[verifier::ext_equal]
pub enum JsonView {
    /// `null`.
    Null,
    /// `true` or `false`.
    Bool(bool),
    /// A number.
    Number(NumberView),
    /// A string.
    Text(Seq<char>),
    /// An array.
    Array(Seq<JsonView>),
    /// An object: its members by name.
    Object(Seq<(Seq<char>, JsonView)>),
}

impl View for JsonNumber {
    type V = NumberView;

    open spec fn view(&self) -> NumberView {
        match *self {
            JsonNumber::PosInt(n) => NumberView::PosInt(n),
            JsonNumber::NegInt(n) => NumberView::NegInt(n),
            JsonNumber::Float(text) => NumberView::Float(text@),
        }
    }
}

impl JsonTree {
    /// The tree as a mathematical value.
    pub open spec fn view(&self) -> JsonView
        decreases self,
    {
        match *self {
            JsonTree::Null => JsonView::Null,
            JsonTree::Bool(b) => JsonView::Bool(b),
            JsonTree::Number(n) => JsonView::Number(n@),
            JsonTree::Text(s) => JsonView::Text(s@),
            JsonTree::Array(items) => JsonView::Array(
                Seq::new(
                    items@.len(),
                    |i: int|
                        if 0 <= i < items@.len() {
                            items@[i].view()
                        } else {
                            JsonView::Null
                        },
                ),
            ),
            JsonTree::Object(members) => JsonView::Object(
                Seq::new(
                    members@.len(),
                    |i: int|
                        if 0 <= i < members@.len() {
                            (members@[i].0@, members@[i].1.view())
                        } else {
                            (Seq::empty(), JsonView::Null)
                        },
                ),
            ),
        }
    }
}

/// The value of the first member called `name`.
pub open spec fn member(members: Seq<(Seq<char>, JsonView)>, name: Seq<char>) -> Option<JsonView>
    decreases members.len(),
{
    if members.len() == 0 {
        None
    } else if members[0].0 == name {
        Some(members[0].1)
    } else {
        member(members.drop_first(), name)
    }
}

/// The value of a tree's field: present on objects only.
pub open spec fn field_of(tree: JsonView, name: Seq<char>) -> Option<JsonView> {
    match tree {
        JsonView::Object(members) => member(members, name),
        _ => None,
    }
}

/// The decimal rendering of a signed integer.
pub open spec fn signed_decimal(n: int) -> Seq<char> {
    if n < 0 {
        seq!['-'] + decimal((-n) as nat)
    } else {
        decimal(n as nat)
    }
}

/// The text `true` or `false`.
pub open spec fn bool_chars(b: bool) -> Seq<char> {
    if b {
        "true"@
    } else {
        "false"@
    }
}

/// A number as its JSON text.
pub open spec fn number_chars(n: NumberView) -> Seq<char> {
    match n {
        NumberView::PosInt(n) => signed_decimal(n as int),
        NumberView::NegInt(n) => signed_decimal(n as int),
        NumberView::Float(text) => text,
    }
}

/// A value's string form for shard keys: strings as they are, numbers and
/// booleans rendered, everything else unreadable.
pub open spec fn string_form(tree: JsonView) -> Option<Seq<char>> {
    match tree {
        JsonView::Text(s) => Some(s),
        JsonView::Number(n) => Some(number_chars(n)),
        JsonView::Bool(b) => Some(bool_chars(b)),
        _ => None,
    }
}

/// A tree as a signed 64-bit integer, where it is one.
pub open spec fn as_signed(tree: JsonView) -> Option<i64> {
    match tree {
        JsonView::Number(NumberView::PosInt(n)) => if n <= i64::MAX {
            Some(n as i64)
        } else {
            None
        },
        JsonView::Number(NumberView::NegInt(n)) => Some(n),
        _ => None,
    }
}

/// How deeply arrays and objects nest in a tree.
pub open spec fn depth(tree: JsonView) -> nat
    decreases tree,
{
    match tree {
        JsonView::Array(items) => 1 + items_depth(items),
        JsonView::Object(members) => 1 + members_depth(members),
        _ => 0,
    }
}

/// The deepest of an array's items.
pub open spec fn items_depth(items: Seq<JsonView>) -> nat
    decreases items,
{
    if items.len() == 0 {
        0
    } else {
        let first = depth(items[0]);
        let rest = items_depth(items.drop_first());
        if first > rest {
            first
        } else {
            rest
        }
    }
}

/// The deepest of an object's members.
pub open spec fn members_depth(members: Seq<(Seq<char>, JsonView)>) -> nat
    decreases members,
{
    if members.len() == 0 {
        0
    } else {
        let first = depth(members[0].1);
        let rest = members_depth(members.drop_first());
        if first > rest {
            first
        } else {
            rest
        }
    }
}

/// Whether a tree is in the form that bytes parse into: member names strictly
/// ascending, negative integers below zero, and no float anywhere.
pub open spec fn canonical(tree: JsonView) -> bool
    decreases tree,
{
    match tree {
        JsonView::Number(NumberView::NegInt(n)) => n < 0,
        JsonView::Number(NumberView::Float(_)) => false,
        JsonView::Array(items) => forall|i: int| 0 <= i < items.len() ==> canonical(#[trigger] items[i]),
        JsonView::Object(members) => {
            &&& forall|i: int| 0 <= i < members.len() ==> canonical((#[trigger] members[i]).1)
            &&& forall|i: int, j: int|
                0 <= i < j < members.len() ==> lex_less((#[trigger] members[i]).0, (#[trigger] members[j]).0)
        },
        _ => true,
    }
}

/// The most levels of nesting that parsing accepts.
pub const MAX_DEPTH: u64 = 127;

/// The tree that `serde_json::from_slice` reads out of bytes; `None` when it
/// refuses them.
pub uninterp spec fn json_parsed(bytes: Seq<u8>) -> Option<JsonView>;

/// The bytes that `serde_json::to_vec` writes for a tree.
pub uninterp spec fn json_bytes(tree: JsonView) -> Seq<u8>;

/// The text that Rust gives the number's nearest 64-bit float; `None` when
/// the number has none.
pub uninterp spec fn float_text(n: NumberView) -> Option<Seq<char>>;

/// `serde_json::Value`, carried through to and from the host.
#[verifier::external_type_specification]
#[verifier::external_body]
pub struct ExValue(Value);

/// Converts a `serde_json::Value` into a [`JsonTree`], one for one. Nothing is
/// claimed of it: a `Value` has no mathematical form here.
#[verifier::external_body]
fn from_value(value: Value) -> (tree: JsonTree) {
    match value {
        Value::Null => JsonTree::Null,
        Value::Bool(b) => JsonTree::Bool(b),
        Value::Number(n) => JsonTree::Number(match (n.as_u64(), n.as_i64()) {
            (Some(u), _) => JsonNumber::PosInt(u),
            (None, Some(i)) => JsonNumber::NegInt(i),
            (None, None) => JsonNumber::Float(n.to_string()),
        }),
        Value::String(s) => JsonTree::Text(s),
        Value::Array(items) => JsonTree::Array(items.into_iter().map(from_value).collect()),
        Value::Object(map) => JsonTree::Object(map.into_iter().map(|(k, v)| (k, from_value(v))).collect()),
    }
}

/// Converts a [`JsonTree`] into a `serde_json::Value`, one for one. Nothing is
/// claimed of it: a `Value` has no mathematical form here.
#[verifier::external_body]
fn to_value(tree: &JsonTree) -> (value: Value) {
    match tree {
        JsonTree::Null => Value::Null,
        JsonTree::Bool(b) => Value::Bool(*b),
        JsonTree::Number(JsonNumber::PosInt(n)) => Value::from(*n),
        JsonTree::Number(JsonNumber::NegInt(n)) => Value::from(*n),
        JsonTree::Number(JsonNumber::Float(t)) => t.parse().ok().and_then(serde_json::Number::from_f64).into(),
        JsonTree::Text(s) => Value::String(s.clone()),
        JsonTree::Array(items) => Value::Array(items.iter().map(to_value).collect()),
        JsonTree::Object(members) => {
            Value::Object(members.iter().map(|m| (m.0.clone(), to_value(&m.1))).collect())
        }
    }
}

/// Calls `serde_json::from_slice` for a `Value`: the tree the bytes encode, or
/// nothing when they are not JSON text.
#[verifier::external_body]
fn read_tree(bytes: &[u8]) -> (tree: Option<JsonTree>)
    ensures
        match tree {
            Some(tree) => json_parsed(bytes@) == Some(tree@),
            None => json_parsed(bytes@) is None,
        },
{
    serde_json::from_slice::<Value>(bytes).ok().map(from_value)
}

/// Calls `serde_json::to_vec` on a tree: compact JSON text, which is UTF-8.
/// A canonical tree that nests no deeper than parsing accepts reads back as
/// itself. Of floats, unordered members and deeper trees nothing is claimed.
#[verifier::external_body]
fn write_tree(tree: &JsonTree) -> (bytes: Vec<u8>)
    ensures
        bytes@ == json_bytes(tree@),
        vstd::utf8::valid_utf8(bytes@),
        canonical(tree@) && depth(tree@) <= MAX_DEPTH ==> json_parsed(bytes@) == Some(tree@),
{
    serde_json::to_vec(&to_value(tree)).expect("a JSON tree always serializes")
}

/// Calls `serde_json::Number::as_f64` and renders the float as Rust displays
/// it.
#[verifier::external_body]
fn render_float(n: &JsonNumber) -> (text: Option<String>)
    ensures
        match text {
            Some(text) => float_text(n@) == Some(text@),
            None => float_text(n@) is None,
        },
{
    let number = match n {
        JsonNumber::PosInt(n) => Some(serde_json::Number::from(*n)),
        JsonNumber::NegInt(n) => Some(serde_json::Number::from(*n)),
        JsonNumber::Float(text) => text.parse().ok().and_then(serde_json::Number::from_f64),
    };
    number.and_then(|n| n.as_f64()).map(|float| float.to_string())
}

/// Clones the pointer of an `Arc`: `std::sync::Arc::clone` gives another
/// pointer to the same value.
#[verifier::external_body]
pub(crate) fn share<T>(shared: &Arc<T>) -> (other: Arc<T>)
    ensures
        other == *shared,
{
    Arc::clone(shared)
}

/// Renders a signed integer in decimal.
pub fn signed_text(n: i64) -> (text: String)
    ensures
        text@ == signed_decimal(n as int),
{
    if n < 0 {
        proof {
            reveal_strlit("-");
        }
        let magnitude: u64 = if n == i64::MIN {
            0x8000_0000_0000_0000
        } else {
            (-n) as u64
        };
        let mut text = "-".to_owned();
        text.append(decimal_text(magnitude).as_str());
        assert(text@ =~= signed_decimal(n as int));
        text
    } else {
        decimal_text(n as u64)
    }
}

/// The text `true` or `false`.
pub fn bool_text(b: bool) -> (text: String)
    ensures
        text@ == bool_chars(b),
{
    if b {
        "true".to_owned()
    } else {
        "false".to_owned()
    }
}

impl JsonNumber {
    /// The number as its JSON text.
    pub fn to_text(&self) -> (text: String)
        ensures
            text@ == number_chars(self@),
    {
        match self {
            JsonNumber::PosInt(n) => decimal_text(*n),
            JsonNumber::NegInt(n) => signed_text(*n),
            JsonNumber::Float(text) => text.clone(),
        }
    }

    /// The text of the number's nearest float, if it has one.
    pub fn to_float_text(&self) -> (text: Option<String>)
        ensures
            match text {
                Some(text) => float_text(self@) == Some(text@),
                None => float_text(self@) is None,
            },
    {
        render_float(self)
    }
}

/// Stepping past a member of another name does not change what is found.
proof fn lemma_member_skip(members: Seq<(Seq<char>, JsonView)>, name: Seq<char>, i: int)
    requires
        0 <= i <= members.len(),
        forall|j: int| 0 <= j < i ==> (#[trigger] members[j]).0 != name,
    ensures
        member(members, name) == member(members.subrange(i, members.len() as int), name),
    decreases i,
{
    if i == 0 {
        assert(members.subrange(0, members.len() as int) =~= members);
    } else {
        lemma_member_skip(members, name, i - 1);
        let tail = members.subrange(i - 1, members.len() as int);
        assert(tail[0] == members[i - 1]);
        assert(tail.drop_first() =~= members.subrange(i, members.len() as int));
    }
}

impl JsonTree {
    /// The value of the field called `name`: `None` on anything but an object.
    pub fn get(&self, name: &str) -> (value: Option<&JsonTree>)
        ensures
            match value {
                Some(value) => field_of(self@, name@) == Some(value@),
                None => field_of(self@, name@) is None,
            },
    {
        match self {
            JsonTree::Object(members) => {
                let wanted = name.to_owned();
                let ghost view = self@->Object_0;
                let mut i: usize = 0;
                while i < members.len()
                    invariant
                        self@ == JsonView::Object(view),
                        view.len() == members@.len(),
                        forall|j: int|
                            0 <= j < members@.len() ==> #[trigger] view[j] == (members@[j].0@, members@[j].1@),
                        wanted@ == name@,
                        i <= members.len(),
                        forall|j: int| 0 <= j < i ==> (#[trigger] view[j]).0 != name@,
                    decreases members.len() - i,
                {
                    assert(view[i as int] == (members@[i as int].0@, members@[i as int].1@));
                    if members[i].0 == wanted {
                        proof {
                            lemma_member_skip(view, name@, i as int);
                            assert(view.subrange(i as int, view.len() as int)[0] == view[i as int]);
                        }
                        return Some(&members[i].1);
                    }
                    i += 1;
                }
                proof {
                    lemma_member_skip(view, name@, view.len() as int);
                }
                None
            },
            _ => None,
        }
    }

    /// The string, where the tree is one.
    pub fn as_str(&self) -> (s: Option<&str>)
        ensures
            match s {
                Some(s) => self@ == JsonView::Text(s@),
                None => !(self@ is Text),
            },
    {
        match self {
            JsonTree::Text(s) => Some(s.as_str()),
            _ => None,
        }
    }

    /// The boolean, where the tree is one.
    pub fn as_bool(&self) -> (b: Option<bool>)
        ensures
            match b {
                Some(b) => self@ == JsonView::Bool(b),
                None => !(self@ is Bool),
            },
    {
        match self {
            JsonTree::Bool(b) => Some(*b),
            _ => None,
        }
    }

    /// The integer, where the tree is one that fits 64 signed bits.
    pub fn as_i64(&self) -> (n: Option<i64>)
        ensures
            n == as_signed(self@),
    {
        match self {
            JsonTree::Number(JsonNumber::PosInt(n)) => if *n <= i64::MAX as u64 {
                Some(*n as i64)
            } else {
                None
            },
            JsonTree::Number(JsonNumber::NegInt(n)) => Some(*n),
            _ => None,
        }
    }

    /// The integer, where the tree is one that is not negative.
    pub fn as_u64(&self) -> (n: Option<u64>)
        ensures
            match n {
                Some(n) => self@ == JsonView::Number(NumberView::PosInt(n)),
                None => !(self@ is Number && self@->Number_0 is PosInt),
            },
    {
        match self {
            JsonTree::Number(JsonNumber::PosInt(n)) => Some(*n),
            _ => None,
        }
    }

    /// The value's string form for shard keys.
    pub fn to_string_form(&self) -> (text: Option<String>)
        ensures
            match text {
                Some(text) => string_form(self@) == Some(text@),
                None => string_form(self@) is None,
            },
    {
        match self {
            JsonTree::Text(s) => Some(s.clone()),
            JsonTree::Number(n) => Some(n.to_text()),
            JsonTree::Bool(b) => Some(bool_text(*b)),
            _ => None,
        }
    }
}

/// An object's members with `name` set to `value`: replaced where the name
/// stands, else inserted before the first member of a greater name.
pub open spec fn set_member(
    members: Seq<(Seq<char>, JsonView)>,
    name: Seq<char>,
    value: JsonView,
) -> Seq<(Seq<char>, JsonView)>
    decreases members.len(),
{
    if members.len() == 0 {
        seq![(name, value)]
    } else if members[0].0 == name {
        seq![(name, value)] + members.drop_first()
    } else if lex_less(name, members[0].0) {
        seq![(name, value)] + members
    } else {
        seq![members[0]] + set_member(members.drop_first(), name, value)
    }
}

/// Setting a member splices it in at the first place that stops the search.
proof fn lemma_set_member(members: Seq<(Seq<char>, JsonView)>, name: Seq<char>, value: JsonView, i: int)
    requires
        0 <= i <= members.len(),
        forall|j: int|
            0 <= j < i ==> (#[trigger] members[j]).0 != name && !lex_less(name, members[j].0),
        i < members.len() ==> members[i].0 == name || lex_less(name, members[i].0),
    ensures
        set_member(members, name, value) == members.subrange(0, i).push((name, value))
            + members.subrange(
            if i < members.len() && members[i].0 == name {
                i + 1
            } else {
                i
            },
            members.len() as int,
        ),
    decreases i,
{
    let n = members.len() as int;
    let from = if i < members.len() && members[i].0 == name {
        i + 1
    } else {
        i
    };
    if i == 0 {
        assert(members.subrange(0, 0) =~= Seq::empty());
        if n == 0 {
            assert(members.subrange(0, 0).push((name, value)) + members.subrange(from, n) =~= seq![(name, value)]);
        } else if members[0].0 == name {
            assert(members.subrange(1, n) =~= members.drop_first());
            assert(members.subrange(0, 0).push((name, value)) + members.subrange(from, n) =~= seq![(name, value)]
                + members.drop_first());
        } else {
            assert(members.subrange(0, 0).push((name, value)) + members.subrange(from, n) =~= seq![(name, value)]
                + members);
        }
    } else {
        let rest = members.drop_first();
        assert forall|j: int| 0 <= j < i - 1 implies (#[trigger] rest[j]).0 != name && !lex_less(
            name,
            rest[j].0,
        ) by {
            assert(rest[j] == members[j + 1]);
        }
        lemma_set_member(rest, name, value, i - 1);
        assert(rest.len() == n - 1);
        assert(seq![members[0]] + (rest.subrange(0, i - 1).push((name, value)) + rest.subrange(from - 1, n - 1))
            =~= members.subrange(0, i).push((name, value)) + members.subrange(from, n));
    }
}

/// The members of an object as a mathematical value.
pub open spec fn members_view(members: Seq<(String, JsonTree)>) -> Seq<(Seq<char>, JsonView)> {
    Seq::new(members.len(), |i: int| (members[i].0@, members[i].1@))
}

impl JsonTree {
    /// Copies the tree.
    pub fn copy(&self) -> (tree: JsonTree)
        ensures
            tree@ == self@,
        decreases self,
    {
        match self {
            JsonTree::Null => JsonTree::Null,
            JsonTree::Bool(b) => JsonTree::Bool(*b),
            JsonTree::Number(JsonNumber::PosInt(n)) => JsonTree::Number(JsonNumber::PosInt(*n)),
            JsonTree::Number(JsonNumber::NegInt(n)) => JsonTree::Number(JsonNumber::NegInt(*n)),
            JsonTree::Number(JsonNumber::Float(text)) => JsonTree::Number(JsonNumber::Float(text.clone())),
            JsonTree::Text(s) => JsonTree::Text(s.clone()),
            JsonTree::Array(items) => {
                let mut copy: Vec<JsonTree> = Vec::new();
                let mut i: usize = 0;
                while i < items.len()
                    invariant
                        *self == JsonTree::Array(*items),
                        i <= items.len(),
                        copy.len() == i,
                        forall|j: int| 0 <= j < i ==> (#[trigger] copy@[j])@ == items@[j]@,
                    decreases items.len() - i,
                {
                    assert(decreases_to!(*self => self->Array_0));
                    assert(decreases_to!(*items => items@[i as int]));
                    copy.push(items[i].copy());
                    i += 1;
                }
                let ghost copied = copy@;
                let tree = JsonTree::Array(copy);
                assert(tree@->Array_0 =~= self@->Array_0) by {
                    assert forall|j: int| 0 <= j < copied.len() implies tree@->Array_0[j] == self@->Array_0[j] by {
                        assert(copied[j]@ == items@[j]@);
                    }
                }
                tree
            },
            JsonTree::Object(members) => {
                let mut copy: Vec<(String, JsonTree)> = Vec::new();
                let mut i: usize = 0;
                while i < members.len()
                    invariant
                        *self == JsonTree::Object(*members),
                        i <= members.len(),
                        copy.len() == i,
                        forall|j: int|
                            0 <= j < i ==> (#[trigger] copy@[j]).0@ == members@[j].0@ && copy@[j].1@
                                == members@[j].1@,
                    decreases members.len() - i,
                {
                    let member = &members[i];
                    assert(decreases_to!(*self => self->Object_0));
                    assert(decreases_to!(*members => members@[i as int]));
                    assert(decreases_to!(members@[i as int] => members@[i as int].1));
                    copy.push((member.0.clone(), member.1.copy()));
                    i += 1;
                }
                let ghost copied = copy@;
                let tree = JsonTree::Object(copy);
                assert(tree@->Object_0 =~= self@->Object_0) by {
                    assert forall|j: int| 0 <= j < copied.len() implies tree@->Object_0[j] == self@->Object_0[j] by {
                        assert(copied[j].0@ == members@[j].0@);
                    }
                }
                tree
            },
        }
    }
}

impl JsonNumber {
    /// Whether two numbers are the same number, written the same way.
    pub fn same(&self, other: &JsonNumber) -> (r: bool)
        ensures
            r == (self@ == other@),
    {
        match (self, other) {
            (JsonNumber::PosInt(a), JsonNumber::PosInt(b)) => *a == *b,
            (JsonNumber::NegInt(a), JsonNumber::NegInt(b)) => *a == *b,
            (JsonNumber::Float(a), JsonNumber::Float(b)) => *a == *b,
            _ => false,
        }
    }
}

impl JsonTree {
    /// Whether two trees are the same document.
    pub fn same(&self, other: &JsonTree) -> (r: bool)
        ensures
            r == (self@ == other@),
        decreases self,
    {
        match (self, other) {
            (JsonTree::Null, JsonTree::Null) => true,
            (JsonTree::Bool(a), JsonTree::Bool(b)) => *a == *b,
            (JsonTree::Number(a), JsonTree::Number(b)) => a.same(b),
            (JsonTree::Text(a), JsonTree::Text(b)) => *a == *b,
            (JsonTree::Array(a), JsonTree::Array(b)) => {
                let ghost x = self@->Array_0;
                let ghost y = other@->Array_0;
                if a.len() != b.len() {
                    assert(x.len() != y.len());
                    return false;
                }
                let mut i: usize = 0;
                while i < a.len()
                    invariant
                        *self == JsonTree::Array(*a),
                        *other == JsonTree::Array(*b),
                        x == self@->Array_0,
                        y == other@->Array_0,
                        x.len() == a@.len() == b@.len() == y.len(),
                        i <= a.len(),
                        forall|j: int| 0 <= j < a@.len() ==> #[trigger] x[j] == a@[j]@,
                        forall|j: int| 0 <= j < b@.len() ==> #[trigger] y[j] == b@[j]@,
                        forall|j: int| 0 <= j < i ==> x[j] == y[j],
                    decreases a.len() - i,
                {
                    assert(decreases_to!(*self => self->Array_0));
                    assert(decreases_to!(*a => a@[i as int]));
                    assert(x[i as int] == a@[i as int]@ && y[i as int] == b@[i as int]@);
                    if !a[i].same(&b[i]) {
                        return false;
                    }
                    i += 1;
                }
                assert(x =~= y);
                true
            },
            (JsonTree::Object(a), JsonTree::Object(b)) => {
                let ghost x = self@->Object_0;
                let ghost y = other@->Object_0;
                if a.len() != b.len() {
                    assert(x.len() != y.len());
                    return false;
                }
                let mut i: usize = 0;
                while i < a.len()
                    invariant
                        *self == JsonTree::Object(*a),
                        *other == JsonTree::Object(*b),
                        x == self@->Object_0,
                        y == other@->Object_0,
                        x.len() == a@.len() == b@.len() == y.len(),
                        i <= a.len(),
                        forall|j: int| 0 <= j < a@.len() ==> #[trigger] x[j] == (a@[j].0@, a@[j].1@),
                        forall|j: int| 0 <= j < b@.len() ==> #[trigger] y[j] == (b@[j].0@, b@[j].1@),
                        forall|j: int| 0 <= j < i ==> x[j] == y[j],
                    decreases a.len() - i,
                {
                    assert(decreases_to!(*self => self->Object_0));
                    assert(decreases_to!(*a => a@[i as int]));
                    assert(decreases_to!(a@[i as int] => a@[i as int].1));
                    assert(x[i as int] == (a@[i as int].0@, a@[i as int].1@));
                    assert(y[i as int] == (b@[i as int].0@, b@[i as int].1@));
                    if a[i].0 != b[i].0 || !a[i].1.same(&b[i].1) {
                        return false;
                    }
                    i += 1;
                }
                assert(x =~= y);
                true
            },
            _ => false,
        }
    }
}

/// A string tree.
pub fn text_tree(s: &str) -> (tree: JsonTree)
    ensures
        tree@ == JsonView::Text(s@),
{
    JsonTree::Text(s.to_owned())
}

/// A tree of an integer that is not negative.
pub fn uint_tree(n: u64) -> (tree: JsonTree)
    ensures
        tree@ == JsonView::Number(NumberView::PosInt(n)),
{
    JsonTree::Number(JsonNumber::PosInt(n))
}

/// A boolean tree.
pub fn bool_tree(b: bool) -> (tree: JsonTree)
    ensures
        tree@ == JsonView::Bool(b),
{
    JsonTree::Bool(b)
}

/// An object tree.
pub fn object_tree(members: Vec<(String, JsonTree)>) -> (tree: JsonTree)
    ensures
        tree@ == JsonView::Object(members_view(members@)),
{
    let tree = JsonTree::Object(members);
    assert(tree@->Object_0 =~= members_view(members@));
    tree
}

/// Adds a member behind an object's members.
pub fn push_member(members: &mut Vec<(String, JsonTree)>, name: &str, value: JsonTree)
    ensures
        members_view(final(members)@) == members_view(old(members)@).push((name@, value@)),
{
    let ghost before = members@;
    members.push((name.to_owned(), value));
    assert(members_view(members@) =~= members_view(before).push((name@, value@)));
}

/// The tree's field called `name`, `null` where it has none.
pub open spec fn field_or_null(tree: JsonView, name: Seq<char>) -> JsonView {
    match field_of(tree, name) {
        Some(value) => value,
        None => JsonView::Null,
    }
}

/// The tree's integer, zero where it is no integer that is not negative.
pub open spec fn uint_or_zero(tree: JsonView) -> u64 {
    match tree {
        JsonView::Number(NumberView::PosInt(n)) => n,
        _ => 0,
    }
}

/// The tree's string, empty where it is none.
pub open spec fn text_or_empty(tree: JsonView) -> Seq<char> {
    match tree {
        JsonView::Text(s) => s,
        _ => Seq::empty(),
    }
}

/// Copies an object's members with `name` set to `value`.
pub fn with_member(members: &Vec<(String, JsonTree)>, name: &str, value: JsonTree) -> (set: Vec<(String, JsonTree)>)
    ensures
        members_view(set@) == set_member(members_view(members@), name@, value@),
{
    let ghost view = members_view(members@);
    let wanted = name.to_owned();
    let mut set: Vec<(String, JsonTree)> = Vec::new();
    let mut i: usize = 0;
    while i < members.len() && members[i].0 != wanted && !text_before(name, members[i].0.as_str())
        invariant
            view == members_view(members@),
            wanted@ == name@,
            i <= members.len(),
            members_view(set@) == view.subrange(0, i as int),
            forall|j: int| 0 <= j < i ==> (#[trigger] view[j]).0 != name@ && !lex_less(name@, view[j].0),
        decreases members.len() - i,
    {
        let member = &members[i];
        let ghost before = set@;
        set.push((member.0.clone(), member.1.copy()));
        assert(members_view(set@) =~= members_view(before).push(view[i as int]));
        i += 1;
        assert(members_view(set@) =~= view.subrange(0, i as int));
    }
    proof {
        lemma_set_member(view, name@, value@, i as int);
    }
    let ghost head = view.subrange(0, i as int).push((name@, value@));
    let ghost before = set@;
    set.push((wanted, value));
    assert(members_view(set@) =~= members_view(before).push((name@, value@)));
    if i < members.len() && members[i].0.as_str().to_owned() == name.to_owned() {
        i += 1;
    }
    let ghost from = i as int;
    while i < members.len()
        invariant
            view == members_view(members@),
            0 <= from <= i <= members.len(),
            members_view(set@) == head + view.subrange(from, i as int),
        decreases members.len() - i,
    {
        let member = &members[i];
        let ghost before = set@;
        set.push((member.0.clone(), member.1.copy()));
        assert(members_view(set@) =~= members_view(before).push(view[i as int]));
        i += 1;
        assert(view.subrange(from, i as int) =~= view.subrange(from, i - 1).push(view[i - 1]));
        assert(members_view(set@) =~= head + view.subrange(from, i as int));
    }
    set
}

/// Setting a member makes it read as the new value and leaves every other
/// member as it was.
pub proof fn law_set_member(
    members: Seq<(Seq<char>, JsonView)>,
    name: Seq<char>,
    value: JsonView,
    other: Seq<char>,
)
    ensures
        member(set_member(members, name, value), name) == Some(value),
        other != name ==> member(set_member(members, name, value), other) == member(members, other),
    decreases members.len(),
{
    let set = set_member(members, name, value);
    if members.len() == 0 {
        assert(set.drop_first() =~= members);
    } else if members[0].0 == name {
        assert(set.drop_first() =~= members.drop_first());
    } else if lex_less(name, members[0].0) {
        assert(set.drop_first() =~= members);
    } else {
        assert(set.drop_first() =~= set_member(members.drop_first(), name, value));
        law_set_member(members.drop_first(), name, value, other);
    }
}

/// A JSON value at the runtime's public boundary: a shared tree.
#[derive(Debug, PartialEq)]
pub struct Json {
    tree: Arc<JsonTree>,
}

impl View for Json {
    type V = JsonView;

    closed spec fn view(&self) -> JsonView {
        self.tree.view()
    }
}

impl Clone for Json {
    fn clone(&self) -> (json: Self)
        ensures
            json == *self,
    {
        Json { tree: share(&self.tree) }
    }
}

impl Default for Json {
    fn default() -> (json: Self)
        ensures
            json@ == JsonView::Null,
    {
        Json::of(JsonTree::Null)
    }
}

impl Json {
    /// Wraps a tree.
    pub fn of(tree: JsonTree) -> (json: Self)
        ensures
            json@ == tree@,
    {
        Json { tree: Arc::new(tree) }
    }

    /// The tree itself.
    pub fn tree(&self) -> (tree: &JsonTree)
        ensures
            tree@ == self@,
    {
        &self.tree
    }

    /// A string.
    pub fn text(s: &str) -> (json: Self)
        ensures
            json@ == JsonView::Text(s@),
    {
        Json::of(JsonTree::Text(s.to_owned()))
    }

    /// Reads JSON text. `None` when the bytes are not JSON.
    pub fn from_slice(bytes: &[u8]) -> (json: Option<Self>)
        ensures
            match json {
                Some(json) => json_parsed(bytes@) == Some(json@),
                None => json_parsed(bytes@) is None,
            },
    {
        match read_tree(bytes) {
            Some(tree) => Some(Json::of(tree)),
            None => None,
        }
    }

    /// Writes compact JSON text.
    pub fn to_vec(&self) -> (bytes: Vec<u8>)
        ensures
            bytes@ == json_bytes(self@),
            vstd::utf8::valid_utf8(bytes@),
            canonical(self@) && depth(self@) <= MAX_DEPTH ==> json_parsed(bytes@) == Some(self@),
    {
        write_tree(&self.tree)
    }
}

/// A field of an object that does not carry it reads as absent.
pub proof fn law_absent_member(members: Seq<(Seq<char>, JsonView)>, name: Seq<char>)
    requires
        forall|i: int| 0 <= i < members.len() ==> (#[trigger] members[i]).0 != name,
    ensures
        member(members, name) is None,
{
    lemma_member_skip(members, name, members.len() as int);
}

/// A field of an object reads as the first member of that name.
pub proof fn law_first_member(members: Seq<(Seq<char>, JsonView)>, i: int)
    requires
        0 <= i < members.len(),
        forall|j: int| 0 <= j < i ==> (#[trigger] members[j]).0 != members[i].0,
    ensures
        member(members, members[i].0) == Some(members[i].1),
{
    lemma_member_skip(members, members[i].0, i);
    assert(members.subrange(i, members.len() as int)[0] == members[i]);
}

/// A field is the first member of its name, and there is none exactly where no
/// member has the name.
pub proof fn law_field_is_the_first_member(members: Seq<(Seq<char>, JsonView)>, name: Seq<char>)
    ensures
        match field_of(JsonView::Object(members), name) {
            Some(value) => exists|k: int|
                0 <= k < members.len() && (#[trigger] members[k]) == (name, value) && forall|j: int|
                    0 <= j < k ==> (#[trigger] members[j]).0 != name,
            None => forall|j: int| 0 <= j < members.len() ==> (#[trigger] members[j]).0 != name,
        },
    decreases members.len(),
{
    if members.len() > 0 {
        if members[0].0 == name {
            assert(members[0] == (name, members[0].1));
        } else {
            let rest = members.drop_first();
            law_field_is_the_first_member(rest, name);
            match member(rest, name) {
                Some(value) => {
                    let k = choose|k: int|
                        0 <= k < rest.len() && (#[trigger] rest[k]) == (name, value) && forall|j: int|
                            0 <= j < k ==> (#[trigger] rest[j]).0 != name;
                    assert(members[k + 1] == (name, value));
                    assert forall|j: int| 0 <= j < k + 1 implies (#[trigger] members[j]).0 != name by {
                        if j > 0 {
                            assert(rest[j - 1] == members[j]);
                        }
                    }
                },
                None => {
                    assert forall|j: int| 0 <= j < members.len() implies (#[trigger] members[j]).0 != name by {
                        if j > 0 {
                            assert(rest[j - 1] == members[j]);
                        }
                    }
                },
            }
        }
    }
}

/// Only objects have fields.
pub proof fn law_only_objects_have_fields(tree: JsonView, name: Seq<char>)
    ensures
        !(tree is Object) ==> field_of(tree, name) is None,
{
}

/// What reads as a shard key: a string as it is, a number and a boolean as their
/// text, and nothing else.
pub proof fn law_string_forms(tree: JsonView)
    ensures
        match tree {
            JsonView::Text(text) => string_form(tree) == Some(text),
            JsonView::Bool(b) => string_form(tree) == Some(
                if b {
                    "true"@
                } else {
                    "false"@
                },
            ),
            JsonView::Number(NumberView::PosInt(n)) => string_form(tree) == Some(decimal(n as nat)),
            JsonView::Number(NumberView::NegInt(n)) => n < 0 ==> string_form(tree) == Some(
                seq!['-'] + decimal((-n) as nat),
            ),
            JsonView::Number(NumberView::Float(text)) => string_form(tree) == Some(text),
            JsonView::Null => string_form(tree) is None,
            JsonView::Array(_) => string_form(tree) is None,
            JsonView::Object(_) => string_form(tree) is None,
        },
{
}

/// A tree is a signed integer exactly where it is a whole number that fits one,
/// and then it is that number.
pub proof fn law_signed_integers(tree: JsonView)
    ensures
        match tree {
            JsonView::Number(NumberView::PosInt(n)) => {
                &&& as_signed(tree) is Some <==> n <= i64::MAX
                &&& as_signed(tree) matches Some(m) ==> m == n
            },
            JsonView::Number(NumberView::NegInt(n)) => as_signed(tree) == Some(n),
            _ => as_signed(tree) is None,
        },
{
}

/// Setting a member keeps an object's members in order, none twice.
pub proof fn law_set_member_keeps_order(members: Seq<(Seq<char>, JsonView)>, name: Seq<char>, value: JsonView)
    requires
        forall|i: int, j: int|
            0 <= i < j < members.len() ==> lex_less((#[trigger] members[i]).0, (#[trigger] members[j]).0),
    ensures
        ({
            let set = set_member(members, name, value);
            &&& forall|i: int, j: int|
                0 <= i < j < set.len() ==> lex_less((#[trigger] set[i]).0, (#[trigger] set[j]).0)
            &&& forall|i: int|
                0 <= i < set.len() ==> (#[trigger] set[i]).0 == name || exists|j: int|
                    0 <= j < members.len() && (#[trigger] members[j]).0 == set[i].0
        }),
    decreases members.len(),
{
    let set = set_member(members, name, value);
    if members.len() == 0 {
        assert(set =~= seq![(name, value)]);
    } else if members[0].0 == name {
        assert(set =~= seq![(name, value)] + members.drop_first());
        assert forall|i: int, j: int| 0 <= i < j < set.len() implies lex_less((#[trigger] set[i]).0, (
        #[trigger] set[j]).0) by {
            assert(lex_less(members[i].0, members[j].0));
            assert(set[i].0 == members[i].0 && set[j].0 == members[j].0);
        }
        assert forall|i: int| 0 <= i < set.len() implies (#[trigger] set[i]).0 == name || exists|j: int|
            0 <= j < members.len() && (#[trigger] members[j]).0 == set[i].0 by {
            assert(members[i].0 == set[i].0);
        }
    } else if lex_less(name, members[0].0) {
        assert(set =~= seq![(name, value)] + members);
        assert forall|i: int, j: int| 0 <= i < j < set.len() implies lex_less((#[trigger] set[i]).0, (
        #[trigger] set[j]).0) by {
            if i == 0 {
                if j > 1 {
                    assert(lex_less(members[0].0, members[j - 1].0));
                    law_lex_order(name, members[0].0, members[j - 1].0);
                }
            } else {
                assert(lex_less(members[i - 1].0, members[j - 1].0));
            }
        }
        assert forall|i: int| 0 <= i < set.len() implies (#[trigger] set[i]).0 == name || exists|j: int|
            0 <= j < members.len() && (#[trigger] members[j]).0 == set[i].0 by {
            if i > 0 {
                assert(members[i - 1].0 == set[i].0);
            }
        }
    } else {
        let rest = members.drop_first();
        let tail = set_member(rest, name, value);
        assert forall|i: int, j: int| 0 <= i < j < rest.len() implies lex_less((#[trigger] rest[i]).0, (
        #[trigger] rest[j]).0) by {
            assert(lex_less(members[i + 1].0, members[j + 1].0));
        }
        law_set_member_keeps_order(rest, name, value);
        assert(set =~= seq![members[0]] + tail);
        law_lex_order(members[0].0, name, name);
        assert forall|i: int, j: int| 0 <= i < j < set.len() implies lex_less((#[trigger] set[i]).0, (
        #[trigger] set[j]).0) by {
            if i == 0 {
                assert(set[j] == tail[j - 1]);
                if tail[j - 1].0 != name {
                    let m = choose|m: int| 0 <= m < rest.len() && (#[trigger] rest[m]).0 == tail[j - 1].0;
                    assert(lex_less(members[0].0, members[m + 1].0));
                }
            } else {
                assert(lex_less(tail[i - 1].0, tail[j - 1].0));
            }
        }
        assert forall|i: int| 0 <= i < set.len() implies (#[trigger] set[i]).0 == name || exists|j: int|
            0 <= j < members.len() && (#[trigger] members[j]).0 == set[i].0 by {
            if i == 0 {
                assert(members[0].0 == set[0].0);
            } else if tail[i - 1].0 != name {
                let m = choose|m: int| 0 <= m < rest.len() && (#[trigger] rest[m]).0 == tail[i - 1].0;
                assert(members[m + 1].0 == set[i].0);
            }
        }
    }
}

} // verus!
