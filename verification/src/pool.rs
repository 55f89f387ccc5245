//! Declarative partition-set and router-rule specs, resolved at route time.
//!
//! A partition set derives a per-entity path from a schema-declared shard key
//! and activates entities on demand. Router rules place observers at a tier:
//! `Tee` copies, `Inline` interposes.

use vstd::prelude::*;
use vstd::string::StringExecFns;

use crate::actor::ActorPath;
use crate::json::as_signed;
use crate::json::bool_chars;
use crate::json::bool_text;
use crate::json::field_of;
use crate::json::float_text;
use crate::json::law_set_member;
use crate::json::members_view;
use crate::json::object_tree;
use crate::json::set_member;
use crate::json::signed_decimal;
use crate::json::signed_text;
use crate::json::text_tree;
use crate::json::with_member;
use crate::json::Json;
use crate::json::JsonTree;
use crate::json::JsonView;
use crate::schema::FieldDef;
use crate::schema::FieldTy;
use crate::schema::SchemaDef;
use crate::schema::SchemaId;

verus! {

/// Where a rule places an observer relative to the flow it watches.
#[derive(Debug)]
pub enum RuleAction {
    /// Deliver a copy to the observer; the primary delivery is untouched.
    Tee(ActorPath),
    /// Interpose the observer: it receives the envelope in the primary's
    /// place.
    Inline(ActorPath),
}

/// A router rule: it applies to an envelope when every declared criterion
/// matches; an absent criterion is a wildcard.
#[derive(Debug)]
pub struct Rule {
    /// Matches the original sender path, if declared.
    pub source: Option<ActorPath>,
    /// Matches the envelope's schema, if declared.
    pub schema: Option<SchemaId>,
    /// Matches the envelope's destination path, if declared.
    pub dest: Option<ActorPath>,
    /// What happens to a matching envelope.
    pub action: RuleAction,
}

/// A partition-set spec: per-entity actors derived from a shard key.
#[derive(Debug)]
pub struct PartitionSpec {
    /// The public path senders address.
    pub public: ActorPath,
    /// The command field carrying the shard key.
    pub key_field: String,
    /// Genesis args template: the derived key is merged in as `"key"`.
    pub args_template: Option<Json>,
}

/// A projector-set spec: per-key projectors derived from a consumed fact's
/// shard key.
#[derive(Debug)]
pub struct ProjectorSetSpec {
    /// The public path broadcast copies resolve through.
    pub public: ActorPath,
    /// The consumed-fact field carrying the shard key.
    pub key_field: String,
    /// Genesis args template: the derived key is merged in as `"key"`.
    pub args_template: Option<Json>,
    /// The fact schemas this set consumes.
    pub consumed: Vec<SchemaId>,
}

/// The members of a genesis template: those of an object, none otherwise.
pub open spec fn template_members(template: Option<Json>) -> Seq<(Seq<char>, JsonView)> {
    match template {
        Some(json) => match json@ {
            JsonView::Object(members) => members,
            _ => Seq::empty(),
        },
        None => Seq::empty(),
    }
}

/// The genesis args for one entity: the template with the key merged in.
pub open spec fn entity_args_view(template: Option<Json>, key: Seq<char>) -> JsonView {
    JsonView::Object(set_member(template_members(template), "key"@, JsonView::Text(key)))
}

/// The genesis args for one entity: the template with the key merged in.
fn merge_key(template: &Option<Json>, key: &str) -> (args: Json)
    ensures
        args@ == entity_args_view(*template, key@),
{
    let none: Vec<(String, JsonTree)> = Vec::new();
    assert(members_view(none@) =~= Seq::empty());
    let members = match template {
        Some(json) => match json.tree() {
            JsonTree::Object(members) => {
                assert(members_view(members@) =~= json@->Object_0);
                members
            },
            _ => &none,
        },
        None => &none,
    };
    Json::of(object_tree(with_member(members, "key", text_tree(key))))
}

impl PartitionSpec {
    /// The genesis args for one entity: the template with the extracted shard
    /// key merged in as `"key"`.
    pub fn entity_args(&self, key: &str) -> (args: Json)
        ensures
            args@ == entity_args_view(self.args_template, key@),
    {
        merge_key(&self.args_template, key)
    }
}

impl ProjectorSetSpec {
    /// The genesis args for one projector: the template with the extracted
    /// shard key merged in as `"key"`.
    pub fn entity_args(&self, key: &str) -> (args: Json)
        ensures
            args@ == entity_args_view(self.args_template, key@),
    {
        merge_key(&self.args_template, key)
    }
}

/// The declared type of the first field of that name.
pub open spec fn declared_ty(fields: Seq<FieldDef>, name: Seq<char>) -> Option<FieldTy>
    decreases fields.len(),
{
    if fields.len() == 0 {
        None
    } else if fields[0].name@ == name {
        Some(fields[0].ty)
    } else {
        declared_ty(fields.drop_first(), name)
    }
}

/// A key value rendered by the field's declared type: integers, floats and
/// booleans bare, everything else only where it is a string.
pub open spec fn render_key(ty: Option<FieldTy>, value: JsonView) -> Option<Seq<char>> {
    match ty {
        Some(FieldTy::Int) => match as_signed(value) {
            Some(n) => Some(signed_decimal(n as int)),
            None => None,
        },
        Some(FieldTy::Float) => match value {
            JsonView::Number(n) => float_text(n),
            _ => None,
        },
        Some(FieldTy::Bool) => match value {
            JsonView::Bool(b) => Some(bool_chars(b)),
            _ => None,
        },
        _ => match value {
            JsonView::Text(s) => Some(s),
            _ => None,
        },
    }
}

/// A rendered key that can be a path segment: never empty.
pub open spec fn segment(rendered: Option<Seq<char>>) -> Option<Seq<char>> {
    match rendered {
        Some(s) => if s.len() == 0 {
            None
        } else {
            Some(s)
        },
        None => None,
    }
}

/// The shard key of a payload, per the schema's field descriptors.
pub open spec fn shard_key(fields: Seq<FieldDef>, key_field: Seq<char>, payload: JsonView) -> Option<Seq<char>> {
    match field_of(payload, key_field) {
        Some(value) => segment(render_key(declared_ty(fields, key_field), value)),
        None => None,
    }
}

/// Stepping past a field of another name does not change what is found.
proof fn lemma_declared_skip(fields: Seq<FieldDef>, name: Seq<char>, i: int)
    requires
        0 <= i <= fields.len(),
        forall|j: int| 0 <= j < i ==> (#[trigger] fields[j]).name@ != name,
    ensures
        declared_ty(fields, name) == declared_ty(fields.subrange(i, fields.len() as int), name),
    decreases i,
{
    if i == 0 {
        assert(fields.subrange(0, fields.len() as int) =~= fields);
    } else {
        lemma_declared_skip(fields, name, i - 1);
        let tail = fields.subrange(i - 1, fields.len() as int);
        assert(tail[0] == fields[i - 1]);
        assert(tail.drop_first() =~= fields.subrange(i, fields.len() as int));
    }
}

/// The declared type of the first field of that name.
fn find_ty<'a>(fields: &'a Vec<FieldDef>, name: &str) -> (ty: Option<&'a FieldTy>)
    ensures
        match ty {
            Some(ty) => declared_ty(fields@, name@) == Some(*ty),
            None => declared_ty(fields@, name@) is None,
        },
{
    let wanted = name.to_owned();
    let mut i: usize = 0;
    while i < fields.len()
        invariant
            wanted@ == name@,
            i <= fields.len(),
            forall|j: int| 0 <= j < i ==> (#[trigger] fields@[j]).name@ != name@,
        decreases fields.len() - i,
    {
        if fields[i].name == wanted {
            proof {
                lemma_declared_skip(fields@, name@, i as int);
                assert(fields@.subrange(i as int, fields@.len() as int)[0] == fields@[i as int]);
            }
            return Some(&fields[i].ty);
        }
        i += 1;
    }
    proof {
        lemma_declared_skip(fields@, name@, fields@.len() as int);
    }
    None
}

/// Extracts the shard-key string from a payload per the schema definition: the
/// key field's declared type decides how the value renders into the entity
/// path.
pub fn extract_shard_key(schema: &SchemaDef, key_field: &str, payload: &JsonTree) -> (key: Option<String>)
    ensures
        match key {
            Some(key) => shard_key(schema.fields@, key_field@, payload@) == Some(key@),
            None => shard_key(schema.fields@, key_field@, payload@) is None,
        },
{
    let ty = find_ty(&schema.fields, key_field);
    let value = match payload.get(key_field) {
        Some(value) => value,
        None => return None,
    };
    let rendered = match ty {
        Some(FieldTy::Int) => match value.as_i64() {
            Some(n) => signed_text(n),
            None => return None,
        },
        Some(FieldTy::Float) => match value {
            JsonTree::Number(n) => match n.to_float_text() {
                Some(text) => text,
                None => return None,
            },
            _ => return None,
        },
        Some(FieldTy::Bool) => match value.as_bool() {
            Some(b) => bool_text(b),
            None => return None,
        },
        _ => match value.as_str() {
            Some(s) => s.to_owned(),
            None => return None,
        },
    };
    if rendered.as_str().is_empty() {
        None
    } else {
        Some(rendered)
    }
}

/// The path a set derives for a key: the public path, a slash, the key.
pub open spec fn derived_path(public: Seq<char>, key: Seq<char>) -> Seq<char> {
    public + seq!['/'] + key
}

/// The path a set derives for a key.
pub fn derive_path(public: &ActorPath, key: &str) -> (path: ActorPath)
    ensures
        path@ == derived_path(public@, key@),
{
    proof {
        reveal_strlit("/");
    }
    let mut name = public.to_string();
    name.append("/");
    name.append(key);
    assert(name@ =~= derived_path(public@, key@));
    ActorPath::new(name.as_str())
}

/// One public path gives every key its own entity path.
pub proof fn law_derived_paths_distinct(public: Seq<char>, a: Seq<char>, b: Seq<char>)
    ensures
        derived_path(public, a) == derived_path(public, b) <==> a == b,
{
    if derived_path(public, a) == derived_path(public, b) {
        let n = public.len() as int + 1;
        assert(derived_path(public, a).skip(n) =~= a);
        assert(derived_path(public, b).skip(n) =~= b);
    }
}

/// A shard key is never empty: an entity path always ends in a segment.
pub proof fn law_shard_key_not_empty(fields: Seq<FieldDef>, key_field: Seq<char>, payload: JsonView)
    ensures
        shard_key(fields, key_field, payload) matches Some(key) ==> key.len() > 0,
{
}

/// A field's type is the one that the first field of its name declares.
pub proof fn law_first_declaration_counts(fields: Seq<FieldDef>, name: Seq<char>)
    ensures
        match declared_ty(fields, name) {
            Some(ty) => exists|k: int|
                0 <= k < fields.len() && (#[trigger] fields[k]).name@ == name && fields[k].ty == ty && forall|j: int|
                    0 <= j < k ==> (#[trigger] fields[j]).name@ != name,
            None => forall|j: int| 0 <= j < fields.len() ==> (#[trigger] fields[j]).name@ != name,
        },
    decreases fields.len(),
{
    if fields.len() > 0 {
        if fields[0].name@ == name {
            assert(fields[0].name@ == name);
        } else {
            let rest = fields.drop_first();
            law_first_declaration_counts(rest, name);
            match declared_ty(rest, name) {
                Some(ty) => {
                    let k = choose|k: int|
                        0 <= k < rest.len() && (#[trigger] rest[k]).name@ == name && rest[k].ty == ty && forall|j: int|
                            0 <= j < k ==> (#[trigger] rest[j]).name@ != name;
                    assert(fields[k + 1].name@ == name);
                    assert forall|j: int| 0 <= j < k + 1 implies (#[trigger] fields[j]).name@ != name by {
                        if j > 0 {
                            assert(rest[j - 1] == fields[j]);
                        }
                    }
                },
                None => {
                    assert forall|j: int| 0 <= j < fields.len() implies (#[trigger] fields[j]).name@ != name by {
                        if j > 0 {
                            assert(rest[j - 1] == fields[j]);
                        }
                    }
                },
            }
        }
    }
}

/// A shard key is the payload's value under the key field, written as the field's
/// declared type writes it: an integer in decimal, a boolean by its word, and a
/// string, under any other type and under none, as it is. A value of another sort
/// and an empty string are no key, and neither is an absent one.
pub proof fn law_key_is_written_by_its_type(fields: Seq<FieldDef>, key_field: Seq<char>, payload: JsonView)
    ensures
        field_of(payload, key_field) is None ==> shard_key(fields, key_field, payload) is None,
        field_of(payload, key_field) matches Some(value) ==> match declared_ty(fields, key_field) {
            Some(FieldTy::Int) => match as_signed(value) {
                Some(n) => signed_decimal(n as int).len() > 0 ==> shard_key(fields, key_field, payload) == Some(
                    signed_decimal(n as int),
                ),
                None => shard_key(fields, key_field, payload) is None,
            },
            Some(FieldTy::Bool) => match value {
                JsonView::Bool(b) => bool_chars(b).len() > 0 ==> shard_key(fields, key_field, payload) == Some(
                    bool_chars(b),
                ),
                _ => shard_key(fields, key_field, payload) is None,
            },
            Some(FieldTy::Float) => !(value is Number) ==> shard_key(fields, key_field, payload) is None,
            _ => match value {
                JsonView::Text(text) => shard_key(fields, key_field, payload) == if text.len() == 0 {
                    None
                } else {
                    Some(text)
                },
                _ => shard_key(fields, key_field, payload) is None,
            },
        },
{
}

/// A member starts with its key: the genesis args hold the key as `"key"` and
/// otherwise what the template holds.
pub proof fn law_member_starts_with_its_key(template: Option<Json>, key: Seq<char>, other: Seq<char>)
    ensures
        field_of(entity_args_view(template, key), "key"@) == Some(JsonView::Text(key)),
        other != "key"@ ==> field_of(entity_args_view(template, key), other) == match template {
            Some(json) => field_of(json@, other),
            None => None,
        },
{
    law_set_member(template_members(template), "key"@, JsonView::Text(key), other);
}

} // verus!
