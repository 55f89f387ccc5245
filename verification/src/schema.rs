//! Message schemas as runtime data.
//!
//! Rust types and external descriptors register into the same schema table.
//! Identity is the schema name alone: a payload evolves by adding fields, and
//! a breaking shape is a new schema with a new name.

use vstd::prelude::*;

use crate::actor::ActorKind;
use crate::text::before_first;
use crate::text::text_before_first;

verus! {

/// Errors surfaced while parsing or registering schema descriptors.
#[derive(Debug, PartialEq, Eq)]
pub enum SchemaError {
    /// A document was not a valid [`SchemaDef`].
    InvalidDescriptor,
    /// A second Rust type registered under a name that another type owns.
    DuplicateType(String),
}

/// Whether a schema describes an inbound command or a domain event.
#[derive(Debug, Clone, Copy, PartialEq, Eq, Structural)]
pub enum SchemaKind {
    /// A request for the actor to decide or do something.
    Command,
    /// A fact that already happened.
    Event,
}

/// A field's type within a schema.
#[derive(Debug, PartialEq)]
pub enum FieldTy {
    /// JSON boolean.
    Bool,
    /// JSON integer.
    Int,
    /// JSON float.
    Float,
    /// JSON string.
    Str,
    /// A UUID string.
    Uuid,
    /// Arbitrary JSON.
    Json,
    /// A list of values of one element type.
    List(Box<FieldTy>),
}

impl Clone for FieldTy {
    fn clone(&self) -> (ty: Self)
        ensures
            ty == *self,
        decreases self,
    {
        match self {
            FieldTy::Bool => FieldTy::Bool,
            FieldTy::Int => FieldTy::Int,
            FieldTy::Float => FieldTy::Float,
            FieldTy::Str => FieldTy::Str,
            FieldTy::Uuid => FieldTy::Uuid,
            FieldTy::Json => FieldTy::Json,
            FieldTy::List(element) => FieldTy::List(Box::new((&**element).clone())),
        }
    }
}

/// An inclusive numeric bound pair, both ends optional. A bound is held as the
/// number's text: the runtime shows bounds and never computes with them.
#[derive(Debug, PartialEq)]
pub struct Range {
    /// The lowest accepted value, if bounded below.
    pub min: Option<String>,
    /// The highest accepted value, if bounded above.
    pub max: Option<String>,
}

impl Range {
    /// A range bounded on both ends.
    pub fn between(min: &str, max: &str) -> (range: Self)
        ensures
            range.min is Some && range.min->0@ == min@,
            range.max is Some && range.max->0@ == max@,
    {
        Range { min: Some(min.to_owned()), max: Some(max.to_owned()) }
    }
}

/// A structural role a field can play beyond its data type.
#[derive(Debug, Clone, Copy, PartialEq, Eq, Structural)]
pub enum FieldRole {
    /// The partition key: a router reads this field of a payload to derive the
    /// entity path.
    ShardKey,
}

/// One field descriptor within a schema.
#[derive(Debug, PartialEq)]
pub struct FieldDef {
    /// The field's name.
    pub name: String,
    /// The field's type.
    pub ty: FieldTy,
    /// The unit of measure; presentation data.
    pub unit: Option<String>,
    /// Accepted numeric bounds, if any.
    pub range: Option<Range>,
    /// The field's structural role, when it carries one.
    pub role: Option<FieldRole>,
    /// Human-facing description.
    pub description: Option<String>,
}

impl FieldDef {
    /// A required field with no unit, range, role or description.
    pub fn required(name: &str, ty: FieldTy) -> (field: Self)
        ensures
            field.name@ == name@,
            field.ty == ty,
            field.unit is None,
            field.range is None,
            field.role is None,
            field.description is None,
    {
        FieldDef { name: name.to_owned(), ty, unit: None, range: None, role: None, description: None }
    }

    /// Attaches a unit of measure.
    pub fn with_unit(self, unit: &str) -> (field: Self)
        ensures
            field.unit is Some && field.unit->0@ == unit@,
            field == (FieldDef { unit: field.unit, ..self }),
    {
        FieldDef { unit: Some(unit.to_owned()), ..self }
    }

    /// Attaches a human-facing description.
    pub fn with_description(self, description: &str) -> (field: Self)
        ensures
            field.description is Some && field.description->0@ == description@,
            field == (FieldDef { description: field.description, ..self }),
    {
        FieldDef { description: Some(description.to_owned()), ..self }
    }

    /// Attaches a numeric range.
    pub fn with_range(self, range: Range) -> (field: Self)
        ensures
            field == (FieldDef { range: Some(range), ..self }),
    {
        FieldDef { range: Some(range), ..self }
    }

    /// Attaches a structural role.
    pub fn with_role(self, role: FieldRole) -> (field: Self)
        ensures
            field == (FieldDef { role: Some(role), ..self }),
    {
        FieldDef { role: Some(role), ..self }
    }

    /// Marks this field as the partition's shard key.
    pub fn as_shard_key(self) -> (field: Self)
        ensures
            field == (FieldDef { role: Some(FieldRole::ShardKey), ..self }),
    {
        FieldDef { role: Some(FieldRole::ShardKey), ..self }
    }
}

/// Whether the field at `i` is the first that carries `role`.
pub open spec fn first_with_role(fields: Seq<FieldDef>, role: FieldRole, i: int) -> bool {
    &&& 0 <= i < fields.len()
    &&& fields[i].role == Some(role)
    &&& forall|j: int| 0 <= j < i ==> (#[trigger] fields[j]).role != Some(role)
}

/// A complete message schema: name, kind and field descriptors.
#[derive(Debug, PartialEq)]
pub struct SchemaDef {
    /// The schema's name: its whole identity.
    pub name: String,
    /// Command or event.
    pub kind: SchemaKind,
    /// The payload's field descriptors.
    pub fields: Vec<FieldDef>,
    /// Human-facing description.
    pub description: Option<String>,
}

impl SchemaDef {
    /// The schema's stable identifier: its name.
    pub fn id(&self) -> (id: SchemaId)
        ensures
            id@ == self.name@,
    {
        SchemaId::new(self.name.as_str())
    }

    /// The name of the first field carrying `role`, if any.
    pub fn field_with_role(&self, role: FieldRole) -> (name: Option<&str>)
        ensures
            match name {
                Some(name) => exists|i: int|
                    #[trigger] first_with_role(self.fields@, role, i) && name@ == self.fields@[i].name@,
                None => forall|j: int|
                    0 <= j < self.fields@.len() ==> (#[trigger] self.fields@[j]).role != Some(role),
            },
    {
        let mut i: usize = 0;
        while i < self.fields.len()
            invariant
                i <= self.fields.len(),
                forall|j: int| 0 <= j < i ==> (#[trigger] self.fields@[j]).role != Some(role),
            decreases self.fields.len() - i,
        {
            if let Some(r) = self.fields[i].role {
                if r == role {
                    assert(first_with_role(self.fields@, role, i as int));
                    return Some(self.fields[i].name.as_str());
                }
            }
            i += 1;
        }
        None
    }
}

/// Implemented by Rust types that have a schema.
///
/// A spec function that an implementor does not define stays open: nothing is
/// known of it beyond what the methods below say.
pub trait Schema {
    /// The schema name the type declares.
    closed spec fn declared_name() -> Seq<char> {
        arbitrary()
    }

    /// The type's schema descriptor.
    fn schema_def() -> (def: SchemaDef)
        ensures
            def.name@ == Self::declared_name(),
    ;

    /// The type's schema name when it is a compile-time constant.
    fn schema_name() -> (name: Option<&'static str>)
        ensures
            name matches Some(name) ==> name@ == Self::declared_name(),
    {
        None
    }

    /// The type's stable [`SchemaId`].
    fn schema_id() -> (id: SchemaId)
        ensures
            id@ == Self::declared_name(),
    {
        match Self::schema_name() {
            Some(name) => SchemaId::static_name(name),
            None => Self::schema_def().id(),
        }
    }
}

/// A schema identifier: the schema's name, e.g. `StockReserved`, without a
/// version component.
#[derive(Debug, Hash)]
pub struct SchemaId {
    name: String,
}

impl View for SchemaId {
    type V = Seq<char>;

    closed spec fn view(&self) -> Seq<char> {
        self.name@
    }
}

impl SchemaId {
    /// Builds the identifier from the schema's name.
    pub fn new(name: &str) -> (id: Self)
        ensures
            id@ == name@,
    {
        SchemaId { name: name.to_owned() }
    }

    /// Wraps a compile-time schema name.
    pub fn static_name(name: &'static str) -> (id: Self)
        ensures
            id@ == name@,
    {
        SchemaId { name: name.to_owned() }
    }

    /// Parses an existing id string. A `name@N` string parses as the bare name,
    /// so identifiers written with a version marker stay readable.
    pub fn parse(s: &str) -> (id: Option<Self>)
        ensures
            id is Some,
            id->0@ == before_first(s@, '@'),
    {
        Some(SchemaId::new(text_before_first(s, '@')))
    }

    /// The schema name.
    pub fn name(&self) -> (s: &str)
        ensures
            s@ == self@,
    {
        self.name.as_str()
    }

    /// The identifier as a string slice.
    pub fn as_str(&self) -> (s: &str)
        ensures
            s@ == self@,
    {
        self.name.as_str()
    }

    /// Whether two identifiers have the same name.
    pub fn same(&self, other: &Self) -> (r: bool)
        ensures
            r == (self@ == other@),
    {
        self.name == other.name
    }

    /// The identifier as rendered to people: the bare name.
    pub fn to_string(&self) -> (s: String)
        ensures
            s@ == self@,
    {
        self.name.clone()
    }
}

impl Clone for SchemaId {
    fn clone(&self) -> (id: Self)
        ensures
            id == *self,
    {
        SchemaId { name: self.name.clone() }
    }
}

impl PartialEq for SchemaId {
    fn eq(&self, other: &Self) -> (r: bool) {
        self.name == other.name
    }
}

impl vstd::std_specs::cmp::PartialEqSpecImpl for SchemaId {
    open spec fn obeys_eq_spec() -> bool {
        true
    }

    open spec fn eq_spec(&self, other: &Self) -> bool {
        self@ == other@
    }
}

impl Eq for SchemaId {}

/// The names in a list of schema ids, in order.
pub open spec fn names_of(ids: Seq<SchemaId>) -> Seq<Seq<char>> {
    ids.map_values(|id: SchemaId| id@)
}

/// A list of names with `name` declared: appended once, kept where it is.
pub open spec fn declare(names: Seq<Seq<char>>, name: Seq<char>) -> Seq<Seq<char>> {
    if names.contains(name) {
        names
    } else {
        names.push(name)
    }
}

/// Whether a schema is in a list of ids.
pub fn lists(ids: &Vec<SchemaId>, id: &SchemaId) -> (r: bool)
    ensures
        r == names_of(ids@).contains(id@),
{
    let mut i: usize = 0;
    while i < ids.len()
        invariant
            i <= ids.len(),
            forall|j: int| 0 <= j < i ==> (#[trigger] ids@[j])@ != id@,
        decreases ids.len() - i,
    {
        if ids[i] == *id {
            assert(names_of(ids@)[i as int] == id@);
            return true;
        }
        i += 1;
    }
    assert forall|j: int| 0 <= j < names_of(ids@).len() implies names_of(ids@)[j] != id@ by {
        assert(names_of(ids@)[j] == ids@[j]@);
    }
    false
}

/// Declares a schema in a list of ids, once.
pub fn declare_id(ids: &mut Vec<SchemaId>, id: SchemaId)
    ensures
        names_of(final(ids)@) == declare(names_of(old(ids)@), id@),
{
    let ghost before = ids@;
    if !lists(ids, &id) {
        ids.push(id);
        assert(names_of(ids@) =~= names_of(before).push(id@));
    }
}

/// Copies a list of ids.
pub fn copy_ids(ids: &Vec<SchemaId>) -> (copy: Vec<SchemaId>)
    ensures
        copy@ == ids@,
{
    let mut copy: Vec<SchemaId> = Vec::new();
    let mut i: usize = 0;
    while i < ids.len()
        invariant
            i <= ids.len(),
            copy@ == ids@.take(i as int),
        decreases ids.len() - i,
    {
        copy.push(ids[i].clone());
        i += 1;
        assert(ids@.take(i as int) =~= ids@.take(i - 1).push(ids@[i - 1]));
    }
    assert(ids@.take(i as int) =~= ids@);
    copy
}

/// An actor's declared edges: which schemas it handles and which it emits.
#[derive(Debug, PartialEq)]
pub struct ActorManifest {
    /// Schemas this actor accepts.
    pub handles: Vec<SchemaId>,
    /// Schemas this actor emits; anything else it sends is dropped.
    pub emits: Vec<SchemaId>,
    /// Which actor contract this actor implements.
    pub kind: Option<ActorKind>,
}

/// What a manifest declares, as names.
#[verifier::ext_equal]
pub struct ManifestView {
    /// The handled schema names.
    pub handles: Seq<Seq<char>>,
    /// The emitted schema names.
    pub emits: Seq<Seq<char>>,
    /// The actor contract.
    pub kind: Option<ActorKind>,
}

impl View for ActorManifest {
    type V = ManifestView;

    open spec fn view(&self) -> ManifestView {
        ManifestView { handles: names_of(self.handles@), emits: names_of(self.emits@), kind: self.kind }
    }
}

impl ActorManifest {
    /// Whether no schema is declared twice on either side.
    pub open spec fn wf(&self) -> bool {
        &&& self@.handles.no_duplicates()
        &&& self@.emits.no_duplicates()
    }

    /// Starts an empty manifest.
    pub fn new() -> (manifest: Self)
        ensures
            manifest@ == (ManifestView { handles: Seq::empty(), emits: Seq::empty(), kind: None }),
            manifest.wf(),
    {
        let manifest = ActorManifest { handles: Vec::new(), emits: Vec::new(), kind: None };
        assert(manifest@.handles =~= Seq::empty());
        assert(manifest@.emits =~= Seq::empty());
        manifest
    }

    /// Declares that this actor handles schema `S`.
    pub fn handles<S: Schema>(self) -> (manifest: Self)
        ensures
            manifest@ == (ManifestView { handles: declare(self@.handles, S::declared_name()), ..self@ }),
    {
        self.handles_id(S::schema_id())
    }

    /// Declares that this actor handles a schema by id.
    pub fn handles_id(self, id: SchemaId) -> (manifest: Self)
        ensures
            manifest@ == (ManifestView { handles: declare(self@.handles, id@), ..self@ }),
    {
        let mut manifest = self;
        declare_id(&mut manifest.handles, id);
        manifest
    }

    /// Declares that this actor emits schema `S`.
    pub fn emits<S: Schema>(self) -> (manifest: Self)
        ensures
            manifest@ == (ManifestView { emits: declare(self@.emits, S::declared_name()), ..self@ }),
    {
        self.emits_id(S::schema_id())
    }

    /// Declares that this actor emits a schema by id.
    pub fn emits_id(self, id: SchemaId) -> (manifest: Self)
        ensures
            manifest@ == (ManifestView { emits: declare(self@.emits, id@), ..self@ }),
    {
        let mut manifest = self;
        declare_id(&mut manifest.emits, id);
        manifest
    }

    /// Declares the actor contract this actor implements.
    pub fn kind(self, kind: ActorKind) -> (manifest: Self)
        ensures
            manifest@ == (ManifestView { kind: Some(kind), ..self@ }),
    {
        ActorManifest { kind: Some(kind), ..self }
    }
}

impl Clone for ActorManifest {
    fn clone(&self) -> (manifest: Self)
        ensures
            manifest@ == self@,
    {
        ActorManifest {
            handles: copy_ids(&self.handles),
            emits: copy_ids(&self.emits),
            kind: self.kind,
        }
    }
}

/// Declaring a name twice is declaring it once, and a list without duplicates
/// stays without duplicates.
pub proof fn law_declare_once(names: Seq<Seq<char>>, name: Seq<char>)
    ensures
        declare(names, name).contains(name),
        declare(declare(names, name), name) == declare(names, name),
        names.no_duplicates() ==> declare(names, name).no_duplicates(),
        forall|other: Seq<char>| #[trigger] names.contains(other) ==> declare(names, name).contains(other),
{
    let after = declare(names, name);
    if !names.contains(name) {
        assert(after[names.len() as int] == name);
        assert forall|other: Seq<char>| #[trigger] names.contains(other) implies after.contains(other) by {
            let i = choose|i: int| 0 <= i < names.len() && names[i] == other;
            assert(after[i] == other);
        }
    }
}

/// Parsing an id without a version marker gives the whole name back.
pub proof fn law_parse_plain_name(s: Seq<char>)
    requires
        !s.contains('@'),
    ensures
        before_first(s, '@') == s,
    decreases s.len(),
{
    if s.len() > 0 {
        assert(s.contains(s[0]));
        assert forall|i: int| 0 <= i < s.drop_first().len() implies s.drop_first()[i] != '@' by {
            assert(s.contains(s[i + 1]));
        }
        law_parse_plain_name(s.drop_first());
        assert(seq![s[0]] + s.drop_first() =~= s);
    }
}

/// A `name@version` string parses as the bare name, whatever the version says.
pub proof fn law_parse_drops_version(name: Seq<char>, version: Seq<char>)
    requires
        !name.contains('@'),
    ensures
        before_first(name + seq!['@'] + version, '@') == name,
    decreases name.len(),
{
    let s = name + seq!['@'] + version;
    if name.len() == 0 {
        assert(s[0] == '@');
        assert(before_first(s, '@') =~= name);
    } else {
        assert(s[0] == name[0]);
        assert(name.contains(name[0]));
        assert forall|i: int| 0 <= i < name.drop_first().len() implies name.drop_first()[i] != '@' by {
            assert(name.contains(name[i + 1]));
        }
        law_parse_drops_version(name.drop_first(), version);
        assert(s.drop_first() =~= name.drop_first() + seq!['@'] + version);
        assert(seq![name[0]] + name.drop_first() =~= name);
    }
}

/// Declaring a name keeps what was declared, in order, and puts a new name last.
pub proof fn law_declared_in_order(names: Seq<Seq<char>>, name: Seq<char>)
    ensures
        names.contains(name) ==> declare(names, name) == names,
        !names.contains(name) ==> declare(names, name) == names + seq![name],
{
    if !names.contains(name) {
        assert(declare(names, name) =~= names + seq![name]);
    }
}

/// The first field that carries a role is one field: it carries the role, whoever
/// else carries it stands behind it, and fields added behind do not displace it.
pub proof fn law_first_with_role(fields: Seq<FieldDef>, role: FieldRole, i: int, k: int, more: Seq<FieldDef>)
    requires
        first_with_role(fields, role, i),
    ensures
        0 <= i < fields.len(),
        fields[i].role == Some(role),
        0 <= k < fields.len() && fields[k].role == Some(role) ==> i <= k,
        first_with_role(fields + more, role, i),
        first_with_role(fields, role, k) ==> k == i,
{
    assert((fields + more)[i] == fields[i]);
    assert forall|j: int| 0 <= j < i implies (#[trigger] (fields + more)[j]).role != Some(role) by {
        assert((fields + more)[j] == fields[j]);
    }
}

} // verus!
