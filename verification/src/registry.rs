//! The registry: the runtime's path, schema and route tables.
//!
//! It is plain data. Actor identity is the registered path; handles survive
//! restarts because a slot's endpoint is swapped, never invalidated.

use vstd::prelude::*;

use crate::actor::ActorKind;
use crate::actor::ActorPath;
use crate::inbox::OverloadPolicy;
use crate::named_map::PathMap;
use crate::named_map::SchemaMap;
use crate::pool::derived_path;
use crate::pool::PartitionSpec;
use crate::pool::ProjectorSetSpec;
use crate::pool::Rule;
use crate::pool::RuleAction;
use crate::schema::declare;
use crate::schema::declare_id;
use crate::schema::lists;
use crate::schema::names_of;
use crate::schema::ActorManifest;
use crate::schema::FieldRole;
use crate::schema::ManifestView;
use crate::schema::Schema;
use crate::schema::SchemaDef;
use crate::schema::SchemaError;
use crate::schema::SchemaId;
use crate::schema::SchemaKind;
use crate::text::join;
use crate::text::law_lex_order;
use crate::text::lex_less;
use crate::text::text_after;
use crate::text::text_before;
use crate::text::text_contains;

verus! {

/// Whether a descriptor is one that a type gives of itself.
pub open spec fn described_by<S: Schema>(def: SchemaDef) -> bool {
    &&& call_ensures(S::schema_def, (), def)
    &&& def.name@ == S::declared_name()
}

/// A Rust type, as the host tells types apart and names them.
#[derive(Debug)]
pub struct TypeOwner {
    /// The host's number for the type.
    pub id: u64,
    /// The host's name for the type.
    pub label: String,
}

/// How a registration is refused whose name another type owns: the name, and
/// the type that asked for it.
pub open spec fn duplicate_chars(name: Seq<char>, label: Seq<char>) -> Seq<char> {
    name + " (registering "@ + label + ")"@
}

/// Which Rust type owns each schema name, as a number the host gives the type.
pub struct TypeClaims {
    owners: SchemaMap<u64>,
}

impl View for TypeClaims {
    type V = Map<Seq<char>, u64>;

    closed spec fn view(&self) -> Map<Seq<char>, u64> {
        self.owners@
    }
}

impl TypeClaims {
    /// No name is claimed.
    pub fn new() -> (claims: Self)
        ensures
            claims@ == Map::<Seq<char>, u64>::empty(),
    {
        TypeClaims { owners: SchemaMap::new() }
    }

    /// Claims a name for a type: the first type to claim a name owns it, its
    /// own later claims succeed, and any other type is refused.
    pub fn claim_schema_type(&mut self, name: &SchemaId, owner: u64) -> (result: Result<(), SchemaError>)
        ensures
            match result {
                Ok(_) => {
                    &&& old(self)@.dom().contains(name@) ==> old(self)@[name@] == owner
                    &&& final(self)@ == old(self)@.insert(name@, owner)
                },
                Err(SchemaError::DuplicateType(taken)) => {
                    &&& taken@ == name@
                    &&& old(self)@.dom().contains(name@) && old(self)@[name@] != owner
                    &&& final(self)@ == old(self)@
                },
                Err(SchemaError::InvalidDescriptor) => false,
            },
    {
        match self.owners.get(name) {
            Some(taken) => if *taken == owner {
                assert(self@.insert(name@, owner) =~= self@);
                Ok(())
            } else {
                Err(SchemaError::DuplicateType(name.to_string()))
            },
            None => {
                let _previous = self.owners.put(name, owner);
                Ok(())
            },
        }
    }
}

/// A handle on one running endpoint: the host's number for it and the capacity
/// of its front door.
#[derive(Debug, Clone, Copy, PartialEq, Eq, Structural)]
pub struct Endpoint {
    /// The host's number for the endpoint.
    pub id: u64,
    /// The front door's total capacity.
    pub capacity: usize,
}

impl Endpoint {
    /// How many envelopes the front door holds at most.
    pub fn max_capacity(&self) -> (n: usize)
        ensures
            n == self.capacity,
    {
        self.capacity
    }

    /// Envelopes accepted into the front door but not yet moved into the inbox,
    /// given how much room the door has.
    pub fn pending(&self, room: usize) -> (n: usize)
        ensures
            n == if room > self.capacity {
                0
            } else {
                (self.capacity - room) as usize
            },
    {
        self.capacity.saturating_sub(room)
    }
}

/// A registered actor identity: its manifest plus a swappable endpoint.
pub struct Slot {
    /// The actor's declared edges and contract kind.
    pub manifest: ActorManifest,
    /// The running endpoint; `None` while stopped.
    pub endpoint: Option<Endpoint>,
    /// The inbox overload policy this actor spawned with.
    pub inbox_policy: OverloadPolicy,
}

/// What a slot holds.
#[verifier::ext_equal]
pub struct SlotView {
    /// The declared edges and contract kind.
    pub manifest: ManifestView,
    /// The running endpoint; `None` while stopped.
    pub endpoint: Option<Endpoint>,
    /// The inbox overload policy.
    pub inbox_policy: OverloadPolicy,
}

impl View for Slot {
    type V = SlotView;

    open spec fn view(&self) -> SlotView {
        SlotView { manifest: self.manifest@, endpoint: self.endpoint, inbox_policy: self.inbox_policy }
    }
}

impl Slot {
    /// The actor kind this slot was spawned as.
    pub fn kind(&self) -> (kind: ActorKind)
        requires
            self.manifest.kind is Some,
        ensures
            self.manifest.kind == Some(kind),
    {
        match self.manifest.kind {
            Some(kind) => kind,
            None => ActorKind::Service,
        }
    }
}

/// What the caller sees from a successful lookup.
pub struct EndpointInfo {
    /// The actor's path.
    pub path: ActorPath,
    /// The actor's contract kind.
    pub kind: ActorKind,
    /// A copy of the actor's manifest.
    pub manifest: ActorManifest,
}

/// How messages for one schema find their actor.
pub enum RoutePolicy {
    /// Exactly one handler path.
    Single(ActorPath),
    /// Handlers rotate in registration order.
    RoundRobin(Vec<ActorPath>),
}

/// The names of paths, in order.
pub open spec fn paths_of(paths: Seq<ActorPath>) -> Seq<Seq<char>> {
    paths.map_values(|path: ActorPath| path@)
}

/// Picks every path but one.
pub open spec fn other_than(path: Seq<char>) -> spec_fn(Seq<char>) -> bool {
    |other: Seq<char>| other != path
}

/// A route: its handlers in registration order, and whether they rotate.
#[verifier::ext_equal]
pub struct RouteView {
    /// Whether the handlers rotate.
    pub rotating: bool,
    /// The handlers' paths.
    pub handlers: Seq<Seq<char>>,
}

impl RouteView {
    /// The handler under the cursor.
    pub open spec fn under(self, cursor: nat) -> Seq<char> {
        self.handlers[cursor as int % self.handlers.len() as int]
    }

    /// The cursor after a pick.
    pub open spec fn cursor_after(self, cursor: nat) -> nat {
        if self.rotating && self.handlers.len() > 0 {
            ((cursor + 1) as int % self.handlers.len() as int) as nat
        } else {
            cursor
        }
    }

    /// The route without a handler.
    pub open spec fn without(self, path: Seq<char>) -> RouteView {
        RouteView { handlers: self.handlers.filter(other_than(path)), ..self }
    }

    /// Whether the route has a handler, none twice, and only one unless they
    /// rotate.
    pub open spec fn wf(self) -> bool {
        &&& self.handlers.len() > 0
        &&& self.handlers.no_duplicates()
        &&& !self.rotating ==> self.handlers.len() == 1
    }
}

/// A route with a handler declared: the first stands alone, a second makes the
/// route rotate, and a known one changes nothing.
pub open spec fn with_handler(route: Option<RouteView>, path: Seq<char>) -> RouteView {
    match route {
        None => RouteView { rotating: false, handlers: seq![path] },
        Some(route) => if route.handlers.contains(path) {
            route
        } else {
            RouteView { rotating: true, handlers: route.handlers.push(path) }
        },
    }
}

impl View for RoutePolicy {
    type V = RouteView;

    open spec fn view(&self) -> RouteView {
        match *self {
            RoutePolicy::Single(path) => RouteView { rotating: false, handlers: seq![path@] },
            RoutePolicy::RoundRobin(paths) => RouteView { rotating: true, handlers: paths_of(paths@) },
        }
    }
}

impl RoutePolicy {
    /// Picks the next path for this route and moves the cursor on: a single
    /// handler always, otherwise the handler under the cursor.
    pub fn pick(&self, cursor: &mut usize) -> (path: Option<ActorPath>)
        requires
            *old(cursor) < usize::MAX,
        ensures
            *final(cursor) < usize::MAX,
            match path {
                Some(path) => self@.handlers.len() > 0 && path@ == self@.under(*old(cursor) as nat),
                None => self@.handlers.len() == 0,
            },
            *final(cursor) == self@.cursor_after(*old(cursor) as nat),
    {
        match self {
            RoutePolicy::Single(path) => Some(path.clone()),
            RoutePolicy::RoundRobin(paths) => if paths.len() > 0 {
                let at: usize = *cursor % paths.len();
                *cursor = (*cursor + 1) % paths.len();
                assert(self@.handlers[at as int] == paths@[at as int]@);
                Some(paths[at].clone())
            } else {
                None
            },
        }
    }

    /// The handlers, in registration order.
    pub fn handlers(&self) -> (paths: Vec<ActorPath>)
        ensures
            paths_of(paths@) == self@.handlers,
    {
        match self {
            RoutePolicy::Single(path) => {
                let mut paths: Vec<ActorPath> = Vec::new();
                paths.push(path.clone());
                assert(paths_of(paths@) =~= self@.handlers);
                paths
            },
            RoutePolicy::RoundRobin(paths) => copy_paths(paths),
        }
    }

    /// The route with one more handler.
    pub fn extended(self, path: ActorPath) -> (policy: Self)
        ensures
            policy@ == with_handler(Some(self@), path@),
    {
        let ghost before = self@;
        match self {
            RoutePolicy::Single(first) => if first.same(&path) {
                assert(before.handlers[0] == path@);
                RoutePolicy::Single(first)
            } else {
                let mut paths: Vec<ActorPath> = Vec::new();
                paths.push(first);
                paths.push(path);
                assert(paths_of(paths@) =~= before.handlers.push(path@));
                assert forall|i: int| 0 <= i < before.handlers.len() implies before.handlers[i] != path@ by {
                    assert(before.handlers[i] == first@);
                }
                RoutePolicy::RoundRobin(paths)
            },
            RoutePolicy::RoundRobin(mut paths) => {
                let ghost known = paths@;
                if !lists_path(&paths, &path) {
                    paths.push(path);
                    assert(paths_of(paths@) =~= paths_of(known).push(path@));
                }
                RoutePolicy::RoundRobin(paths)
            },
        }
    }

    /// The route without a handler, unless none is left.
    pub fn trimmed(self, path: &ActorPath) -> (policy: Option<Self>)
        ensures
            match policy {
                Some(policy) => self@.handlers.len() > 0 && policy@ == self@.without(path@)
                    && policy@.handlers.len() > 0,
                None => self@.without(path@).handlers.len() == 0,
            },
    {
        let ghost before = self@;
        let ghost keeps = other_than(path@);
        match self {
            RoutePolicy::Single(only) => {
                proof {
                    lemma_filter_push(Seq::empty(), only@, keeps);
                    assert(before.handlers =~= Seq::<Seq<char>>::empty().push(only@));
                    assert(Seq::<Seq<char>>::empty().filter(keeps) =~= Seq::empty()) by {
                        reveal(Seq::filter);
                    }
                }
                if only.same(path) {
                    None
                } else {
                    assert(before.without(path@).handlers =~= before.handlers);
                    Some(RoutePolicy::Single(only))
                }
            },
            RoutePolicy::RoundRobin(paths) => {
                let mut kept: Vec<ActorPath> = Vec::new();
                let mut i: usize = 0;
                proof {
                    assert(paths_of(paths@).take(0) =~= Seq::empty());
                    assert(Seq::<Seq<char>>::empty().filter(keeps) =~= Seq::empty()) by {
                        reveal(Seq::filter);
                    }
                    assert(paths_of(kept@) =~= Seq::empty());
                }
                while i < paths.len()
                    invariant
                        i <= paths.len(),
                        keeps == other_than(path@),
                        paths_of(kept@) == paths_of(paths@).take(i as int).filter(keeps),
                    decreases paths.len() - i,
                {
                    let ghost before_push = kept@;
                    proof {
                        lemma_filter_push(paths_of(paths@).take(i as int), paths@[i as int]@, keeps);
                        assert(paths_of(paths@).take(i + 1) =~= paths_of(paths@).take(i as int).push(
                            paths@[i as int]@,
                        ));
                    }
                    if !paths[i].same(path) {
                        kept.push(paths[i].clone());
                        assert(paths_of(kept@) =~= paths_of(before_push).push(paths@[i as int]@));
                    }
                    i += 1;
                }
                assert(paths_of(paths@).take(i as int) =~= paths_of(paths@));
                if kept.len() == 0 {
                    None
                } else {
                    proof {
                        if paths@.len() == 0 {
                            assert(paths_of(paths@) =~= Seq::empty());
                        }
                    }
                    Some(RoutePolicy::RoundRobin(kept))
                }
            },
        }
    }
}

/// Filtering a list with one more item filters the list and then the item.
proof fn lemma_filter_push(items: Seq<Seq<char>>, item: Seq<char>, keeps: spec_fn(Seq<char>) -> bool)
    ensures
        items.push(item).filter(keeps) == if keeps(item) {
            items.filter(keeps).push(item)
        } else {
            items.filter(keeps)
        },
{
    reveal(Seq::filter);
    assert(items.push(item).drop_last() =~= items);
}

/// Copies a list of paths.
pub fn copy_paths(paths: &Vec<ActorPath>) -> (copy: Vec<ActorPath>)
    ensures
        copy@ == paths@,
{
    let mut copy: Vec<ActorPath> = Vec::new();
    let mut i: usize = 0;
    while i < paths.len()
        invariant
            i <= paths.len(),
            copy@ == paths@.take(i as int),
        decreases paths.len() - i,
    {
        copy.push(paths[i].clone());
        i += 1;
        assert(paths@.take(i as int) =~= paths@.take(i - 1).push(paths@[i - 1]));
    }
    assert(paths@.take(i as int) =~= paths@);
    copy
}

/// Whether a path is in a list.
pub fn lists_path(paths: &Vec<ActorPath>, path: &ActorPath) -> (r: bool)
    ensures
        r == paths_of(paths@).contains(path@),
{
    let mut i: usize = 0;
    while i < paths.len()
        invariant
            i <= paths.len(),
            forall|j: int| 0 <= j < i ==> (#[trigger] paths@[j])@ != path@,
        decreases paths.len() - i,
    {
        if paths[i] == *path {
            assert(paths_of(paths@)[i as int] == path@);
            return true;
        }
        i += 1;
    }
    assert forall|j: int| 0 <= j < paths_of(paths@).len() implies paths_of(paths@)[j] != path@ by {
        assert(paths_of(paths@)[j] == paths@[j]@);
    }
    false
}

/// The runtime's schema table: every message shape the system knows, by name.
pub struct SchemaTable {
    defs: SchemaMap<SchemaDef>,
}

impl View for SchemaTable {
    type V = Map<Seq<char>, SchemaDef>;

    closed spec fn view(&self) -> Map<Seq<char>, SchemaDef> {
        self.defs@
    }
}

/// A table with a descriptor registered: kept as it is where the name is known.
pub open spec fn registered(table: Map<Seq<char>, SchemaDef>, def: SchemaDef) -> Map<Seq<char>, SchemaDef> {
    if table.dom().contains(def.name@) {
        table
    } else {
        table.insert(def.name@, def)
    }
}

/// Whether descriptors ascend by name.
pub open spec fn by_name_order(defs: Seq<&SchemaDef>) -> bool {
    forall|i: int, j: int|
        0 <= i < j < defs.len() ==> lex_less((#[trigger] defs[i]).name@, (#[trigger] defs[j]).name@)
}

/// Whether a descriptor of that name is in a list.
pub open spec fn lists_name(defs: Seq<&SchemaDef>, name: Seq<char>) -> bool {
    exists|i: int| 0 <= i < defs.len() && (#[trigger] defs[i]).name@ == name
}

impl SchemaTable {
    /// The number of descriptors.
    pub closed spec fn count(&self) -> nat {
        self.defs.pairs().len()
    }

    /// Whether every descriptor is filed under its own name.
    pub open spec fn wf(&self) -> bool {
        forall|name: Seq<char>| self@.dom().contains(name) ==> (#[trigger] self@[name]).name@ == name
    }

    /// A table without schemas.
    pub fn new() -> (table: Self)
        ensures
            table@ == Map::<Seq<char>, SchemaDef>::empty(),
            table.count() == 0,
            table.wf(),
    {
        SchemaTable { defs: SchemaMap::new() }
    }

    /// Registers a descriptor. The first registration of a name stands.
    pub fn register(&mut self, def: SchemaDef) -> (id: SchemaId)
        requires
            old(self).wf(),
        ensures
            final(self).wf(),
            id@ == def.name@,
            final(self)@ == registered(old(self)@, def),
            final(self).count() == if old(self)@.dom().contains(def.name@) {
                old(self).count()
            } else {
                old(self).count() + 1
            },
    {
        let id = def.id();
        if !self.defs.contains(&id) {
            let _previous = self.defs.put(&id, def);
        }
        id
    }

    /// Registers a Rust type's schema, claiming its name for the type first: a
    /// wrong second type never touches the table.
    pub fn register_typed<S: Schema>(&mut self, claims: &mut TypeClaims, owner: &TypeOwner) -> (result: Result<
        SchemaId,
        SchemaError,
    >)
        requires
            old(self).wf(),
        ensures
            final(self).wf(),
            match result {
                Ok(id) => {
                    &&& id@ == S::declared_name()
                    &&& old(claims)@.dom().contains(S::declared_name()) ==> old(claims)@[S::declared_name()] == owner.id
                    &&& final(claims)@ == old(claims)@.insert(S::declared_name(), owner.id)
                    &&& exists|def: SchemaDef|
                        described_by::<S>(def) && final(self)@ == #[trigger] registered(old(self)@, def)
                },
                Err(error) => {
                    &&& error is DuplicateType
                    &&& error->DuplicateType_0@ == duplicate_chars(S::declared_name(), owner.label@)
                    &&& old(claims)@.dom().contains(S::declared_name()) && old(claims)@[S::declared_name()] != owner.id
                    &&& final(claims)@ == old(claims)@
                    &&& final(self)@ == old(self)@
                },
            },
    {
        let def = S::schema_def();
        let id = def.id();
        match claims.claim_schema_type(&id, owner.id) {
            Ok(_) => Ok(self.register(def)),
            Err(_) => {
                let asked = join(join(id.as_str(), " (registering ").as_str(), owner.label.as_str());
                Err(SchemaError::DuplicateType(join(asked.as_str(), ")")))
            },
        }
    }

    /// The descriptor registered under this id.
    pub fn by_id(&self, id: &SchemaId) -> (def: Option<&SchemaDef>)
        ensures
            match def {
                Some(def) => self@.dom().contains(id@) && self@[id@] == *def,
                None => !self@.dom().contains(id@),
            },
    {
        self.defs.get(id)
    }

    /// The descriptor registered under a schema name.
    pub fn by_name(&self, name: &str) -> (def: Option<&SchemaDef>)
        ensures
            match def {
                Some(def) => self@.dom().contains(name@) && self@[name@] == *def,
                None => !self@.dom().contains(name@),
            },
    {
        self.defs.get(&SchemaId::new(name))
    }

    /// The descriptor a schema name stands for today.
    pub fn latest(&self, name: &str) -> (def: Option<&SchemaDef>)
        ensures
            match def {
                Some(def) => self@.dom().contains(name@) && self@[name@] == *def,
                None => !self@.dom().contains(name@),
            },
    {
        self.by_name(name)
    }

    /// The number of distinct schemas registered.
    pub fn len(&self) -> (n: usize)
        ensures
            n == self.count(),
    {
        self.defs.len()
    }

    /// Whether no schema is registered.
    pub fn is_empty(&self) -> (r: bool)
        ensures
            r == (self.count() == 0),
    {
        self.defs.len() == 0
    }

    /// Every registered descriptor, ordered by name.
    pub fn all(&self) -> (defs: Vec<&SchemaDef>)
        requires
            self.wf(),
        ensures
            by_name_order(defs@),
            forall|i: int|
                0 <= i < defs@.len() ==> self@.dom().contains((#[trigger] defs@[i]).name@) && self@[defs@[i].name@]
                    == *defs@[i],
            forall|name: Seq<char>| #[trigger] self@.dom().contains(name) ==> lists_name(defs@, name),
    {
        let ghost table = self@;
        let ghost pairs = self.defs.pairs();
        let n = self.defs.len();
        let mut defs: Vec<&SchemaDef> = Vec::new();
        let mut p: usize = 0;
        while p < n
            invariant
                self.wf(),
                table == self@,
                pairs == self.defs.pairs(),
                n == pairs.len(),
                forall|i: int, j: int| 0 <= i < j < n ==> (#[trigger] pairs[i]).0@ != (#[trigger] pairs[j]).0@,
                p <= n,
                by_name_order(defs@),
                forall|i: int|
                    0 <= i < defs@.len() ==> table.dom().contains((#[trigger] defs@[i]).name@)
                        && table[defs@[i].name@] == *defs@[i] && seen(pairs, p as int, defs@[i].name@),
                forall|w: int| 0 <= w < p ==> lists_name(defs@, (#[trigger] pairs[w]).0@),
            decreases n - p,
        {
            let pair = self.defs.at(p);
            let def = &pair.1;
            let ghost earlier = defs@;
            let ghost name = def.name@;
            assert(name == pair.0@);
            proof {
                assert forall|i: int| 0 <= i < earlier.len() implies (#[trigger] earlier[i]).name@ != name by {
                    assert(seen(pairs, p as int, earlier[i].name@));
                    let w = choose|w: int| 0 <= w < p && (#[trigger] pairs[w]).0@ == earlier[i].name@;
                    assert(pairs[w].0@ != pairs[p as int].0@);
                }
            }
            let mut at: usize = 0;
            while at < defs.len() && text_before(defs[at].name.as_str(), def.name.as_str())
                invariant
                    defs@ == earlier,
                    name == def.name@,
                    at <= defs.len(),
                    forall|i: int| 0 <= i < at ==> lex_less((#[trigger] earlier[i]).name@, name),
                decreases defs.len() - at,
            {
                at += 1;
            }
            proof {
                lemma_name_filed(earlier, at as int, def);
            }
            defs.insert(at, def);
            p += 1;
            proof {
                let after = defs@;
                assert(after[at as int] == def);
                assert(seen(pairs, p as int, name)) by {
                    assert(pairs[p - 1].0@ == name);
                }
                assert forall|i: int| 0 <= i < after.len() implies table.dom().contains((#[trigger] after[i]).name@)
                    && table[after[i].name@] == *after[i] && seen(pairs, p as int, after[i].name@) by {
                    let x = if i < at {
                        i
                    } else {
                        i - 1
                    };
                    if i != at {
                        assert(after[i] == earlier[x]);
                        assert(seen(pairs, p - 1, earlier[x].name@));
                        let w = choose|w: int| 0 <= w < p - 1 && (#[trigger] pairs[w]).0@ == earlier[x].name@;
                        assert(pairs[w].0@ == earlier[x].name@);
                    }
                }
                assert forall|w: int| 0 <= w < p implies lists_name(after, (#[trigger] pairs[w]).0@) by {
                    if w < p - 1 {
                        assert(lists_name(earlier, pairs[w].0@));
                        let x = choose|x: int|
                            0 <= x < earlier.len() && (#[trigger] earlier[x]).name@ == pairs[w].0@;
                        let i = if x < at {
                            x
                        } else {
                            x + 1
                        };
                        assert(after[i] == earlier[x]);
                    } else {
                        assert(after[at as int].name@ == pairs[w].0@);
                    }
                }
            }
        }
        proof {
            assert forall|name: Seq<char>| #[trigger] self@.dom().contains(name) implies lists_name(defs@, name) by {
                self.defs.lemma_pairs(name);
                let w = choose|w: int| 0 <= w < pairs.len() && (#[trigger] pairs[w]).0@ == name;
                assert(lists_name(defs@, pairs[w].0@));
            }
        }
        defs
    }
}

/// Whether a name is among the first `n` of a walk.
spec fn seen(pairs: Seq<(SchemaId, SchemaDef)>, n: int, name: Seq<char>) -> bool {
    exists|w: int| 0 <= w < n && (#[trigger] pairs[w]).0@ == name
}

/// Filing a descriptor before the first of a greater name keeps the order.
proof fn lemma_name_filed(defs: Seq<&SchemaDef>, at: int, def: &SchemaDef)
    requires
        by_name_order(defs),
        0 <= at <= defs.len(),
        forall|i: int| 0 <= i < defs.len() ==> (#[trigger] defs[i]).name@ != def.name@,
        forall|i: int| 0 <= i < at ==> lex_less((#[trigger] defs[i]).name@, def.name@),
        at < defs.len() ==> !lex_less(defs[at].name@, def.name@),
    ensures
        by_name_order(defs.insert(at, def)),
{
    let after = defs.insert(at, def);
    assert forall|i: int, j: int| 0 <= i < j < after.len() implies lex_less(
        (#[trigger] after[i]).name@,
        (#[trigger] after[j]).name@,
    ) by {
        let x = if i < at {
            i
        } else {
            i - 1
        };
        let y = if j < at {
            j
        } else {
            j - 1
        };
        if i == at {
            assert(after[j] == defs[y]);
            law_lex_order(def.name@, defs[at].name@, defs[y].name@);
            if y > at {
                assert(lex_less(defs[at].name@, defs[y].name@));
            }
        } else if j == at {
            assert(after[i] == defs[x]);
        } else {
            assert(after[i] == defs[x] && after[j] == defs[y]);
        }
    }
}

/// Whether a schema declares a field as its shard key.
pub open spec fn declares_key(def: SchemaDef, field: Seq<char>) -> bool {
    exists|i: int|
        0 <= i < def.fields@.len() && (#[trigger] def.fields@[i]).name@ == field && def.fields@[i].role == Some(
            FieldRole::ShardKey,
        )
}

/// Whether a schema declares a field as its shard key.
fn has_key_field(def: &SchemaDef, field: &str) -> (r: bool)
    ensures
        r == declares_key(*def, field@),
{
    let wanted = field.to_owned();
    let mut i: usize = 0;
    while i < def.fields.len()
        invariant
            wanted@ == field@,
            i <= def.fields.len(),
            forall|j: int|
                0 <= j < i ==> (#[trigger] def.fields@[j]).name@ != field@ || def.fields@[j].role != Some(
                    FieldRole::ShardKey,
                ),
        decreases def.fields.len() - i,
    {
        if def.fields[i].name == wanted {
            if let Some(role) = def.fields[i].role {
                if role == FieldRole::ShardKey {
                    assert(def.fields@[i as int].name@ == field@);
                    return true;
                }
            }
        }
        i += 1;
    }
    false
}

/// Whether some registered command schema declares a field as its shard key.
pub open spec fn command_declares_key(schemas: Map<Seq<char>, SchemaDef>, field: Seq<char>) -> bool {
    exists|name: Seq<char>|
        schemas.dom().contains(name) && (#[trigger] schemas[name]).kind == SchemaKind::Command && declares_key(
            schemas[name],
            field,
        )
}

/// Whether a schema is registered as an event.
pub open spec fn is_event(schemas: Map<Seq<char>, SchemaDef>, name: Seq<char>) -> bool {
    schemas.dom().contains(name) && schemas[name].kind == SchemaKind::Event
}

/// Whether a projector set can be installed: every schema it consumes is a
/// registered event, and at least one of them declares its key field.
pub open spec fn installable(schemas: Map<Seq<char>, SchemaDef>, consumed: Seq<Seq<char>>, field: Seq<char>) -> bool {
    &&& forall|i: int| 0 <= i < consumed.len() ==> is_event(schemas, #[trigger] consumed[i])
    &&& exists|i: int| 0 <= i < consumed.len() && declares_key(schemas[#[trigger] consumed[i]], field)
}

/// Whether a path is one a set of that public path derives: the public path, a
/// slash, and one non-empty segment.
pub open spec fn owns(public: Seq<char>, path: Seq<char>) -> bool {
    &&& path.len() > public.len() + 1
    &&& path.take(public.len() as int) == public
    &&& path[public.len() as int] == '/'
    &&& !path.skip(public.len() as int + 1).contains('/')
}

/// Whether a path lies below a public path.
pub open spec fn lies_below(public: Seq<char>, path: Seq<char>) -> bool {
    &&& path.len() > public.len()
    &&& path.take(public.len() as int) == public
    &&& path[public.len() as int] == '/'
}

/// What follows `public/` in a path, where the path lies below it.
fn below<'a>(public: &ActorPath, path: &'a ActorPath) -> (rest: Option<&'a str>)
    ensures
        match rest {
            Some(rest) => lies_below(public@, path@) && rest@ == path@.skip(public@.len() as int + 1),
            None => !lies_below(public@, path@),
        },
{
    let prefix = join(public.as_str(), "/");
    proof {
        reveal_strlit("/");
        assert(prefix@ =~= public@.push('/'));
    }
    match text_after(path.as_str(), prefix.as_str()) {
        Some(rest) => {
            assert(path@.take(public@.len() as int) =~= public@);
            assert(path@.skip(public@.len() as int + 1) =~= rest@);
            Some(rest)
        },
        None => {
            proof {
                if lies_below(public@, path@) {
                    assert(path@ =~= prefix@ + path@.skip(public@.len() as int + 1)) by {
                        assert forall|i: int| 0 <= i < public@.len() implies path@[i] == public@[i] by {
                            assert(path@.take(public@.len() as int)[i] == path@[i]);
                        }
                    }
                }
            }
            None
        },
    }
}

/// Whether a set of that public path derives a path.
pub fn set_owns(public: &ActorPath, path: &ActorPath) -> (r: bool)
    ensures
        r == owns(public@, path@),
{
    match below(public, path) {
        Some(rest) => !rest.is_empty() && !text_contains(rest, '/'),
        None => false,
    }
}

/// Whether a path belongs to one of the projector sets.
pub open spec fn owned(sets: Map<Seq<char>, ProjectorSetSpec>, path: Seq<char>) -> bool {
    exists|public: Seq<char>| #[trigger] sets.dom().contains(public) && owns(public, path)
}

/// The first handler that no projector set owns.
pub open spec fn first_plain(sets: Map<Seq<char>, ProjectorSetSpec>, handlers: Seq<Seq<char>>) -> Option<Seq<char>>
    decreases handlers.len(),
{
    if handlers.len() == 0 {
        None
    } else if !owned(sets, handlers[0]) {
        Some(handlers[0])
    } else {
        first_plain(sets, handlers.drop_first())
    }
}

/// Handlers that projector sets own do not decide the first plain one.
proof fn lemma_plain_skip(sets: Map<Seq<char>, ProjectorSetSpec>, handlers: Seq<Seq<char>>, i: int)
    requires
        0 <= i <= handlers.len(),
        forall|j: int| 0 <= j < i ==> owned(sets, #[trigger] handlers[j]),
    ensures
        first_plain(sets, handlers) == first_plain(sets, handlers.skip(i)),
    decreases i,
{
    if i == 0 {
        assert(handlers.skip(0) =~= handlers);
    } else {
        lemma_plain_skip(sets, handlers, i - 1);
        let tail = handlers.skip(i - 1);
        assert(tail[0] == handlers[i - 1]);
        assert(tail.drop_first() =~= handlers.skip(i));
    }
}

/// Where a schema's next message goes: the handler under the cursor, or the
/// first plain handler where a projector set owns that one.
pub open spec fn routed(sets: Map<Seq<char>, ProjectorSetSpec>, route: RouteView, cursor: nat) -> Option<Seq<char>> {
    if route.handlers.len() == 0 {
        None
    } else if owned(sets, route.under(cursor)) {
        first_plain(sets, route.handlers)
    } else {
        Some(route.under(cursor))
    }
}

/// Errors surfaced by registry mutations.
#[derive(Debug)]
pub enum RegistryError {
    /// A slot already exists under this path.
    PathTaken(ActorPath),
    /// No slot exists under this path.
    UnknownPath(ActorPath),
    /// A set's spec violated its own contract.
    InvalidSpec,
}

/// All runtime tables: slots, schemas, routes, sets and rules.
pub struct Registry {
    schemas: SchemaTable,
    slots: PathMap<Slot>,
    routes: SchemaMap<RoutePolicy>,
    route_cursor: usize,
    partitions: PathMap<PartitionSpec>,
    projector_sets: PathMap<ProjectorSetSpec>,
    rules: Vec<Rule>,
}

/// What the registry holds.
#[verifier::ext_equal]
pub struct RegistryView {
    /// The schema table.
    pub schemas: Map<Seq<char>, SchemaDef>,
    /// The slots by path.
    pub slots: Map<Seq<char>, SlotView>,
    /// The routes by schema.
    pub routes: Map<Seq<char>, RouteView>,
    /// The cursor all rotating routes share.
    pub cursor: nat,
    /// The partition sets by public path.
    pub partitions: Map<Seq<char>, PartitionSpec>,
    /// The projector sets by public path.
    pub projector_sets: Map<Seq<char>, ProjectorSetSpec>,
    /// The rules in priority order.
    pub rules: Seq<Rule>,
}

impl RegistryView {
    /// Whether everything is filed under its own name and every route has a
    /// handler.
    pub open spec fn wf(self) -> bool {
        &&& forall|name: Seq<char>| self.schemas.dom().contains(name) ==> (#[trigger] self.schemas[name]).name@ == name
        &&& forall|schema: Seq<char>| self.routes.dom().contains(schema) ==> (#[trigger] self.routes[schema]).wf()
        &&& forall|path: Seq<char>|
            self.partitions.dom().contains(path) ==> (#[trigger] self.partitions[path]).public@ == path
        &&& forall|path: Seq<char>|
            self.projector_sets.dom().contains(path) ==> (#[trigger] self.projector_sets[path]).public@ == path
        &&& self.cursor < usize::MAX
    }

    /// Whether a path's slot, where it has one, was spawned with a kind.
    pub open spec fn kind_known(self, path: Seq<char>) -> bool {
        self.slots.dom().contains(path) ==> self.slots[path].manifest.kind is Some
    }

    /// The handlers of a schema: none where it has no route.
    pub open spec fn handlers(self, schema: Seq<char>) -> Seq<Seq<char>> {
        if self.routes.dom().contains(schema) {
            self.routes[schema].handlers
        } else {
            Seq::empty()
        }
    }

    /// The route of a schema, if it has one.
    pub open spec fn route_of(self, schema: Seq<char>) -> Option<RouteView> {
        if self.routes.dom().contains(schema) {
            Some(self.routes[schema])
        } else {
            None
        }
    }

    /// Where a schema's next message goes.
    pub open spec fn next_for(self, schema: Seq<char>) -> Option<Seq<char>> {
        match self.route_of(schema) {
            Some(route) => routed(self.projector_sets, route, self.cursor),
            None => None,
        }
    }

    /// The cursor after a schema's next message.
    pub open spec fn cursor_for(self, schema: Seq<char>) -> nat {
        match self.route_of(schema) {
            Some(route) => route.cursor_after(self.cursor),
            None => self.cursor,
        }
    }

    /// The running endpoint of a path, if there is one.
    pub open spec fn endpoint(self, path: Seq<char>) -> Option<Endpoint> {
        if self.slots.dom().contains(path) {
            self.slots[path].endpoint
        } else {
            None
        }
    }

    /// Whether a path declared a schema in its emits.
    pub open spec fn emits(self, path: Seq<char>, schema: Seq<char>) -> bool {
        self.slots.dom().contains(path) && self.slots[path].manifest.emits.contains(schema)
    }
}

/// The slots of a table, as what they hold.
pub open spec fn slot_views(slots: Map<Seq<char>, Slot>) -> Map<Seq<char>, SlotView> {
    slots.map_values(|slot: Slot| slot@)
}

/// The routes of a table, as what they hold.
pub open spec fn route_views(routes: Map<Seq<char>, RoutePolicy>) -> Map<Seq<char>, RouteView> {
    routes.map_values(|policy: RoutePolicy| policy@)
}

/// The routes once a path handles nothing: routes left without a handler go.
pub open spec fn routes_without(routes: Map<Seq<char>, RouteView>, path: Seq<char>) -> Map<Seq<char>, RouteView> {
    Map::new(
        |schema: Seq<char>| routes.dom().contains(schema) && routes[schema].without(path).handlers.len() > 0,
        |schema: Seq<char>| routes[schema].without(path),
    )
}

impl View for Registry {
    type V = RegistryView;

    closed spec fn view(&self) -> RegistryView {
        RegistryView {
            schemas: self.schemas@,
            slots: slot_views(self.slots@),
            routes: route_views(self.routes@),
            cursor: self.route_cursor as nat,
            partitions: self.partitions@,
            projector_sets: self.projector_sets@,
            rules: self.rules@,
        }
    }
}

impl Registry {
    /// Whether the registry is well formed.
    pub open spec fn wf(&self) -> bool {
        self@.wf()
    }

    /// An empty registry.
    pub fn new() -> (registry: Self)
        ensures
            registry.wf(),
            registry@ == (RegistryView {
                schemas: Map::empty(),
                slots: Map::empty(),
                routes: Map::empty(),
                cursor: 0,
                partitions: Map::empty(),
                projector_sets: Map::empty(),
                rules: Seq::empty(),
            }),
    {
        let registry = Registry {
            schemas: SchemaTable::new(),
            slots: PathMap::new(),
            routes: SchemaMap::new(),
            route_cursor: 0,
            partitions: PathMap::new(),
            projector_sets: PathMap::new(),
            rules: Vec::new(),
        };
        proof {
            assert(registry@.slots =~= Map::empty());
            assert(registry@.routes =~= Map::empty());
        }
        registry
    }

    /// Registers a schema descriptor. The first registration of a name stands.
    pub fn register_schema(&mut self, def: SchemaDef) -> (id: SchemaId)
        requires
            old(self).wf(),
        ensures
            final(self).wf(),
            id@ == def.name@,
            final(self)@ == (RegistryView { schemas: registered(old(self)@.schemas, def), ..old(self)@ }),
    {
        self.schemas.register(def)
    }

    /// Registers a Rust type's schema, claiming its name for the type first.
    pub fn register_schema_of<S: Schema>(&mut self, claims: &mut TypeClaims, owner: &TypeOwner) -> (result: Result<
        SchemaId,
        SchemaError,
    >)
        requires
            old(self).wf(),
        ensures
            final(self).wf(),
            match result {
                Ok(id) => {
                    &&& id@ == S::declared_name()
                    &&& old(claims)@.dom().contains(S::declared_name()) ==> old(claims)@[S::declared_name()] == owner.id
                    &&& final(claims)@ == old(claims)@.insert(S::declared_name(), owner.id)
                    &&& exists|def: SchemaDef|
                        described_by::<S>(def) && final(self)@ == (RegistryView {
                            schemas: #[trigger] registered(old(self)@.schemas, def),
                            ..old(self)@
                        })
                },
                Err(error) => {
                    &&& error is DuplicateType
                    &&& error->DuplicateType_0@ == duplicate_chars(S::declared_name(), owner.label@)
                    &&& old(claims)@.dom().contains(S::declared_name()) && old(claims)@[S::declared_name()] != owner.id
                    &&& final(claims)@ == old(claims)@
                    &&& final(self)@ == old(self)@
                },
            },
    {
        let ghost before = self@;
        let result = self.schemas.register_typed::<S>(claims, owner);
        proof {
            let after = self@;
            assert(after.slots == before.slots && after.routes == before.routes && after.cursor == before.cursor);
            assert(after == (RegistryView { schemas: after.schemas, ..before }));
            assert(after.wf()) by {
                assert(self.schemas.wf());
            }
            if result is Ok {
                let def = choose|def: SchemaDef|
                    described_by::<S>(def) && after.schemas == #[trigger] registered(before.schemas, def);
                assert(after == (RegistryView { schemas: registered(before.schemas, def), ..before }));
            }
        }
        result
    }

    /// The descriptor for a schema id.
    pub fn schema(&self, id: &SchemaId) -> (def: Option<&SchemaDef>)
        ensures
            match def {
                Some(def) => self@.schemas.dom().contains(id@) && self@.schemas[id@] == *def,
                None => !self@.schemas.dom().contains(id@),
            },
    {
        self.schemas.by_id(id)
    }

    /// The shared schema table.
    pub fn schemas(&self) -> (table: &SchemaTable)
        ensures
            table@ == self@.schemas,
    {
        &self.schemas
    }

    /// Inserts a slot under a free path.
    pub fn insert_slot(
        &mut self,
        path: &ActorPath,
        manifest: ActorManifest,
        endpoint: Endpoint,
        inbox_policy: OverloadPolicy,
    ) -> (result: Result<(), RegistryError>)
        requires
            old(self).wf(),
        ensures
            final(self).wf(),
            match result {
                Ok(_) => {
                    &&& !old(self)@.slots.dom().contains(path@)
                    &&& final(self)@ == (RegistryView {
                        slots: old(self)@.slots.insert(
                            path@,
                            SlotView { manifest: manifest@, endpoint: Some(endpoint), inbox_policy },
                        ),
                        ..old(self)@
                    })
                },
                Err(error) => {
                    &&& old(self)@.slots.dom().contains(path@)
                    &&& error is PathTaken && error->PathTaken_0@ == path@
                    &&& final(self)@ == old(self)@
                },
            },
    {
        if self.slots.contains(path) {
            return Err(RegistryError::PathTaken(path.clone()));
        }
        let ghost before = self.slots@;
        let slot = Slot { manifest, endpoint: Some(endpoint), inbox_policy };
        let _previous = self.slots.put(path, slot);
        assert(slot_views(self.slots@) =~= slot_views(before).insert(path@, slot@));
        Ok(())
    }

    /// Swaps a slot's endpoint: the restart mechanism. Everything else about
    /// the slot persists.
    pub fn swap_endpoint(&mut self, path: &ActorPath, endpoint: Endpoint) -> (result: Result<(), RegistryError>)
        requires
            old(self).wf(),
        ensures
            final(self).wf(),
            match result {
                Ok(_) => {
                    &&& old(self)@.slots.dom().contains(path@)
                    &&& final(self)@ == (RegistryView {
                        slots: old(self)@.slots.insert(
                            path@,
                            SlotView { endpoint: Some(endpoint), ..old(self)@.slots[path@] },
                        ),
                        ..old(self)@
                    })
                },
                Err(error) => {
                    &&& !old(self)@.slots.dom().contains(path@)
                    &&& error is UnknownPath && error->UnknownPath_0@ == path@
                    &&& final(self)@ == old(self)@
                },
            },
    {
        let ghost before = self.slots@;
        match self.slots.take(path) {
            Some(slot) => {
                let slot = Slot { endpoint: Some(endpoint), ..slot };
                let _previous = self.slots.put(path, slot);
                assert(slot_views(self.slots@) =~= slot_views(before).insert(path@, slot@));
                Ok(())
            },
            None => {
                assert(before.remove(path@) =~= before);
                Err(RegistryError::UnknownPath(path.clone()))
            },
        }
    }

    /// Removes a slot; its manifest is handed back.
    pub fn remove_slot(&mut self, path: &ActorPath) -> (result: Result<ActorManifest, RegistryError>)
        requires
            old(self).wf(),
        ensures
            final(self).wf(),
            match result {
                Ok(manifest) => {
                    &&& old(self)@.slots.dom().contains(path@)
                    &&& manifest@ == old(self)@.slots[path@].manifest
                    &&& final(self)@ == (RegistryView { slots: old(self)@.slots.remove(path@), ..old(self)@ })
                },
                Err(error) => {
                    &&& !old(self)@.slots.dom().contains(path@)
                    &&& error is UnknownPath && error->UnknownPath_0@ == path@
                    &&& final(self)@ == old(self)@
                },
            },
    {
        let ghost before = self.slots@;
        match self.slots.take(path) {
            Some(slot) => {
                assert(slot_views(self.slots@) =~= slot_views(before).remove(path@));
                Ok(slot.manifest)
            },
            None => {
                assert(before.remove(path@) =~= before);
                Err(RegistryError::UnknownPath(path.clone()))
            },
        }
    }

    /// Declares an emit edge on a slot.
    pub fn declare_emits(&mut self, path: &ActorPath, schema: SchemaId) -> (result: Result<(), RegistryError>)
        requires
            old(self).wf(),
        ensures
            final(self).wf(),
            match result {
                Ok(_) => {
                    &&& old(self)@.slots.dom().contains(path@)
                    &&& final(self)@ == (RegistryView {
                        slots: old(self)@.slots.insert(
                            path@,
                            SlotView {
                                manifest: ManifestView {
                                    emits: declare(old(self)@.slots[path@].manifest.emits, schema@),
                                    ..old(self)@.slots[path@].manifest
                                },
                                ..old(self)@.slots[path@]
                            },
                        ),
                        ..old(self)@
                    })
                },
                Err(error) => {
                    &&& !old(self)@.slots.dom().contains(path@)
                    &&& error is UnknownPath && error->UnknownPath_0@ == path@
                    &&& final(self)@ == old(self)@
                },
            },
    {
        let ghost before = self.slots@;
        match self.slots.take(path) {
            Some(slot) => {
                let slot = Slot { manifest: slot.manifest.emits_id(schema), ..slot };
                let _previous = self.slots.put(path, slot);
                assert(slot_views(self.slots@) =~= slot_views(before).insert(path@, slot@));
                Ok(())
            },
            None => {
                assert(before.remove(path@) =~= before);
                Err(RegistryError::UnknownPath(path.clone()))
            },
        }
    }

    /// Appends a router rule: declaration order is priority order.
    pub fn add_rule(&mut self, rule: Rule)
        requires
            old(self).wf(),
        ensures
            final(self).wf(),
            final(self)@ == (RegistryView { rules: old(self)@.rules.push(rule), ..old(self)@ }),
    {
        self.rules.push(rule);
    }

    /// The router rules in priority order.
    pub fn rules(&self) -> (rules: &Vec<Rule>)
        ensures
            rules@ == self@.rules,
    {
        &self.rules
    }

    /// Installs a partition set, unless no command schema declares its key
    /// field: then its key could never be extracted.
    pub fn install_partition_set(&mut self, spec: PartitionSpec) -> (result: Result<(), RegistryError>)
        requires
            old(self).wf(),
        ensures
            final(self).wf(),
            match result {
                Ok(_) => {
                    &&& command_declares_key(old(self)@.schemas, spec.key_field@)
                    &&& final(self)@ == (RegistryView {
                        partitions: old(self)@.partitions.insert(spec.public@, spec),
                        ..old(self)@
                    })
                },
                Err(error) => {
                    &&& !command_declares_key(old(self)@.schemas, spec.key_field@)
                    &&& error is InvalidSpec
                    &&& final(self)@ == old(self)@
                },
            },
    {
        if !self.command_has_key(spec.key_field.as_str()) {
            return Err(RegistryError::InvalidSpec);
        }
        let public = spec.public.clone();
        let _previous = self.partitions.put(&public, spec);
        Ok(())
    }

    /// Whether some registered command schema declares a field as its shard key.
    fn command_has_key(&self, field: &str) -> (r: bool)
        requires
            self.wf(),
        ensures
            r == command_declares_key(self@.schemas, field@),
    {
        let defs = self.schemas.all();
        let mut i: usize = 0;
        while i < defs.len()
            invariant
                i <= defs.len(),
                forall|j: int|
                    0 <= j < defs@.len() ==> self@.schemas.dom().contains((#[trigger] defs@[j]).name@)
                        && self@.schemas[defs@[j].name@] == *defs@[j],
                forall|name: Seq<char>| #[trigger] self@.schemas.dom().contains(name) ==> lists_name(defs@, name),
                forall|j: int|
                    0 <= j < i ==> (#[trigger] defs@[j]).kind != SchemaKind::Command || !declares_key(
                        *defs@[j],
                        field@,
                    ),
            decreases defs.len() - i,
        {
            let def: &SchemaDef = defs[i];
            if def.kind == SchemaKind::Command && has_key_field(def, field) {
                assert(self@.schemas[def.name@] == *def);
                return true;
            }
            i += 1;
        }
        proof {
            assert forall|name: Seq<char>| #[trigger] self@.schemas.dom().contains(name) implies self@.schemas[name].kind
                != SchemaKind::Command || !declares_key(self@.schemas[name], field@) by {
                assert(lists_name(defs@, name));
                let j = choose|j: int| 0 <= j < defs@.len() && (#[trigger] defs@[j]).name@ == name;
                assert(self@.schemas[defs@[j].name@] == *defs@[j]);
            }
        }
        false
    }

    /// Installs a projector set, unless a schema it consumes is not a
    /// registered event or none of them declares its key field.
    pub fn install_projector_set(&mut self, spec: ProjectorSetSpec) -> (result: Result<(), RegistryError>)
        requires
            old(self).wf(),
        ensures
            final(self).wf(),
            match result {
                Ok(_) => {
                    &&& installable(old(self)@.schemas, names_of(spec.consumed@), spec.key_field@)
                    &&& final(self)@ == (RegistryView {
                        projector_sets: old(self)@.projector_sets.insert(spec.public@, spec),
                        ..old(self)@
                    })
                },
                Err(error) => {
                    &&& !installable(old(self)@.schemas, names_of(spec.consumed@), spec.key_field@)
                    &&& error is InvalidSpec
                    &&& final(self)@ == old(self)@
                },
            },
    {
        let ghost consumed = names_of(spec.consumed@);
        let mut keyed = false;
        let mut i: usize = 0;
        while i < spec.consumed.len()
            invariant
                old(self).wf(),
                *self == *old(self),
                consumed == names_of(spec.consumed@),
                i <= spec.consumed.len(),
                forall|j: int| 0 <= j < i ==> is_event(self@.schemas, #[trigger] consumed[j]),
                keyed <==> exists|j: int|
                    0 <= j < i && declares_key(self@.schemas[#[trigger] consumed[j]], spec.key_field@),
            decreases spec.consumed.len() - i,
        {
            assert(consumed[i as int] == spec.consumed@[i as int]@);
            match self.schema(&spec.consumed[i]) {
                Some(def) => {
                    match def.kind {
                        SchemaKind::Command => {
                            assert(!is_event(self@.schemas, consumed[i as int]));
                            return Err(RegistryError::InvalidSpec);
                        },
                        SchemaKind::Event => {},
                    }
                    if has_key_field(def, spec.key_field.as_str()) {
                        keyed = true;
                    }
                },
                None => {
                    assert(!is_event(self@.schemas, consumed[i as int]));
                    return Err(RegistryError::InvalidSpec);
                },
            }
            i += 1;
        }
        if !keyed {
            return Err(RegistryError::InvalidSpec);
        }
        let public = spec.public.clone();
        let _previous = self.projector_sets.put(&public, spec);
        Ok(())
    }

    /// The partition set of a public path.
    pub fn partition(&self, public: &ActorPath) -> (spec: Option<&PartitionSpec>)
        ensures
            match spec {
                Some(spec) => self@.partitions.dom().contains(public@) && self@.partitions[public@] == *spec,
                None => !self@.partitions.dom().contains(public@),
            },
    {
        self.partitions.get(public)
    }

    /// The projector set of a public path.
    pub fn projector_set(&self, public: &ActorPath) -> (spec: Option<&ProjectorSetSpec>)
        ensures
            match spec {
                Some(spec) => self@.projector_sets.dom().contains(public@) && self@.projector_sets[public@] == *spec,
                None => !self@.projector_sets.dom().contains(public@),
            },
    {
        self.projector_sets.get(public)
    }

    /// Every projector set consuming a schema, each once.
    pub fn projector_sets_consuming(&self, schema: &SchemaId) -> (specs: Vec<&ProjectorSetSpec>)
        requires
            self.wf(),
        ensures
            forall|i: int|
                0 <= i < specs@.len() ==> self@.projector_sets.dom().contains((#[trigger] specs@[i]).public@)
                    && self@.projector_sets[specs@[i].public@] == *specs@[i] && names_of(
                    specs@[i].consumed@,
                ).contains(schema@),
            forall|i: int, j: int|
                0 <= i < j < specs@.len() ==> (#[trigger] specs@[i]).public@ != (#[trigger] specs@[j]).public@,
            forall|public: Seq<char>| #[trigger]
                self@.projector_sets.dom().contains(public) && names_of(
                    self@.projector_sets[public].consumed@,
                ).contains(schema@) ==> lists_public(specs@, public),
    {
        let ghost sets = self@.projector_sets;
        let ghost pairs = self.projector_sets.pairs();
        let n = self.projector_sets.len();
        let mut specs: Vec<&ProjectorSetSpec> = Vec::new();
        let mut p: usize = 0;
        while p < n
            invariant
                self.wf(),
                sets == self@.projector_sets,
                sets == self.projector_sets@,
                pairs == self.projector_sets.pairs(),
                n == pairs.len(),
                p <= n,
                forall|i: int, j: int| 0 <= i < j < n ==> (#[trigger] pairs[i]).0@ != (#[trigger] pairs[j]).0@,
                forall|i: int|
                    0 <= i < specs@.len() ==> sets.dom().contains((#[trigger] specs@[i]).public@)
                        && sets[specs@[i].public@] == *specs@[i] && names_of(specs@[i].consumed@).contains(schema@)
                        && walked(pairs, p as int, specs@[i].public@),
                forall|i: int, j: int|
                    0 <= i < j < specs@.len() ==> (#[trigger] specs@[i]).public@ != (#[trigger] specs@[j]).public@,
                forall|w: int|
                    0 <= w < p && names_of((#[trigger] pairs[w]).1.consumed@).contains(schema@) ==> lists_public(
                        specs@,
                        pairs[w].0@,
                    ),
            decreases n - p,
        {
            let pair = self.projector_sets.at(p);
            let ghost before = specs@;
            let ghost public = pair.0@;
            assert(pair.1.public@ == public);
            proof {
                assert forall|i: int| 0 <= i < before.len() implies (#[trigger] before[i]).public@ != public by {
                    assert(walked(pairs, p as int, before[i].public@));
                    let w = choose|w: int| 0 <= w < p && (#[trigger] pairs[w]).0@ == before[i].public@;
                    assert(pairs[w].0@ != pairs[p as int].0@);
                }
            }
            if lists(&pair.1.consumed, schema) {
                specs.push(&pair.1);
                assert(specs@[before.len() as int].public@ == public);
            }
            p += 1;
            proof {
                assert(pairs[p - 1].0@ == public);
                assert(walked(pairs, p as int, public));
                assert forall|i: int| 0 <= i < specs@.len() implies walked(
                    pairs,
                    p as int,
                    (#[trigger] specs@[i]).public@,
                ) by {
                    if i < before.len() {
                        assert(specs@[i] == before[i]);
                        assert(walked(pairs, p - 1, before[i].public@));
                        let w = choose|w: int| 0 <= w < p - 1 && (#[trigger] pairs[w]).0@ == before[i].public@;
                        assert(pairs[w].0@ == specs@[i].public@);
                    }
                }
                assert forall|w: int|
                    0 <= w < p && names_of((#[trigger] pairs[w]).1.consumed@).contains(schema@) implies lists_public(
                    specs@,
                    pairs[w].0@,
                ) by {
                    if w < p - 1 {
                        assert(lists_public(before, pairs[w].0@));
                        let x = choose|x: int| 0 <= x < before.len() && (#[trigger] before[x]).public@ == pairs[w].0@;
                        assert(specs@[x] == before[x]);
                    }
                }
            }
        }
        proof {
            assert forall|public: Seq<char>| #[trigger]
                sets.dom().contains(public) && names_of(sets[public].consumed@).contains(
                    schema@,
                ) implies lists_public(specs@, public) by {
                self.projector_sets.lemma_pairs(public);
                let w = choose|w: int| 0 <= w < pairs.len() && (#[trigger] pairs[w]).0@ == public;
                let pair = pairs[w];
                self.projector_sets.lemma_pair(w);
                assert(sets[public] == pairs[w].1);
            }
        }
        specs
    }

    /// The projector set that derives a path, if any.
    pub fn projector_set_owning(&self, path: &ActorPath) -> (spec: Option<&ProjectorSetSpec>)
        requires
            self.wf(),
        ensures
            match spec {
                Some(spec) => {
                    &&& self@.projector_sets.dom().contains(spec.public@)
                    &&& self@.projector_sets[spec.public@] == *spec
                    &&& owns(spec.public@, path@)
                },
                None => !owned(self@.projector_sets, path@),
            },
    {
        let ghost sets = self@.projector_sets;
        let ghost pairs = self.projector_sets.pairs();
        let n = self.projector_sets.len();
        let mut p: usize = 0;
        while p < n
            invariant
                self.wf(),
                sets == self@.projector_sets,
                sets == self.projector_sets@,
                pairs == self.projector_sets.pairs(),
                n == pairs.len(),
                p <= n,
                forall|w: int| 0 <= w < p ==> !owns((#[trigger] pairs[w]).0@, path@),
            decreases n - p,
        {
            let pair = self.projector_sets.at(p);
            assert(pair.1.public@ == pair.0@);
            if set_owns(&pair.1.public, path) {
                return Some(&pair.1);
            }
            p += 1;
        }
        proof {
            assert forall|public: Seq<char>| #[trigger] sets.dom().contains(public) implies !owns(public, path@) by {
                self.projector_sets.lemma_pairs(public);
                let w = choose|w: int| 0 <= w < pairs.len() && (#[trigger] pairs[w]).0@ == public;
                assert(!owns(pairs[w].0@, path@));
            }
        }
        None
    }

    /// Every handler declared for a schema, in registration order.
    pub fn handlers_of(&self, schema: &SchemaId) -> (paths: Vec<ActorPath>)
        ensures
            paths_of(paths@) == self@.handlers(schema@),
    {
        match self.routes.get(schema) {
            Some(policy) => policy.handlers(),
            None => {
                let paths: Vec<ActorPath> = Vec::new();
                assert(paths_of(paths@) =~= Seq::empty());
                paths
            },
        }
    }

    /// The destinations of a schema's route.
    pub fn route_dests(&self, schema: &SchemaId) -> (paths: Vec<ActorPath>)
        ensures
            paths_of(paths@) == self@.handlers(schema@),
    {
        self.handlers_of(schema)
    }

    /// The running endpoint of a path.
    pub fn resolve(&self, path: &ActorPath) -> (endpoint: Option<Endpoint>)
        ensures
            endpoint == self@.endpoint(path@),
    {
        match self.slots.get(path) {
            Some(slot) => slot.endpoint,
            None => None,
        }
    }

    /// The inbox policy a path was spawned with; an unknown path drops new
    /// messages.
    pub fn inbox_policy(&self, path: &ActorPath) -> (policy: OverloadPolicy)
        ensures
            policy == if self@.slots.dom().contains(path@) {
                self@.slots[path@].inbox_policy
            } else {
                OverloadPolicy::DropNew
            },
    {
        match self.slots.get(path) {
            Some(slot) => slot.inbox_policy,
            None => OverloadPolicy::DropNew,
        }
    }

    /// What is known about a path. Slots are always spawned with a kind.
    pub fn lookup(&self, path: &ActorPath) -> (info: Option<EndpointInfo>)
        requires
            self@.kind_known(path@),
        ensures
            match info {
                Some(info) => {
                    &&& self@.slots.dom().contains(path@)
                    &&& info.path@ == path@
                    &&& Some(info.kind) == self@.slots[path@].manifest.kind
                    &&& info.manifest@ == self@.slots[path@].manifest
                },
                None => !self@.slots.dom().contains(path@),
            },
    {
        match self.slots.get(path) {
            Some(slot) => {
                assert(self@.slots[path@] == slot@);
                Some(EndpointInfo { path: path.clone(), kind: slot.kind(), manifest: slot.manifest.clone() })
            },
            None => None,
        }
    }

    /// Whether a path is registered, running or not.
    pub fn is_registered(&self, path: &ActorPath) -> (r: bool)
        ensures
            r == self@.slots.dom().contains(path@),
    {
        self.slots.contains(path)
    }

    /// Whether a path declared a schema in its emits.
    pub fn declares_emit(&self, path: &ActorPath, schema: &SchemaId) -> (r: bool)
        ensures
            r == self@.emits(path@, schema@),
    {
        match self.slots.get(path) {
            Some(slot) => lists(&slot.manifest.emits, schema),
            None => false,
        }
    }

    /// Routes a schema to a handler. A projector-set member is not routable by
    /// schema: its only deliveries are the copies keyed to it.
    pub fn route(&mut self, schema: &SchemaId) -> (path: Option<ActorPath>)
        requires
            old(self).wf(),
        ensures
            final(self).wf(),
            match path {
                Some(path) => old(self)@.next_for(schema@) == Some(path@),
                None => old(self)@.next_for(schema@) is None,
            },
            final(self)@ == (RegistryView { cursor: old(self)@.cursor_for(schema@), ..old(self)@ }),
    {
        let ghost sets = self@.projector_sets;
        let mut cursor: usize = self.route_cursor;
        let candidate = match self.routes.get(schema) {
            Some(policy) => {
                assert(self@.routes[schema@] == policy@);
                policy.pick(&mut cursor)
            },
            None => return None,
        };
        self.route_cursor = cursor;
        let candidate = match candidate {
            Some(candidate) => candidate,
            None => return None,
        };
        if self.projector_set_owning(&candidate).is_none() {
            return Some(candidate);
        }
        assert(owned(sets, candidate@));
        let pool = self.handlers_of(schema);
        let ghost handlers = paths_of(pool@);
        let mut i: usize = 0;
        while i < pool.len()
            invariant
                self.wf(),
                sets == self@.projector_sets,
                handlers == paths_of(pool@),
                i <= pool.len(),
                forall|j: int| 0 <= j < i ==> owned(sets, #[trigger] handlers[j]),
                final_route(old(self)@, schema@, self@),
                old(self)@.next_for(schema@) == first_plain(sets, handlers),
            decreases pool.len() - i,
        {
            assert(handlers[i as int] == pool@[i as int]@);
            if self.projector_set_owning(&pool[i]).is_none() {
                proof {
                    lemma_plain_skip(sets, handlers, i as int);
                    assert(handlers.skip(i as int)[0] == handlers[i as int]);
                }
                return Some(pool[i].clone());
            }
            i += 1;
        }
        proof {
            lemma_plain_skip(sets, handlers, i as int);
            assert(handlers.skip(i as int) =~= Seq::empty());
        }
        None
    }

    /// Routes a schema and resolves the handler's running endpoint.
    pub fn route_resolved(&mut self, schema: &SchemaId) -> (target: (Option<ActorPath>, Option<Endpoint>))
        requires
            old(self).wf(),
        ensures
            final(self).wf(),
            match target.0 {
                Some(path) => old(self)@.next_for(schema@) == Some(path@) && target.1 == old(self)@.endpoint(path@),
                None => old(self)@.next_for(schema@) is None && target.1 is None,
            },
            final(self)@ == (RegistryView { cursor: old(self)@.cursor_for(schema@), ..old(self)@ }),
    {
        match self.route(schema) {
            Some(path) => {
                let endpoint = self.resolve(&path);
                (Some(path), endpoint)
            },
            None => (None, None),
        }
    }

    /// Declares a handler for a schema. A second handler makes the route
    /// rotate in registration order.
    pub fn add_route(&mut self, schema: &SchemaId, path: ActorPath)
        requires
            old(self).wf(),
        ensures
            final(self).wf(),
            final(self)@ == (RegistryView {
                routes: old(self)@.routes.insert(schema@, with_handler(old(self)@.route_of(schema@), path@)),
                ..old(self)@
            }),
    {
        let ghost before = self.routes@;
        let ghost view = self@;
        let policy = match self.routes.take(schema) {
            Some(policy) => {
                assert(view.routes[schema@] == policy@);
                policy.extended(path)
            },
            None => {
                let policy = RoutePolicy::Single(path);
                assert(policy@ =~= with_handler(None, path@));
                policy
            },
        };
        let _previous = self.routes.put(schema, policy);
        proof {
            lemma_with_handler_wf(view.route_of(schema@), path@);
            assert(route_views(self.routes@) =~= route_views(before).insert(schema@, policy@));
        }
    }

    /// Drops a path from every route; a route left without a handler goes.
    pub fn drop_routes_of(&mut self, path: &ActorPath)
        requires
            old(self).wf(),
        ensures
            final(self).wf(),
            final(self)@ == (RegistryView { routes: routes_without(old(self)@.routes, path@), ..old(self)@ }),
    {
        let ghost start = self.routes@;
        let ghost view = self@;
        let mut kept: SchemaMap<RoutePolicy> = SchemaMap::new();
        let mut more = true;
        while more
            invariant
                more || self.routes@ == Map::<Seq<char>, RoutePolicy>::empty(),
                self@ == (RegistryView { routes: route_views(self.routes@), ..view }),
                forall|schema: Seq<char>| #[trigger]
                    self.routes@.dom().contains(schema) ==> start.dom().contains(schema) && self.routes@[schema]
                        == start[schema],
                forall|schema: Seq<char>| #[trigger]
                    kept@.dom().contains(schema) ==> start.dom().contains(schema) && !self.routes@.dom().contains(
                        schema,
                    ) && kept@[schema]@ == start[schema]@.without(path@) && kept@[schema]@.handlers.len() > 0,
                forall|schema: Seq<char>| #[trigger]
                    start.dom().contains(schema) && !self.routes@.dom().contains(schema) && start[schema]@.without(
                        path@,
                    ).handlers.len() > 0 ==> kept@.dom().contains(schema),
            decreases self.routes.pairs().len(), if more {
                1int
            } else {
                0
            },
        {
            match self.routes.pop() {
                Some((schema, policy)) => {
                    if let Some(policy) = policy.trimmed(path) {
                        let _previous = kept.put(&schema, policy);
                    }
                },
                None => more = false,
            }
        }
        self.routes = kept;
        proof {
            let after = self@.routes;
            let wanted = routes_without(view.routes, path@);
            assert forall|schema: Seq<char>| after.dom().contains(schema) <==> wanted.dom().contains(schema) by {
                assert(start.dom().contains(schema) <==> view.routes.dom().contains(schema));
            }
            assert(after =~= wanted);
            assert forall|schema: Seq<char>| after.dom().contains(schema) implies (#[trigger] after[schema]).wf() by {
                assert(view.routes[schema].wf());
                lemma_without_wf(view.routes[schema], path@);
            }
        }
    }

    /// Every registered path with its manifest, each once.
    pub fn slot_manifests(&self) -> (manifests: Vec<(ActorPath, ActorManifest)>)
        ensures
            forall|i: int|
                0 <= i < manifests@.len() ==> self@.slots.dom().contains((#[trigger] manifests@[i]).0@)
                    && self@.slots[manifests@[i].0@].manifest == manifests@[i].1@,
            forall|i: int, j: int|
                0 <= i < j < manifests@.len() ==> (#[trigger] manifests@[i]).0@ != (#[trigger] manifests@[j]).0@,
            forall|path: Seq<char>| #[trigger]
                self@.slots.dom().contains(path) ==> exists|i: int|
                    0 <= i < manifests@.len() && (#[trigger] manifests@[i]).0@ == path,
    {
        let n = self.slots.len();
        let ghost pairs = self.slots.pairs();
        let mut manifests: Vec<(ActorPath, ActorManifest)> = Vec::new();
        let mut p: usize = 0;
        while p < n
            invariant
                n == self.slots.pairs().len(),
                pairs == self.slots.pairs(),
                p <= n,
                manifests@.len() == p,
                forall|i: int|
                    0 <= i < p ==> (#[trigger] manifests@[i]).0@ == pairs[i].0@ && self@.slots.dom().contains(
                        manifests@[i].0@,
                    ) && self@.slots[manifests@[i].0@].manifest == manifests@[i].1@,
            decreases n - p,
        {
            let pair = self.slots.at(p);
            manifests.push((pair.0.clone(), pair.1.manifest.clone()));
            p += 1;
        }
        proof {
            assert forall|i: int, j: int| 0 <= i < j < manifests@.len() implies (#[trigger] manifests@[i]).0@ != (
            #[trigger] manifests@[j]).0@ by {
                assert(pairs[i].0@ != pairs[j].0@);
            }
            assert forall|path: Seq<char>| #[trigger] self@.slots.dom().contains(path) implies exists|i: int|
                0 <= i < manifests@.len() && (#[trigger] manifests@[i]).0@ == path by {
                self.slots.lemma_pairs(path);
                let w = choose|w: int| 0 <= w < pairs.len() && (#[trigger] pairs[w]).0@ == path;
                assert(manifests@[w].0@ == path);
            }
        }
        manifests
    }
}

/// One partition set of the exported topology.
pub struct PartitionExport {
    /// The set's public path.
    pub path: ActorPath,
    /// The field carrying the shard key.
    pub key_field: String,
    /// The registered entities of the set.
    pub entities: Vec<ActorPath>,
}

/// One router rule of the exported topology.
pub struct RuleExport {
    /// The sender the rule matches, if declared.
    pub source: Option<ActorPath>,
    /// The schema the rule matches, if declared.
    pub schema: Option<SchemaId>,
    /// The destination the rule matches, if declared.
    pub dest: Option<ActorPath>,
    /// What the rule does: `tee` or `inline`.
    pub action: String,
    /// The observer.
    pub observer: ActorPath,
}

/// Whether an export shows a rule.
pub open spec fn shows_rule(export: RuleExport, rule: Rule) -> bool {
    &&& export.source == rule.source
    &&& export.schema == rule.schema
    &&& export.dest == rule.dest
    &&& match rule.action {
        RuleAction::Tee(observer) => export.action@ == "tee"@ && export.observer == observer,
        RuleAction::Inline(observer) => export.action@ == "inline"@ && export.observer == observer,
    }
}

/// Whether a list holds exactly the registered paths below a public path, each
/// once.
pub open spec fn entities_below(slots: Map<Seq<char>, SlotView>, public: Seq<char>, entities: Seq<Seq<char>>) -> bool {
    &&& entities.no_duplicates()
    &&& forall|path: Seq<char>| #[trigger]
        entities.contains(path) <==> slots.dom().contains(path) && lies_below(public, path)
}

/// Copies an optional path.
fn copy_path(path: &Option<ActorPath>) -> (copy: Option<ActorPath>)
    ensures
        copy == *path,
{
    match path {
        Some(path) => Some(path.clone()),
        None => None,
    }
}

/// What is exported of a rule.
fn export_rule(rule: &Rule) -> (export: RuleExport)
    ensures
        shows_rule(export, *rule),
{
    let (action, observer) = match &rule.action {
        RuleAction::Tee(observer) => ("tee", observer),
        RuleAction::Inline(observer) => ("inline", observer),
    };
    RuleExport {
        source: copy_path(&rule.source),
        schema: match &rule.schema {
            Some(schema) => Some(schema.clone()),
            None => None,
        },
        dest: copy_path(&rule.dest),
        action: action.to_owned(),
        observer: observer.clone(),
    }
}

impl Registry {
    /// The registered paths below a public path, each once.
    pub fn entities_of(&self, public: &ActorPath) -> (entities: Vec<ActorPath>)
        ensures
            entities_below(self@.slots, public@, paths_of(entities@)),
    {
        let n = self.slots.len();
        let ghost pairs = self.slots.pairs();
        let mut entities: Vec<ActorPath> = Vec::new();
        let mut p: usize = 0;
        while p < n
            invariant
                n == pairs.len(),
                pairs == self.slots.pairs(),
                p <= n,
                forall|i: int, j: int| 0 <= i < j < n ==> (#[trigger] pairs[i]).0@ != (#[trigger] pairs[j]).0@,
                forall|i: int|
                    0 <= i < entities@.len() ==> lies_below(public@, (#[trigger] entities@[i])@)
                        && self.slots@.dom().contains(entities@[i]@) && met(pairs, p as int, entities@[i]@),
                forall|i: int, j: int|
                    0 <= i < j < entities@.len() ==> (#[trigger] entities@[i])@ != (#[trigger] entities@[j])@,
                forall|w: int|
                    0 <= w < p && lies_below(public@, (#[trigger] pairs[w]).0@) ==> paths_of(entities@).contains(
                        pairs[w].0@,
                    ),
            decreases n - p,
        {
            let pair = self.slots.at(p);
            let ghost before = entities@;
            let ghost path = pair.0@;
            proof {
                assert forall|i: int| 0 <= i < before.len() implies (#[trigger] before[i])@ != path by {
                    assert(met(pairs, p as int, before[i]@));
                    let w = choose|w: int| 0 <= w < p && (#[trigger] pairs[w]).0@ == before[i]@;
                    assert(pairs[w].0@ != pairs[p as int].0@);
                }
            }
            if below(public, &pair.0).is_some() {
                entities.push(pair.0.clone());
                assert(paths_of(entities@)[before.len() as int] == path);
            }
            p += 1;
            proof {
                assert(pairs[p - 1].0@ == path);
                assert(met(pairs, p as int, path));
                assert forall|i: int| 0 <= i < entities@.len() implies met(pairs, p as int, (#[trigger] entities@[i])@) by {
                    if i < before.len() {
                        assert(entities@[i] == before[i]);
                        assert(met(pairs, p - 1, before[i]@));
                        let w = choose|w: int| 0 <= w < p - 1 && (#[trigger] pairs[w]).0@ == before[i]@;
                        assert(pairs[w].0@ == entities@[i]@);
                    }
                }
                assert forall|w: int|
                    0 <= w < p && lies_below(public@, (#[trigger] pairs[w]).0@) implies paths_of(entities@).contains(
                    pairs[w].0@,
                ) by {
                    if w < p - 1 {
                        assert(paths_of(before).contains(pairs[w].0@));
                        let x = choose|x: int| 0 <= x < before.len() && paths_of(before)[x] == pairs[w].0@;
                        assert(paths_of(entities@)[x] == paths_of(before)[x]);
                    }
                }
            }
        }
        proof {
            let names = paths_of(entities@);
            assert forall|i: int, j: int| 0 <= i < names.len() && 0 <= j < names.len() && i != j implies names[i]
                != names[j] by {
                assert(names[i] == entities@[i]@ && names[j] == entities@[j]@);
            }
            assert forall|path: Seq<char>| #[trigger] names.contains(path) <==> self@.slots.dom().contains(path)
                && lies_below(public@, path) by {
                if names.contains(path) {
                    let i = choose|i: int| 0 <= i < names.len() && names[i] == path;
                    assert(entities@[i]@ == path);
                }
                if self@.slots.dom().contains(path) && lies_below(public@, path) {
                    self.slots.lemma_pairs(path);
                    let w = choose|w: int| 0 <= w < pairs.len() && (#[trigger] pairs[w]).0@ == path;
                    assert(names.contains(pairs[w].0@));
                }
            }
        }
        entities
    }

    /// The declared partition sets with their registered entities, each set
    /// once, and the rules in priority order.
    pub fn topology(&self) -> (topology: (Vec<PartitionExport>, Vec<RuleExport>))
        requires
            self.wf(),
        ensures
            forall|i: int|
                0 <= i < topology.0@.len() ==> self@.partitions.dom().contains((#[trigger] topology.0@[i]).path@)
                    && topology.0@[i].key_field@ == self@.partitions[topology.0@[i].path@].key_field@
                    && entities_below(self@.slots, topology.0@[i].path@, paths_of(topology.0@[i].entities@)),
            forall|i: int, j: int|
                0 <= i < j < topology.0@.len() ==> (#[trigger] topology.0@[i]).path@ != (#[trigger] topology.0@[j]).path@,
            forall|public: Seq<char>| #[trigger]
                self@.partitions.dom().contains(public) ==> exists|i: int|
                    0 <= i < topology.0@.len() && (#[trigger] topology.0@[i]).path@ == public,
            topology.1@.len() == self@.rules.len(),
            forall|i: int|
                0 <= i < topology.1@.len() ==> shows_rule(#[trigger] topology.1@[i], self@.rules[i]),
    {
        let n = self.partitions.len();
        let ghost pairs = self.partitions.pairs();
        let mut partitions: Vec<PartitionExport> = Vec::new();
        let mut p: usize = 0;
        while p < n
            invariant
                n == pairs.len(),
                pairs == self.partitions.pairs(),
                p <= n,
                partitions@.len() == p,
                forall|i: int|
                    0 <= i < p ==> (#[trigger] partitions@[i]).path@ == pairs[i].0@ && self@.partitions.dom().contains(
                        partitions@[i].path@,
                    ) && partitions@[i].key_field@ == self@.partitions[partitions@[i].path@].key_field@
                        && entities_below(self@.slots, partitions@[i].path@, paths_of(partitions@[i].entities@)),
            decreases n - p,
        {
            let pair = self.partitions.at(p);
            partitions.push(
                PartitionExport {
                    path: pair.0.clone(),
                    key_field: pair.1.key_field.clone(),
                    entities: self.entities_of(&pair.0),
                },
            );
            p += 1;
        }
        let mut rules: Vec<RuleExport> = Vec::new();
        let mut r: usize = 0;
        while r < self.rules.len()
            invariant
                r <= self.rules.len(),
                rules@.len() == r,
                forall|i: int| 0 <= i < r ==> shows_rule(#[trigger] rules@[i], self.rules@[i]),
            decreases self.rules.len() - r,
        {
            rules.push(export_rule(&self.rules[r]));
            r += 1;
        }
        proof {
            assert forall|i: int, j: int| 0 <= i < j < partitions@.len() implies (#[trigger] partitions@[i]).path@ != (
            #[trigger] partitions@[j]).path@ by {
                assert(pairs[i].0@ != pairs[j].0@);
            }
            assert forall|public: Seq<char>| #[trigger] self@.partitions.dom().contains(public) implies exists|i: int|
                0 <= i < partitions@.len() && (#[trigger] partitions@[i]).path@ == public by {
                self.partitions.lemma_pairs(public);
                let w = choose|w: int| 0 <= w < pairs.len() && (#[trigger] pairs[w]).0@ == public;
                assert(partitions@[w].path@ == public);
            }
        }
        (partitions, rules)
    }
}

/// Whether a path is among the first `n` of a walk over the slots.
spec fn met(pairs: Seq<(ActorPath, Slot)>, n: int, path: Seq<char>) -> bool {
    exists|w: int| 0 <= w < n && (#[trigger] pairs[w]).0@ == path
}

/// Checks that bytes under a schema name may be decoded into type `T`: only
/// where `T` is the type of that name.
pub fn check_decode<T: Schema>(name: &SchemaId) -> (result: Result<(), SchemaError>)
    ensures
        match result {
            Ok(_) => name@ == T::declared_name(),
            Err(error) => error is InvalidDescriptor && name@ != T::declared_name(),
        },
{
    if name.same(&T::schema_id()) {
        Ok(())
    } else {
        Err(SchemaError::InvalidDescriptor)
    }
}

/// Whether a route step changed nothing but the cursor.
spec fn final_route(before: RegistryView, schema: Seq<char>, after: RegistryView) -> bool {
    after == (RegistryView { cursor: before.cursor_for(schema), ..before })
}

/// Whether a set of that public path is in a list.
pub open spec fn lists_public(specs: Seq<&ProjectorSetSpec>, public: Seq<char>) -> bool {
    exists|i: int| 0 <= i < specs.len() && (#[trigger] specs[i]).public@ == public
}

/// Whether a public path is among the first `n` of a walk.
spec fn walked(pairs: Seq<(ActorPath, ProjectorSetSpec)>, n: int, public: Seq<char>) -> bool {
    exists|w: int| 0 <= w < n && (#[trigger] pairs[w]).0@ == public
}

/// A declared handler keeps a route well formed.
proof fn lemma_with_handler_wf(route: Option<RouteView>, path: Seq<char>)
    requires
        route matches Some(route) ==> route.wf(),
    ensures
        with_handler(route, path).wf(),
{
}

/// A route that keeps a handler stays well formed without another.
proof fn lemma_without_wf(route: RouteView, path: Seq<char>)
    requires
        route.wf(),
        route.without(path).handlers.len() > 0,
    ensures
        route.without(path).wf(),
{
    lemma_filter_distinct(route.handlers, other_than(path));
    route.handlers.lemma_filter_len(other_than(path));
}

/// A filtered list without duplicates has none either.
proof fn lemma_filter_distinct(items: Seq<Seq<char>>, keeps: spec_fn(Seq<char>) -> bool)
    requires
        items.no_duplicates(),
    ensures
        items.filter(keeps).no_duplicates(),
        forall|item: Seq<char>| #[trigger] items.filter(keeps).contains(item) ==> items.contains(item),
    decreases items.len(),
{
    reveal(Seq::filter);
    if items.len() > 0 {
        let rest = items.drop_last();
        lemma_filter_distinct(rest, keeps);
        let kept = rest.filter(keeps);
        assert forall|item: Seq<char>| #[trigger] items.filter(keeps).contains(item) implies items.contains(item) by {
            if kept.contains(item) {
                let i = choose|i: int| 0 <= i < rest.len() && rest[i] == item;
                assert(items[i] == item);
            } else {
                let i = choose|i: int| 0 <= i < items.filter(keeps).len() && items.filter(keeps)[i] == item;
                if i < kept.len() {
                    assert(kept[i] == item);
                }
                assert(items[items.len() - 1] == item);
            }
        }
        if keeps(items.last()) {
            assert(!kept.contains(items.last())) by {
                if kept.contains(items.last()) {
                    assert(rest.contains(items.last()));
                    let i = choose|i: int| 0 <= i < rest.len() && rest[i] == items.last();
                    assert(items[i] == items[items.len() - 1]);
                }
            }
        }
    }
}

/// A path belongs to at most one set: no two public paths derive it.
pub proof fn law_one_owner(a: Seq<char>, b: Seq<char>, path: Seq<char>)
    requires
        owns(a, path),
        owns(b, path),
    ensures
        a == b,
{
    if a.len() < b.len() {
        let rest = path.skip(a.len() as int + 1);
        assert(rest[b.len() - a.len() - 1] == path[b.len() as int]);
        assert(rest.contains('/'));
    } else if b.len() < a.len() {
        let rest = path.skip(b.len() as int + 1);
        assert(rest[a.len() - b.len() - 1] == path[a.len() as int]);
        assert(rest.contains('/'));
    }
}

/// A set owns exactly the paths it derives from a one-segment key.
pub proof fn law_derived_is_owned(public: Seq<char>, key: Seq<char>)
    ensures
        owns(public, derived_path(public, key)) <==> key.len() > 0 && !key.contains('/'),
{
    let path = derived_path(public, key);
    assert(path.take(public.len() as int) =~= public);
    assert(path.skip(public.len() as int + 1) =~= key);
}

/// A rotating route serves its handlers in turn: each pick moves on to the next
/// handler, and from the last to the first.
pub proof fn law_rotation(route: RouteView, cursor: nat)
    requires
        route.rotating,
        route.handlers.len() > 0,
        cursor < route.handlers.len(),
    ensures
        route.under(cursor) == route.handlers[cursor as int],
        route.cursor_after(cursor) < route.handlers.len(),
        route.cursor_after(cursor) == if cursor + 1 == route.handlers.len() {
            0
        } else {
            cursor + 1
        },
{
    let n = route.handlers.len() as int;
    vstd::arithmetic::div_mod::lemma_small_mod(cursor, n as nat);
    if cursor + 1 == n {
        vstd::arithmetic::div_mod::lemma_mod_self_0(n);
    } else {
        vstd::arithmetic::div_mod::lemma_small_mod(cursor + 1, n as nat);
    }
}

/// Registering a schema again changes nothing: the first registration stands.
pub proof fn law_register_once(table: Map<Seq<char>, SchemaDef>, first: SchemaDef, again: SchemaDef)
    requires
        first.name@ == again.name@,
    ensures
        registered(registered(table, first), again) == registered(table, first),
{
}

/// Once a path's routes are dropped, no schema reaches it, and every other
/// handler keeps its schemas.
pub proof fn law_dropped_routes(routes: Map<Seq<char>, RouteView>, path: Seq<char>, schema: Seq<char>, other: Seq<char>)
    ensures
        routes_without(routes, path).dom().contains(schema) ==> !routes_without(
            routes,
            path,
        )[schema].handlers.contains(path),
        routes.dom().contains(schema) && routes[schema].handlers.contains(other) && other != path ==> routes_without(
            routes,
            path,
        ).dom().contains(schema) && routes_without(routes, path)[schema].handlers.contains(other),
{
    broadcast use vstd::seq_lib::group_filter_ensures;

    let handlers = routes[schema].handlers;
    let kept = handlers.filter(other_than(path));
    if routes.dom().contains(schema) && kept.contains(path) {
        let i = choose|i: int| 0 <= i < kept.len() && kept[i] == path;
        assert(other_than(path)(kept[i]));
    }
    if routes.dom().contains(schema) && handlers.contains(other) && other != path {
        let i = choose|i: int| 0 <= i < handlers.len() && handlers[i] == other;
        assert(other_than(path)(handlers[i]));
        assert(kept.contains(handlers[i]));
        assert(kept.len() > 0);
    }
}

/// A schema never routes to a projector-set member.
pub proof fn law_members_not_routed(registry: RegistryView, schema: Seq<char>)
    ensures
        registry.next_for(schema) matches Some(path) ==> !owned(registry.projector_sets, path),
{
    if let Some(route) = registry.route_of(schema) {
        lemma_first_plain(registry.projector_sets, route.handlers);
    }
}

/// The first plain handler is plain.
proof fn lemma_first_plain(sets: Map<Seq<char>, ProjectorSetSpec>, handlers: Seq<Seq<char>>)
    ensures
        first_plain(sets, handlers) matches Some(path) ==> !owned(sets, path) && handlers.contains(path),
    decreases handlers.len(),
{
    if handlers.len() > 0 {
        lemma_first_plain(sets, handlers.drop_first());
        if let Some(path) = first_plain(sets, handlers.drop_first()) {
            let i = choose|i: int| 0 <= i < handlers.drop_first().len() && handlers.drop_first()[i] == path;
            assert(handlers[i + 1] == path);
        }
        assert(handlers.contains(handlers[0]));
    }
}

/// A handler that is declared joins its schema's route: it stands behind those
/// declared before it, each of which keeps its place, and is listed once however
/// often it is declared. Handlers rotate as soon as there is a second.
pub proof fn law_handler_joins_the_route(route: Option<RouteView>, path: Seq<char>)
    requires
        route matches Some(route) ==> route.wf(),
    ensures
        with_handler(route, path).handlers.contains(path),
        with_handler(route, path).handlers.no_duplicates(),
        with_handler(Some(with_handler(route, path)), path) == with_handler(route, path),
        route is None ==> with_handler(route, path).handlers == seq![path] && !with_handler(route, path).rotating,
        route matches Some(route) ==> {
            let after = with_handler(Some(route), path);
            &&& forall|i: int| 0 <= i < route.handlers.len() ==> #[trigger] after.handlers[i] == route.handlers[i]
            &&& !route.handlers.contains(path) ==> after.handlers.len() == route.handlers.len() + 1 && after.rotating
            &&& route.handlers.contains(path) ==> after == route
        },
{
    let after = with_handler(route, path);
    if route is None {
        assert(after.handlers[0] == path);
    } else if !route->0.handlers.contains(path) {
        assert(after.handlers[route->0.handlers.len() as int] == path);
    }
}

/// Where a schema's next message goes: to the handler whose turn it is, or, where
/// a projector set derives that one, to the first handler that none derives; and
/// nowhere where every handler is derived.
pub proof fn law_turn_or_first_plain(sets: Map<Seq<char>, ProjectorSetSpec>, route: RouteView, cursor: nat)
    requires
        route.handlers.len() > 0,
    ensures
        ({
            let turn = route.handlers[cursor as int % route.handlers.len() as int];
            &&& !owned(sets, turn) ==> routed(sets, route, cursor) == Some(turn)
            &&& owned(sets, turn) ==> match routed(sets, route, cursor) {
                Some(path) => exists|k: int|
                    0 <= k < route.handlers.len() && #[trigger] route.handlers[k] == path && !owned(sets, path)
                        && forall|j: int| 0 <= j < k ==> owned(sets, #[trigger] route.handlers[j]),
                None => forall|j: int| 0 <= j < route.handlers.len() ==> owned(sets, #[trigger] route.handlers[j]),
            }
        }),
{
    lemma_first_plain_place(sets, route.handlers);
}

/// The first plain handler has only derived ones before it.
proof fn lemma_first_plain_place(sets: Map<Seq<char>, ProjectorSetSpec>, handlers: Seq<Seq<char>>)
    ensures
        match first_plain(sets, handlers) {
            Some(path) => exists|k: int|
                0 <= k < handlers.len() && #[trigger] handlers[k] == path && !owned(sets, path) && forall|j: int|
                    0 <= j < k ==> owned(sets, #[trigger] handlers[j]),
            None => forall|j: int| 0 <= j < handlers.len() ==> owned(sets, #[trigger] handlers[j]),
        },
    decreases handlers.len(),
{
    if handlers.len() > 0 {
        if !owned(sets, handlers[0]) {
        } else {
            let rest = handlers.drop_first();
            lemma_first_plain_place(sets, rest);
            match first_plain(sets, rest) {
                Some(path) => {
                    let k = choose|k: int|
                        0 <= k < rest.len() && #[trigger] rest[k] == path && !owned(sets, path) && forall|j: int|
                            0 <= j < k ==> owned(sets, #[trigger] rest[j]);
                    assert(handlers[k + 1] == path);
                    assert forall|j: int| 0 <= j < k + 1 implies owned(sets, #[trigger] handlers[j]) by {
                        if j > 0 {
                            assert(rest[j - 1] == handlers[j]);
                        }
                    }
                },
                None => {
                    assert forall|j: int| 0 <= j < handlers.len() implies owned(sets, #[trigger] handlers[j]) by {
                        if j > 0 {
                            assert(rest[j - 1] == handlers[j]);
                        }
                    }
                },
            }
        }
    }
}

/// Sending to a schema moves the turn on where its handlers rotate, and moves
/// nothing otherwise; a schema without a route has no next handler.
pub proof fn law_sends_move_the_turn(registry: RegistryView, schema: Seq<char>)
    ensures
        !registry.routes.dom().contains(schema) ==> registry.next_for(schema) is None && registry.cursor_for(schema)
            == registry.cursor && registry.handlers(schema).len() == 0,
        registry.routes.dom().contains(schema) ==> registry.handlers(schema) == registry.routes[schema].handlers,
        registry.routes.dom().contains(schema) && !registry.routes[schema].rotating ==> registry.cursor_for(schema)
            == registry.cursor,
        registry.routes.dom().contains(schema) && registry.routes[schema].rotating
            && registry.routes[schema].handlers.len() > 0 ==> registry.cursor_for(schema) == (registry.cursor + 1) as int
            % registry.routes[schema].handlers.len() as int,
{
    if registry.routes.dom().contains(schema) {
        let n = registry.routes[schema].handlers.len() as int;
        if n > 0 {
            vstd::arithmetic::div_mod::lemma_mod_bound((registry.cursor + 1) as int, n);
        }
    }
}

/// Registering a schema files its descriptor under its name and touches no other.
pub proof fn law_registering_files_the_schema(table: Map<Seq<char>, SchemaDef>, def: SchemaDef, other: Seq<char>)
    ensures
        registered(table, def).dom().contains(def.name@),
        !table.dom().contains(def.name@) ==> registered(table, def)[def.name@] == def,
        table.dom().contains(other) ==> registered(table, def).dom().contains(other) && registered(table, def)[other]
            == table[other],
        other != def.name@ ==> registered(table, def).dom().contains(other) == table.dom().contains(other),
{
}

/// A set derives exactly the paths that consist of its public path, a slash and
/// one segment; and a path lies below a public path exactly where it continues
/// it behind a slash.
pub proof fn law_derived_paths_are_the_sets_own(public: Seq<char>, path: Seq<char>)
    ensures
        owns(public, path) <==> exists|key: Seq<char>|
            key.len() > 0 && !key.contains('/') && path == #[trigger] (public + seq!['/'] + key),
        lies_below(public, path) <==> exists|rest: Seq<char>| path == #[trigger] (public + seq!['/'] + rest),
{
    let n = public.len() as int;
    if lies_below(public, path) {
        let rest = path.skip(n + 1);
        assert forall|i: int| 0 <= i < n implies path[i] == public[i] by {
            assert(path.take(n)[i] == path[i]);
        }
        assert(path =~= public + seq!['/'] + rest);
    }
    if exists|rest: Seq<char>| path == #[trigger] (public + seq!['/'] + rest) {
        let rest = choose|rest: Seq<char>| path == #[trigger] (public + seq!['/'] + rest);
        assert(path.take(n) =~= public);
        assert(path[n] == '/');
        assert(path.skip(n + 1) =~= rest);
    }
    if exists|key: Seq<char>|
        key.len() > 0 && !key.contains('/') && path == #[trigger] (public + seq!['/'] + key) {
        let key = choose|key: Seq<char>|
            key.len() > 0 && !key.contains('/') && path == #[trigger] (public + seq!['/'] + key);
        assert(path.take(n) =~= public);
        assert(path.skip(n + 1) =~= key);
    }
    if owns(public, path) {
        assert(lies_below(public, path));
        let key = path.skip(n + 1);
        assert(path =~= public + seq!['/'] + key) by {
            assert forall|i: int| 0 <= i < n implies path[i] == public[i] by {
                assert(path.take(n)[i] == path[i]);
            }
        }
    }
}

/// Dropping a path's routes takes the path out of every route and nothing else:
/// the other handlers keep their order, and a schema keeps its route exactly
/// where another handler is left.
pub proof fn law_dropped_routes_keep_order(routes: Map<Seq<char>, RouteView>, path: Seq<char>, schema: Seq<char>)
    ensures
        routes_without(routes, path).dom().contains(schema) ==> routes.dom().contains(schema),
        routes_without(routes, path).dom().contains(schema) ==> routes_without(routes, path)[schema].handlers
            == routes[schema].handlers.filter(|handler: Seq<char>| handler != path) && routes_without(
            routes,
            path,
        )[schema].rotating == routes[schema].rotating,
        routes.dom().contains(schema) ==> (routes_without(routes, path).dom().contains(schema) <==> exists|i: int|
            0 <= i < routes[schema].handlers.len() && #[trigger] routes[schema].handlers[i] != path),
{
    broadcast use vstd::seq_lib::group_filter_ensures;

    let keeps = |handler: Seq<char>| handler != path;
    assert(other_than(path) =~= keeps);
    let handlers = routes[schema].handlers;
    let kept = handlers.filter(other_than(path));
    if kept.len() > 0 {
        assert(kept.contains(kept[0]));
        handlers.lemma_filter_contains_rev(other_than(path), kept[0]);
        assert(other_than(path)(kept[0]));
        let i = choose|i: int| 0 <= i < handlers.len() && handlers[i] == kept[0];
        assert(handlers[i] != path);
    }
    if exists|i: int| 0 <= i < handlers.len() && #[trigger] handlers[i] != path {
        let i = choose|i: int| 0 <= i < handlers.len() && #[trigger] handlers[i] != path;
        assert(other_than(path)(handlers[i]));
        assert(kept.contains(handlers[i]));
    }
}

/// A projector set can be installed where everything it consumes is a registered
/// event and one of those declares its key, and only there.
pub proof fn law_installable_sets(schemas: Map<Seq<char>, SchemaDef>, consumed: Seq<Seq<char>>, field: Seq<char>)
    ensures
        installable(schemas, consumed, field) ==> consumed.len() > 0,
        installable(schemas, consumed, field) ==> forall|i: int|
            0 <= i < consumed.len() ==> schemas.dom().contains(#[trigger] consumed[i]) && schemas[consumed[i]].kind
                == SchemaKind::Event,
        (forall|i: int|
            0 <= i < consumed.len() ==> schemas.dom().contains(#[trigger] consumed[i]) && schemas[consumed[i]].kind
                == SchemaKind::Event) && (exists|i: int, f: int|
            0 <= i < consumed.len() && 0 <= f < schemas[consumed[i]].fields@.len() && #[trigger] schemas[consumed[i]].fields@[f].name@
                == field && schemas[consumed[i]].fields@[f].role == Some(FieldRole::ShardKey)) <==> installable(
            schemas,
            consumed,
            field,
        ),
{
    if installable(schemas, consumed, field) {
        assert forall|i: int| 0 <= i < consumed.len() implies schemas.dom().contains(#[trigger] consumed[i])
            && schemas[consumed[i]].kind == SchemaKind::Event by {
            assert(is_event(schemas, consumed[i]));
        }
        let i = choose|i: int| 0 <= i < consumed.len() && declares_key(schemas[#[trigger] consumed[i]], field);
        let def = schemas[consumed[i]];
        let f = choose|f: int|
            0 <= f < def.fields@.len() && (#[trigger] def.fields@[f]).name@ == field && def.fields@[f].role == Some(
                FieldRole::ShardKey,
            );
        assert(schemas[consumed[i]].fields@[f].name@ == field);
    }
    if exists|i: int, f: int|
        0 <= i < consumed.len() && 0 <= f < schemas[consumed[i]].fields@.len() && #[trigger] schemas[consumed[i]].fields@[f].name@
            == field && schemas[consumed[i]].fields@[f].role == Some(FieldRole::ShardKey) {
        let (i, f) = choose|i: int, f: int|
            0 <= i < consumed.len() && 0 <= f < schemas[consumed[i]].fields@.len() && #[trigger] schemas[consumed[i]].fields@[f].name@
                == field && schemas[consumed[i]].fields@[f].role == Some(FieldRole::ShardKey);
        assert(declares_key(schemas[consumed[i]], field)) by {
            assert(schemas[consumed[i]].fields@[f].name@ == field);
        }
    }
}

/// A partition set needs a command that declares its key: one of the registered
/// schemas is a command with that field as its shard key.
pub proof fn law_command_key(schemas: Map<Seq<char>, SchemaDef>, field: Seq<char>, name: Seq<char>, f: int)
    requires
        schemas.dom().contains(name),
        0 <= f < schemas[name].fields@.len(),
    ensures
        schemas[name].kind == SchemaKind::Command && schemas[name].fields@[f].name@ == field
            && schemas[name].fields@[f].role == Some(FieldRole::ShardKey) ==> command_declares_key(schemas, field),
        (forall|other: Seq<char>| #[trigger]
            schemas.dom().contains(other) ==> schemas[other].kind != SchemaKind::Command) ==> !command_declares_key(
            schemas,
            field,
        ),
{
    if schemas[name].kind == SchemaKind::Command && schemas[name].fields@[f].name@ == field
        && schemas[name].fields@[f].role == Some(FieldRole::ShardKey) {
        assert(declares_key(schemas[name], field));
    }
}

/// A set's entities are the registered paths that continue its public path behind
/// a slash, each once.
pub proof fn law_entities_of_a_set(
    slots: Map<Seq<char>, SlotView>,
    public: Seq<char>,
    entities: Seq<Seq<char>>,
    rest: Seq<char>,
    i: int,
)
    requires
        entities_below(slots, public, entities),
        0 <= i < entities.len(),
    ensures
        slots.dom().contains(public + seq!['/'] + rest) ==> entities.contains(public + seq!['/'] + rest),
        slots.dom().contains(entities[i]),
        exists|rest: Seq<char>| entities[i] == #[trigger] (public + seq!['/'] + rest),
        forall|j: int| 0 <= j < entities.len() && j != i ==> #[trigger] entities[j] != entities[i],
{
    law_derived_paths_are_the_sets_own(public, public + seq!['/'] + rest);
    assert(lies_below(public, public + seq!['/'] + rest)) by {
        let path = public + seq!['/'] + rest;
        assert(path.take(public.len() as int) =~= public);
    }
    assert(entities.contains(entities[i]));
    law_derived_paths_are_the_sets_own(public, entities[i]);
}

/// An exported rule is the rule: its criteria, what it does and whom it involves.
pub proof fn law_exported_rule_is_the_rule(export: RuleExport, rule: Rule)
    requires
        shows_rule(export, rule),
    ensures
        export.source == rule.source,
        export.schema == rule.schema,
        export.dest == rule.dest,
        rule.action == RuleAction::Tee(export.observer) && export.action@ == "tee"@ || rule.action
            == RuleAction::Inline(export.observer) && export.action@ == "inline"@,
{
}

/// A path belongs to a projector set exactly where it is the public path of an
/// installed set, a slash and one segment.
pub proof fn law_owned_paths_lie_under_a_set(sets: Map<Seq<char>, ProjectorSetSpec>, path: Seq<char>)
    ensures
        owned(sets, path) <==> exists|public: Seq<char>, key: Seq<char>|
            sets.dom().contains(public) && key.len() > 0 && !key.contains('/') && path == #[trigger] (public
                + seq!['/'] + key),
{
    if owned(sets, path) {
        let public = choose|public: Seq<char>| #[trigger] sets.dom().contains(public) && owns(public, path);
        law_derived_paths_are_the_sets_own(public, path);
        let key = choose|key: Seq<char>|
            key.len() > 0 && !key.contains('/') && path == #[trigger] (public + seq!['/'] + key);
        assert(path == public + seq!['/'] + key);
    }
    if exists|public: Seq<char>, key: Seq<char>|
        sets.dom().contains(public) && key.len() > 0 && !key.contains('/') && path == #[trigger] (public + seq![
            '/',
        ] + key) {
        let (public, key) = choose|public: Seq<char>, key: Seq<char>|
            sets.dom().contains(public) && key.len() > 0 && !key.contains('/') && path == #[trigger] (public + seq![
                '/',
            ] + key);
        law_derived_paths_are_the_sets_own(public, path);
        assert(owns(public, path));
    }
}

/// A path answers through its own slot: the slot filed under it says what runs
/// there and what it may emit, slots of other paths have no say, and without a
/// slot nothing runs there and nothing may be emitted.
pub proof fn law_slot_speaks_for_its_path(
    registry: RegistryView,
    path: Seq<char>,
    slot: SlotView,
    other: Seq<char>,
    schema: Seq<char>,
)
    ensures
        (RegistryView { slots: registry.slots.insert(path, slot), ..registry }).endpoint(path) == slot.endpoint,
        (RegistryView { slots: registry.slots.insert(path, slot), ..registry }).emits(path, schema) <==> exists|k: int|
            0 <= k < slot.manifest.emits.len() && #[trigger] slot.manifest.emits[k] == schema,
        other != path ==> (RegistryView { slots: registry.slots.insert(path, slot), ..registry }).endpoint(other)
            == registry.endpoint(other),
        other != path ==> (RegistryView { slots: registry.slots.insert(path, slot), ..registry }).emits(other, schema)
            == registry.emits(other, schema),
        (RegistryView { slots: registry.slots.remove(path), ..registry }).endpoint(path) is None,
        !(RegistryView { slots: registry.slots.remove(path), ..registry }).emits(path, schema),
{
}

} // verus!
