//! The declarative spawn surface: builders accumulate what an actor handles and
//! emits, and come to a plan the host spawns from.

use vstd::prelude::*;

use crate::actor::ActorKind;
use crate::actor::ActorPath;
use crate::actor::SnapshotCadence;
use crate::inbox::OverloadPolicy;
use crate::json::members_view;
use crate::json::object_tree;
use crate::json::Json;
use crate::json::JsonTree;
use crate::json::JsonView;
use crate::registry::described_by;
use crate::registry::duplicate_chars;
use crate::registry::is_event;
use crate::registry::registered;
use crate::registry::Registry;
use crate::registry::RegistryView;
use crate::registry::TypeClaims;
use crate::registry::TypeOwner;
use crate::schema::copy_ids;
use crate::schema::declare;
use crate::schema::declare_id;
use crate::schema::law_declare_once;
use crate::schema::names_of;
use crate::schema::ActorManifest;
use crate::schema::ManifestView;
use crate::schema::Schema;
use crate::schema::SchemaDef;
use crate::schema::SchemaError;
use crate::schema::SchemaId;
use crate::schema::SchemaKind;

verus! {

/// How an actor is spawned.
#[derive(Debug, Clone, Copy, PartialEq, Eq, Structural)]
pub struct SpawnOpts {
    /// The snapshot cadence.
    pub snapshot: SnapshotCadence,
    /// The mailbox capacity.
    pub mailbox_capacity: usize,
    /// The mailbox's overload policy.
    pub mailbox_policy: OverloadPolicy,
    /// The inbox depth that reports backpressure.
    pub high_watermark: Option<u64>,
    /// After how many idle milliseconds the actor passivates.
    pub passivation: Option<u64>,
}

/// How an actor is spawned where nothing else is said.
pub open spec fn default_opts() -> SpawnOpts {
    SpawnOpts {
        snapshot: SnapshotCadence::Off,
        mailbox_capacity: 64,
        mailbox_policy: OverloadPolicy::Block,
        high_watermark: None,
        passivation: None,
    }
}

impl Default for SpawnOpts {
    fn default() -> (opts: Self)
        ensures
            opts == default_opts(),
    {
        SpawnOpts {
            snapshot: SnapshotCadence::Off,
            mailbox_capacity: 64,
            mailbox_policy: OverloadPolicy::Block,
            high_watermark: None,
            passivation: None,
        }
    }
}

/// A list of names with others declared, one after the other.
pub open spec fn declare_all(names: Seq<Seq<char>>, more: Seq<Seq<char>>) -> Seq<Seq<char>>
    decreases more.len(),
{
    if more.len() == 0 {
        names
    } else {
        declare(declare_all(names, more.drop_last()), more.last())
    }
}

/// Declares ids in a list, one after the other.
fn declare_ids(ids: &mut Vec<SchemaId>, more: Vec<SchemaId>)
    ensures
        names_of(final(ids)@) == declare_all(names_of(old(ids)@), names_of(more@)),
{
    let ghost before = names_of(ids@);
    let ghost names = names_of(more@);
    let mut i: usize = 0;
    assert(names.take(0) =~= Seq::empty());
    while i < more.len()
        invariant
            names == names_of(more@),
            i <= more.len(),
            names_of(ids@) == declare_all(before, names.take(i as int)),
        decreases more.len() - i,
    {
        let ghost upto = names.take(i + 1);
        assert(upto.drop_last() =~= names.take(i as int));
        assert(upto.last() == more@[i as int]@);
        declare_id(ids, more[i].clone());
        i += 1;
    }
    assert(names.take(i as int) =~= names);
}

/// What the host spawns from.
pub struct SpawnPlan {
    /// Where to spawn the actor.
    pub path: ActorPath,
    /// What it declares.
    pub manifest: ActorManifest,
    /// Its arguments.
    pub args: Json,
    /// How it is spawned.
    pub opts: SpawnOpts,
}

/// The manifest of a spawn: the actor's own edges, then the builder's.
pub open spec fn merged(
    base: ManifestView,
    handles: Seq<Seq<char>>,
    emits: Seq<Seq<char>>,
    kind: ActorKind,
) -> ManifestView {
    ManifestView {
        handles: declare_all(base.handles, handles),
        emits: declare_all(base.emits, emits),
        kind: Some(kind),
    }
}

/// Merges a builder's edges into an actor's own.
pub fn merge_manifest(
    base: ActorManifest,
    handles: Vec<SchemaId>,
    emits: Vec<SchemaId>,
    kind: ActorKind,
) -> (manifest: ActorManifest)
    ensures
        manifest@ == merged(base@, names_of(handles@), names_of(emits@), kind),
{
    let mut manifest = base;
    declare_ids(&mut manifest.handles, handles);
    declare_ids(&mut manifest.emits, emits);
    manifest.kind(kind)
}

/// Whether a schema type was registered: its name is claimed for the type, and
/// its descriptor is in the table.
pub open spec fn declared_type<S: Schema>(
    before: RegistryView,
    claims: Map<Seq<char>, u64>,
    owner: u64,
    after: RegistryView,
    claimed: Map<Seq<char>, u64>,
) -> bool {
    &&& claims.dom().contains(S::declared_name()) ==> claims[S::declared_name()] == owner
    &&& claimed == claims.insert(S::declared_name(), owner)
    &&& exists|def: SchemaDef|
        described_by::<S>(def) && after == (RegistryView {
            schemas: #[trigger] registered(before.schemas, def),
            ..before
        })
}

/// Whether a schema type was refused: another type owns its name, and nothing
/// changed.
pub open spec fn refused_type<S: Schema>(
    before: RegistryView,
    claims: Map<Seq<char>, u64>,
    owner: TypeOwner,
    after: RegistryView,
    claimed: Map<Seq<char>, u64>,
    error: SchemaError,
) -> bool {
    &&& error is DuplicateType
    &&& error->DuplicateType_0@ == duplicate_chars(S::declared_name(), owner.label@)
    &&& claims.dom().contains(S::declared_name()) && claims[S::declared_name()] != owner.id
    &&& claimed == claims
    &&& after == before
}

/// The spawn of an event-sourced actor, in the making.
pub struct SpawnBuilder {
    /// Where to spawn it.
    pub path: Option<ActorPath>,
    /// Its arguments.
    pub args: Json,
    /// The schemas it handles.
    pub handles: Vec<SchemaId>,
    /// The schemas it emits.
    pub emits: Vec<SchemaId>,
    /// How it is spawned.
    pub opts: SpawnOpts,
}

/// Begins the spawn of an event-sourced actor.
pub fn spawn_es_builder() -> (builder: SpawnBuilder)
    ensures
        builder.begins(),
{
    SpawnBuilder {
        path: None,
        args: Json::default(),
        handles: Vec::new(),
        emits: Vec::new(),
        opts: SpawnOpts::default(),
    }
}

impl SpawnBuilder {
    /// Whether nothing was declared yet.
    pub open spec fn begins(self) -> bool {
        &&& self.path is None
        &&& self.args@ is Null
        &&& self.handles@.len() == 0
        &&& self.emits@.len() == 0
        &&& self.opts == default_opts()
    }

    /// Where to spawn the actor.
    pub fn at(self, path: ActorPath) -> (builder: Self)
        ensures
            builder == (SpawnBuilder { path: Some(path), ..self }),
    {
        SpawnBuilder { path: Some(path), ..self }
    }

    /// The arguments.
    pub fn args(self, args: Json) -> (builder: Self)
        ensures
            builder == (SpawnBuilder { args, ..self }),
    {
        SpawnBuilder { args, ..self }
    }

    /// Declares a handled schema once, and registers its type.
    pub fn handles<C: Schema>(self, registry: &mut Registry, claims: &mut TypeClaims, owner: &TypeOwner) -> (result: Result<
        Self,
        SchemaError,
    >)
        requires
            old(registry).wf(),
        ensures
            final(registry).wf(),
            match result {
                Ok(builder) => {
                    &&& declared_type::<C>(old(registry)@, old(claims)@, owner.id, final(registry)@, final(claims)@)
                    &&& names_of(builder.handles@) == declare(names_of(self.handles@), C::declared_name())
                    &&& builder == (SpawnBuilder { handles: builder.handles, ..self })
                },
                Err(error) => refused_type::<C>(
                    old(registry)@,
                    old(claims)@,
                    *owner,
                    final(registry)@,
                    final(claims)@,
                    error,
                ),
            },
    {
        match registry.register_schema_of::<C>(claims, owner) {
            Ok(id) => {
                let mut builder = self;
                declare_id(&mut builder.handles, id);
                Ok(builder)
            },
            Err(error) => Err(error),
        }
    }

    /// Declares an emitted schema once, and registers its type.
    pub fn emits<E: Schema>(self, registry: &mut Registry, claims: &mut TypeClaims, owner: &TypeOwner) -> (result: Result<
        Self,
        SchemaError,
    >)
        requires
            old(registry).wf(),
        ensures
            final(registry).wf(),
            match result {
                Ok(builder) => {
                    &&& declared_type::<E>(old(registry)@, old(claims)@, owner.id, final(registry)@, final(claims)@)
                    &&& names_of(builder.emits@) == declare(names_of(self.emits@), E::declared_name())
                    &&& builder == (SpawnBuilder { emits: builder.emits, ..self })
                },
                Err(error) => refused_type::<E>(
                    old(registry)@,
                    old(claims)@,
                    *owner,
                    final(registry)@,
                    final(claims)@,
                    error,
                ),
            },
    {
        match registry.register_schema_of::<E>(claims, owner) {
            Ok(id) => {
                let mut builder = self;
                declare_id(&mut builder.emits, id);
                Ok(builder)
            },
            Err(error) => Err(error),
        }
    }

    /// The snapshot cadence.
    pub fn snapshot(self, cadence: SnapshotCadence) -> (builder: Self)
        ensures
            builder == (SpawnBuilder { opts: SpawnOpts { snapshot: cadence, ..self.opts }, ..self }),
    {
        SpawnBuilder { opts: SpawnOpts { snapshot: cadence, ..self.opts }, ..self }
    }

    /// The mailbox's capacity and overload policy.
    pub fn mailbox(self, capacity: usize, policy: OverloadPolicy) -> (builder: Self)
        ensures
            builder == (SpawnBuilder {
                opts: SpawnOpts { mailbox_capacity: capacity, mailbox_policy: policy, ..self.opts },
                ..self
            }),
    {
        SpawnBuilder {
            opts: SpawnOpts { mailbox_capacity: capacity, mailbox_policy: policy, ..self.opts },
            ..self
        }
    }

    /// The inbox depth that reports backpressure.
    pub fn high_watermark(self, depth: u64) -> (builder: Self)
        ensures
            builder == (SpawnBuilder { opts: SpawnOpts { high_watermark: Some(depth), ..self.opts }, ..self }),
    {
        SpawnBuilder { opts: SpawnOpts { high_watermark: Some(depth), ..self.opts }, ..self }
    }

    /// After how many idle milliseconds the actor passivates.
    pub fn passivate_after(self, idle_for: u64) -> (builder: Self)
        ensures
            builder == (SpawnBuilder { opts: SpawnOpts { passivation: Some(idle_for), ..self.opts }, ..self }),
    {
        SpawnBuilder { opts: SpawnOpts { passivation: Some(idle_for), ..self.opts }, ..self }
    }

    /// Comes to the plan of the spawn, given the actor's own edges.
    pub fn start(self, base: ActorManifest) -> (plan: SpawnPlan)
        requires
            self.path is Some,
        ensures
            Some(plan.path) == self.path,
            plan.manifest@ == merged(base@, names_of(self.handles@), names_of(self.emits@), ActorKind::EventSourced),
            plan.args == self.args,
            plan.opts == self.opts,
    {
        let path = self.path.unwrap();
        let manifest = merge_manifest(base, self.handles, self.emits, ActorKind::EventSourced);
        SpawnPlan { path, manifest, args: self.args, opts: self.opts }
    }
}

/// The spawn of an service, in the making.
pub struct ServiceBuilder {
    /// Where to spawn it.
    pub path: Option<ActorPath>,
    /// Its arguments.
    pub args: Json,
    /// The schemas it handles.
    pub handles: Vec<SchemaId>,
    /// The schemas it emits.
    pub emits: Vec<SchemaId>,
    /// How it is spawned.
    pub opts: SpawnOpts,
}

/// Begins the spawn of an service.
pub fn spawn_service_builder() -> (builder: ServiceBuilder)
    ensures
        builder.begins(),
{
    ServiceBuilder {
        path: None,
        args: Json::default(),
        handles: Vec::new(),
        emits: Vec::new(),
        opts: SpawnOpts::default(),
    }
}

impl ServiceBuilder {
    /// Whether nothing was declared yet.
    pub open spec fn begins(self) -> bool {
        &&& self.path is None
        &&& self.args@ is Null
        &&& self.handles@.len() == 0
        &&& self.emits@.len() == 0
        &&& self.opts == default_opts()
    }

    /// Where to spawn the service.
    pub fn at(self, path: ActorPath) -> (builder: Self)
        ensures
            builder == (ServiceBuilder { path: Some(path), ..self }),
    {
        ServiceBuilder { path: Some(path), ..self }
    }

    /// The arguments.
    pub fn args(self, args: Json) -> (builder: Self)
        ensures
            builder == (ServiceBuilder { args, ..self }),
    {
        ServiceBuilder { args, ..self }
    }

    /// Declares a handled schema once, and registers its type.
    pub fn handles<C: Schema>(self, registry: &mut Registry, claims: &mut TypeClaims, owner: &TypeOwner) -> (result: Result<
        Self,
        SchemaError,
    >)
        requires
            old(registry).wf(),
        ensures
            final(registry).wf(),
            match result {
                Ok(builder) => {
                    &&& declared_type::<C>(old(registry)@, old(claims)@, owner.id, final(registry)@, final(claims)@)
                    &&& names_of(builder.handles@) == declare(names_of(self.handles@), C::declared_name())
                    &&& builder == (ServiceBuilder { handles: builder.handles, ..self })
                },
                Err(error) => refused_type::<C>(
                    old(registry)@,
                    old(claims)@,
                    *owner,
                    final(registry)@,
                    final(claims)@,
                    error,
                ),
            },
    {
        match registry.register_schema_of::<C>(claims, owner) {
            Ok(id) => {
                let mut builder = self;
                declare_id(&mut builder.handles, id);
                Ok(builder)
            },
            Err(error) => Err(error),
        }
    }

    /// Declares an emitted schema once, and registers its type.
    pub fn emits<E: Schema>(self, registry: &mut Registry, claims: &mut TypeClaims, owner: &TypeOwner) -> (result: Result<
        Self,
        SchemaError,
    >)
        requires
            old(registry).wf(),
        ensures
            final(registry).wf(),
            match result {
                Ok(builder) => {
                    &&& declared_type::<E>(old(registry)@, old(claims)@, owner.id, final(registry)@, final(claims)@)
                    &&& names_of(builder.emits@) == declare(names_of(self.emits@), E::declared_name())
                    &&& builder == (ServiceBuilder { emits: builder.emits, ..self })
                },
                Err(error) => refused_type::<E>(
                    old(registry)@,
                    old(claims)@,
                    *owner,
                    final(registry)@,
                    final(claims)@,
                    error,
                ),
            },
    {
        match registry.register_schema_of::<E>(claims, owner) {
            Ok(id) => {
                let mut builder = self;
                declare_id(&mut builder.emits, id);
                Ok(builder)
            },
            Err(error) => Err(error),
        }
    }

    /// The mailbox's capacity and overload policy.
    pub fn mailbox(self, capacity: usize, policy: OverloadPolicy) -> (builder: Self)
        ensures
            builder == (ServiceBuilder {
                opts: SpawnOpts { mailbox_capacity: capacity, mailbox_policy: policy, ..self.opts },
                ..self
            }),
    {
        ServiceBuilder {
            opts: SpawnOpts { mailbox_capacity: capacity, mailbox_policy: policy, ..self.opts },
            ..self
        }
    }

    /// The inbox depth that reports backpressure.
    pub fn high_watermark(self, depth: u64) -> (builder: Self)
        ensures
            builder == (ServiceBuilder { opts: SpawnOpts { high_watermark: Some(depth), ..self.opts }, ..self }),
    {
        ServiceBuilder { opts: SpawnOpts { high_watermark: Some(depth), ..self.opts }, ..self }
    }

    /// After how many idle milliseconds the service passivates.
    pub fn passivate_after(self, idle_for: u64) -> (builder: Self)
        ensures
            builder == (ServiceBuilder { opts: SpawnOpts { passivation: Some(idle_for), ..self.opts }, ..self }),
    {
        ServiceBuilder { opts: SpawnOpts { passivation: Some(idle_for), ..self.opts }, ..self }
    }

    /// Comes to the plan of the spawn, given the service's own edges.
    pub fn start(self, base: ActorManifest) -> (plan: SpawnPlan)
        requires
            self.path is Some,
        ensures
            Some(plan.path) == self.path,
            plan.manifest@ == merged(base@, names_of(self.handles@), names_of(self.emits@), ActorKind::Service),
            plan.args == self.args,
            plan.opts == self.opts,
    {
        let path = self.path.unwrap();
        let manifest = merge_manifest(base, self.handles, self.emits, ActorKind::Service);
        SpawnPlan { path, manifest, args: self.args, opts: self.opts }
    }
}

/// The spawn of an actor defined outside Rust, in the making.
pub struct ForeignBuilder {
    /// Where to spawn it.
    pub path: Option<ActorPath>,
    /// The descriptor of the command it handles; `None` too where a given
    /// descriptor did not parse.
    pub schema: Option<SchemaDef>,
    /// Its genesis state.
    pub genesis: Json,
    /// The schemas it emits.
    pub emits: Vec<SchemaId>,
    /// Whether it can decide.
    pub decides: bool,
    /// Whether it can fold.
    pub folds: bool,
    /// How it is spawned.
    pub opts: SpawnOpts,
}

/// Begins the spawn of an actor defined outside Rust.
pub fn spawn_foreign() -> (builder: ForeignBuilder)
    ensures
        builder.begins(),
{
    let members: Vec<(String, JsonTree)> = Vec::new();
    assert(members_view(members@) =~= Seq::empty());
    ForeignBuilder {
        path: None,
        schema: None,
        genesis: Json::of(object_tree(members)),
        emits: Vec::new(),
        decides: false,
        folds: false,
        opts: SpawnOpts::default(),
    }
}

impl ForeignBuilder {
    /// Whether nothing was given yet: the genesis state is an empty document.
    pub open spec fn begins(self) -> bool {
        &&& self.path is None
        &&& self.schema is None
        &&& self.genesis@ == JsonView::Object(Seq::empty())
        &&& self.emits@.len() == 0
        &&& !self.decides
        &&& !self.folds
        &&& self.opts == default_opts()
    }

    /// Where to spawn the actor.
    pub fn at(self, path: ActorPath) -> (builder: Self)
        ensures
            builder == (ForeignBuilder { path: Some(path), ..self }),
    {
        ForeignBuilder { path: Some(path), ..self }
    }

    /// The descriptor of the command it handles; `None` where the given document is
    /// none.
    pub fn schema(self, schema: Option<SchemaDef>) -> (builder: Self)
        ensures
            builder == (ForeignBuilder { schema, ..self }),
    {
        ForeignBuilder { schema, ..self }
    }

    /// The genesis state.
    pub fn args(self, genesis: Json) -> (builder: Self)
        ensures
            builder == (ForeignBuilder { genesis, ..self }),
    {
        ForeignBuilder { genesis, ..self }
    }

    /// It can decide: the host holds its decision.
    pub fn handle(self) -> (builder: Self)
        ensures
            builder == (ForeignBuilder { decides: true, ..self }),
    {
        ForeignBuilder { decides: true, ..self }
    }

    /// It can fold: the host holds its fold.
    pub fn apply(self) -> (builder: Self)
        ensures
            builder == (ForeignBuilder { folds: true, ..self }),
    {
        ForeignBuilder { folds: true, ..self }
    }

    /// Declares an emitted schema once.
    pub fn emits_id(self, id: SchemaId) -> (builder: Self)
        ensures
            names_of(builder.emits@) == declare(names_of(self.emits@), id@),
            builder == (ForeignBuilder { emits: builder.emits, ..self }),
    {
        let mut builder = self;
        declare_id(&mut builder.emits, id);
        builder
    }

    /// The snapshot cadence.
    pub fn snapshot(self, cadence: SnapshotCadence) -> (builder: Self)
        ensures
            builder == (ForeignBuilder { opts: SpawnOpts { snapshot: cadence, ..self.opts }, ..self }),
    {
        ForeignBuilder { opts: SpawnOpts { snapshot: cadence, ..self.opts }, ..self }
    }

    /// The mailbox's capacity and overload policy.
    pub fn mailbox(self, capacity: usize, policy: OverloadPolicy) -> (builder: Self)
        ensures
            builder == (ForeignBuilder { opts: SpawnOpts { mailbox_capacity: capacity, mailbox_policy: policy, ..self.opts }, ..self }),
    {
        ForeignBuilder { opts: SpawnOpts { mailbox_capacity: capacity, mailbox_policy: policy, ..self.opts }, ..self }
    }

    /// Comes to the plan of the spawn and registers the command's schema. A
    /// part that was never given makes the descriptor invalid.
    pub fn start(self, registry: &mut Registry) -> (result: Result<SpawnPlan, SchemaError>)
        requires
            old(registry).wf(),
        ensures
            final(registry).wf(),
            match result {
                Ok(plan) => {
                    &&& Some(plan.path) == self.path
                    &&& self.schema is Some && self.decides && self.folds
                    &&& plan.manifest@ == (ManifestView {
                        handles: seq![self.schema->0.name@],
                        emits: declare_all(Seq::empty(), names_of(self.emits@)),
                        kind: Some(ActorKind::EventSourced),
                    })
                    &&& plan.args == self.genesis
                    &&& plan.opts == self.opts
                    &&& final(registry)@ == (RegistryView {
                        schemas: registered(old(registry)@.schemas, self.schema->0),
                        ..old(registry)@
                    })
                },
                Err(error) => {
                    &&& error is InvalidDescriptor
                    &&& self.path is None || self.schema is None || !self.decides || !self.folds
                    &&& final(registry)@ == old(registry)@
                },
            },
    {
        let ghost names = names_of(self.emits@);
        match (self.path, self.schema, self.decides, self.folds) {
            (Some(path), Some(schema), true, true) => {
                let id = registry.register_schema(schema);
                let base = ActorManifest::new().handles_id(id);
                assert(base@.handles =~= seq![schema.name@]);
                let none: Vec<SchemaId> = Vec::new();
                assert(names_of(none@) =~= Seq::empty());
                let manifest = merge_manifest(base, none, self.emits, ActorKind::EventSourced);
                Ok(SpawnPlan { path, manifest, args: self.genesis, opts: self.opts })
            },
            _ => Err(SchemaError::InvalidDescriptor),
        }
    }
}

/// The spawn of a projector, in the making.
pub struct ProjectorBuilder {
    /// Where to spawn it.
    pub path: Option<ActorPath>,
    /// Its arguments, for export only.
    pub args: Json,
    /// The fact schemas it consumes.
    pub consumed: Vec<SchemaId>,
    /// How it is spawned.
    pub opts: SpawnOpts,
}

/// Whether every name is a registered event.
pub open spec fn all_events(schemas: Map<Seq<char>, SchemaDef>, names: Seq<Seq<char>>) -> bool {
    forall|i: int| 0 <= i < names.len() ==> is_event(schemas, #[trigger] names[i])
}

/// Begins the spawn of a projector.
pub fn spawn_projector_builder() -> (builder: ProjectorBuilder)
    ensures
        builder.begins(),
{
    ProjectorBuilder { path: None, args: Json::default(), consumed: Vec::new(), opts: SpawnOpts::default() }
}

impl ProjectorBuilder {
    /// Whether nothing was declared yet.
    pub open spec fn begins(self) -> bool {
        &&& self.path is None
        &&& self.args@ is Null
        &&& self.consumed@.len() == 0
        &&& self.opts == default_opts()
    }

    /// Where to spawn the projector.
    pub fn at(self, path: ActorPath) -> (builder: Self)
        ensures
            builder == (ProjectorBuilder { path: Some(path), ..self }),
    {
        ProjectorBuilder { path: Some(path), ..self }
    }

    /// The arguments, for export only.
    pub fn args(self, args: Json) -> (builder: Self)
        ensures
            builder == (ProjectorBuilder { args, ..self }),
    {
        ProjectorBuilder { args, ..self }
    }

    /// Declares a consumed fact schema once, and registers its type.
    pub fn consumes<D: Schema>(self, registry: &mut Registry, claims: &mut TypeClaims, owner: &TypeOwner) -> (result: Result<
        Self,
        SchemaError,
    >)
        requires
            old(registry).wf(),
        ensures
            final(registry).wf(),
            match result {
                Ok(builder) => {
                    &&& declared_type::<D>(old(registry)@, old(claims)@, owner.id, final(registry)@, final(claims)@)
                    &&& names_of(builder.consumed@) == declare(names_of(self.consumed@), D::declared_name())
                    &&& builder == (ProjectorBuilder { consumed: builder.consumed, ..self })
                },
                Err(error) => refused_type::<D>(
                    old(registry)@,
                    old(claims)@,
                    *owner,
                    final(registry)@,
                    final(claims)@,
                    error,
                ),
            },
    {
        match registry.register_schema_of::<D>(claims, owner) {
            Ok(id) => {
                let mut builder = self;
                declare_id(&mut builder.consumed, id);
                Ok(builder)
            },
            Err(error) => Err(error),
        }
    }

    /// The snapshot cadence.
    pub fn snapshot(self, cadence: SnapshotCadence) -> (builder: Self)
        ensures
            builder == (ProjectorBuilder { opts: SpawnOpts { snapshot: cadence, ..self.opts }, ..self }),
    {
        ProjectorBuilder { opts: SpawnOpts { snapshot: cadence, ..self.opts }, ..self }
    }

    /// The mailbox's capacity and overload policy.
    pub fn mailbox(self, capacity: usize, policy: OverloadPolicy) -> (builder: Self)
        ensures
            builder == (ProjectorBuilder { opts: SpawnOpts { mailbox_capacity: capacity, mailbox_policy: policy, ..self.opts }, ..self }),
    {
        ProjectorBuilder { opts: SpawnOpts { mailbox_capacity: capacity, mailbox_policy: policy, ..self.opts }, ..self }
    }

    /// The inbox depth that reports backpressure.
    pub fn high_watermark(self, depth: u64) -> (builder: Self)
        ensures
            builder == (ProjectorBuilder { opts: SpawnOpts { high_watermark: Some(depth), ..self.opts }, ..self }),
    {
        ProjectorBuilder { opts: SpawnOpts { high_watermark: Some(depth), ..self.opts }, ..self }
    }

    /// Whether everything consumed is a registered event: a projector folds
    /// facts, not commands.
    pub fn consumes_events(&self, registry: &Registry) -> (r: bool)
        ensures
            r == all_events(registry@.schemas, names_of(self.consumed@)),
    {
        let ghost names = names_of(self.consumed@);
        let mut i: usize = 0;
        while i < self.consumed.len()
            invariant
                names == names_of(self.consumed@),
                i <= self.consumed.len(),
                forall|j: int| 0 <= j < i ==> is_event(registry@.schemas, #[trigger] names[j]),
            decreases self.consumed.len() - i,
        {
            assert(names[i as int] == self.consumed@[i as int]@);
            let event = match registry.schema(&self.consumed[i]) {
                Some(def) => match def.kind {
                    SchemaKind::Event => true,
                    SchemaKind::Command => false,
                },
                None => false,
            };
            if !event {
                assert(!is_event(registry@.schemas, names[i as int]));
                return false;
            }
            i += 1;
        }
        true
    }

    /// Comes to the plan of the spawn. What a projector consumes it handles,
    /// and records again under its own path.
    pub fn validated_parts(self, registry: &Registry) -> (plan: SpawnPlan)
        requires
            self.path is Some,
            all_events(registry@.schemas, names_of(self.consumed@)),
        ensures
            Some(plan.path) == self.path,
            plan.manifest@ == (ManifestView {
                handles: declare_all(Seq::empty(), names_of(self.consumed@)),
                emits: declare_all(Seq::empty(), names_of(self.consumed@)),
                kind: Some(ActorKind::EventSourced),
            }),
            plan.args == self.args,
            plan.opts == self.opts,
    {
        let path = self.path.unwrap();
        let emits = copy_ids(&self.consumed);
        let manifest = merge_manifest(ActorManifest::new(), self.consumed, emits, ActorKind::EventSourced);
        SpawnPlan { path, manifest, args: self.args, opts: self.opts }
    }
}

/// However often edges are declared, none is listed twice, and all are listed.
pub proof fn law_edges_declared_once(names: Seq<Seq<char>>, more: Seq<Seq<char>>)
    requires
        names.no_duplicates(),
    ensures
        declare_all(names, more).no_duplicates(),
        forall|name: Seq<char>| #[trigger]
            declare_all(names, more).contains(name) <==> names.contains(name) || more.contains(name),
    decreases more.len(),
{
    if more.len() > 0 {
        let before = declare_all(names, more.drop_last());
        law_edges_declared_once(names, more.drop_last());
        law_declare_once(before, more.last());
        let last = more.last();
        let after = declare_all(names, more);
        assert(more == more.drop_last().push(last));
        assert forall|name: Seq<char>| #[trigger] after.contains(name) <==> names.contains(name) || more.contains(
            name,
        ) by {
            assert(before.contains(name) <==> names.contains(name) || more.drop_last().contains(name));
            assert(more.contains(name) <==> more.drop_last().contains(name) || name == last) by {
                if more.contains(name) {
                    let i = choose|i: int| 0 <= i < more.len() && more[i] == name;
                    if i < more.len() - 1 {
                        assert(more.drop_last()[i] == name);
                    }
                }
                if more.drop_last().contains(name) {
                    let i = choose|i: int| 0 <= i < more.drop_last().len() && more.drop_last()[i] == name;
                    assert(more[i] == name);
                }
                if name == last {
                    assert(more[more.len() - 1] == name);
                }
            }
            assert(after.contains(name) <==> before.contains(name) || name == last) by {
                if after.contains(name) && !before.contains(name) {
                    let i = choose|i: int| 0 <= i < after.len() && after[i] == name;
                    if i < before.len() {
                        assert(before[i] == name);
                    }
                }
            }
        }
    }
}

/// Edges are declared in order: an actor's own come first, each where it was,
/// and further ones follow as they are declared, one list after the other.
pub proof fn law_edges_declared_in_order(names: Seq<Seq<char>>, first: Seq<Seq<char>>, then: Seq<Seq<char>>)
    ensures
        declare_all(names, first + then) == declare_all(declare_all(names, first), then),
        declare_all(names, Seq::empty()) == names,
        names.len() <= declare_all(names, first).len(),
        declare_all(names, first).take(names.len() as int) == names,
    decreases first.len() + then.len(),
{
    if then.len() > 0 {
        law_edges_declared_in_order(names, first, then.drop_last());
        assert((first + then).drop_last() =~= first + then.drop_last());
        assert((first + then).last() == then.last());
    } else {
        assert(first + then =~= first);
        if first.len() > 0 {
            law_edges_declared_in_order(names, first.drop_last(), then);
            let before = declare_all(names, first.drop_last());
            let after = declare_all(names, first);
            assert(after.take(names.len() as int) =~= before.take(names.len() as int));
        } else {
            assert(names.take(names.len() as int) =~= names);
        }
    }
}

/// A merged manifest has every edge of the actor and of the builder, the actor's
/// own first, and is of the kind that is spawned.
pub proof fn law_merged_manifest_has_every_edge(
    base: ManifestView,
    handles: Seq<Seq<char>>,
    emits: Seq<Seq<char>>,
    kind: ActorKind,
    name: Seq<char>,
)
    requires
        base.handles.no_duplicates(),
        base.emits.no_duplicates(),
    ensures
        merged(base, handles, emits, kind).handles.contains(name) <==> base.handles.contains(name) || handles.contains(
            name,
        ),
        merged(base, handles, emits, kind).emits.contains(name) <==> base.emits.contains(name) || emits.contains(name),
        merged(base, handles, emits, kind).handles.no_duplicates(),
        merged(base, handles, emits, kind).emits.no_duplicates(),
        merged(base, handles, emits, kind).handles.take(base.handles.len() as int) == base.handles,
        merged(base, handles, emits, kind).emits.take(base.emits.len() as int) == base.emits,
        merged(base, handles, emits, kind).kind == Some(kind),
{
    law_edges_declared_once(base.handles, handles);
    law_edges_declared_once(base.emits, emits);
    law_edges_declared_in_order(base.handles, handles, Seq::empty());
    law_edges_declared_in_order(base.emits, emits, Seq::empty());
}

/// A type that is registered owns its schema's name: nobody else owned it, every
/// other name keeps its owner, and the schema is known afterwards under that
/// name, with nothing else of the registry changed.
pub proof fn law_registered_type_owns_its_name<S: Schema>(
    before: RegistryView,
    claims: Map<Seq<char>, u64>,
    owner: u64,
    after: RegistryView,
    claimed: Map<Seq<char>, u64>,
    other: Seq<char>,
)
    requires
        declared_type::<S>(before, claims, owner, after, claimed),
    ensures
        claims.dom().contains(S::declared_name()) ==> claims[S::declared_name()] == owner,
        claimed.dom().contains(S::declared_name()) && claimed[S::declared_name()] == owner,
        other != S::declared_name() ==> claimed.dom().contains(other) == claims.dom().contains(other),
        other != S::declared_name() && claims.dom().contains(other) ==> claimed[other] == claims[other],
        after.schemas.dom().contains(S::declared_name()),
        !before.schemas.dom().contains(S::declared_name()) ==> call_ensures(
            S::schema_def,
            (),
            after.schemas[S::declared_name()],
        ),
        other != S::declared_name() ==> after.schemas.dom().contains(other) == before.schemas.dom().contains(other),
        before.schemas.dom().contains(other) ==> after.schemas.dom().contains(other) && after.schemas[other]
            == before.schemas[other],
        after == (RegistryView { schemas: after.schemas, ..before }),
{
}

/// A type is refused only where another type owns its schema's name; the refusal
/// names both, and neither the registry nor any claim changes.
pub proof fn law_refused_type_changes_nothing<S: Schema>(
    before: RegistryView,
    claims: Map<Seq<char>, u64>,
    owner: TypeOwner,
    after: RegistryView,
    claimed: Map<Seq<char>, u64>,
    error: SchemaError,
)
    requires
        refused_type::<S>(before, claims, owner, after, claimed, error),
    ensures
        after == before,
        claimed == claims,
        claims.dom().contains(S::declared_name()),
        claims[S::declared_name()] != owner.id,
        error matches SchemaError::DuplicateType(told) && told@ == duplicate_chars(S::declared_name(), owner.label@),
        !declared_type::<S>(before, claims, owner.id, after, claimed),
{
}

} // verus!
