//! The registry: schemas, slots, routes and sets.

use trouper::actor::ActorKind;
use trouper::actor::ActorPath;
use trouper::inbox::OverloadPolicy;
use trouper::json::Json;
use trouper::pool::derive_path;
use trouper::pool::extract_shard_key;
use trouper::pool::PartitionSpec;
use trouper::pool::ProjectorSetSpec;
use trouper::pool::Rule;
use trouper::pool::RuleAction;
use trouper::registry::check_decode;
use trouper::registry::Endpoint;
use trouper::registry::Registry;
use trouper::registry::RegistryError;
use trouper::registry::SchemaTable;
use trouper::registry::TypeClaims;
use trouper::registry::TypeOwner;
use trouper::schema::ActorManifest;
use trouper::schema::FieldDef;
use trouper::schema::FieldTy;
use trouper::schema::Schema;
use trouper::schema::SchemaDef;
use trouper::schema::SchemaError;
use trouper::schema::SchemaId;
use trouper::schema::SchemaKind;

fn manifest(kind: ActorKind) -> ActorManifest {
    ActorManifest::new().kind(kind)
}

fn endpoint(id: u64, capacity: usize) -> Endpoint {
    Endpoint { id, capacity }
}

fn versioned_schema(_version: u32) -> SchemaDef {
    SchemaDef { name: "TestSchema".into(), kind: SchemaKind::Command, fields: vec![], description: None }
}

fn other_schema() -> SchemaDef {
    SchemaDef { name: "OtherSchema".into(), kind: SchemaKind::Event, fields: vec![], description: None }
}

struct TestSchema;

impl Schema for TestSchema {
    fn schema_def() -> SchemaDef {
        versioned_schema(1)
    }
}

/// A different Rust type that declares the same schema name.
struct TestSchemaImpostor;

impl Schema for TestSchemaImpostor {
    fn schema_def() -> SchemaDef {
        versioned_schema(1)
    }
}

/// The first type to claim the name.
fn genuine() -> TypeOwner {
    TypeOwner { id: 1, label: "shop::TestSchema".into() }
}

/// Another type that claims it.
fn impostor() -> TypeOwner {
    TypeOwner { id: 2, label: "shop::TestSchemaImpostor".into() }
}

fn keyed(name: &str, kind: SchemaKind) -> SchemaDef {
    SchemaDef {
        name: name.into(),
        kind,
        fields: vec![FieldDef::required("sku", FieldTy::Str).as_shard_key()],
        description: None,
    }
}

fn partition(public: &str) -> PartitionSpec {
    PartitionSpec { public: ActorPath::new(public), key_field: "sku".into(), args_template: None }
}

fn projectors(public: &str, consumed: &[&str]) -> ProjectorSetSpec {
    ProjectorSetSpec {
        public: ActorPath::new(public),
        key_field: "sku".into(),
        args_template: None,
        consumed: consumed.iter().map(|n| SchemaId::new(n)).collect(),
    }
}

#[test]
fn register_is_idempotent_per_name() {
    let mut table = SchemaTable::new();
    let first = table.register(versioned_schema(1));

    let second = table.register(versioned_schema(1));

    assert_eq!(first, second);
    assert_eq!(table.len(), 1);
}

#[test]
fn duplicate_type_registration_fails_at_startup() {
    let mut table = SchemaTable::new();
    let mut claims = TypeClaims::new();
    table.register_typed::<TestSchema>(&mut claims, &genuine()).expect("first claim wins");

    let result = table.register_typed::<TestSchemaImpostor>(&mut claims, &impostor());

    let report = result.expect_err("second type must be refused");
    assert!(matches!(report, SchemaError::DuplicateType(_)), "expected DuplicateType, got {report:?}");
    match report {
        SchemaError::DuplicateType(what) => {
            assert_eq!(what, "TestSchema (registering shop::TestSchemaImpostor)")
        }
        other => panic!("expected DuplicateType, got {other:?}"),
    }
    assert_eq!(table.len(), 1);
}

#[test]
fn same_type_reregistration_is_idempotent() {
    let mut table = SchemaTable::new();
    let mut claims = TypeClaims::new();
    let first = table.register_typed::<TestSchema>(&mut claims, &genuine()).expect("claim");

    let second = table.register_typed::<TestSchema>(&mut claims, &genuine()).expect("re-claim");

    assert_eq!(first, second);
    assert_eq!(table.len(), 1);
}

#[test]
fn latest_reports_the_named_schema() {
    let mut table = SchemaTable::new();
    table.register(versioned_schema(1));

    let latest = table.latest("TestSchema").expect("present");

    assert_eq!(latest.id(), SchemaId::new("TestSchema"));
}

#[test]
fn by_id_matches_by_name() {
    let mut table = SchemaTable::new();
    table.register(versioned_schema(1));

    let exact = table.by_id(&SchemaId::new("TestSchema"));
    let missing = table.by_id(&SchemaId::new("TestSchemaUnknown"));

    assert!(exact.is_some());
    assert!(missing.is_none());
}

#[test]
fn legacy_versioned_id_strings_lookup_by_name() {
    let mut table = SchemaTable::new();
    table.register(versioned_schema(1));

    let legacy = SchemaId::parse("TestSchema").expect("parses");
    let found = table.by_id(&legacy);

    assert!(found.is_some());
    assert_eq!(legacy.as_str(), "TestSchema");
}

#[test]
fn all_lists_every_schema_in_name_then_version_order() {
    let mut table = SchemaTable::new();
    table.register(versioned_schema(1));
    table.register(other_schema());

    let ids: Vec<String> = table.all().iter().map(|d| d.id().to_string()).collect();

    assert_eq!(ids, ["OtherSchema", "TestSchema"]);
}

#[test]
fn insert_slot_then_resolve_delivers_to_the_endpoint() {
    let mut registry = Registry::new();
    let path = ActorPath::new("inventory.west");
    registry
        .insert_slot(&path, manifest(ActorKind::EventSourced), endpoint(7, 4), OverloadPolicy::DropNew)
        .expect("insert");

    let delivered = match registry.resolve(&path) {
        Some(ep) => ep.id == 7 && ep.pending(3) == 1,
        None => false,
    };

    assert!(delivered);
}

#[test]
fn insert_slot_fails_when_path_is_taken() {
    let mut registry = Registry::new();
    let path = ActorPath::new("dup");
    registry
        .insert_slot(&path, manifest(ActorKind::Service), endpoint(1, 1), OverloadPolicy::DropNew)
        .expect("insert");

    let result = registry.insert_slot(&path, manifest(ActorKind::Service), endpoint(2, 1), OverloadPolicy::DropNew);

    assert!(matches!(result.expect_err("must fail"), RegistryError::PathTaken(_)));
}

#[test]
fn swap_endpoint_replaces_the_handle_under_the_same_identity() {
    let mut registry = Registry::new();
    let path = ActorPath::new("inventory.west");
    registry
        .insert_slot(&path, manifest(ActorKind::EventSourced), endpoint(1, 4), OverloadPolicy::DropNew)
        .expect("insert");
    let stale = registry.resolve(&path).expect("live");

    registry.swap_endpoint(&path, endpoint(2, 4)).expect("swap");

    let fresh = registry.resolve(&path).expect("still registered");
    assert_eq!(stale.id, 1);
    assert_eq!(fresh.id, 2);
    let missing = registry.swap_endpoint(&ActorPath::new("ghost"), endpoint(3, 4));
    assert!(matches!(missing, Err(RegistryError::UnknownPath(_))));
}

#[test]
fn remove_slot_makes_the_path_unresolvable() {
    let mut registry = Registry::new();
    let path = ActorPath::new("temp");
    registry
        .insert_slot(&path, manifest(ActorKind::Service), endpoint(1, 1), OverloadPolicy::DropNew)
        .expect("insert");

    registry.remove_slot(&path).ok().expect("remove");

    assert!(registry.resolve(&path).is_none());
    assert!(registry.lookup(&path).is_none());
    assert!(!registry.is_registered(&path));
    assert!(matches!(registry.remove_slot(&path), Err(RegistryError::UnknownPath(_))));
}

#[test]
fn lookup_reports_kind_and_manifest() {
    let mut registry = Registry::new();
    let path = ActorPath::new("inventory.west");
    registry
        .insert_slot(&path, manifest(ActorKind::EventSourced), endpoint(1, 1), OverloadPolicy::DropNew)
        .expect("insert");

    let info = registry.lookup(&path).expect("info");

    assert_eq!(info.kind, ActorKind::EventSourced);
}

#[test]
fn route_returns_the_single_handler_path() {
    let mut registry = Registry::new();
    let schema = SchemaId::new("Ping");
    let path = ActorPath::new("ponger");
    registry.add_route(&schema, path.clone());

    let first = registry.route(&schema);
    let second = registry.route(&schema);

    assert_eq!(first, Some(path.clone()));
    assert_eq!(second, Some(path));
}

#[test]
fn round_robin_rotates_across_registered_handlers() {
    let mut registry = Registry::new();
    let schema = SchemaId::new("Ping");
    for name in ["a", "b", "c"] {
        registry.add_route(&schema, ActorPath::new(name));
    }

    let picks: Vec<Option<String>> = (0..4).map(|_| registry.route(&schema).map(|p| p.to_string())).collect();

    assert_eq!(picks, [Some("a".into()), Some("b".into()), Some("c".into()), Some("a".into())]);
}

#[test]
fn handlers_of_lists_every_handler_of_a_schema() {
    let mut registry = Registry::new();
    let schema = SchemaId::new("Ping");
    registry.add_route(&schema, ActorPath::new("a"));
    registry.add_route(&schema, ActorPath::new("b"));

    let handlers = registry.handlers_of(&schema);

    assert_eq!(handlers.len(), 2);
}

#[test]
fn drop_routes_of_removes_only_the_removed_path() {
    let mut registry = Registry::new();
    let gone = ActorPath::new("gone");
    let kept = ActorPath::new("kept");
    registry.add_route(&SchemaId::new("Ping"), gone.clone());
    registry.add_route(&SchemaId::new("Ping"), kept.clone());
    registry.add_route(&SchemaId::new("Pong"), gone.clone());

    registry.drop_routes_of(&gone);

    assert_eq!(registry.handlers_of(&SchemaId::new("Ping")), [kept]);
    assert!(registry.handlers_of(&SchemaId::new("Pong")).is_empty());
}

#[test]
fn duplicate_route_declaration_keeps_registration_order() {
    let mut registry = Registry::new();
    let schema = SchemaId::new("Ping");
    registry.add_route(&schema, ActorPath::new("c"));
    registry.add_route(&schema, ActorPath::new("a"));
    registry.add_route(&schema, ActorPath::new("b"));

    let handlers = registry.handlers_of(&schema);

    assert_eq!(handlers, [ActorPath::new("c"), ActorPath::new("a"), ActorPath::new("b")]);
}

#[test]
fn drop_routes_of_cleans_empty_round_robin_entries() {
    let mut registry = Registry::new();
    let gone = ActorPath::new("gone");
    let kept = ActorPath::new("kept");
    registry.add_route(&SchemaId::new("Ping"), gone.clone());
    registry.add_route(&SchemaId::new("Ping"), kept.clone());
    registry.add_route(&SchemaId::new("Pong"), gone.clone());

    registry.drop_routes_of(&gone);

    assert_eq!(registry.handlers_of(&SchemaId::new("Ping")), [kept]);
    assert!(registry.handlers_of(&SchemaId::new("Pong")).is_empty());
}

#[test]
fn unresolvable_paths_resolve_to_none_for_dead_lettering() {
    let registry = Registry::new();

    let resolved = registry.resolve(&ActorPath::new("ghost"));

    assert!(resolved.is_none());
}

#[test]
fn a_partition_set_needs_a_declared_key() {
    let mut registry = Registry::new();
    assert!(matches!(registry.install_partition_set(partition("inv")), Err(RegistryError::InvalidSpec)));

    registry.register_schema(keyed("Reserve", SchemaKind::Command));
    registry.install_partition_set(partition("inv")).expect("installed");
    registry.install_partition_set(partition("inv")).expect("replaced");
    assert_eq!(registry.partition(&ActorPath::new("inv")).expect("spec").key_field, "sku");
}

#[test]
fn a_projector_set_needs_a_consumed_event_with_its_key() {
    let mut registry = Registry::new();
    registry.register_schema(keyed("Reserved", SchemaKind::Event));

    let none = registry.install_projector_set(projectors("p", &[]));
    assert!(matches!(none, Err(RegistryError::InvalidSpec)));
    registry.install_projector_set(projectors("p", &["Reserved"])).expect("installed");
    registry.register_schema(keyed("Reserve", SchemaKind::Command));
    let unknown = registry.install_projector_set(projectors("q", &["Reserved", "Ghost"]));
    assert!(matches!(unknown, Err(RegistryError::InvalidSpec)));
    let command = registry.install_projector_set(projectors("q", &["Reserved", "Reserve"]));
    assert!(matches!(command, Err(RegistryError::InvalidSpec)));

    assert_eq!(registry.projector_sets_consuming(&SchemaId::new("Reserved")).len(), 1);
    assert!(registry.projector_sets_consuming(&SchemaId::new("Other")).is_empty());
}

#[test]
fn a_derived_path_belongs_to_its_set_alone() {
    let mut registry = Registry::new();
    registry.register_schema(keyed("Reserved", SchemaKind::Event));
    registry.install_projector_set(projectors("p", &["Reserved"])).expect("installed");
    registry.install_projector_set(projectors("px", &["Reserved"])).expect("installed");

    let member = derive_path(&ActorPath::new("p"), "k");

    assert_eq!(member.as_str(), "p/k");
    assert_eq!(registry.projector_set_owning(&member).expect("owner").public.as_str(), "p");
    assert!(registry.projector_set_owning(&ActorPath::new("q/k")).is_none());
}

#[test]
fn shard_keys_render_as_text() {
    let schema = keyed("Reserve", SchemaKind::Command);
    let payload = Json::from_slice(br#"{"sku":"w-1","n":-4,"b":true,"z":null,"l":[1]}"#).expect("json");

    assert_eq!(extract_shard_key(&schema, "sku", payload.tree()), Some("w-1".to_owned()));
    let typed = SchemaDef {
        fields: vec![FieldDef::required("n", FieldTy::Int).as_shard_key()],
        ..keyed("Reserve", SchemaKind::Command)
    };
    assert_eq!(extract_shard_key(&typed, "n", payload.tree()), Some("-4".to_owned()));
}

#[test]
fn members_get_their_key_in_the_template() {
    let spec = PartitionSpec {
        args_template: Some(Json::from_slice(br#"{"region":"west"}"#).expect("json")),
        ..partition("inv")
    };

    let args = spec.entity_args("w-1");

    assert_eq!(args.tree().get("key").and_then(|v| v.as_str()), Some("w-1"));
    assert_eq!(args.tree().get("region").and_then(|v| v.as_str()), Some("west"));
}

#[test]
fn topology_lists_partitions_and_rules() {
    let mut registry = Registry::new();
    registry.register_schema(keyed("Reserve", SchemaKind::Command));
    registry.install_partition_set(partition("inv")).expect("installed");
    registry
        .insert_slot(
            &ActorPath::new("inv/a"),
            manifest(ActorKind::EventSourced),
            endpoint(1, 1),
            OverloadPolicy::Block,
        )
        .expect("insert");
    registry.add_rule(Rule {
        source: None,
        schema: Some(SchemaId::new("Reserve")),
        dest: None,
        action: RuleAction::Tee(ActorPath::new("watcher")),
    });

    let (partitions, rules) = registry.topology();

    assert_eq!(partitions.len(), 1);
    assert_eq!(partitions[0].entities, [ActorPath::new("inv/a")]);
    assert_eq!(rules.len(), 1);
    assert_eq!(rules[0].action, "tee");
    assert_eq!(rules[0].observer.as_str(), "watcher");
}

#[test]
fn declared_emits_are_what_may_leave() {
    let mut registry = Registry::new();
    let path = ActorPath::new("a");
    let schema = SchemaId::new("Done");
    assert!(matches!(registry.declare_emits(&path, schema.clone()), Err(RegistryError::UnknownPath(_))));
    registry
        .insert_slot(&path, manifest(ActorKind::Service), endpoint(1, 1), OverloadPolicy::Block)
        .expect("insert");
    assert!(!registry.declares_emit(&path, &schema));

    registry.declare_emits(&path, schema.clone()).expect("declared");

    assert!(registry.declares_emit(&path, &schema));
}

#[test]
fn decoding_checks_the_schema_name() {
    assert!(check_decode::<TestSchema>(&SchemaId::new("TestSchema")).is_ok());
    assert!(check_decode::<TestSchema>(&SchemaId::new("OtherSchema")).is_err());
}

#[test]
fn an_endpoint_reports_its_doors_capacity() {
    let door = endpoint(1, 8);

    assert_eq!(door.max_capacity(), 8);
    assert_eq!(door.pending(3), 5);
}

#[test]
fn slots_and_routes_are_listed() {
    let mut registry = Registry::new();
    let path = ActorPath::new("inventory.west");
    registry
        .insert_slot(&path, manifest(ActorKind::EventSourced), endpoint(7, 4), OverloadPolicy::DropNew)
        .expect("insert");
    let schema = SchemaId::new("ReserveStock");
    registry.add_route(&schema, path.clone());

    let manifests = registry.slot_manifests();

    assert_eq!(manifests.len(), 1);
    assert_eq!(manifests[0].0, path);
    assert_eq!(manifests[0].1.kind, Some(ActorKind::EventSourced));
    assert_eq!(registry.route_dests(&schema), [path]);
}
