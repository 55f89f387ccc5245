//! Spawn plans.

use trouper::actor::ActorKind;
use trouper::actor::ActorPath;
use trouper::actor::SnapshotCadence;
use trouper::builder::merge_manifest;
use trouper::builder::spawn_es_builder;
use trouper::builder::spawn_foreign;
use trouper::builder::spawn_projector_builder;
use trouper::builder::spawn_service_builder;
use trouper::builder::ForeignBuilder;
use trouper::builder::ProjectorBuilder;
use trouper::builder::SpawnOpts;
use trouper::inbox::OverloadPolicy;
use trouper::json::Json;
use trouper::registry::Registry;
use trouper::registry::TypeClaims;
use trouper::registry::TypeOwner;
use trouper::schema::ActorManifest;
use trouper::schema::Schema;
use trouper::schema::SchemaDef;
use trouper::schema::SchemaError;
use trouper::schema::SchemaId;
use trouper::schema::SchemaKind;

struct Add;

impl Schema for Add {
    fn schema_def() -> SchemaDef {
        SchemaDef { name: "Add".into(), kind: SchemaKind::Command, fields: vec![], description: None }
    }
}

struct Added;

impl Schema for Added {
    fn schema_def() -> SchemaDef {
        SchemaDef { name: "Added".into(), kind: SchemaKind::Event, fields: vec![], description: None }
    }
}

/// The type that registers a schema.
fn owner(id: u64, label: &str) -> TypeOwner {
    TypeOwner { id, label: label.to_owned() }
}

#[test]
fn spawn_options_default_to_a_blocking_mailbox() {
    let opts = SpawnOpts::default();

    assert_eq!(opts.snapshot, SnapshotCadence::Off);
    assert_eq!(opts.mailbox_capacity, 64);
    assert_eq!(opts.mailbox_policy, OverloadPolicy::Block);
    assert_eq!(opts.high_watermark, None);
    assert_eq!(opts.passivation, None);
}

#[test]
fn a_builder_gathers_its_plan() {
    let mut registry = Registry::new();
    let mut claims = TypeClaims::new();

    let plan = spawn_es_builder()
        .at(ActorPath::new("counter"))
        .args(Json::text("seed"))
        .handles::<Add>(&mut registry, &mut claims, &owner(1, "shop::Add"))
        .ok()
        .expect("handles")
        .emits::<Added>(&mut registry, &mut claims, &owner(2, "shop::Added"))
        .ok()
        .expect("emits")
        .snapshot(SnapshotCadence::Messages(10))
        .mailbox(8, OverloadPolicy::DropOld)
        .high_watermark(6)
        .passivate_after(500)
        .start(ActorManifest::new().handles::<Add>());

    assert_eq!(plan.path.as_str(), "counter");
    assert_eq!(plan.args, Json::text("seed"));
    assert_eq!(plan.manifest.handles, [SchemaId::new("Add")], "declared once");
    assert_eq!(plan.manifest.emits, [SchemaId::new("Added")]);
    assert_eq!(plan.manifest.kind, Some(ActorKind::EventSourced));
    assert_eq!(plan.opts.snapshot, SnapshotCadence::Messages(10));
    assert_eq!(plan.opts.mailbox_capacity, 8);
    assert_eq!(plan.opts.mailbox_policy, OverloadPolicy::DropOld);
    assert_eq!(plan.opts.high_watermark, Some(6));
    assert_eq!(plan.opts.passivation, Some(500));
    assert_eq!(registry.schemas().len(), 2);
}

#[test]
fn a_name_claimed_by_another_type_stops_the_builder() {
    let mut registry = Registry::new();
    let mut claims = TypeClaims::new();
    claims.claim_schema_type(&SchemaId::new("Add"), 9).ok().expect("claimed");

    let result = spawn_service_builder().handles::<Add>(&mut registry, &mut claims, &owner(1, "shop::Add"));

    assert!(matches!(result, Err(SchemaError::DuplicateType(what)) if what == "Add (registering shop::Add)"));
}

#[test]
fn merged_manifests_keep_the_base_first() {
    let base = ActorManifest::new().handles_id(SchemaId::new("A"));

    let manifest = merge_manifest(
        base,
        vec![SchemaId::new("B"), SchemaId::new("A")],
        vec![SchemaId::new("E"), SchemaId::new("E")],
        ActorKind::Service,
    );

    assert_eq!(manifest.handles, [SchemaId::new("A"), SchemaId::new("B")]);
    assert_eq!(manifest.emits, [SchemaId::new("E")]);
    assert_eq!(manifest.kind, Some(ActorKind::Service));
}

fn foreign(schema: Option<SchemaDef>, decides: bool, folds: bool) -> ForeignBuilder {
    ForeignBuilder {
        path: Some(ActorPath::new("foreign")),
        schema,
        genesis: Json::default(),
        emits: vec![],
        decides,
        folds,
        opts: SpawnOpts::default(),
    }
}

#[test]
fn a_foreign_actor_needs_all_its_parts() {
    let mut registry = Registry::new();

    let plan = foreign(Some(Add::schema_def()), true, true)
        .emits_id(SchemaId::new("Added"))
        .start(&mut registry)
        .ok()
        .expect("complete");
    assert_eq!(plan.manifest.handles, [SchemaId::new("Add")]);
    assert_eq!(plan.manifest.emits, [SchemaId::new("Added")]);
    assert!(registry.schema(&SchemaId::new("Add")).is_some());

    assert!(foreign(None, true, true).start(&mut registry).is_err());
}

#[test]
fn a_projector_consumes_events() {
    let mut registry = Registry::new();
    let mut claims = TypeClaims::new();
    let builder = ProjectorBuilder {
        path: Some(ActorPath::new("view")),
        args: Json::default(),
        consumed: vec![],
        opts: SpawnOpts::default(),
    };

    let builder = builder.consumes::<Added>(&mut registry, &mut claims, &owner(2, "shop::Added")).ok().expect("consumes");
    assert!(builder.consumes_events(&registry));
    let plan = builder.validated_parts(&registry);
    assert_eq!(plan.manifest.handles, [SchemaId::new("Added")]);

    let wrong = ProjectorBuilder {
        path: Some(ActorPath::new("view")),
        args: Json::default(),
        consumed: vec![],
        opts: SpawnOpts::default(),
    };
    let wrong = wrong.consumes::<Add>(&mut registry, &mut claims, &owner(1, "shop::Add")).ok().expect("consumes");
    assert!(!wrong.consumes_events(&registry));
}

#[test]
fn a_service_builder_gathers_its_plan() {
    let mut registry = Registry::new();
    let mut claims = TypeClaims::new();

    let plan = spawn_service_builder()
        .at(ActorPath::new("edge"))
        .args(Json::text("seed"))
        .handles::<Add>(&mut registry, &mut claims, &owner(1, "shop::Add"))
        .ok()
        .expect("handles")
        .emits::<Added>(&mut registry, &mut claims, &owner(2, "shop::Added"))
        .ok()
        .expect("emits")
        .mailbox(4, OverloadPolicy::DropNew)
        .high_watermark(3)
        .passivate_after(70)
        .start(ActorManifest::new());

    assert_eq!(plan.path.as_str(), "edge");
    assert_eq!(plan.manifest.handles, [SchemaId::new("Add")]);
    assert_eq!(plan.manifest.emits, [SchemaId::new("Added")]);
    assert_eq!(plan.manifest.kind, Some(ActorKind::Service));
    assert_eq!(plan.opts.snapshot, SnapshotCadence::Off);
    assert_eq!(plan.opts.mailbox_capacity, 4);
    assert_eq!(plan.opts.mailbox_policy, OverloadPolicy::DropNew);
    assert_eq!(plan.opts.high_watermark, Some(3));
    assert_eq!(plan.opts.passivation, Some(70));
}

#[test]
fn a_foreign_builder_starts_empty_and_gathers_its_parts() {
    let mut registry = Registry::new();

    let plan = spawn_foreign()
        .at(ActorPath::new("foreign"))
        .schema(Some(Add::schema_def()))
        .args(Json::text("seed"))
        .handle()
        .apply()
        .emits_id(SchemaId::new("Added"))
        .snapshot(SnapshotCadence::Messages(2))
        .mailbox(5, OverloadPolicy::DropOld)
        .start(&mut registry)
        .ok()
        .expect("complete");

    assert_eq!(plan.path.as_str(), "foreign");
    assert_eq!(plan.args, Json::text("seed"));
    assert_eq!(plan.opts.snapshot, SnapshotCadence::Messages(2));
    assert_eq!(plan.opts.mailbox_capacity, 5);
    let unparsed = spawn_foreign().at(ActorPath::new("foreign")).schema(None).handle().apply();
    assert!(unparsed.start(&mut registry).is_err(), "no schema");
}

#[test]
fn a_projector_builder_gathers_its_plan() {
    let mut registry = Registry::new();
    let mut claims = TypeClaims::new();

    let plan = spawn_projector_builder()
        .at(ActorPath::new("view"))
        .args(Json::text("seed"))
        .consumes::<Added>(&mut registry, &mut claims, &owner(2, "shop::Added"))
        .ok()
        .expect("consumes")
        .snapshot(SnapshotCadence::Messages(4))
        .mailbox(6, OverloadPolicy::DropOld)
        .high_watermark(5)
        .validated_parts(&registry);

    assert_eq!(plan.path.as_str(), "view");
    assert_eq!(plan.manifest.kind, Some(ActorKind::EventSourced));
    assert_eq!(plan.opts.snapshot, SnapshotCadence::Messages(4));
    assert_eq!(plan.opts.mailbox_capacity, 6);
    assert_eq!(plan.opts.high_watermark, Some(5));
}
