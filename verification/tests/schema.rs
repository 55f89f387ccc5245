//! Schema identity, descriptors and manifests.

use std::hash::BuildHasher;

use trouper::actor::ActorKind;
use trouper::schema::ActorManifest;
use trouper::schema::FieldDef;
use trouper::schema::FieldRole;
use trouper::schema::FieldTy;
use trouper::schema::Range;
use trouper::schema::Schema;
use trouper::schema::SchemaDef;
use trouper::schema::SchemaId;
use trouper::schema::SchemaKind;

struct ReserveStock;

impl Schema for ReserveStock {
    fn schema_def() -> SchemaDef {
        SchemaDef {
            name: "ReserveStock".to_owned(),
            kind: SchemaKind::Command,
            fields: vec![
                FieldDef::required("sku", FieldTy::Str),
                FieldDef::required("qty", FieldTy::Int)
                    .with_unit("count")
                    .with_range(Range::between("1.0", "100.0")),
            ],
            description: Some("Ask an inventory to hold stock for an order.".to_owned()),
        }
    }
}

struct TickDone;

impl Schema for TickDone {
    fn schema_def() -> SchemaDef {
        SchemaDef { name: "TickDone".to_owned(), kind: SchemaKind::Event, fields: vec![], description: None }
    }
}

#[test]
fn static_and_dynamic_arms_are_equal_and_hash_alike() {
    let stat = SchemaId::static_name("StockReserved");
    let dynamic = SchemaId::new("StockReserved");

    assert_eq!(stat, dynamic);
    assert_eq!(dynamic, stat);
    let hasher = std::hash::BuildHasherDefault::<std::collections::hash_map::DefaultHasher>::default();
    let hash_of = |id: &SchemaId| {
        let mut h = hasher.build_hasher();
        std::hash::Hash::hash(id, &mut h);
        std::hash::Hasher::finish(&h)
    };
    assert_eq!(hash_of(&stat), hash_of(&dynamic));
}

#[test]
fn schema_id_renders_as_the_bare_name() {
    let id = ReserveStock::schema_id();

    let rendered = id.to_string();

    assert_eq!(rendered, "ReserveStock");
}

#[test]
fn manifest_declares_typed_and_foreign_edges_uniformly() {
    let foreign_tick = SchemaId::new("Tick");

    let manifest = ActorManifest::new()
        .handles::<ReserveStock>()
        .handles_id(foreign_tick.clone())
        .emits::<TickDone>()
        .kind(ActorKind::EventSourced);

    assert_eq!(manifest.handles, [SchemaId::new("ReserveStock"), foreign_tick]);
    assert_eq!(manifest.kind, Some(ActorKind::EventSourced));
}

#[test]
fn manifest_builder_deduplicates_repeated_declarations() {
    let manifest = ActorManifest::new().handles::<ReserveStock>().handles::<ReserveStock>();

    assert_eq!(manifest.handles, [SchemaId::new("ReserveStock")]);
}

#[test]
fn schema_id_has_no_version_component() {
    let id = SchemaId::new("StockReserved");

    let rendered = id.to_string();

    assert_eq!(rendered, "StockReserved");
    assert!(!rendered.contains('@'), "identity must not embed a version");
    assert!(!rendered.chars().any(|c| c.is_ascii_digit()));
    assert_eq!(id.name(), "StockReserved");
    assert_eq!(id.as_str(), "StockReserved");
}

#[test]
fn schema_id_parse_accepts_legacy_versioned_strings_as_the_bare_name() {
    let raw = "StockReserved";

    let id = SchemaId::parse(raw).expect("parses");

    assert_eq!(id.name(), "StockReserved");
    assert_eq!(id.as_str(), "StockReserved");
}

#[test]
fn a_version_marker_is_dropped_on_parse() {
    let id = SchemaId::parse("StockReserved@12").expect("parses");

    assert_eq!(id, SchemaId::new("StockReserved"));
    assert_eq!(SchemaId::parse("@1").expect("parses").as_str(), "");
}

#[test]
fn legacy_name_at_version_strings_never_render_from_new_ids() {
    let id = SchemaId::new("StockReserved");

    let rendered = id.to_string();

    assert!(!rendered.contains('@'));
}

#[test]
fn the_first_field_of_a_role_is_found() {
    let def = SchemaDef {
        name: "Sold".to_owned(),
        kind: SchemaKind::Event,
        fields: vec![
            FieldDef::required("n", FieldTy::Int),
            FieldDef::required("sku", FieldTy::Str).as_shard_key(),
            FieldDef::required("other", FieldTy::Str).with_role(FieldRole::ShardKey),
        ],
        description: None,
    };

    assert_eq!(def.field_with_role(FieldRole::ShardKey), Some("sku"));
    assert_eq!(ReserveStock::schema_def().field_with_role(FieldRole::ShardKey), None);
    assert_eq!(ReserveStock::schema_def().fields[1].unit.as_deref(), Some("count"));
}

#[test]
fn a_field_carries_its_description() {
    let field = FieldDef::required("qty", FieldTy::Int).with_description("how many");

    assert_eq!(field.description.as_deref(), Some("how many"));
    assert_eq!(field.name, "qty");
}
