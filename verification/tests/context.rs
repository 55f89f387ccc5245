//! Handler contexts and the effects they record.

use trouper::actor::ActorKind;
use trouper::actor::ActorPath;
use trouper::clock::Timestamp;
use trouper::context::settle_ask;
use trouper::context::AskError;
use trouper::context::AskReply;
use trouper::context::CmdCtx;
use trouper::context::Intent;
use trouper::context::MsgCtx;
use trouper::context::Outbox;
use trouper::context::RuntimeView;
use trouper::envelope::Address;
use trouper::envelope::Payload;
use trouper::envelope::TraceCtx;
use trouper::ids::IdMint;
use trouper::inbox::OverloadPolicy;
use trouper::json::Json;
use trouper::kernel::AskOutcome;
use trouper::registry::Endpoint;
use trouper::registry::Registry;
use trouper::schema::ActorManifest;
use trouper::schema::Schema;
use trouper::schema::SchemaDef;
use trouper::schema::SchemaId;
use trouper::schema::SchemaKind;

fn def(name: &str, kind: SchemaKind) -> SchemaDef {
    SchemaDef { name: name.into(), kind, fields: vec![], description: None }
}

fn payload(text: &str) -> Payload {
    Payload::json_view(Json::from_slice(text.as_bytes()).expect("JSON text"))
}

struct ReserveStock;

impl Schema for ReserveStock {
    fn schema_def() -> SchemaDef {
        def("ReserveStock", SchemaKind::Command)
    }
}

struct Reserved;

impl Schema for Reserved {
    fn schema_def() -> SchemaDef {
        def("Reserved", SchemaKind::Event)
    }
}

struct StockReserved;

impl Schema for StockReserved {
    fn schema_def() -> SchemaDef {
        def("StockReserved", SchemaKind::Event)
    }
}

struct Ping;

impl Schema for Ping {
    fn schema_def() -> SchemaDef {
        def("Ping", SchemaKind::Command)
    }
}

struct Pong;

impl Schema for Pong {
    fn schema_def() -> SchemaDef {
        def("Pong", SchemaKind::Event)
    }
}

/// A registry that knows one entity, one service and one handler.
fn known() -> Registry {
    let mut registry = Registry::new();
    for (id, path, kind) in [(1, "inventory.west", ActorKind::EventSourced), (2, "auditor", ActorKind::Service)] {
        registry
            .insert_slot(
                &ActorPath::new(path),
                ActorManifest::new().kind(kind),
                Endpoint { id, capacity: 4 },
                OverloadPolicy::Block,
            )
            .expect("insert");
    }
    registry.add_route(&SchemaId::new("ReserveStock"), ActorPath::new("inventory.west"));
    registry
}

/// What the clock reads as an effect is recorded.
fn now() -> Timestamp {
    Timestamp::from_millis(2_000)
}

fn at_millis(registry: &Registry, millis: u64) -> RuntimeView<'_> {
    RuntimeView { registry, now: Timestamp::from_millis(millis) }
}

fn root(mint: &mut IdMint) -> TraceCtx {
    TraceCtx::root(mint, Timestamp::from_millis(0))
}

#[test]
fn send_records_a_deferred_intent_with_child_trace() {
    let registry = known();
    let mut mint = IdMint::new();
    let parent = root(&mut mint);
    let path = ActorPath::new("storefront");
    let mut ctx = MsgCtx::new(&path, parent, None, at_millis(&registry, 1_000));

    ctx.send::<ReserveStock>(
        &mut mint,
        now(),
        Address::Path(ActorPath::new("inventory.west")),
        payload(r#"{"qty":2}"#),
        None,
    );

    let mut outbox = ctx.into_outbox();
    assert_eq!(outbox.len(), 1);
    let drained = outbox.drain();
    match &drained[0] {
        Intent::Send(envelope) => {
            assert_eq!(envelope.from.as_ref().map(|p| p.as_str()), Some("storefront"));
            assert_eq!(envelope.trace.trace_id, parent.trace_id);
            assert_ne!(envelope.trace.causality_id, parent.causality_id);
            assert_eq!(envelope.schema.as_str(), "ReserveStock");
        }
        Intent::Reply { .. } => panic!("expected a send"),
        Intent::Broadcast(_) | Intent::StopSelf => panic!("expected a send"),
    }
}

#[test]
fn an_effect_is_stamped_with_the_clock_at_the_call() {
    let registry = known();
    let mut mint = IdMint::new();
    let parent = root(&mut mint);
    let path = ActorPath::new("storefront");
    let mut ctx = MsgCtx::new(&path, parent, None, at_millis(&registry, 1_000));

    ctx.publish::<StockReserved>(&mut mint, now(), payload(r#"{"qty":2}"#));

    assert_eq!(ctx.recv_ts().as_millis(), 1_000);
    match &ctx.into_outbox().drain()[0] {
        Intent::Broadcast(envelope) => assert_eq!(envelope.trace.causality_id.bits().millis(), 2_000),
        _ => panic!("expected a broadcast"),
    }
}

#[test]
fn reply_targets_the_requester_only_when_reply_to_exists() {
    let registry = known();
    let mut mint = IdMint::new();
    let trace = root(&mut mint);
    let path = ActorPath::new("server");
    let reply_to = Address::Path(ActorPath::new("client"));
    let mut ctx = MsgCtx::new(&path, trace, Some(reply_to), at_millis(&registry, 0));

    ctx.reply::<Reserved>(&mut mint, now(), payload(r#"{"ok":true}"#));

    let drained = ctx.into_outbox().drain();
    match &drained[0] {
        Intent::Send(_) => panic!("expected a reply intent"),
        Intent::Reply { to, .. } => {
            assert_eq!(*to, Address::Path(ActorPath::new("client")));
        }
        Intent::Broadcast(_) | Intent::StopSelf => panic!("expected a reply intent"),
    }

    let mut silent = MsgCtx::new(&path, trace, None, at_millis(&registry, 0));
    silent.reply::<Reserved>(&mut mint, now(), payload(r#"{"ok":false}"#));

    assert!(silent.into_outbox().is_empty());
}

#[test]
fn publish_records_a_broadcast_intent() {
    let registry = known();
    let mut mint = IdMint::new();
    let trace = root(&mut mint);
    let path = ActorPath::new("inventory.west");
    let mut ctx = MsgCtx::new(&path, trace, None, at_millis(&registry, 0));

    ctx.publish::<StockReserved>(&mut mint, now(), payload(r#"{"qty":2}"#));

    let drained = ctx.into_outbox().drain();
    match &drained[0] {
        Intent::Broadcast(envelope) => {
            assert_eq!(envelope.schema, StockReserved::schema_id());
            assert_eq!(envelope.trace.trace_id, trace.trace_id);
        }
        _ => panic!("expected a broadcast"),
    }
}

#[test]
fn lookups_delegate_to_the_runtime_view() {
    let registry = known();
    let path = ActorPath::new("someone");
    let ctx = CmdCtx::new(&path, at_millis(&registry, 7_777));

    let info = ctx.lookup(&ActorPath::new("auditor"));
    let missing = ctx.lookup(&ActorPath::new("ghost"));
    let handlers = ctx.handlers_of(&SchemaId::new("ReserveStock"));
    let ts = ctx.recv_ts();

    assert_eq!(info.map(|i| i.kind), Some(ActorKind::Service));
    assert!(missing.is_none());
    assert_eq!(handlers, [ActorPath::new("inventory.west")]);
    assert_eq!(ts.as_millis(), 7_777);
}

#[test]
fn outbox_drain_empties_pending_effects() {
    let registry = known();
    let mut mint = IdMint::new();
    let trace = root(&mut mint);
    let path = ActorPath::new("a");
    let mut ctx = MsgCtx::new(&path, trace, None, at_millis(&registry, 0));
    ctx.send::<Ping>(&mut mint, now(), Address::Path(ActorPath::new("b")), payload("null"), None);
    ctx.send::<Pong>(&mut mint, now(), Address::Path(ActorPath::new("c")), payload("null"), None);

    let mut outbox = ctx.into_outbox();
    let count = outbox.drain().len();

    assert_eq!(count, 2);
    assert!(outbox.is_empty());
}

#[test]
fn msg_ctx_shares_the_same_deferred_surface() {
    let registry = known();
    let mut mint = IdMint::new();
    let trace = root(&mut mint);
    let path = ActorPath::new("auditor");
    let mut ctx = MsgCtx::new(&path, trace, None, at_millis(&registry, 0));

    ctx.send::<Ping>(&mut mint, now(), Address::Path(ActorPath::new("b")), payload("null"), None);

    assert_eq!(ctx.into_outbox().len(), 1);
    assert!(matches!(SchemaKind::Command, SchemaKind::Command));
}

#[test]
fn reply_without_reply_to_is_dropped_silently() {
    let registry = known();
    let mut mint = IdMint::new();
    let trace = root(&mut mint);
    let path = ActorPath::new("auditor");
    let mut ctx = MsgCtx::new(&path, trace, None, at_millis(&registry, 0));

    ctx.reply::<Pong>(&mut mint, now(), payload("null"));

    assert_eq!(ctx.into_outbox().len(), 0);
}

#[test]
fn reply_with_reply_to_records_a_reply_intent() {
    let registry = known();
    let mut mint = IdMint::new();
    let trace = root(&mut mint);
    let reply_to = Address::Path(ActorPath::new("asker"));
    let path = ActorPath::new("auditor");
    let mut ctx = MsgCtx::new(&path, trace, Some(reply_to), at_millis(&registry, 0));

    ctx.reply::<Pong>(&mut mint, now(), payload("null"));

    assert_eq!(ctx.into_outbox().len(), 1);
}

#[test]
fn typed_reply_records_the_same_intent_as_the_raw_variant() {
    let registry = known();
    let mut mint = IdMint::new();
    let trace = root(&mut mint);
    let reply_to = Address::Path(ActorPath::new("client"));
    let path = ActorPath::new("server");
    let mut typed = MsgCtx::new(&path, trace, Some(reply_to.clone()), at_millis(&registry, 0));
    let mut raw = MsgCtx::new(&path, trace, Some(reply_to), at_millis(&registry, 0));

    typed.reply::<Reserved>(&mut mint, now(), payload(r#"{"ok":true}"#));
    raw.reply_json(&mut mint, now(), Reserved::schema_id(), payload(r#"{"ok":true}"#));

    let typed_intents = typed.into_outbox().drain();
    let raw_intents = raw.into_outbox().drain();
    assert_eq!(typed_intents.len(), 1);
    assert_eq!(raw_intents.len(), 1);
    match (&typed_intents[0], &raw_intents[0]) {
        (
            Intent::Reply { to: a, schema: sa, payload: pa, .. },
            Intent::Reply { to: b, schema: sb, payload: pb, .. },
        ) => {
            assert_eq!(a, b);
            assert_eq!(*sa, Reserved::schema_id());
            assert_eq!(sa, sb);
            assert_eq!(pa.json(), pb.json());
        }
        _ => panic!("expected reply intents"),
    }
}

#[test]
fn typed_publish_records_the_same_intent_as_the_raw_variant() {
    let registry = known();
    let mut mint = IdMint::new();
    let trace = root(&mut mint);
    let path = ActorPath::new("inventory.west");
    let mut typed = MsgCtx::new(&path, trace, None, at_millis(&registry, 0));
    typed.publish::<StockReserved>(&mut mint, now(), payload(r#"{"qty":2}"#));
    let mut raw = MsgCtx::new(&path, trace, None, at_millis(&registry, 0));
    raw.publish_json(&mut mint, now(), StockReserved::schema_id(), payload(r#"{"qty":2}"#));

    let typed = typed.into_outbox().drain();
    let raw = raw.into_outbox().drain();
    match (&typed[0], &raw[0]) {
        (Intent::Broadcast(ea), Intent::Broadcast(eb)) => {
            assert_eq!(ea.schema, eb.schema);
            assert_eq!(ea.schema, StockReserved::schema_id());
            assert_eq!(ea.dest, eb.dest);
            assert_eq!(ea.payload_json(), eb.payload_json());
        }
        _ => panic!("expected broadcast intents"),
    }
}

#[test]
fn typed_send_records_the_same_intent_as_the_raw_variant() {
    let registry = known();
    let mut mint = IdMint::new();
    let trace = root(&mut mint);
    let path = ActorPath::new("storefront");
    let mut typed = MsgCtx::new(&path, trace, None, at_millis(&registry, 0));
    typed.send::<ReserveStock>(
        &mut mint,
        now(),
        Address::Path(ActorPath::new("inventory")),
        payload(r#"{"qty":2}"#),
        None,
    );
    let mut raw = MsgCtx::new(&path, trace, None, at_millis(&registry, 0));
    raw.send_json(
        &mut mint,
        now(),
        Address::Path(ActorPath::new("inventory")),
        ReserveStock::schema_id(),
        payload(r#"{"qty":2}"#),
        None,
    );

    let typed = typed.into_outbox().drain();
    let raw = raw.into_outbox().drain();
    match (&typed[0], &raw[0]) {
        (Intent::Send(ea), Intent::Send(eb)) => {
            assert_eq!(ea.dest, eb.dest);
            assert_eq!(ea.schema, ReserveStock::schema_id());
            assert_eq!(ea.schema, eb.schema);
            assert_eq!(ea.payload_json(), eb.payload_json());
            assert_eq!(ea.from, eb.from);
        }
        _ => panic!("expected send intents"),
    }
}

#[test]
fn es_entity_cannot_stop_itself() {
    fn uses_surface(ctx: &mut CmdCtx<'_>) {
        let _ = ctx.lookup(&ActorPath::new("x"));
        let _ = ctx.handlers_of(&SchemaId::new("S"));
        let _ = ctx.recv_ts();
        let _ = ctx.self_path();
    }
    let registry = known();
    let outbox = Outbox::new();
    let path = ActorPath::new("entity");
    let mut ctx = CmdCtx::new(&path, at_millis(&registry, 0));
    uses_surface(&mut ctx);
    assert!(outbox.is_empty());
}

#[test]
fn stopping_and_sending_to_anyone_are_intents_in_order() {
    let registry = known();
    let mut mint = IdMint::new();
    let trace = root(&mut mint);
    let path = ActorPath::new("auditor");
    let mut ctx = MsgCtx::new(&path, trace, None, at_millis(&registry, 5));
    assert_eq!(ctx.recv_ts().as_millis(), 5);
    assert_eq!(ctx.self_path().as_str(), "auditor");
    assert!(ctx.reply_dest().is_none());

    ctx.send_to_any::<Ping>(&mut mint, now(), payload("1"));
    ctx.stop_self();

    let intents = ctx.into_outbox().drain();
    match &intents[0] {
        Intent::Send(envelope) => assert_eq!(envelope.dest, Address::Schema(Ping::schema_id())),
        _ => panic!("expected a send"),
    }
    assert!(matches!(intents[1], Intent::StopSelf));
    assert!(intents[1].emitted_schema().is_none());
    assert_eq!(intents[0].emitted_schema(), Some(&Ping::schema_id()));
}

#[test]
fn an_ask_settles_as_its_reply_came() {
    let dest = Address::Path(ActorPath::new("oracle"));

    let (outcome, answer) = settle_ask(&dest, AskReply::Replied(payload("7")));
    assert_eq!(outcome, AskOutcome::Replied);
    assert_eq!(answer.ok().expect("reply").json().tree().as_u64(), Some(7));

    let (outcome, answer) = settle_ask(&dest, AskReply::TimedOut);
    assert_eq!(outcome, AskOutcome::Timeout);
    assert!(answer.is_err());

    let (outcome, answer) = settle_ask(&dest, AskReply::Lost);
    assert_eq!(outcome, AskOutcome::Failed);
    match answer {
        Err(AskError::Unresolved(why)) => assert!(why.contains("oracle"), "{why}"),
        Ok(_) => panic!("nothing was replied"),
    }
}
