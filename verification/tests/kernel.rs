//! The kernel's decisions: delivery, routing, steps, effects and lifecycles.

use trouper::actor::ActorKind;
use trouper::actor::ActorPath;
use trouper::actor::SnapshotCadence;
use trouper::actor::StopReason;
use trouper::clock::Timestamp;
use trouper::context::AskError;
use trouper::context::Intent;
use trouper::context::Outbox;
use trouper::envelope::Address;
use trouper::envelope::Envelope;
use trouper::envelope::Event;
use trouper::envelope::Events;
use trouper::envelope::Payload;
use trouper::envelope::RecordedOrigin;
use trouper::envelope::TraceCtx;
use trouper::ids::IdMint;
use trouper::inbox::Inbox;
use trouper::inbox::InboxOffset;
use trouper::inbox::OverloadPolicy;
use trouper::journal::EventOrigin;
use trouper::journal::InMemoryJournalStore;
use trouper::journal::JournalEntry;
use trouper::journal::SeqNo;
use trouper::json::Json;
use trouper::kernel::ask::ask_request;
use trouper::kernel::ask::ask_settled;
use trouper::kernel::ask::ask_undelivered;
use trouper::kernel::ask::resolve_ask;
use trouper::kernel::broadcast::broadcast;
use trouper::kernel::broadcast::undelivered_copy;
use trouper::kernel::cell::after_step;
use trouper::kernel::cell::drain_inbox_on_stop;
use trouper::kernel::cell::drains_on;
use trouper::kernel::cell::idle_wait;
use trouper::kernel::cell::recover_at_boot;
use trouper::kernel::cell::restart_es;
use trouper::kernel::cell::run_on_stop;
use trouper::kernel::cell::ActorCell;
use trouper::kernel::cell::IdleWait;
use trouper::kernel::cell::LoopNext;
use trouper::kernel::cell::StopHook;
use trouper::kernel::dead_letter;
use trouper::kernel::delivery::direct_push;
use trouper::kernel::delivery::door_capacity;
use trouper::kernel::delivery::front_door_turn;
use trouper::kernel::delivery::push_holding_block;
use trouper::kernel::delivery::DoorStep;
use trouper::kernel::delivery::Pushed;
use trouper::kernel::delivery::Watermark;
use trouper::kernel::effects::flush_batch;
use trouper::kernel::effects::flush_outbox;
use trouper::kernel::effects::resolve_reply;
use trouper::kernel::effects::undelivered_reply;
use trouper::kernel::effects::undelivered_send;
use trouper::kernel::effects::Effect;
use trouper::kernel::es_step::after_append;
use trouper::kernel::es_step::commit_batch;
use trouper::kernel::es_step::fan_out_emits;
use trouper::kernel::es_step::find_entry;
use trouper::kernel::es_step::maybe_snapshot;
use trouper::kernel::es_step::plan_append;
use trouper::kernel::es_step::settle_step;
use trouper::kernel::es_step::snapshot_boundaries;
use trouper::kernel::es_step::split_emits;
use trouper::kernel::es_step::step_run;
use trouper::kernel::es_step::undeclared_letter;
use trouper::kernel::es_step::AfterAppend;
use trouper::kernel::es_step::AppendPlan;
use trouper::kernel::es_step::AppendResult;
use trouper::kernel::es_step::DecidePass;
use trouper::kernel::es_step::DecidedEvent;
use trouper::kernel::es_step::Decision;
use trouper::kernel::es_step::Step;
use trouper::kernel::routing::apply_rules;
use trouper::kernel::routing::extract_key;
use trouper::kernel::routing::reported_dest;
use trouper::kernel::routing::resolve_partition;
use trouper::kernel::routing::resolve_projector_set;
use trouper::kernel::routing::route_step;
use trouper::kernel::routing::Placement;
use trouper::kernel::routing::Resolution;
use trouper::kernel::routing::RouteAction;
use trouper::kernel::routing::RoutePhase;
use trouper::kernel::service::hand_over;
use trouper::kernel::service::settle_dispatch;
use trouper::kernel::service::step_service;
use trouper::kernel::service::Dispatched;
use trouper::kernel::service::Handover;
use trouper::kernel::service::ServiceNext;
use trouper::kernel::AskOutcome;
use trouper::kernel::DeadLetterReason;
use trouper::pool::PartitionSpec;
use trouper::pool::ProjectorSetSpec;
use trouper::pool::Rule;
use trouper::pool::RuleAction;
use trouper::registry::Endpoint;
use trouper::registry::Registry;
use trouper::reply::LeaseId;
use trouper::schema::ActorManifest;
use trouper::schema::FieldDef;
use trouper::schema::FieldTy;
use trouper::schema::SchemaDef;
use trouper::schema::SchemaId;
use trouper::schema::SchemaKind;

fn json(text: &str) -> Json {
    Json::from_slice(text.as_bytes()).expect("JSON text")
}

fn now() -> Timestamp {
    Timestamp::from_millis(1_000)
}

fn trace() -> TraceCtx {
    TraceCtx::root(&mut IdMint::new(), now())
}

fn path(name: &str) -> ActorPath {
    ActorPath::new(name)
}

fn to(dest: &str, schema: &str, text: &str) -> Envelope {
    Envelope::raw(SchemaId::new(schema), Address::Path(path(dest)), Payload::json_view(json(text)), trace())
}

fn event(schema: &str, n: u64) -> Event {
    Event::from_json_view(SchemaId::new(schema), json(&format!("{{\"n\":{n}}}")))
}

fn keyed(name: &str, kind: SchemaKind) -> SchemaDef {
    SchemaDef {
        name: name.into(),
        kind,
        fields: vec![FieldDef::required("sku", FieldTy::Str).as_shard_key()],
        description: None,
    }
}

fn spawn(registry: &mut Registry, name: &str, kind: ActorKind, id: u64) {
    registry
        .insert_slot(&path(name), ActorManifest::new().kind(kind), Endpoint { id, capacity: 4 }, OverloadPolicy::Block)
        .expect("insert");
}

/// A registry with a partition set `inv` and a projector set `view`.
fn sets() -> Registry {
    let mut registry = Registry::new();
    registry.register_schema(keyed("Reserve", SchemaKind::Command));
    registry.register_schema(keyed("Reserved", SchemaKind::Event));
    registry
        .install_partition_set(PartitionSpec {
            public: path("inv"),
            key_field: "sku".into(),
            args_template: None,
        })
        .expect("partition");
    registry
        .install_projector_set(ProjectorSetSpec {
            public: path("view"),
            key_field: "sku".into(),
            args_template: None,
            consumed: vec![SchemaId::new("Reserved")],
        })
        .expect("projectors");
    registry
}

/// Runs one envelope's route, answering each question with `accept`.
fn run_route(registry: &mut Registry, envelope: &Envelope, accept: &[bool]) -> Vec<String> {
    let mut mint = IdMint::new();
    let mut phase = RoutePhase::Start;
    let mut seen = Vec::new();
    let mut answers = accept.iter();
    let mut accepted = false;
    loop {
        let (next, action) = route_step(phase, accepted, registry, envelope, false, &mut mint, now());
        phase = next;
        let done = match action {
            RouteAction::Tee { endpoint, observer, .. } => {
                seen.push(format!("tee {} {}", endpoint.id, observer.as_str()));
                false
            }
            RouteAction::Activate(activation) => {
                seen.push(format!("activate {}", activation.path.as_str()));
                spawn(registry, activation.path.as_str(), ActorKind::EventSourced, 90);
                false
            }
            RouteAction::Push(endpoint) => {
                seen.push(format!("push {}", endpoint.id));
                false
            }
            RouteAction::Deliver(endpoint) => {
                seen.push(format!("deliver {}", endpoint.id));
                false
            }
            RouteAction::Arrived { path, announce } => {
                seen.push(format!("arrived {} {announce}", path.as_str()));
                true
            }
            RouteAction::Keyless { path, .. } => {
                seen.push(format!("keyless {}", path.as_str()));
                true
            }
            RouteAction::Refuse => {
                seen.push("refuse".into());
                true
            }
            RouteAction::Shut(_) => {
                seen.push("shut".into());
                true
            }
        };
        if done {
            return seen;
        }
        accepted = *answers.next().unwrap_or(&false);
    }
}

#[test]
fn a_watermark_fires_once_per_excursion() {
    let mut mark = Watermark::new(Some(3));

    let fired: Vec<Option<u64>> = [2, 4, 5, 3, 4].into_iter().map(|depth| mark.observe(depth)).collect();

    assert_eq!(fired, [None, Some(4), None, None, Some(4)]);
    assert_eq!(Watermark::new(None).observe(u64::MAX), None);
}

#[test]
fn a_push_is_queued_or_comes_back() {
    let mut inbox = Inbox::new(1, OverloadPolicy::DropOld);
    let mut mark = Watermark::new(Some(0));
    match direct_push(&mut inbox, &mut mark, to("a", "Ping", "1")) {
        Pushed::Queued { backpressure, evicted } => {
            assert_eq!(backpressure, Some(1));
            assert!(evicted.is_none());
        }
        Pushed::Refused(_) => panic!("there was room"),
    }
    match direct_push(&mut inbox, &mut mark, to("a", "Ping", "2")) {
        Pushed::Queued { backpressure, evicted } => {
            assert_eq!(backpressure, None, "already over");
            let letter = evicted.expect("the oldest left");
            assert_eq!(letter.reason, DeadLetterReason::InboxRefused);
            assert_eq!(letter.envelope.payload_json().tree().as_u64(), Some(1));
        }
        Pushed::Refused(_) => panic!("eviction makes room"),
    }

    let mut full = Inbox::new(1, OverloadPolicy::DropNew);
    let _ = direct_push(&mut full, &mut mark, to("a", "Ping", "1"));
    match direct_push(&mut full, &mut mark, to("a", "Ping", "2")) {
        Pushed::Refused(envelope) => assert_eq!(envelope.payload_json().tree().as_u64(), Some(2)),
        Pushed::Queued { .. } => panic!("full"),
    }
}

#[test]
fn a_blocking_inbox_holds_the_door_until_it_gives_up() {
    let mut inbox = Inbox::new(1, OverloadPolicy::Block);
    let envelope = to("a", "Ping", "1");
    assert!(matches!(push_holding_block(&mut inbox, &envelope, 0), DoorStep::Accepted));
    assert!(matches!(push_holding_block(&mut inbox, &envelope, 0), DoorStep::Hold));
    assert!(matches!(push_holding_block(&mut inbox, &envelope, 998), DoorStep::Hold));
    assert!(matches!(push_holding_block(&mut inbox, &envelope, 1_000), DoorStep::Dead(_)));

    let mut dropping = Inbox::new(1, OverloadPolicy::DropNew);
    let _ = push_holding_block(&mut dropping, &envelope, 0);
    match push_holding_block(&mut dropping, &envelope, 0) {
        DoorStep::Dead(letter) => assert_eq!(letter.reason, DeadLetterReason::InboxRefused),
        _ => panic!("nothing waits at a dropping door"),
    }

    let mut mark = Watermark::new(Some(0));
    let mut fresh = Inbox::new(2, OverloadPolicy::Block);
    let (step, fired) = front_door_turn(&mut fresh, &mut mark, &envelope, 0);
    assert!(matches!(step, DoorStep::Accepted));
    assert_eq!(fired, Some(1));
}

#[test]
fn a_door_has_at_least_one_place() {
    assert_eq!(door_capacity(0, OverloadPolicy::Block), 1);
    assert_eq!(door_capacity(8, OverloadPolicy::Block), 8);
    assert_eq!(door_capacity(usize::MAX, OverloadPolicy::Block), usize::MAX);
    assert_eq!(door_capacity(0, OverloadPolicy::DropNew), 2);
    assert_eq!(door_capacity(8, OverloadPolicy::DropOld), 16);
    assert_eq!(door_capacity(8, OverloadPolicy::Unbounded), 8);
}

#[test]
fn a_plain_route_pushes_and_falls_back_to_the_door() {
    let mut registry = Registry::new();
    spawn(&mut registry, "a", ActorKind::Service, 1);

    assert_eq!(run_route(&mut registry, &to("a", "Ping", "1"), &[true]), ["push 1", "arrived a true"]);
    assert_eq!(
        run_route(&mut registry, &to("a", "Ping", "1"), &[false, true]),
        ["push 1", "deliver 1", "arrived a true"]
    );
    assert_eq!(run_route(&mut registry, &to("ghost", "Ping", "1"), &[]), ["refuse"]);
}

#[test]
fn shutting_down_dead_letters_at_the_start() {
    let mut registry = Registry::new();
    spawn(&mut registry, "a", ActorKind::Service, 1);
    let envelope = to("a", "Ping", "1");

    let (phase, action) =
        route_step(RoutePhase::Start, false, &mut registry, &envelope, true, &mut IdMint::new(), now());

    assert!(matches!(phase, RoutePhase::Over));
    match action {
        RouteAction::Shut(letter) => assert_eq!(letter.reason, DeadLetterReason::ShuttingDown),
        _ => panic!("expected a shut door"),
    }
}

#[test]
fn a_partition_activates_one_member_per_key() {
    let mut registry = sets();
    let envelope = to("inv", "Reserve", r#"{"sku":"w-1"}"#);

    let first = run_route(&mut registry, &envelope, &[true, true]);
    assert_eq!(first[0], "activate inv/w-1");
    assert_eq!(first.last().map(String::as_str), Some("arrived inv/w-1 true"));
    let second = run_route(&mut registry, &envelope, &[true]);
    assert_eq!(second, ["push 90", "arrived inv/w-1 true"]);
    assert_eq!(run_route(&mut registry, &to("inv", "Reserve", "{}"), &[]), ["keyless inv"]);

    assert_eq!(extract_key(&registry, &envelope, "sku"), Some("w-1".to_owned()));
    let unregistered = to("inv", "Restock", r#"{"sku":"w-3"}"#);
    assert_eq!(extract_key(&registry, &unregistered, "sku"), Some("w-3".to_owned()));
    let empty = to("inv", "Restock", r#"{"sku":""}"#);
    assert_eq!(extract_key(&registry, &empty, "sku"), None, "an empty key is no key");
    assert_eq!(run_route(&mut registry, &empty, &[]), ["keyless inv"]);
    assert!(matches!(resolve_partition(&registry, &envelope, &path("inv"), false), Resolution::Live(_)));
    assert!(matches!(resolve_partition(&registry, &envelope, &path("a"), false), Resolution::Plain));
    let other = to("inv", "Reserve", r#"{"sku":"w-2"}"#);
    match resolve_partition(&registry, &other, &path("inv"), false) {
        Resolution::Activate(activation) => {
            assert_eq!(activation.path.as_str(), "inv/w-2");
            assert_eq!(activation.args.to_vec(), br#"{"key":"w-2"}"#);
            assert!(!activation.projectors);
        }
        _ => panic!("expected an activation"),
    }
}

#[test]
fn a_projector_set_activates_from_a_fact() {
    let registry = sets();
    let envelope = to("view", "Reserved", r#"{"sku":"w-1"}"#);

    match resolve_projector_set(&registry, &envelope, &path("view"), false) {
        Resolution::Activate(activation) => {
            assert_eq!(activation.path.as_str(), "view/w-1");
            assert!(activation.projectors);
        }
        _ => panic!("expected an activation"),
    }
    let keyless = to("view", "Reserved", "{}");
    assert!(matches!(resolve_projector_set(&registry, &keyless, &path("view"), false), Resolution::Refused));
}

#[test]
fn the_first_matching_rule_places_a_message() {
    let envelope = to("a", "Ping", "1");
    let mut mint = IdMint::new();
    let tee = Rule {
        source: None,
        schema: Some(SchemaId::new("Ping")),
        dest: None,
        action: RuleAction::Tee(path("watcher")),
    };
    let inline = Rule { source: None, schema: None, dest: Some(path("a")), action: RuleAction::Inline(path("guard")) };
    let other = Rule { source: Some(path("x")), schema: None, dest: None, action: RuleAction::Inline(path("never")) };

    assert!(matches!(apply_rules(&vec![], &envelope, &path("a"), &mut mint, now()), Placement::Direct));
    match apply_rules(&vec![other, tee, inline], &envelope, &path("a"), &mut mint, now()) {
        Placement::Tee { copy, observer } => {
            assert_eq!(observer.as_str(), "watcher");
            assert_eq!(copy.trace.trace_id, envelope.trace.trace_id);
        }
        _ => panic!("expected a tee"),
    }
}

#[test]
fn an_inline_rule_puts_its_interposer_first() {
    let mut registry = Registry::new();
    spawn(&mut registry, "a", ActorKind::Service, 1);
    spawn(&mut registry, "guard", ActorKind::Service, 2);
    registry.add_rule(Rule {
        source: None,
        schema: None,
        dest: Some(path("a")),
        action: RuleAction::Inline(path("guard")),
    });

    assert_eq!(run_route(&mut registry, &to("a", "Ping", "1"), &[true]), ["push 2", "arrived guard true"]);
}

#[test]
fn a_teed_message_also_reaches_its_destination() {
    let mut registry = Registry::new();
    spawn(&mut registry, "a", ActorKind::Service, 1);
    spawn(&mut registry, "watcher", ActorKind::Service, 2);
    registry.add_rule(Rule {
        source: None,
        schema: Some(SchemaId::new("Ping")),
        dest: None,
        action: RuleAction::Tee(path("watcher")),
    });

    let seen = run_route(&mut registry, &to("a", "Ping", "1"), &[true, true]);

    assert_eq!(seen, ["tee 2 watcher", "push 1", "arrived a true"]);
}

#[test]
fn a_schema_address_rotates_over_its_handlers() {
    let mut registry = Registry::new();
    for (id, name) in [(1, "a"), (2, "b")] {
        spawn(&mut registry, name, ActorKind::Service, id);
        registry.add_route(&SchemaId::new("Ping"), path(name));
    }
    let envelope = Envelope::raw(
        SchemaId::new("Ping"),
        Address::Schema(SchemaId::new("Ping")),
        Payload::json_view(json("1")),
        trace(),
    );

    let first = run_route(&mut registry, &envelope, &[true]);
    let second = run_route(&mut registry, &envelope, &[true]);

    assert_ne!(first, second);
    assert!(first.last().expect("ended").starts_with("arrived "));
    assert!(second.last().expect("ended").starts_with("arrived "));
}

#[test]
fn only_declared_messages_leave() {
    let mut outbox = Outbox::new();
    outbox.push_send(to("b", "Done", "1"));
    outbox.push_send(to("b", "Leaked", "2"));
    outbox.push_broadcast(to("b", "Done", "3"));
    outbox.push_reply(Address::Path(path("asker")), SchemaId::new("Answer"), Payload::json_view(json("4")), trace());
    outbox.push_stop_self();

    let flushed = flush_outbox(outbox, &vec![SchemaId::new("Done"), SchemaId::new("Answer")]);

    assert!(flushed.stops);
    assert_eq!(flushed.letters.len(), 1);
    assert_eq!(flushed.letters[0].reason, DeadLetterReason::UndeclaredEmit);
    assert_eq!(flushed.letters[0].schema.as_str(), "Leaked");
    assert_eq!(flushed.effects.len(), 3);
    assert!(matches!(flushed.effects[0], Effect::Route(_)));
    assert!(matches!(flushed.effects[1], Effect::Broadcast(_)));
    assert!(matches!(flushed.effects[2], Effect::Answer(_)));
}

#[test]
fn what_nobody_takes_is_recorded() {
    let lost = undelivered_send(&to("b", "Done", "1"));
    let unanswered = undelivered_reply(&to("asker", "Answer", "2"));

    assert_eq!(lost.reason, DeadLetterReason::Unresolvable);
    assert_eq!(lost.detail, "destination unresolved");
    assert_eq!(unanswered.detail, "reply destination unresolved");
    assert_eq!(unanswered.schema.as_str(), "Answer");
}

#[test]
fn a_send_is_reported_where_it_was_addressed() {
    let mut envelope = to("b", "Done", "1");
    assert_eq!(reported_dest(&envelope, path("member")), Address::Path(path("member")));

    envelope.dest = Address::Schema(SchemaId::new("Done"));
    assert_eq!(reported_dest(&envelope, path("member")), Address::Schema(SchemaId::new("Done")));
}

#[test]
fn a_stop_ends_a_batch_of_outboxes() {
    let mut first = Outbox::new();
    first.push_stop_self();
    let mut second = Outbox::new();
    second.push_send(to("b", "Done", "1"));

    let flushed = flush_batch(vec![first, second], &vec![SchemaId::new("Done")]);

    assert!(flushed.stops);
    assert!(flushed.effects.is_empty());
}

#[test]
fn a_reply_to_a_slot_completes_its_lease() {
    let lease = LeaseId::new(&mut IdMint::new(), 5);

    match resolve_reply(Address::Slot(lease), SchemaId::new("Answer"), Payload::json_view(json("7")), trace()) {
        Effect::Complete(id, payload) => {
            assert_eq!(id.to_string(), lease.to_string());
            assert_eq!(payload.json().tree().as_u64(), Some(7));
        }
        _ => panic!("expected a completion"),
    }
}

#[test]
fn a_batch_is_decided_in_order_and_unknown_mail_dies() {
    let batch = vec![
        (InboxOffset::new(0), to("a", "Strange", "1")),
        (InboxOffset::new(1), to("a", "Add", "2")),
        (InboxOffset::new(2), to("a", "Add", "3")),
    ];
    let mut pass = DecidePass::new(batch, vec![SchemaId::new("Other"), SchemaId::new("Add")]);

    let (at, entry) = pass.next_dispatch().expect("one to decide");
    assert_eq!((at, entry), (1, 1));
    assert_eq!(pass.message(at).payload_json().tree().as_u64(), Some(2));
    let decided = Decision::Decided { events: Events::from_vec(vec![event("Added", 2)]), outbox: Outbox::new() };
    assert_eq!(pass.record(decided), None);
    assert_eq!(pass.next_dispatch(), Some((2, 1)));
    assert_eq!(pass.record(Decision::Panicked), Some(Step::Crashed), "a panic ends the step");
    assert_eq!(pass.next_dispatch(), Some((2, 1)), "and records nothing");
    assert_eq!(pass.record(Decision::Undecodable { detail: "garbled".into() }), None);
    assert_eq!(pass.next_dispatch(), None);
    let (batch, events, outboxes, letters) = pass.finish();

    assert_eq!(batch.len(), 3);
    assert_eq!(events.len(), 1);
    assert_eq!(outboxes.len(), 3, "one per message");
    assert_eq!(letters.len(), 2);
    assert_eq!(letters[0].reason, DeadLetterReason::UnknownSchema);
    assert_eq!(letters[1].reason, DeadLetterReason::Decode);
    assert_eq!(letters[1].detail, "garbled");
    assert_eq!(find_entry(&vec![SchemaId::new("Add")], &SchemaId::new("Strange")), None);
}

#[test]
fn undeclared_events_are_parted_before_the_append() {
    let events = vec![decided("Added", 1, None), decided("Leaked", 2, None), decided("Added", 3, None)];

    let (kept, undeclared) = split_emits(&events, &vec![SchemaId::new("Added")]);

    assert_eq!(kept.len(), 2);
    assert!(kept[1].event == event("Added", 3));
    assert_eq!(undeclared.len(), 1);
    let letter = undeclared_letter(&path("a"), &undeclared[0].event, trace());
    assert_eq!(letter.reason, DeadLetterReason::UndeclaredEvent);
    assert_eq!(letter.schema.as_str(), "Leaked");
}

fn decided(name: &str, n: u64, origin: Option<(&str, u64)>) -> DecidedEvent {
    DecidedEvent {
        event: event(name, n),
        origin: origin.map(|(journal, seq)| RecordedOrigin { journal: path(journal), seq: SeqNo::new(seq) }),
    }
}

#[test]
fn recorded_facts_are_appended_with_their_origin() {
    let copies = vec![decided("Added", 1, Some(("source", 6)))];

    assert!(matches!(plan_append(true, &vec![decided("Added", 1, None)]), AppendPlan::Plain(_)));
    assert!(matches!(plan_append(true, &vec![]), AppendPlan::Skip));
    match plan_append(true, &copies) {
        AppendPlan::CatchUp(facts) => {
            assert_eq!(facts.len(), 1);
            assert_eq!(facts[0].journal.as_str(), "source");
            assert_eq!(facts[0].seq, SeqNo::new(6));
        }
        _ => panic!("expected the origins to travel"),
    }
    match plan_append(false, &copies) {
        AppendPlan::Plain(events) => assert_eq!(events.len(), 1),
        _ => panic!("an entity's decision is its own record"),
    }
}

#[test]
fn a_projector_checkpoints_each_copy_under_its_own_origin() {
    let batch = vec![
        (InboxOffset::new(0), to("view", "Added", "1").with_recorded_origin(path("src"), SeqNo::new(3))),
        (InboxOffset::new(1), to("view", "Added", "2").with_recorded_origin(path("src"), SeqNo::new(4))),
    ];
    let mut pass = DecidePass::new(step_run(batch, true), vec![SchemaId::new("Added")]);
    while let Some((at, _)) = pass.next_dispatch() {
        let n = pass.message(at).payload_json().tree().as_u64().expect("a number");
        let events = Events::from_vec(vec![event("Added", n)]);
        assert_eq!(pass.record(Decision::Decided { events, outbox: Outbox::new() }), None);
    }
    let (_, events, _, _) = pass.finish();
    let facts = match plan_append(true, &events) {
        AppendPlan::CatchUp(facts) => facts,
        _ => panic!("expected checkpoints"),
    };

    let mut store = InMemoryJournalStore::new();
    let view = path("view");
    assert_eq!(store.append_catchup(&view, &facts), [Some(SeqNo::new(0)), Some(SeqNo::new(1))]);
    let origins: Vec<EventOrigin> = store
        .entries_of(&view)
        .iter()
        .map(|entry| match entry {
            JournalEntry::Event { origin, .. } => origin.clone(),
            JournalEntry::Snapshot { .. } => panic!("expected events"),
        })
        .collect();
    assert!(origins[0] == EventOrigin::CatchUp { source: path("src"), source_seq: SeqNo::new(3) });
    assert!(origins[1] == EventOrigin::CatchUp { source: path("src"), source_seq: SeqNo::new(4) });
    assert_eq!(store.append_catchup(&view, &facts), [None, None]);
    assert!(store.scan(&vec![SchemaId::new("Added")]).is_empty(), "checkpoints do not surface");
}

#[test]
fn a_projectors_step_takes_one_sort_of_message() {
    let copy = |n: u64| to("view", "Added", "1").with_recorded_origin(path("src"), SeqNo::new(n));
    let mixed = || {
        vec![
            (InboxOffset::new(0), copy(3)),
            (InboxOffset::new(1), copy(4)),
            (InboxOffset::new(2), to("view", "Added", "5")),
            (InboxOffset::new(3), copy(6)),
        ]
    };

    assert_eq!(step_run(mixed(), true).len(), 2);
    assert_eq!(step_run(mixed(), false).len(), 4);
    assert_eq!(step_run(mixed().split_off(2), true).len(), 1);
    assert!(step_run(vec![], true).is_empty());
}

#[test]
fn a_panic_leaves_the_letters_so_far() {
    let batch = vec![
        (InboxOffset::new(0), to("a", "Strange", "1")),
        (InboxOffset::new(1), to("a", "Add", "2")),
    ];
    let mut pass = DecidePass::new(batch, vec![SchemaId::new("Add")]);
    assert_eq!(pass.next_dispatch(), Some((1, 0)));
    assert_eq!(pass.record(Decision::Panicked), Some(Step::Crashed));

    let letters = pass.into_letters();

    assert_eq!(letters.len(), 1);
    assert_eq!(letters[0].reason, DeadLetterReason::UnknownSchema);
}

#[test]
fn what_the_store_answers_decides_the_commit() {
    let events = || vec![event("Added", 1), event("Added", 2)];
    assert!(matches!(after_append(events(), AppendResult::Failed), AfterAppend::Crash));
    match after_append(events(), AppendResult::Appended(vec![SeqNo::new(4), SeqNo::new(5)])) {
        AfterAppend::Commit { events, seqs } => {
            assert_eq!(events.len(), 2);
            assert_eq!(seqs, [SeqNo::new(4), SeqNo::new(5)]);
        }
        _ => panic!("expected a commit"),
    }
    let held = AppendResult::CheckPointed(vec![None, None]);
    assert!(matches!(after_append(events(), held), AfterAppend::CommitOnly));
    match after_append(events(), AppendResult::CheckPointed(vec![Some(SeqNo::new(7)), Some(SeqNo::new(8))])) {
        AfterAppend::Commit { events, seqs } => {
            assert_eq!(events.len(), 2);
            assert_eq!(seqs, [SeqNo::new(7), SeqNo::new(8)]);
        }
        _ => panic!("expected the checkpoints' own seqs"),
    }
    match after_append(events(), AppendResult::CheckPointed(vec![None, Some(SeqNo::new(7))])) {
        AfterAppend::Commit { events, seqs } => {
            assert_eq!(events.len(), 1, "a fact held already is not folded again");
            assert!(events[0] == event("Added", 2));
            assert_eq!(seqs, [SeqNo::new(7)]);
        }
        _ => panic!("expected the new fact alone"),
    }
}

#[test]
fn snapshots_fall_on_every_boundary() {
    assert_eq!(snapshot_boundaries(3, 0, 7), [SeqNo::new(2), SeqNo::new(5)]);
    assert!(snapshot_boundaries(0, 0, 7).is_empty());
    assert!(snapshot_boundaries(3, 3, 4).is_empty());
    let seqs = vec![SeqNo::new(1), SeqNo::new(2)];
    assert_eq!(maybe_snapshot(SnapshotCadence::Messages(3), &seqs), [SeqNo::new(2)]);
    assert!(maybe_snapshot(SnapshotCadence::Off, &seqs).is_empty());
    assert!(maybe_snapshot(SnapshotCadence::Time(5), &seqs).is_empty());
}

#[test]
fn facts_fan_out_with_their_record() {
    let events = vec![event("Added", 1)];

    let copies = fan_out_emits(&path("a"), false, &events, &vec![SeqNo::new(8)], trace());

    assert_eq!(copies.len(), 1);
    assert_eq!(copies[0].from.as_ref().map(|p| p.as_str()), Some("a"));
    assert_eq!(copies[0].recorded_origin().expect("origin").seq, SeqNo::new(8));
    assert!(fan_out_emits(&path("p"), true, &events, &vec![SeqNo::new(8)], trace()).is_empty());
}

#[test]
fn a_step_commits_its_batch_or_leaves_it_to_be_redelivered() {
    let mut inbox = Inbox::new(4, OverloadPolicy::Block);
    let _ = inbox.push(to("a", "Add", "1"));
    let batch = inbox.peek_up_to(4);
    let events = vec![decided("Added", 1, None)];

    let crashed = settle_step(
        &mut inbox,
        &path("a"),
        false,
        &batch,
        &events,
        vec![Outbox::new()],
        AppendResult::Failed,
        &vec![],
        SnapshotCadence::Off,
        trace(),
    );
    assert_eq!(crashed.step, Step::Crashed);
    assert!(crashed.events.is_empty());
    assert!(!crashed.acks);
    assert_eq!(inbox.len(), 1, "nothing is lost");

    let settled = settle_step(
        &mut inbox,
        &path("a"),
        false,
        &batch,
        &events,
        vec![Outbox::new()],
        AppendResult::Appended(vec![SeqNo::new(0)]),
        &vec![],
        SnapshotCadence::Messages(1),
        trace(),
    );
    assert_eq!(settled.step, Step::Work);
    assert_eq!(settled.events.len(), 1);
    assert!(settled.acks);
    assert_eq!(settled.seqs, [SeqNo::new(0)]);
    assert_eq!(settled.last_seq, Some(SeqNo::new(0)));
    assert_eq!(settled.copies.len(), 1);
    assert_eq!(settled.snapshots, [SeqNo::new(0)]);
    assert!(inbox.is_empty());
}

#[test]
fn committing_a_batch_keeps_later_mail() {
    let mut inbox = Inbox::new(4, OverloadPolicy::Block);
    let _ = inbox.push(to("a", "Add", "1"));
    let batch = inbox.peek_up_to(4);
    let _ = inbox.push(to("a", "Add", "2"));

    commit_batch(&mut inbox, &batch);

    assert_eq!(inbox.len(), 1);
    assert_eq!(inbox.peek().expect("mail").payload_json().tree().as_u64(), Some(2));
}

#[test]
fn a_service_message_is_handed_over_at_most_once() {
    let mut inbox = Inbox::new(4, OverloadPolicy::Block);
    let _ = inbox.push(to("a", "Add", "1"));
    let _ = inbox.push(to("a", "Strange", "2"));
    let mut batch = Vec::new();
    inbox.claim_up_to(4, &mut batch);
    let entries = vec![SchemaId::new("Add")];

    assert!(matches!(hand_over(&mut inbox, &batch[0], &entries), Handover::Dispatch(0)));
    assert_eq!(inbox.len(), 1, "acked before the handler runs");
    match hand_over(&mut inbox, &batch[1], &entries) {
        Handover::Dead(letter) => assert_eq!(letter.reason, DeadLetterReason::UnknownSchema),
        Handover::Dispatch(_) => panic!("no handler"),
    }
    assert!(inbox.is_empty());
}

#[test]
fn a_service_dispatch_settles() {
    let envelope = to("a", "Add", "1");
    let mut outbox = Outbox::new();
    outbox.push_stop_self();

    let (next, letter) = settle_dispatch(&envelope, Dispatched::Handled(outbox), &vec![]);
    assert!(matches!(next, ServiceNext::Stop(_)));
    assert!(letter.is_none());
    assert_eq!(step_service(1, Some(&next)), Step::Stop);

    let undecodable = Dispatched::Undecodable { detail: "garbled".into(), outbox: Outbox::new() };
    let (next, letter) = settle_dispatch(&envelope, undecodable, &vec![]);
    assert!(matches!(next, ServiceNext::Continue(_)));
    assert_eq!(letter.expect("letter").reason, DeadLetterReason::Decode);
    assert_eq!(step_service(1, Some(&next)), Step::Work);

    let (next, _) = settle_dispatch(&envelope, Dispatched::Panicked, &vec![]);
    assert_eq!(step_service(1, Some(&next)), Step::Crashed);
    assert_eq!(step_service(0, None), Step::Idle);
}

#[test]
fn an_idle_actor_waits_for_its_earliest_duty() {
    let mut cell = ActorCell::new(8);
    cell.stamp_work(Timestamp::from_millis(100));
    assert_eq!(cell.next_duty_due_ms(), None);

    cell.passivation = Some(50);
    assert_eq!(cell.next_duty_due_ms(), Some(150));
    assert!(!cell.passivates(Timestamp::from_millis(149), false));
    assert!(cell.passivates(Timestamp::from_millis(150), false));
    assert!(!cell.passivates(Timestamp::from_millis(150), true));

    cell.snapshot_policy = SnapshotCadence::Time(20);
    cell.record_snapshot(Timestamp::from_millis(100));
    cell.record_commit(Some(SeqNo::new(4)));
    assert_eq!(cell.next_duty_due_ms(), Some(120));
    assert_eq!(cell.snapshot_on_idle(Timestamp::from_millis(119)), None);
    assert_eq!(cell.snapshot_on_idle(Timestamp::from_millis(120)), Some(SeqNo::new(4)));

    assert!(matches!(idle_wait(Some(120), Timestamp::from_millis(100), false), IdleWait::Sleep(20)));
    assert!(matches!(idle_wait(Some(120), Timestamp::from_millis(120), true), IdleWait::Due));
    assert!(matches!(idle_wait(Some(120), Timestamp::from_millis(130), false), IdleWait::Sleep(0)));
    assert!(matches!(idle_wait(None, Timestamp::from_millis(0), false), IdleWait::Park));
    assert!(matches!(idle_wait(Some(120), Timestamp::from_millis(100), true), IdleWait::ParkOnClock));
}

#[test]
fn the_stop_hook_runs_once() {
    let mut cell = ActorCell::new(1);

    assert!(cell.claim_on_stop());
    assert!(!cell.claim_on_stop());
    assert!(matches!(run_on_stop(false, true, false), StopHook::Service));
    assert!(matches!(run_on_stop(false, false, true), StopHook::Entity));
    assert!(matches!(run_on_stop(false, false, false), StopHook::Nothing));
}

#[test]
fn crashes_are_marked_and_restarts_clear_the_slate() {
    let mut cell = ActorCell::new(1);
    cell.mark_crashed();
    assert!(cell.is_crashed());
    cell.clear_crashed();
    assert!(!cell.is_crashed());

    cell.restarted(Timestamp::from_millis(70), Some(9));
    assert_eq!(cell.last_work_ms, 70);
    assert_eq!(cell.last_event_seq, Some(9));
}

#[test]
fn a_step_leads_to_the_loops_next_turn() {
    assert!(matches!(after_step(Step::Work), LoopNext::Stamp));
    assert!(matches!(after_step(Step::Idle), LoopNext::Duties));
    assert!(matches!(after_step(Step::Crashed), LoopNext::Leave));
    assert!(matches!(after_step(Step::Stop), LoopNext::Exit(StopReason::Normal)));
    assert!(drains_on(true, None));
    assert!(!drains_on(false, None));
}

#[test]
fn a_loop_that_leaves_keeps_its_mail() {
    let mut inbox = Inbox::new(4, OverloadPolicy::Block);
    let _ = inbox.push(to("a", "Add", "1"));

    drain_inbox_on_stop(&mut inbox);

    assert!(inbox.is_open());
    assert_eq!(inbox.len(), 1);
}

#[test]
fn a_boot_replays_what_the_journal_holds() {
    let mut store = InMemoryJournalStore::new();
    store.append(&path("a"), &[event("Added", 1), event("Added", 2)]);
    store.append_snapshot(&path("a"), SeqNo::new(0), json(r#"{"total":1}"#), 5);

    assert!(recover_at_boot(None).is_none());
    let rebuild = recover_at_boot(store.load(&path("a"))).expect("history");
    assert_eq!(rebuild.snapshot.expect("snapshot"), json(r#"{"total":1}"#));
    assert_eq!(rebuild.tail.len(), 1);

    let (rebuild, head) = restart_es(store.load(&path("a")));
    assert_eq!(rebuild.tail.len(), 1);
    assert_eq!(head, Some(1));
    let (fresh, none) = restart_es(None);
    assert!(fresh.snapshot.is_none());
    assert!(fresh.tail.is_empty());
    assert_eq!(none, None);
}

#[test]
fn services_answer_asks_and_entities_do_not() {
    let mut registry = Registry::new();
    spawn(&mut registry, "oracle", ActorKind::Service, 1);
    spawn(&mut registry, "ledger", ActorKind::EventSourced, 2);

    assert_eq!(resolve_ask(&registry, &Address::Path(path("oracle"))).ok().expect("answers").id, 1);
    match resolve_ask(&registry, &Address::Path(path("ledger"))) {
        Err(AskError::Unresolved(why)) => assert!(why.contains("do not answer asks"), "{why}"),
        Ok(_) => panic!("entities do not answer"),
    }
    assert!(resolve_ask(&registry, &Address::Path(path("ghost"))).is_err());
}

#[test]
fn an_ask_carries_its_lease_and_settles_as_a_fact() {
    let dest = Address::Path(path("oracle"));
    let lease = LeaseId::new(&mut IdMint::new(), 5);

    let (request, opened) =
        ask_request(SchemaId::new("Ask"), &dest, Payload::json_view(json("1")), lease, trace(), trace());
    assert_eq!(request.reply_to, Some(Address::Slot(lease)));
    assert_eq!(request.dest, dest);
    assert!(opened.opened);

    let settled = ask_settled(&dest, AskOutcome::Timeout, trace());
    assert!(!settled.opened);
    assert_eq!(settled.outcome, Some(AskOutcome::Timeout));
    let (failed, error) = ask_undelivered(&dest, trace());
    assert_eq!(failed.outcome, Some(AskOutcome::Failed));
    assert!(matches!(error, AskError::Unresolved(_)));
}

#[test]
fn a_broadcast_reaches_handlers_and_keyed_members() {
    let mut registry = sets();
    spawn(&mut registry, "auditor", ActorKind::Service, 1);
    registry.add_route(&SchemaId::new("Reserved"), path("auditor"));
    let fact = to("any", "Reserved", r#"{"sku":"w-1"}"#).from(path("inv/w-1"));

    let plan = broadcast(&registry, &SchemaId::new("Reserved"), &fact);

    assert_eq!(plan.targets.len(), 1);
    assert_eq!(plan.targets[0].0.as_str(), "auditor");
    assert_eq!(plan.keyed.len(), 1);
    assert_eq!(plan.keyed[0].dest, Address::Path(path("view/w-1")));
    assert!(plan.letters.is_empty());

    let echo = to("any", "Reserved", r#"{"sku":"w-1"}"#).from(path("view/w-1"));
    assert!(broadcast(&registry, &SchemaId::new("Reserved"), &echo).keyed.is_empty());

    let keyless = to("any", "Reserved", "{}").from(path("inv/w-1"));
    let plan = broadcast(&registry, &SchemaId::new("Reserved"), &keyless);
    assert_eq!(plan.letters.len(), 1);
    assert_eq!(plan.letters[0].reason, DeadLetterReason::ShardKeyMissing);
    assert_eq!(undelivered_copy(&fact).reason, DeadLetterReason::Unresolvable);
}

#[test]
fn a_dead_letter_keeps_its_envelope() {
    let letter = dead_letter(&to("ghost", "Ping", "1"), DeadLetterReason::Unresolvable, "nobody");

    assert_eq!(letter.schema.as_str(), "Ping");
    assert_eq!(letter.dest, Address::Path(path("ghost")));
    assert_eq!(letter.detail, "nobody");
    assert_eq!(letter.envelope.payload_json().tree().as_u64(), Some(1));
}

#[test]
fn intents_name_what_they_emit() {
    assert!(Intent::StopSelf.emitted_schema().is_none());
    assert_eq!(Intent::Send(to("a", "Ping", "1")).emitted_schema(), Some(&SchemaId::new("Ping")));
}
