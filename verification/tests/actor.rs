//! Actors: identity, folding, capture and typed dispatch.

use trouper::actor::foreign_start;
use trouper::actor::ActorKind;
use trouper::actor::ActorPath;
use trouper::actor::CommandHandler;
use trouper::actor::ConsumeEntry;
use trouper::actor::DispatchError;
use trouper::actor::EventSourcedActor;
use trouper::actor::Projector;
use trouper::actor::TypedEsAdapter;
use trouper::actor::TypedEsState;
use trouper::actor::TypedProjectorState;
use trouper::actor::TypedServiceAdapter;
use trouper::clock::Timestamp;
use trouper::context::CmdCtx;
use trouper::context::RuntimeView;
use trouper::envelope::Event;
use trouper::envelope::Events;
use trouper::envelope::Payload;
use trouper::journal::InMemoryJournalStore;
use trouper::journal::JournalError;
use trouper::journal::SeqNo;
use trouper::json::Json;
use trouper::kernel::cell::restart_es;
use trouper::registry::Registry;
use trouper::schema::ActorManifest;
use trouper::schema::FieldDef;
use trouper::schema::FieldTy;
use trouper::schema::Schema;
use trouper::schema::SchemaDef;
use trouper::schema::SchemaId;
use trouper::schema::SchemaKind;

fn json(text: &str) -> Json {
    Json::from_slice(text.as_bytes()).expect("JSON text")
}

fn number(json: &Json, name: &str) -> Option<i64> {
    json.tree().get(name).and_then(|n| n.as_i64())
}

struct ReserveStock {
    qty: u32,
}

impl ReserveStock {
    fn decode(json: &Json) -> Option<Self> {
        let qty = json.tree().get("qty").and_then(|q| q.as_u64())?;
        Some(ReserveStock { qty: qty as u32 })
    }
}

impl Schema for ReserveStock {
    fn schema_def() -> SchemaDef {
        SchemaDef {
            name: "ReserveStock".into(),
            kind: SchemaKind::Command,
            fields: vec![FieldDef::required("qty", FieldTy::Int)],
            description: None,
        }
    }
}

struct StockReserved;

impl Schema for StockReserved {
    fn schema_def() -> SchemaDef {
        SchemaDef {
            name: "StockReserved".into(),
            kind: SchemaKind::Event,
            fields: vec![FieldDef::required("qty", FieldTy::Int)],
            description: None,
        }
    }
}

fn reserved(qty: i64) -> Event {
    Event::new(StockReserved::schema_id(), Payload::json_view(json(&format!("{{\"qty\":{qty}}}"))))
}

/// A counter as the canonical event-sourced actor.
struct Counter {
    count: i64,
}

impl EventSourcedActor for Counter {
    fn manifest() -> ActorManifest {
        ActorManifest::new().handles::<ReserveStock>().emits::<StockReserved>().kind(ActorKind::EventSourced)
    }

    fn restore(_args: &Json) -> Self {
        Counter { count: 0 }
    }

    fn apply(&mut self, event: &Event) {
        if event.schema.as_str() == "StockReserved" {
            self.count += number(&event.payload_json(), "qty").unwrap_or(0);
        }
    }

    fn capture(&self) -> Result<Json, JournalError> {
        Ok(json(&format!("{{\"count\":{}}}", self.count)))
    }

    fn restore_from(snapshot: &Json) -> Result<Self, JournalError> {
        match number(snapshot, "count") {
            Some(count) => Ok(Counter { count }),
            None => Err(JournalError::Restore),
        }
    }
}

impl CommandHandler<ReserveStock> for Counter {
    fn handle(&self, cmd: ReserveStock, _ctx: &CmdCtx<'_>) -> Events {
        Events::from_vec(vec![reserved(i64::from(cmd.qty))])
    }
}

#[test]
fn apply_erased_folds_events_into_live_state() {
    let mut live = TypedEsState::new(Counter::restore(&json("{}")));

    live.apply_erased(&reserved(2));
    live.apply_erased(&reserved(5));

    let captured = live.capture_erased().ok().expect("capture");
    assert_eq!(number(&captured, "count"), Some(7));
}

#[test]
fn rebuild_from_genesis_applies_the_replay_tail() {
    let _live = TypedEsState::new(Counter { count: 999 });
    let tail = vec![reserved(2), reserved(3)];

    let fresh = TypedEsState::<Counter>::rebuild(&json("{}"), None, &tail).ok().expect("rebuild");

    let captured = fresh.capture_erased().ok().expect("capture");
    assert_eq!(number(&captured, "count"), Some(5));
}

#[test]
fn rebuild_from_snapshot_applies_only_the_tail() {
    let tail = vec![reserved(1), reserved(1)];

    let fresh = TypedEsState::<Counter>::rebuild(&json("{}"), Some(&json(r#"{"count":10}"#)), &tail)
        .ok()
        .expect("rebuild");

    let captured = fresh.capture_erased().ok().expect("capture");
    assert_eq!(number(&captured, "count"), Some(12));
}

#[test]
fn an_unreadable_snapshot_fails_the_rebuild() {
    let result = TypedEsState::<Counter>::rebuild(&json("{}"), Some(&json("[]")), &vec![reserved(1)]);

    assert!(matches!(result, Err(JournalError::Restore)));
}

#[test]
fn capture_roundtrips_through_restore_from() {
    let live = TypedEsState::new(Counter { count: 42 });

    let blob = live.capture_erased().ok().expect("capture");
    let restored = Counter::restore_from(&blob).ok().expect("restore");

    assert_eq!(restored.count, 42);
}

#[test]
fn typed_adapter_decodes_dispatches_and_folds_in_one_step() {
    let adapter = TypedEsAdapter::<Counter, ReserveStock>::new::<ReserveStock>();
    let mut state = TypedEsState::new(Counter::restore(&json("{}")));
    let registry = Registry::new();
    let path = ActorPath::new("counter");
    let ctx = CmdCtx::new(&path, RuntimeView { registry: &registry, now: Timestamp::from_millis(0) });

    let events =
        adapter.dispatch(&state, ReserveStock::decode(&json(r#"{"qty":4}"#)), &ctx).ok().expect("dispatch");

    assert_eq!(events.as_slice().len(), 1);
    assert_eq!(number(&events.as_slice()[0].payload_json(), "qty"), Some(4));
    let captured = state.capture_erased().ok().expect("capture");
    assert_eq!(number(&captured, "count"), Some(0), "dispatch must not mutate state");

    for event in events.as_slice() {
        state.apply_erased(event);
    }

    let captured = state.capture_erased().ok().expect("capture");
    assert_eq!(number(&captured, "count"), Some(4));
    assert_eq!(state.state().count, 4);
}

#[test]
fn typed_adapter_rejects_malformed_payloads_as_decode_errors() {
    let adapter = TypedEsAdapter::<Counter, ReserveStock>::new::<ReserveStock>();
    let state = TypedEsState::new(Counter::restore(&json("{}")));
    let registry = Registry::new();
    let path = ActorPath::new("counter");
    let ctx = CmdCtx::new(&path, RuntimeView { registry: &registry, now: Timestamp::from_millis(0) });

    let result = adapter.dispatch(&state, ReserveStock::decode(&json(r#"{"nope":true}"#)), &ctx);

    let report = result.err().expect("must not decode");
    assert!(matches!(report, DispatchError::Decode(_)));
    assert_eq!(number(&state.capture_erased().ok().expect("capture"), "count"), Some(0));
}

#[test]
fn typed_adapter_reports_its_schema() {
    let adapter = TypedEsAdapter::<Counter, ReserveStock>::new::<ReserveStock>();

    let schema = adapter.schema();

    assert_eq!(schema, ReserveStock::schema_id());
}

#[test]
fn a_service_adapter_hands_over_what_decoded() {
    let adapter = TypedServiceAdapter::<Counter, ReserveStock>::new::<ReserveStock>();

    assert_eq!(adapter.schema(), ReserveStock::schema_id());
    assert_eq!(adapter.decode(Some(ReserveStock { qty: 3 })).ok().expect("decoded").qty, 3);
    assert!(matches!(adapter.decode(None), Err(DispatchError::Decode(_))));
}

#[test]
fn a_consumed_fact_is_recorded_as_it_came() {
    let entry = ConsumeEntry::new(SchemaId::new("StockReserved"));

    let events = entry.dispatch(&reserved(8).payload);

    assert_eq!(events.as_slice().len(), 1);
    assert!(events.as_slice()[0] == reserved(8));
}

#[test]
fn a_foreign_state_starts_from_its_snapshot_or_its_args() {
    let args = json(r#"{"count":0}"#);

    let genesis = foreign_start(&args, None);
    assert_eq!(genesis.to_vec(), br#"{"count":0}"#);
    assert_eq!(number(&foreign_start(&args, Some(json(r#"{"count":9}"#))), "count"), Some(9));
}

struct Total {
    total: i64,
}

impl Projector for Total {
    fn start() -> Self {
        Total { total: 0 }
    }

    fn apply(&mut self, event: &Event) {
        self.total += number(&event.payload_json(), "qty").unwrap_or(0);
    }

    fn capture(&self) -> Result<Json, JournalError> {
        Ok(json(&self.total.to_string()))
    }

    fn restore_from(snapshot: &Json) -> Result<Self, JournalError> {
        match snapshot.tree().as_i64() {
            Some(total) => Ok(Total { total }),
            None => Err(JournalError::Restore),
        }
    }
}

#[test]
fn a_projector_replays_to_the_state_it_folded() {
    let mut live = TypedProjectorState::new(Total { total: 0 });
    live.apply_erased(&reserved(2));
    let snapshot = live.capture_erased().ok().expect("capture");
    live.apply_erased(&reserved(3));

    let whole = TypedProjectorState::<Total>::rebuild(None, &vec![reserved(2), reserved(3)]).ok().expect("rebuild");
    let resumed = TypedProjectorState::<Total>::rebuild(Some(&snapshot), &vec![reserved(3)]).ok().expect("rebuild");

    assert_eq!(live.state().total, 5);
    assert_eq!(whole.state().total, 5);
    assert_eq!(resumed.state().total, 5);
}

fn numbered(from: u64, count: u64) -> Vec<SeqNo> {
    (from..from + count).map(SeqNo::new).collect()
}

#[test]
fn a_batch_captures_the_state_behind_each_snapshot_seq() {
    let mut live = TypedEsState::new(Counter { count: 10 });
    let events = vec![reserved(1), reserved(2), reserved(4)];

    let taken = live.apply_batch(&events, &numbered(5, 3), &vec![SeqNo::new(6)]);

    assert_eq!(taken.len(), 1);
    assert_eq!(taken[0].0, SeqNo::new(6));
    assert_eq!(number(&taken[0].1, "count"), Some(13), "the last event is not in the snapshot");
    assert_eq!(live.state().count, 17);
    assert!(live.apply_batch(&events, &numbered(8, 3), &vec![]).is_empty());
    assert_eq!(live.state().count, 24);
}

#[test]
fn a_projectors_batch_captures_the_state_behind_each_snapshot_seq() {
    let mut live = TypedProjectorState::new(Total { total: 0 });
    let events = vec![reserved(1), reserved(2)];

    let taken = live.apply_batch(&events, &numbered(0, 2), &numbered(0, 2));

    assert_eq!(taken.len(), 2);
    assert_eq!(taken[0].1.tree().as_i64(), Some(1));
    assert_eq!(taken[1].1.tree().as_i64(), Some(3));
    assert_eq!(live.state().total, 3);
}

#[test]
fn a_restart_recovers_the_state_of_the_whole_journal() {
    let mut store = InMemoryJournalStore::new();
    let path = ActorPath::new("counter");
    let events = vec![reserved(1), reserved(2), reserved(4)];
    let mut live = TypedEsState::new(Counter::restore(&json("{}")));
    let seqs = store.append_sync(&path, &events);
    let taken = live.apply_batch(&events, &seqs, &vec![SeqNo::new(1)]);
    for (seq, state) in taken {
        store.append_snapshot(&path, seq, state, 0);
    }

    let (rebuild, head) = restart_es(store.load(&path));

    assert_eq!(head, Some(2));
    assert_eq!(rebuild.tail.len(), 1, "the snapshot holds the events up to its seq");
    let fresh = TypedEsState::<Counter>::rebuild(&json("{}"), rebuild.snapshot.as_ref(), &rebuild.tail)
        .ok()
        .expect("rebuild");
    assert_eq!(fresh.state().count, live.state().count);
    assert_eq!(fresh.state().count, 7);
}

#[test]
fn path_displays_as_bare_name() {
    let path = ActorPath::new("inventory.west");

    let rendered = path.to_string();

    assert_eq!(rendered, "inventory.west");
}
