//! The write-behind journal store: buffers, flushes, loads and scans.

use trouper::actor::ActorPath;
use trouper::envelope::Event;
use trouper::envelope::PayloadBytes;
use trouper::journal::EventOrigin;
use trouper::journal::JournalEntry;
use trouper::journal::JournalError;
use trouper::journal::ScannedEvent;
use trouper::journal::SeqNo;
use trouper::journal_daow::advance;
use trouper::journal_daow::all_json;
use trouper::journal_daow::completions;
use trouper::journal_daow::current_version;
use trouper::journal_daow::migrations;
use trouper::journal_daow::pending_migrations;
use trouper::journal_daow::plan_flush;
use trouper::journal_daow::serialize_event;
use trouper::journal_daow::try_rebuild_journal;
use trouper::journal_daow::verify_existing_event;
use trouper::journal_daow::FlushStatement;
use trouper::journal_daow::LoadStep;
use trouper::journal_daow::Shared;
use trouper::journal_daow::StoredColumns;
use trouper::journal_daow::StoredEventRow;
use trouper::journal_daow::TxnEvent;
use trouper::journal_daow::TxnPhase;
use trouper::json::Json;
use trouper::schema::SchemaId;

fn json(text: &str) -> Json {
    Json::from_slice(text.as_bytes()).expect("JSON text")
}

fn event(n: u64) -> Event {
    Event::from_json_view(SchemaId::new("Ticked"), json(&format!("{{\"n\":{n}}}")))
}

fn row(seq: i64, ingest_seq: i64) -> StoredEventRow {
    StoredEventRow {
        seq,
        schema: "Ticked".into(),
        payload: PayloadBytes::from_bytes(format!("{{\"n\":{seq}}}").into_bytes()),
        origin: Some(EventOrigin::Recorded),
        ingest_seq,
    }
}

fn recorded(seq: u64, n: u64) -> JournalEntry {
    JournalEntry::Event { seq: SeqNo::new(seq), event: event(n), origin: EventOrigin::Recorded, ingest_seq: 11 }
}

#[test]
fn append_after_pending_capture_remains_pending_for_next_flush() {
    let mut shared = Shared::build(None);
    let path = ActorPath::new("concurrent-flush");
    shared.buffer_append(&path, &[event(1)]).ok().expect("initial append");
    let captured = shared.collect_pending(None);

    shared.buffer_append(&path, &[event(2)]).ok().expect("concurrent append");
    shared.commit_flush(&completions(&captured));

    assert_eq!(captured.len(), 1);
    assert_eq!(captured[0].events.len(), 1, "only the captured event is durable");
    let replay = match shared.begin_load(&path) {
        LoadStep::Answered(replay) => replay.expect("replay"),
        LoadStep::ReadRows => panic!("the buffer answers"),
    };
    assert_eq!(replay.events.len(), 2, "both buffered events replay");
    let next = shared.collect_pending(None);
    assert_eq!(next.len(), 1);
    assert_eq!(next[0].events.len(), 1, "the suffix is still pending");
    assert_eq!(next[0].events[0].seq, SeqNo::new(1));
    shared.commit_flush(&completions(&next));
    assert!(shared.collect_pending(None).is_empty());
}

#[test]
fn a_passivated_path_leaves_the_buffer_once_durable() {
    let mut shared = Shared::build(Some(40));
    let path = ActorPath::new("a");
    let seqs = shared.buffer_append(&path, &[event(1)]).ok().expect("append");
    assert_eq!(seqs, [SeqNo::new(0)]);

    let pending = shared.begin_passivation(&path);
    assert!(pending[0].drop_when_durable);
    assert!(pending[0].events[0].ingest_seq > 40, "arrival order continues past what is stored");
    shared.commit_flush(&completions(&pending));

    assert!(matches!(shared.begin_load(&path), LoadStep::ReadRows));
}

#[test]
fn a_load_waits_for_its_rows_and_answers_from_them() {
    let mut shared = Shared::build(None);
    let path = ActorPath::new("a");
    assert!(matches!(shared.begin_load(&path), LoadStep::ReadRows));
    assert!(shared.is_activating(&path));
    assert!(shared.buffer_append(&path, &[event(1)]).is_err(), "the path is being loaded");

    let replay = shared
        .try_finish_load(&path, vec![row(0, 1), row(1, 2)], None)
        .expect("all rows are JSON")
        .ok()
        .expect("load")
        .expect("history");

    assert_eq!(replay.events.len(), 2);
    assert!(!shared.is_activating(&path));
    assert!(shared.collect_pending(None).is_empty(), "what was read is durable");
}

#[test]
fn garbled_rows_do_not_rebuild() {
    let garbled = StoredEventRow { payload: PayloadBytes::from_bytes(vec![b'{']), ..row(0, 1) };
    assert!(!all_json(&vec![garbled.clone()]));
    assert!(try_rebuild_journal(vec![garbled], None).is_none());

    let foreign = StoredEventRow { origin: None, ..row(0, 1) };
    match try_rebuild_journal(vec![foreign], None).expect("JSON") {
        Err(error) => assert!(matches!(error, JournalError::Load)),
        Ok(_) => panic!("an unreadable origin does not load"),
    }
}

#[test]
fn a_rebuilt_journal_holds_its_snapshot() {
    let journal = try_rebuild_journal(
        vec![row(0, 1), row(1, 2)],
        Some((0, PayloadBytes::from_bytes(br#"{"total":1}"#.to_vec()))),
    )
    .expect("JSON")
    .ok()
    .expect("rebuild");

    assert_eq!(journal.next_seq(), SeqNo::new(2));
    assert_eq!(journal.last_snapshot().expect("snapshot").seq(), SeqNo::new(0));
}

#[test]
fn a_row_carries_the_entrys_columns() {
    let seeded = JournalEntry::Event {
        seq: SeqNo::new(3),
        event: event(7),
        origin: EventOrigin::CatchUp { source: ActorPath::new("src"), source_seq: SeqNo::new(5) },
        ingest_seq: 9,
    };

    let row = serialize_event(&seeded).expect("an event");

    assert_eq!(row.schema, "Ticked");
    assert_eq!(row.payload.as_str(), r#"{"n":7}"#);
    assert_eq!(row.catchup_source.as_deref(), Some("src"));
    assert_eq!(row.catchup_seq, Some(5));
    let snapshot = JournalEntry::Snapshot { seq: SeqNo::new(3), state: json("0") };
    assert!(serialize_event(&snapshot).is_none());
}

#[test]
fn a_load_gives_back_what_a_flush_wrote() {
    let seeded = EventOrigin::CatchUp { source: ActorPath::new("src"), source_seq: SeqNo::new(5) };
    let entries = [
        recorded(0, 7),
        JournalEntry::Event { seq: SeqNo::new(1), event: event(8), origin: seeded.clone(), ingest_seq: u64::MAX },
    ];
    let stored: Vec<StoredEventRow> = entries
        .iter()
        .map(|entry| {
            let row = serialize_event(entry).expect("an event");
            StoredEventRow {
                seq: row.seq.as_u64() as i64,
                schema: row.schema,
                payload: row.payload,
                origin: Some(row.origin),
                ingest_seq: row.ingest_seq as i64,
            }
        })
        .collect();

    let journal = try_rebuild_journal(stored, None).expect("JSON").ok().expect("rebuild");

    assert_eq!(journal.next_seq(), SeqNo::new(2));
    let found = journal.entries();
    match &found[1] {
        JournalEntry::Event { seq, event, origin, ingest_seq } => {
            assert_eq!(*seq, SeqNo::new(1));
            assert_eq!(event.schema.as_str(), "Ticked");
            assert_eq!(event.payload.wire_bytes().as_str(), r#"{"n":8}"#);
            assert!(*origin == seeded);
            assert_eq!(*ingest_seq, u64::MAX);
        }
        _ => panic!("expected an event"),
    }
}

#[test]
fn only_an_identical_row_may_already_be_stored() {
    let row = serialize_event(&recorded(3, 7)).expect("an event");
    let stored = |payload: &str| StoredColumns {
        kind: row.kind,
        schema: "Ticked".into(),
        payload: PayloadBytes::from_bytes(payload.as_bytes().to_vec()),
        origin: Some(EventOrigin::Recorded),
        catchup_source: None,
        catchup_seq: None,
        ingest_seq: 11,
    };

    assert!(verify_existing_event(&stored(r#"{"n":7}"#), &row));
    assert!(!verify_existing_event(&stored(r#"{"n":8}"#), &row));
    let other = StoredColumns { ingest_seq: 12, ..stored(r#"{"n":7}"#) };
    assert!(!verify_existing_event(&other, &row));
}

#[test]
fn a_flush_writes_events_before_the_snapshot() {
    let mut shared = Shared::build(None);
    let path = ActorPath::new("a");
    shared.buffer_append(&path, &[event(1), event(2)]).ok().expect("append");
    shared.buffer_append_snapshot(&path, SeqNo::new(1), json("3"), 5).ok().expect("snapshot");

    let pending = shared.collect_pending(Some(&path));
    let plan = plan_flush(&pending);

    assert_eq!(plan.len(), 3);
    assert!(matches!(plan[0], FlushStatement::InsertEvent { batch: 0, row: 0 }));
    assert!(matches!(plan[1], FlushStatement::InsertEvent { batch: 0, row: 1 }));
    assert!(matches!(plan[2], FlushStatement::PutSnapshot { batch: 0 }));
    assert!(shared.collect_pending(Some(&ActorPath::new("b"))).is_empty());
}

#[test]
fn a_transaction_commits_whole_or_rolls_back() {
    let mut phase = TxnPhase::Begin;
    for _ in 0..4 {
        phase = advance(phase, TxnEvent::Done, 2, true);
    }
    assert!(matches!(phase, TxnPhase::Committed));

    let run = advance(TxnPhase::Begin, TxnEvent::Done, 2, true);
    let verify = advance(run, TxnEvent::Collision, 2, true);
    assert!(matches!(verify, TxnPhase::Verify(0)));
    let back = advance(verify, TxnEvent::Error, 2, true);
    assert!(matches!(back, TxnPhase::Rollback));
    assert!(matches!(advance(back, TxnEvent::Done, 2, true), TxnPhase::Failed));
    assert!(matches!(advance(TxnPhase::Commit, TxnEvent::Error, 2, true), TxnPhase::Rollback));
}

#[test]
fn seeding_skips_what_the_store_or_the_buffer_holds() {
    let mut shared = Shared::build(None);
    let path = ActorPath::new("proj");
    let fact = |seq: u64| ScannedEvent {
        journal: ActorPath::new("src"),
        seq: SeqNo::new(seq),
        ingest_seq: seq,
        event: event(seq),
    };

    let seqs = shared.append_catchup(&path, &[fact(0), fact(1)], &vec![true, false]).ok().expect("seed");
    assert_eq!(seqs, [None, Some(SeqNo::new(0))]);
    assert!(shared.buffer_holds(&path, &fact(1)));
    let again = shared.append_catchup(&path, &[fact(1)], &vec![false]).ok().expect("seed");
    assert_eq!(again, [None]);
}

#[test]
fn a_scan_merges_stored_and_buffered_facts_by_arrival() {
    let mut shared = Shared::build(Some(2));
    shared.buffer_append(&ActorPath::new("b"), &[event(9)]).ok().expect("append");
    let rows = vec![(ActorPath::new("a"), row(1, 2)), (ActorPath::new("a"), row(0, 1))];

    let found = shared.try_merge_scan(&rows, &vec![SchemaId::new("Ticked")]).expect("JSON");

    let order: Vec<&str> = found.iter().map(|f| f.journal.as_str()).collect();
    assert_eq!(order, ["a", "a", "b"]);
    assert!(found[0].ingest_seq < found[1].ingest_seq);
    assert!(found[1].ingest_seq < found[2].ingest_seq);
}

#[test]
fn a_purged_path_starts_over() {
    let mut shared = Shared::build(None);
    let path = ActorPath::new("a");
    shared.buffer_append(&path, &[event(1)]).ok().expect("append");

    shared.purge(&path);

    assert!(shared.collect_pending(None).is_empty());
}

#[test]
fn only_newer_migrations_are_pending() {
    let all = migrations();

    assert_eq!(all.len(), 1);
    assert_eq!(all[0].name, "create_journal_schema");
    assert_eq!(current_version(None), -1);
    assert_eq!(current_version(Some(0)), 0);
    assert_eq!(pending_migrations(current_version(None)).len(), 1);
    assert!(pending_migrations(all[0].version).is_empty());
}
