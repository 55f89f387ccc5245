//! Journals, their stored form, and the in-memory store.

use trouper::actor::ActorPath;
use trouper::clock::Timestamp;
use trouper::envelope::Event;
use trouper::envelope::Payload;
use trouper::envelope::PayloadBytes;
use trouper::envelope::PayloadValue;
use trouper::journal::EventOrigin;
use trouper::journal::InMemoryJournalStore;
use trouper::journal::Journal;
use trouper::journal::JournalEntry;
use trouper::journal::JournalError;
use trouper::journal::ScannedEvent;
use trouper::journal::SeqNo;
use trouper::journal::WireEvent;
use trouper::journal::WireJournalEntry;
use trouper::json::Json;
use trouper::registry::RegistryError;
use trouper::schema::SchemaId;

fn json(text: &str) -> Json {
    Json::from_slice(text.as_bytes()).expect("JSON text")
}

fn event(qty: i64) -> Event {
    Event::from_json_view(SchemaId::new("StockReserved"), json(&format!("{{\"qty\":{qty}}}")))
}

fn tick() -> Event {
    Event::from_json_view(SchemaId::new("Ticked"), json(r#"{"qty":1}"#))
}

/// Whether two entries hold the same values.
fn alike(a: &JournalEntry, b: &JournalEntry) -> bool {
    match (a, b) {
        (
            JournalEntry::Event { seq: s1, event: e1, origin: o1, ingest_seq: i1 },
            JournalEntry::Event { seq: s2, event: e2, origin: o2, ingest_seq: i2 },
        ) => s1 == s2 && e1 == e2 && o1 == o2 && i1 == i2,
        (JournalEntry::Snapshot { seq: s1, state: t1 }, JournalEntry::Snapshot { seq: s2, state: t2 }) => {
            s1 == s2 && t1.tree().same(t2.tree())
        }
        _ => false,
    }
}

/// A live fact that answers for itself.
struct StockReservedWire {
    qty: i64,
    sku: String,
}

impl PayloadValue for StockReservedWire {
    fn field(&self, name: &str) -> Option<String> {
        match name {
            "qty" => Some(self.qty.to_string()),
            "sku" => Some(self.sku.clone()),
            _ => None,
        }
    }

    fn to_json_bytes(&self) -> Vec<u8> {
        let mut map = serde_json::Map::new();
        map.insert("qty".to_owned(), serde_json::Value::from(self.qty));
        map.insert("sku".to_owned(), serde_json::Value::from(self.sku.as_str()));
        serde_json::to_vec(&serde_json::Value::Object(map)).expect("serializes")
    }
}

impl<'de> serde::Deserialize<'de> for StockReservedWire {
    fn deserialize<D: serde::Deserializer<'de>>(decoder: D) -> Result<Self, D::Error> {
        let tree = serde_json::Value::deserialize(decoder)?;
        let qty = tree["qty"].as_i64().ok_or_else(|| serde::de::Error::custom("qty is an integer"))?;
        let sku = tree["sku"].as_str().unwrap_or_default().to_owned();
        Ok(StockReservedWire { qty, sku })
    }
}

#[test]
fn additive_fields_fold_as_none_from_old_payloads() {
    let wire = WireEvent {
        schema: SchemaId::new("StockReservedWire"),
        payload: PayloadBytes::from_json(&json(r#"{"qty":3}"#)),
    };
    let event = wire.try_into_event().expect("wire -> event");

    let fact: StockReservedWire =
        serde_json::from_slice(event.payload.json_text().as_bytes()).expect("additive evolution decodes");

    assert_eq!(fact.qty, 3);
    assert_eq!(fact.sku, "", "missing new field defaults, never fails");
}

#[test]
fn boundary_decode_failure_is_named_by_schema_and_seq() {
    let wire = WireEvent {
        schema: SchemaId::new("StockReservedWire"),
        payload: PayloadBytes::from_json(&json(r#"{"qty":"not-a-number","sku":"w-2"}"#)),
    };
    let seq = SeqNo::new(41);

    let event = wire.try_into_event().expect("wire -> event (bytes are valid JSON)");
    let decoded = serde_json::from_slice::<StockReservedWire>(event.payload.json_text().as_bytes());

    assert!(decoded.is_err(), "type-shape mismatch must not decode");
    let err = JournalError::Decode { schema: SchemaId::new("StockReservedWire"), seq };
    let rendered = format!("{err:?}");
    assert!(rendered.contains("StockReserved"), "names the schema: {rendered}");
    assert!(rendered.contains("41"), "names the seq: {rendered}");
}

#[test]
fn a_stored_entry_with_garbled_bytes_is_no_entry() {
    let stored = |bytes: &[u8]| WireJournalEntry::Event {
        seq: SeqNo::new(2),
        event: WireEvent { schema: SchemaId::new("Ticked"), payload: PayloadBytes::from_bytes(bytes.to_vec()) },
        origin: EventOrigin::Recorded,
        ingest_seq: 5,
    };

    let entry = stored(br#"{"qty":1}"#).try_into_entry().expect("JSON text");

    assert_eq!(entry.seq(), SeqNo::new(2));
    assert!(stored(b"{").try_into_entry().is_none());
    let snapshot = WireJournalEntry::Snapshot { seq: SeqNo::new(3), state: json("0") };
    assert_eq!(snapshot.try_into_entry().expect("a snapshot").seq(), SeqNo::new(3));
}

#[test]
fn a_store_lists_an_actors_entries() {
    let mut store = InMemoryJournalStore::new();
    let path = ActorPath::new("a");
    store.append_sync(&path, &[event(1), event(2)]);
    store.append_snapshot(&path, SeqNo::new(1), json("3"), 0);

    let entries = store.entries_of(&path);

    assert_eq!(entries.len(), 3);
    assert!(entries[0].as_event().is_some());
    assert!(entries[2].as_event().is_none());
    assert!(store.entries_of(&ActorPath::new("b")).is_empty());
}

#[test]
fn journal_payload_is_valid_json_text_and_queryable() {
    let fact = StockReservedWire { qty: 7, sku: "w-1".into() };
    let wire = WireEvent::of(&Event::new(
        SchemaId::new("StockReservedWire"),
        Payload::value(Box::new(fact)),
    ));

    let text = std::str::from_utf8(wire.payload.as_bytes()).expect("valid utf8");
    let parsed: serde_json::Value = serde_json::from_str(text).expect("valid JSON text");

    assert_eq!(parsed["qty"], 7);
    assert_eq!(parsed["sku"], "w-1");
    assert!(!text.contains(' '), "compact encoding, not pretty-printed");
}

#[test]
fn journal_entries_survive_serde_roundtrip() {
    let entries = [
        JournalEntry::Event {
            seq: SeqNo::new(0),
            event: event(2),
            origin: EventOrigin::Recorded,
            ingest_seq: 41,
        },
        JournalEntry::Snapshot { seq: SeqNo::new(4), state: json(r#"{"on_hand":8}"#) },
    ];

    for entry in entries {
        let view = entry.to_json_view();
        let round = JournalEntry::from_json_view(&view).ok().expect("parses");

        assert!(alike(&round, &entry));
    }
}

#[test]
fn a_seeded_entry_keeps_its_origin_through_its_view() {
    let entry = JournalEntry::Event {
        seq: SeqNo::new(5),
        event: event(2),
        origin: EventOrigin::CatchUp { source: ActorPath::new("a"), source_seq: SeqNo::new(3) },
        ingest_seq: 9,
    };

    let view = entry.to_json_view();
    assert!(String::from_utf8(view.to_vec()).expect("text").contains(r#"{"CatchUp":{"source":"a","source_seq":3}}"#));
    let round = JournalEntry::from_json_view(&view).ok().expect("parses");

    assert!(alike(&round, &entry));
}

#[test]
fn legacy_event_entries_deserialize_with_defaulted_origin_and_ingest() {
    let legacy = r#"{
        "Event": { "seq": 3, "event": { "schema": "StockReserved", "payload": { "qty": 2 } } }
    }"#;

    let entry = JournalEntry::from_json_view(&json(legacy)).ok().expect("legacy entry loads");

    assert_eq!(entry.seq(), SeqNo::new(3));
    assert!(alike(
        &entry,
        &JournalEntry::Event {
            seq: SeqNo::new(3),
            event: event(2),
            origin: EventOrigin::Recorded,
            ingest_seq: 0,
        }
    ));
}

#[test]
fn a_view_of_neither_kind_is_refused() {
    let result = JournalEntry::from_json_view(&json(r#"{"Other":{}}"#));

    assert!(matches!(result, Err(RegistryError::InvalidSpec)));
}

#[test]
fn entry_seq_reports_the_anchored_sequence() {
    let snapshot = JournalEntry::Snapshot { seq: SeqNo::new(4), state: json("{}") };

    let seq = snapshot.seq();

    assert_eq!(seq, SeqNo::new(4));
}

#[test]
fn as_event_exposes_only_event_entries() {
    let event_entry = JournalEntry::Event {
        seq: SeqNo::new(2),
        event: event(1),
        origin: EventOrigin::Recorded,
        ingest_seq: 0,
    };
    let snapshot = JournalEntry::Snapshot { seq: SeqNo::new(2), state: json("{}") };

    let from_event = event_entry.as_event().is_some();
    let from_snapshot = snapshot.as_event().is_none();

    assert!(from_event);
    assert!(from_snapshot);
}

#[test]
fn append_event_assigns_monotonically_increasing_sequences() {
    let mut journal = Journal::new();

    let seqs: Vec<_> = (0..3).map(|i| journal.append_event(event(1), i)).collect();

    assert_eq!(seqs, [SeqNo::new(0), SeqNo::new(1), SeqNo::new(2)]);
    assert_eq!(journal.next_seq(), SeqNo::new(3));
}

#[test]
fn last_snapshot_returns_the_highest_snapshot() {
    let mut journal = Journal::new();
    journal.append_event(event(1), 0);
    journal.append_snapshot(SeqNo::new(0), json(r#"{"v":1}"#), 0);
    journal.append_event(event(2), 1);
    journal.append_event(event(3), 2);
    journal.append_snapshot(SeqNo::new(2), json(r#"{"v":2}"#), 0);
    journal.append_event(event(4), 3);

    let last = journal.last_snapshot().expect("snapshot");

    assert_eq!(last.seq(), SeqNo::new(2));
}

#[test]
fn a_late_snapshot_of_an_earlier_moment_does_not_shadow_a_higher_one() {
    let mut journal = Journal::new();
    for i in 0..3 {
        journal.append_event(event(1), i);
    }
    journal.append_snapshot(SeqNo::new(2), json("2"), 0);
    journal.append_snapshot(SeqNo::new(0), json("0"), 0);

    assert_eq!(journal.last_snapshot().expect("snapshot").seq(), SeqNo::new(2));
}

#[test]
fn last_snapshot_is_none_before_any_snapshot() {
    let mut journal = Journal::new();
    journal.append_event(event(1), 0);

    let snapshot = journal.last_snapshot();

    assert!(snapshot.is_none());
}

#[test]
fn after_yields_only_events_strictly_past_the_anchor() {
    let mut journal = Journal::new();
    for i in 0..4 {
        journal.append_event(event(1), i);
    }
    journal.append_snapshot(SeqNo::new(1), json("{}"), 0);

    let tail: Vec<SeqNo> = journal.after(SeqNo::new(1)).iter().map(|e| e.seq).collect();

    assert_eq!(tail, [SeqNo::new(2), SeqNo::new(3)]);
}

#[test]
fn after_genesis_yields_every_event() {
    let mut journal = Journal::new();
    journal.append_event(event(1), 0);
    journal.append_event(event(2), 1);

    let all: Vec<SeqNo> = journal.after(SeqNo::before_genesis()).iter().map(|e| e.seq).collect();

    assert_eq!(all, [SeqNo::new(0), SeqNo::new(1)]);
}

#[test]
fn append_assigns_globally_monotonic_ingest_seqs() {
    let mut store = InMemoryJournalStore::new();
    let a = ActorPath::new("a");
    let b = ActorPath::new("b");

    store.append(&a, &[event(1)]);
    store.append(&b, &[event(1), event(2)]);
    store.append(&a, &[event(2)]);

    let mut all: Vec<(ActorPath, u64)> = Vec::new();
    for path in [&a, &b] {
        let replay = store.load(path).expect("journal");
        for je in replay.events {
            all.push((path.clone(), je.ingest_seq));
        }
    }
    assert_eq!(all.len(), 4, "one ingest_seq per event");
    let seq_of = |path: &ActorPath, idx: usize| {
        all.iter().filter(|(p, _)| p == path).map(|(_, s)| *s).nth(idx).expect("event present")
    };
    let (a1, a2) = (seq_of(&a, 0), seq_of(&a, 1));
    let (b1, b2) = (seq_of(&b, 0), seq_of(&b, 1));
    assert!(a1 < b1 && b1 < b2 && b2 < a2, "arrival order is global");
}

#[test]
fn scan_returns_only_recorded_origin_entries_in_ingest_order() {
    let mut store = InMemoryJournalStore::new();
    let a = ActorPath::new("a");
    let b = ActorPath::new("b");
    let proj = ActorPath::new("proj");
    store.append(&a, &[event(1), tick()]);
    store.append(&b, &[tick()]);
    let wanted = vec![tick().schema];
    let scanned = store.scan(&wanted);
    assert_eq!(scanned.len(), 2, "both Recorded Ticked entries surface");
    let first = store.append_catchup(&proj, &scanned);
    assert!(first.iter().all(|s| s.is_some()), "first seeding appends everything");

    let found = store.scan(&wanted);

    assert_eq!(found.len(), 2, "CatchUp entries never surface in scans");
    assert_eq!(found[0].journal, a);
    assert_eq!(found[1].journal, b);
    assert!(found[0].ingest_seq < found[1].ingest_seq, "ingest order");

    let again = store.append_catchup(&proj, &scanned);
    assert!(again.iter().all(|s| s.is_none()), "known origins are skipped, not re-appended");
    let after = store.scan(&wanted);
    assert_eq!(after.len(), 2, "still exactly the two originals");
}

#[test]
fn a_batch_that_repeats_an_origin_seeds_it_once() {
    let mut store = InMemoryJournalStore::new();
    let proj = ActorPath::new("proj");
    let fact = ScannedEvent {
        journal: ActorPath::new("a"),
        seq: SeqNo::new(4),
        ingest_seq: 1,
        event: tick(),
    };

    let seqs = store.append_catchup(&proj, &[fact.clone(), fact]);

    assert_eq!(seqs, [Some(SeqNo::new(0)), None]);
}

#[test]
fn purge_removes_journal_but_not_the_ingest_counter() {
    let mut store = InMemoryJournalStore::new();
    let a = ActorPath::new("a");
    let b = ActorPath::new("b");
    store.append(&a, &[event(1)]);
    store.append(&b, &[event(1)]);
    let before = store.load(&b).expect("journal");

    store.purge(&a);
    store.append(&b, &[event(2)]);

    assert!(store.load(&a).is_none(), "purged");
    let after = store.load(&b).expect("journal");
    let last = after.events.last().expect("b has two events");
    assert_eq!(
        last.ingest_seq,
        before.events.last().expect("b first").ingest_seq + 1,
        "purge did not reset the global ingest counter"
    );
}

#[test]
fn a_load_splits_history_at_the_snapshot() {
    let mut store = InMemoryJournalStore::new();
    let a = ActorPath::new("a");
    store.append(&a, &[event(1), event(2), event(3)]);
    store.append_snapshot(&a, SeqNo::new(1), json(r#"{"total":3}"#), 7);

    let replay = store.load(&a).expect("journal");

    assert_eq!(replay.snapshot.expect("snapshot").seq(), SeqNo::new(1));
    assert_eq!(replay.tail.len(), 1);
    assert!(replay.tail[0] == event(3));
    assert_eq!(replay.events.len(), 3);
    assert_eq!(store.name(), "in-memory");
}

#[test]
fn the_time_cadence_starts_at_its_anchor_and_restarts_at_a_snapshot() {
    let mut journal = Journal::new();
    assert_eq!(journal.since_snapshot_ms(Timestamp::from_millis(50)), None);

    journal.anchor_time_cadence(20);
    journal.anchor_time_cadence(40);
    assert_eq!(journal.since_snapshot_ms(Timestamp::from_millis(50)), Some(30));

    journal.append_snapshot(SeqNo::new(0), json("0"), 45);
    assert_eq!(journal.since_snapshot_ms(Timestamp::from_millis(50)), Some(5));
}

#[test]
fn wire_bytes_that_are_not_json_carry_no_event() {
    let wire = WireEvent { schema: SchemaId::new("Ticked"), payload: PayloadBytes::from_bytes(vec![0xff]) };

    assert!(wire.try_into_event().is_none());
}

#[test]
fn a_recorded_payload_is_matched_by_its_key() {
    let mut journal = Journal::new();
    journal.append_event(
        Event::from_json_view(SchemaId::new("Ticked"), json(r#"{"sku":"w-1","n":7}"#)),
        0,
    );
    let recorded = &journal.events()[0];

    assert!(recorded.recorded_payload_key("sku", "w-1"));
    assert!(recorded.recorded_payload_key("n", "7"));
    assert!(!recorded.recorded_payload_key("sku", "w-2"));
    assert!(!recorded.recorded_payload_key("none", "w-1"));
}

#[test]
fn seqno_orders_numerically_and_roundtrips() {
    let earlier = SeqNo::genesis();
    let later = SeqNo::new(7);

    let ordered = earlier < later;
    let round: u64 = serde_json::from_str(&later.to_string()).expect("de");

    assert!(ordered);
    assert_eq!(SeqNo::new(round), later);
    assert!(SeqNo::before_genesis().is_before_genesis());
    assert!(!earlier.is_before_genesis());
}
