//! Ids, payloads, events and envelopes.

use trouper::actor::ActorPath;
use trouper::actor::CommandHandler;
use trouper::actor::EventSourcedActor;
use trouper::actor::TypedEsAdapter;
use trouper::actor::TypedEsState;
use trouper::clock::Timestamp;
use trouper::context::CmdCtx;
use trouper::context::RuntimeView;
use trouper::envelope::Address;
use trouper::envelope::CausalityId;
use trouper::envelope::Envelope;
use trouper::envelope::Event;
use trouper::envelope::Events;
use trouper::envelope::IntoEvent;
use trouper::envelope::Payload;
use trouper::envelope::PayloadBytes;
use trouper::envelope::PayloadValue;
use trouper::envelope::TraceCtx;
use trouper::envelope::TraceId;
use trouper::ids::IdBits;
use trouper::ids::IdMint;
use trouper::journal::JournalError;
use trouper::journal::SeqNo;
use trouper::json::Json;
use trouper::registry::Registry;
use trouper::reply::LeaseId;
use trouper::schema::Schema;
use trouper::schema::SchemaDef;
use trouper::schema::SchemaId;
use trouper::schema::SchemaKind;
use uuid::Uuid;

fn json(text: &str) -> Json {
    Json::from_slice(text.as_bytes()).expect("JSON text")
}

fn clock_ms() -> u64 {
    std::time::SystemTime::now().duration_since(std::time::UNIX_EPOCH).expect("clock").as_millis() as u64
}

fn uuid_of(bits: IdBits) -> Uuid {
    let (high, low) = bits.as_pair();
    Uuid::from_u64_pair(high, low)
}

fn trace() -> TraceCtx {
    TraceCtx::root(&mut IdMint::new(), Timestamp::from_millis(9))
}

struct Deposited {
    n: i64,
}

impl Schema for Deposited {
    fn schema_def() -> SchemaDef {
        SchemaDef { name: "Deposited".into(), kind: SchemaKind::Event, fields: vec![], description: None }
    }
}

impl PayloadValue for Deposited {
    fn field(&self, name: &str) -> Option<String> {
        match name {
            "n" => Some(self.n.to_string()),
            _ => None,
        }
    }

    fn to_json_bytes(&self) -> Vec<u8> {
        format!("{{\"n\":{}}}", self.n).into_bytes()
    }
}

impl IntoEvent for Deposited {
    fn into_payload(self) -> Payload {
        Payload::value(Box::new(self))
    }
}

fn n_of(event: &Event) -> Option<i64> {
    event.payload_json().tree().get("n").and_then(|n| n.as_i64())
}

#[test]
fn trace_ctx_caused_shares_trace_and_renews_causality() {
    let mut mint = IdMint::new();
    let parent = TraceCtx::root(&mut mint, Timestamp::from_millis(3));

    let child = parent.caused(&mut mint, Timestamp::from_millis(3));

    assert_eq!(child.trace_id, parent.trace_id);
    assert_ne!(child.causality_id, parent.causality_id);
}

#[test]
fn json_envelope_roundtrips_payload_and_metadata() {
    let envelope = Envelope::from_bytes(
        SchemaId::new("ReserveStock"),
        Address::Path(ActorPath::new("inventory.west")),
        PayloadBytes::from_json(&json(r#"{"sku":"widget","qty":2}"#)),
        trace(),
    )
    .from(ActorPath::new("storefront"))
    .reply_to(Address::Path(ActorPath::new("storefront")));

    let payload = envelope.payload_json();

    assert_eq!(envelope.schema.as_str(), "ReserveStock");
    assert_eq!(envelope.from.as_ref().map(|p| p.as_str()), Some("storefront"));
    assert_eq!(envelope.reply_to, Some(Address::Path(ActorPath::new("storefront"))));
    assert_eq!(payload.tree().get("sku").and_then(|v| v.as_str()), Some("widget"));
}

#[test]
fn bytes_payload_view_is_memoized() {
    let envelope = Envelope::from_bytes(
        SchemaId::new("Tick"),
        Address::Path(ActorPath::new("a")),
        PayloadBytes::from_json(&json(r#"{"n":42}"#)),
        trace(),
    );

    let first = envelope.payload_json();
    let second = envelope.payload_json();

    assert_eq!(first, second);
    assert_eq!(first.tree().get("n").and_then(|v| v.as_u64()), Some(42));
}

#[test]
fn bytes_that_are_not_json_make_no_envelope() {
    let refused = Envelope::try_from_bytes(
        SchemaId::new("Tick"),
        Address::Path(ActorPath::new("a")),
        PayloadBytes::from_bytes(b"{oops".to_vec()),
        trace(),
    );

    assert!(refused.is_none());
}

#[test]
fn an_envelope_keeps_the_record_it_came_from() {
    let envelope = Envelope::raw(
        SchemaId::new("Tick"),
        Address::Schema(SchemaId::new("Tick")),
        Payload::json_view(json("{}")),
        trace(),
    );
    assert!(envelope.recorded_origin().is_none());

    let recorded = envelope.with_recorded_origin(ActorPath::new("a"), SeqNo::new(4));

    let origin = recorded.recorded_origin().expect("origin");
    assert_eq!(origin.journal.as_str(), "a");
    assert_eq!(origin.seq, SeqNo::new(4));
    assert_eq!(recorded.dest.to_string(), "schema(Tick)");
}

#[test]
fn trace_id_is_version_7() {
    let id = TraceId::new(&mut IdMint::new(), Timestamp::from_millis(clock_ms()));

    let version = uuid_of(id.bits()).get_version_num();

    assert_eq!(version, 7);
}

#[test]
fn causality_id_is_version_7() {
    let id = CausalityId::new(&mut IdMint::new(), Timestamp::from_millis(clock_ms()));

    let version = uuid_of(id.bits()).get_version_num();

    assert_eq!(version, 7);
}

#[test]
fn minted_ids_are_unique_across_kinds() {
    let mut mint = IdMint::new();
    let mut ids = std::collections::HashSet::with_capacity(100_000);
    for n in 0..100_000_u64 {
        let now = Timestamp::from_millis(n / 7);
        let bits = match n % 3 {
            0 => TraceId::new(&mut mint, now).bits(),
            1 => CausalityId::new(&mut mint, now).bits(),
            _ => LeaseId::new(&mut mint, now.as_millis()).bits(),
        };
        ids.insert(uuid_of(bits).as_u128());
    }

    assert_eq!(ids.len(), 100_000);
}

#[test]
fn counter_ids_read_back_their_millisecond_timestamp() {
    let before_ms = clock_ms();
    let id = CausalityId::new(&mut IdMint::new(), Timestamp::from_millis(clock_ms()));
    let after_ms = clock_ms();

    let ts = id.as_millis_ts().as_millis();

    assert!((before_ms..=after_ms).contains(&ts), "ts {ts} outside {before_ms}..{after_ms}");
}

#[test]
fn a_clock_that_steps_back_does_not_take_ids_with_it() {
    let mut mint = IdMint::new();

    let first = CausalityId::new(&mut mint, Timestamp::from_millis(1_000));
    let second = CausalityId::new(&mut mint, Timestamp::from_millis(400));

    assert_eq!(first.as_millis_ts().as_millis(), 1_000);
    assert_eq!(second.as_millis_ts().as_millis(), 1_000);
    assert!(uuid_of(second.bits()).as_u128() > uuid_of(first.bits()).as_u128());
}

#[test]
fn legacy_v7_uuid_strings_decode_into_counter_ids() {
    let legacy = "018f6a2c-9f6b-7000-8000-3b3a9d6e4f21";
    let (high, low) = Uuid::parse_str(legacy).expect("decode").as_u64_pair();
    let round = TraceId::from_bits(IdBits::from_pair(high, low).expect("v7"));

    let rendered = round.to_string();

    assert_eq!(rendered, legacy);
}

#[test]
fn ids_of_other_versions_are_refused() {
    assert!(IdBits::from_pair(0x018f_6a2c_9f6b_4000, 0x8000_3b3a_9d6e_4f21).is_none());
    assert!(IdBits::from_pair(0x018f_6a2c_9f6b_7000, 0x0000_3b3a_9d6e_4f21).is_none());
}

#[test]
fn counter_ids_keep_the_rfc_variant_bits() {
    let mut mint = IdMint::new();
    let now = Timestamp::from_millis(clock_ms());
    let trace = uuid_of(TraceId::new(&mut mint, now).bits());
    let causality = uuid_of(CausalityId::new(&mut mint, now).bits());
    let lease = uuid_of(LeaseId::new(&mut mint, now.as_millis()).bits());

    for id in [trace, causality, lease] {
        assert_eq!(id.get_version_num(), 7);
        let variant_nibble = (id.as_u128() >> 62) & 0b11;
        assert_eq!(variant_nibble, 0b10, "RFC 4122 variant");
    }
}

#[test]
fn counter_ids_stay_time_ordered_within_a_millisecond() {
    let mut mint = IdMint::new();
    let now = Timestamp::from_millis(clock_ms());
    let mut prev = uuid_of(TraceId::new(&mut mint, now).bits()).as_u128();

    for _ in 0..10_000 {
        let next = uuid_of(CausalityId::new(&mut mint, now).bits()).as_u128();
        assert!(next > prev, "ids must strictly increase");
        prev = next;
    }
}

#[test]
fn an_id_renders_hyphenated() {
    let mut mint = IdMint::new();

    let id = LeaseId::new(&mut mint, 1);

    assert_eq!(id.to_string(), "00000000-0001-7000-8000-000000000001");
    assert_eq!(Address::Slot(id).to_string(), "slot(00000000-0001-7000-8000-000000000001)");
}

#[test]
fn events_keep_their_order_past_two() {
    let mut events = Events::new();

    events.push_event(Deposited { n: 1 });
    events.push_event(Deposited { n: 2 });
    events.push_event(Deposited { n: 3 });

    assert_eq!(events.as_slice().len(), 3);
    assert_eq!(n_of(&events.as_slice()[0]), Some(1));
    assert_eq!(n_of(&events.as_slice()[2]), Some(3));
}

#[test]
fn adopted_events_come_back_out() {
    let mut events = Events::from_vec(vec![Deposited { n: 1 }.into_event()]);
    events.push(Deposited { n: 2 }.into_event());

    let taken: Vec<Option<i64>> = events.into_vec().iter().map(n_of).collect();

    assert_eq!(taken, [Some(1), Some(2)]);
    assert!(Events::new().as_slice().is_empty());
}

#[test]
fn into_event_derives_schema_id_and_payload_from_type() {
    let fact = Deposited { n: 5 };

    let event = fact.into_event();

    assert_eq!(event.schema, Deposited::schema_id());
    assert_eq!(event.schema.as_str(), "Deposited");
    assert_eq!(n_of(&event), Some(5));
}

#[test]
fn is_matches_without_cloning_or_decoding() {
    let deposited = Deposited { n: 1 }.into_event();
    let withdrawn = Event::from_json_view(SchemaId::new("Withdrawn"), json(r#"{"n":1}"#));

    let deposited_is = deposited.is::<Deposited>();
    let withdrawn_is = withdrawn.is::<Deposited>();

    assert!(deposited_is);
    assert!(!withdrawn_is);
}

#[test]
fn dlq_payload_json_still_renders_for_inspection() {
    let event = Deposited { n: 11 }.into_event();

    let view = event.payload_json();

    assert_eq!(view.tree().get("n").and_then(|n| n.as_u64()), Some(11));
}

#[test]
fn payload_bytes_from_json_roundtrips_text() {
    let tree = json(r#"{ "k": "v" }"#);

    let bytes = PayloadBytes::from_json(&tree);
    let round = Json::from_slice(bytes.as_bytes()).expect("parse");

    assert_eq!(bytes.as_str(), r#"{"k":"v"}"#);
    assert_eq!(round, tree);
    assert!(bytes.is_json_text());
}

#[test]
fn bytes_outside_utf8_are_marked() {
    let bytes = PayloadBytes::from_bytes(vec![0xff, 0xfe]);

    assert_eq!(bytes.as_str(), "<invalid utf8>");
    assert!(!bytes.is_json_text());
}

#[test]
fn every_payload_form_answers_for_its_fields() {
    let live = Payload::value(Box::new(Deposited { n: 5 }));
    let bytes = Payload::bytes(PayloadBytes::from_bytes(br#"{"n":5}"#.to_vec()));
    let view = Payload::json_view(json(r#"{"n":5}"#));

    for payload in [&live, &bytes, &view] {
        assert_eq!(payload.field("n"), Some("5".to_owned()));
        assert_eq!(payload.field("m"), None);
        assert_eq!(payload.wire_bytes().as_str(), r#"{"n":5}"#);
        assert_eq!(payload.json(), json(r#"{"n":5}"#));
    }
    assert!(Payload::bytes(PayloadBytes::from_bytes(vec![b'{'])).json() == json("null"));
}

#[test]
fn payloads_are_equal_by_their_wire_form() {
    let live = Deposited { n: 5 }.into_event();
    let replayed = Event::from_bytes(Deposited::schema_id(), PayloadBytes::from_bytes(br#"{"n":5}"#.to_vec()));
    let other = Deposited { n: 6 }.into_event();

    assert!(live == replayed);
    assert!(live != other);
}

struct Counter {
    count: i64,
}

impl EventSourcedActor for Counter {
    fn restore(_args: &Json) -> Self {
        Counter { count: 0 }
    }

    fn apply(&mut self, event: &Event) {
        if event.schema == StockReserved::schema_id() {
            self.count += event.payload_json().tree().get("qty").and_then(|q| q.as_i64()).unwrap_or(0);
        }
    }

    fn capture(&self) -> Result<Json, JournalError> {
        Ok(json(&format!("{{\"count\":{}}}", self.count)))
    }

    fn restore_from(_snapshot: &Json) -> Result<Self, JournalError> {
        Err(JournalError::Restore)
    }
}

impl CommandHandler<ReserveStock> for Counter {
    fn handle(&self, cmd: ReserveStock, _ctx: &CmdCtx<'_>) -> Events {
        Events::one(StockReserved { qty: cmd.qty })
    }
}

struct ReserveStock {
    qty: i64,
}

impl Schema for ReserveStock {
    fn schema_def() -> SchemaDef {
        SchemaDef { name: "ReserveStock".into(), kind: SchemaKind::Command, fields: vec![], description: None }
    }
}

struct StockReserved {
    qty: i64,
}

impl Schema for StockReserved {
    fn schema_def() -> SchemaDef {
        SchemaDef { name: "StockReserved".into(), kind: SchemaKind::Event, fields: vec![], description: None }
    }
}

impl IntoEvent for StockReserved {
    fn into_payload(self) -> Payload {
        Payload::json_view(json(&format!("{{\"qty\":{}}}", self.qty)))
    }
}

#[test]
fn dispatch_journals_exactly_the_events_handle_returned() {
    let state = TypedEsState::new(Counter::restore(&json("{}")));
    let adapter = TypedEsAdapter::<Counter, ReserveStock>::new::<ReserveStock>();
    let registry = Registry::new();
    let path = ActorPath::new("t");
    let ctx = CmdCtx::new(&path, RuntimeView { registry: &registry, now: Timestamp::from_millis(0) });

    let events = adapter.dispatch(&state, Some(ReserveStock { qty: 4 }), &ctx).ok().expect("dispatch");

    let appended: &[Event] = events.as_slice();
    assert_eq!(appended.len(), 1);
    assert_eq!(appended[0].schema, StockReserved::schema_id());
    assert_eq!(appended[0].payload_json().tree().get("qty").and_then(|q| q.as_i64()), Some(4));
}

#[test]
fn a_wrapped_payload_travels_as_its_compact_text() {
    let envelope = Envelope::from_bytes_wrapped(
        SchemaId::new("Deposited"),
        Address::Path(ActorPath::new("a")),
        &json(r#"{ "n" : 3 }"#),
        trace(),
    );

    assert_eq!(envelope.payload.wire_bytes().as_str(), r#"{"n":3}"#);
    assert!(envelope.from.is_none());
    assert!(envelope.recorded_origin.is_none());
    assert_eq!(envelope.payload_json(), json(r#"{"n":3}"#));
}

#[test]
fn an_envelope_shows_its_tree_unless_it_carries_a_live_value() {
    let dest = Address::Path(ActorPath::new("a"));
    let shown = Envelope::raw(
        SchemaId::new("Deposited"),
        dest.clone(),
        Payload::json_view(json(r#"{"n":3}"#)),
        trace(),
    );
    assert_eq!(shown.as_json(), Some(&json(r#"{"n":3}"#)));
    assert_eq!(shown.to_payload_bytes().as_str(), r#"{"n":3}"#);

    let live = Envelope::raw(
        SchemaId::new("Deposited"),
        dest.clone(),
        Payload::value(Box::new(Deposited { n: 3 })),
        trace(),
    );
    assert_eq!(live.as_json(), None);
    assert_eq!(live.payload_json(), json(r#"{"n":3}"#));

    let bytes = Envelope::from_bytes_wrapped(SchemaId::new("Deposited"), dest, &json(r#"{"n":3}"#), trace());
    assert_eq!(bytes.as_json(), Some(&json(r#"{"n":3}"#)));
    assert_eq!(bytes.to_payload_bytes().as_str(), r#"{"n":3}"#);
}

#[test]
fn an_event_adopts_a_payload_as_it_is() {
    let event =
        Event::with_shared_payload(SchemaId::new("Deposited"), Payload::json_view(json(r#"{"n":4}"#)));

    assert_eq!(event.schema.as_str(), "Deposited");
    assert_eq!(event.payload_json(), json(r#"{"n":4}"#));
}
