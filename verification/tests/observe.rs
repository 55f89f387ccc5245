//! Observations and their JSON form.

use trouper::actor::ActorKind;
use trouper::actor::ActorPath;
use trouper::actor::StopReason;
use trouper::clock::Timestamp;
use trouper::envelope::Address;
use trouper::envelope::Envelope;
use trouper::envelope::Payload;
use trouper::envelope::TraceCtx;
use trouper::ids::IdMint;
use trouper::journal::SeqNo;
use trouper::json::Json;
use trouper::kernel::dead_letter;
use trouper::kernel::AskOutcome;
use trouper::kernel::DeadLetterReason;
use trouper::observe::Observation;
use trouper::observe::ObservationKind;
use trouper::schema::SchemaId;

fn trace() -> TraceCtx {
    TraceCtx::root(&mut IdMint::new(), Timestamp::from_millis(77))
}

fn text<'a>(json: &'a Json, name: &str) -> Option<&'a str> {
    json.tree().get(name).and_then(|v| v.as_str())
}

fn number(json: &Json, name: &str) -> Option<u64> {
    json.tree().get(name).and_then(|v| v.as_u64())
}

#[test]
fn observations_project_to_json_with_trace_context_only_at_the_boundary() {
    let observation = Observation::new(
        Timestamp::from_millis(42),
        ObservationKind::Acked { to: ActorPath::new("counter"), schema: SchemaId::new("Add"), trace: trace() },
    );

    let value = observation.to_json();

    assert_eq!(text(&value, "kind"), Some("acked"));
    assert_eq!(number(&value, "ts"), Some(42));
    assert_eq!(text(&value, "to"), Some("counter"));
    assert_eq!(text(&value, "schema"), Some("Add"));
    assert!(text(&value, "trace_id").is_some());
    assert!(text(&value, "causality_id").is_some());
}

#[test]
fn lifecycle_observations_name_their_kind_and_carry_no_trace() {
    let path = ActorPath::new("a");
    let cases = [
        (ObservationKind::Spawned { path: path.clone(), kind: ActorKind::Service, restart: false }, "spawned"),
        (ObservationKind::Stopped { path: path.clone(), reason: StopReason::Normal }, "stopped"),
        (ObservationKind::Failed { path: path.clone(), error: "why".into() }, "failed"),
        (ObservationKind::SnapshotTaken { path: path.clone(), seq: SeqNo::new(3) }, "snapshot_taken"),
        (ObservationKind::Escalated { path: path.clone(), reason: "why".into() }, "escalated"),
        (ObservationKind::LinkNotified { parent: path.clone(), child: path.clone() }, "link_notified"),
        (ObservationKind::Backpressured { path: path.clone(), depth: 9 }, "backpressured"),
        (ObservationKind::CaughtUp { path, seeded: 2 }, "caught_up"),
    ];
    for (kind, name) in cases {
        let value = Observation::new(Timestamp::from_millis(1), kind).to_json();
        assert_eq!(text(&value, "kind"), Some(name));
        assert!(value.tree().get("trace_id").is_none(), "{name}");
    }
}

#[test]
fn message_observations_carry_their_hop() {
    let envelope = Envelope::raw(
        SchemaId::new("Add"),
        Address::Path(ActorPath::new("counter")),
        Payload::json_view(Json::text("x")),
        trace(),
    )
    .from(ActorPath::new("sender"));

    let sent = Observation::sent(&envelope, Address::Path(ActorPath::new("counter")));
    assert_eq!(sent.ts.as_millis(), 77, "the hop's own clock");
    let value = sent.to_json();
    assert_eq!(text(&value, "kind"), Some("sent"));
    assert_eq!(text(&value, "from"), Some("sender"));

    let delivered = Observation::delivered(&ActorPath::new("counter"), &envelope).to_json();
    assert_eq!(text(&delivered, "kind"), Some("delivered"));
    let acked = Observation::acked(&ActorPath::new("counter"), &envelope).to_json();
    assert_eq!(text(&acked, "kind"), Some("acked"));
    assert_eq!(text(&acked, "trace_id"), text(&delivered, "trace_id"));

    let letter = dead_letter(&envelope, DeadLetterReason::Unresolvable, "nobody");
    let dead = Observation::dead_lettered(&letter).to_json();
    assert_eq!(text(&dead, "kind"), Some("dead_lettered"));
}

#[test]
fn ask_observations_carry_their_outcome() {
    let opened = Observation::of_hop(
        trace(),
        ObservationKind::AskOpened {
            from: ActorPath::new("a"),
            dest: Address::Path(ActorPath::new("b")),
            trace: trace(),
        },
    );
    let settled =
        Observation::of_hop(trace(), ObservationKind::AskSettled { outcome: AskOutcome::Timeout, trace: trace() });

    assert_eq!(text(&opened.to_json(), "kind"), Some("ask_opened"));
    assert_eq!(text(&settled.to_json(), "kind"), Some("ask_settled"));
}

#[test]
fn a_panic_is_observed_with_its_actor() {
    let observation = Observation::panicked(
        &ActorPath::new("counter"),
        &Envelope::raw(
            SchemaId::new("Add"),
            Address::Path(ActorPath::new("counter")),
            Payload::json_view(Json::text("x")),
            trace(),
        ),
    );

    let shown = observation.to_json();
    assert_eq!(shown.tree().get("kind").and_then(|k| k.as_str()), Some("failed"));
    assert_eq!(shown.tree().get("error").and_then(|k| k.as_str()), Some("handler panic"));
    assert_eq!(shown.tree().get("path").and_then(|k| k.as_str()), Some("counter"));
}
