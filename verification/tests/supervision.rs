//! Restart policies, budgets and escalation.

use trouper::actor::ActorPath;
use trouper::actor::StopReason;
use trouper::clock::Timestamp;
use trouper::envelope::TraceCtx;
use trouper::ids::IdMint;
use trouper::supervision::escalation;
use trouper::supervision::escalation_message;
use trouper::supervision::restart_mode;
use trouper::supervision::supervise_crash;
use trouper::supervision::ActorSpec;
use trouper::supervision::FailureWindow;
use trouper::supervision::RestartBudget;
use trouper::supervision::RestartMode;
use trouper::supervision::RestartPolicy;
use trouper::supervision::Verdict;

fn spec(restart: RestartPolicy, budget: RestartBudget) -> ActorSpec {
    ActorSpec { path: ActorPath::new("worker"), parent: Some(ActorPath::new("boss")), restart, budget }
}

#[test]
fn failure_window_exhausts_at_the_budget_maximum() {
    let budget = RestartBudget::per(3, 100);
    let mut window = FailureWindow::new();

    window.record(0);
    window.record(10);
    window.record(20);

    assert!(window.exhausted(30, &budget));
    assert_eq!(window.count(30, &budget), 3);
}

#[test]
fn failure_window_forgives_old_failures() {
    let budget = RestartBudget::per(3, 100);
    let mut window = FailureWindow::new();
    window.record(0);
    window.record(10);
    window.record(20);

    window.prune(105, &budget);

    assert_eq!(window.count(105, &budget), 2);
    assert!(!window.exhausted(105, &budget));
    assert_eq!(window.len(), 2);
    assert!(!window.is_empty());
}

#[test]
fn restart_policy_defaults_to_permanent() {
    let policy = RestartPolicy::default();

    assert_eq!(policy, RestartPolicy::Permanent);
}

#[test]
fn the_default_budget_is_five_in_ten_seconds() {
    assert_eq!(RestartBudget::default(), RestartBudget::per(5, 10_000));
}

#[test]
fn escalation_message_carries_path_and_reason() {
    let message = escalation_message(&ActorPath::new("worker"), "budget exhausted");

    assert_eq!(message.tree().get("escalated").and_then(|v| v.as_str()), Some("worker"));
    assert_eq!(message.tree().get("reason").and_then(|v| v.as_str()), Some("budget exhausted"));
    assert_eq!(message.to_vec(), br#"{"escalated":"worker","reason":"budget exhausted"}"#);
}

#[test]
fn a_child_restarts_inside_its_budget_and_escalates_past_it() {
    let spec = spec(RestartPolicy::Permanent, RestartBudget::per(2, 100));
    let mut window = FailureWindow::new();

    let first = supervise_crash(&spec, &mut window, 10);
    assert!(matches!(first, Verdict::Restart { consecutive: 1 }));

    let second = supervise_crash(&spec, &mut window, 20);
    match second {
        Verdict::Escalate { reason, stop_reason } => {
            assert_eq!(reason, "restart budget exhausted");
            assert_eq!(stop_reason, StopReason::Escalated);
        }
        Verdict::Restart { .. } => panic!("the budget is two"),
    }

    let later = supervise_crash(&spec, &mut window, 500);
    assert!(matches!(later, Verdict::Restart { consecutive: 1 }), "old failures are forgiven");
    assert_eq!(window.len(), 1);
}

#[test]
fn no_window_holds_more_restarts_than_the_budget() {
    let spec = spec(RestartPolicy::Permanent, RestartBudget::per(3, 100));
    let mut window = FailureWindow::new();

    let crashes: Vec<u64> = (0..60).map(|k| k * 17).collect();
    let mut restarts = Vec::new();
    for at in crashes {
        if matches!(supervise_crash(&spec, &mut window, at), Verdict::Restart { .. }) {
            restarts.push(at);
        }
    }

    assert_eq!(restarts, [0, 17]);
    for at in [200_000, 200_060, 200_110, 200_150, 200_230] {
        if matches!(supervise_crash(&spec, &mut window, at), Verdict::Restart { .. }) {
            restarts.push(at);
        }
    }
    assert_eq!(restarts, [0, 17, 200_000, 200_060, 200_110, 200_230]);
    for from in &restarts {
        let within = restarts.iter().filter(|at| *from <= **at && **at - *from <= 100).count();
        assert!(within < 3, "{within} restarts from {from}");
    }
}

#[test]
fn a_child_that_is_never_restarted_escalates_at_once() {
    let spec = spec(RestartPolicy::Never, RestartBudget::default());
    let mut window = FailureWindow::new();

    match supervise_crash(&spec, &mut window, 10) {
        Verdict::Escalate { reason, stop_reason } => {
            assert_eq!(reason, "policy Never (crashed)");
            assert_eq!(stop_reason, StopReason::Crashed);
        }
        Verdict::Restart { .. } => panic!("never restarted"),
    }
    assert!(window.is_empty());
}

#[test]
fn the_parent_is_told_in_an_ordinary_envelope() {
    let mut mint = IdMint::new();
    let trace = TraceCtx::root(&mut mint, Timestamp::from_millis(5));
    let spec = spec(RestartPolicy::Permanent, RestartBudget::default());

    let envelope = escalation(&spec, "why", trace).expect("a parent");

    assert_eq!(envelope.schema.as_str(), "Escalated");
    assert_eq!(envelope.dest.to_string(), "boss");
    assert_eq!(envelope.payload_json().tree().get("reason").and_then(|v| v.as_str()), Some("why"));
    let orphan = ActorSpec { parent: None, ..spec };
    assert!(escalation(&orphan, "why", trace).is_none());
}

#[test]
fn journaled_children_replay_and_others_respawn() {
    assert_eq!(restart_mode(true), RestartMode::Replay);
    assert_eq!(restart_mode(false), RestartMode::Respawn);
}
