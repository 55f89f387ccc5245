//! The inbox: order, capacity, claims and commits.

use trouper::actor::ActorPath;
use trouper::clock::Timestamp;
use trouper::envelope::Address;
use trouper::envelope::Envelope;
use trouper::envelope::PayloadBytes;
use trouper::envelope::TraceCtx;
use trouper::ids::IdMint;
use trouper::inbox::Inbox;
use trouper::inbox::InboxOffset;
use trouper::inbox::OverloadPolicy;
use trouper::inbox::Refused;
use trouper::json::Json;
use trouper::schema::SchemaId;

fn envelope(n: u32) -> Envelope {
    let mut mint = IdMint::new();
    let json = Json::from_slice(format!("{{\"n\":{n}}}").as_bytes()).expect("json");
    Envelope::try_from_bytes(
        SchemaId::new("Ping"),
        Address::Path(ActorPath::new("a")),
        PayloadBytes::from_json(&json),
        TraceCtx::root(&mut mint, Timestamp::from_millis(1)),
    )
    .expect("JSON text")
}

#[test]
fn an_offset_reads_as_its_number() {
    assert_eq!(InboxOffset::zero().to_string(), "0");
    assert_eq!(InboxOffset::new(1_204).to_string(), "1204");
}

fn n_of(envelope: &Envelope) -> Option<u64> {
    envelope.payload_json().tree().get("n").and_then(|n| n.as_u64())
}

fn push(inbox: &mut Inbox, n: u32) -> InboxOffset {
    inbox.push(envelope(n)).ok().expect("push")
}

fn claim(inbox: &mut Inbox, n: usize) -> Vec<(InboxOffset, Envelope)> {
    let mut batch = Vec::new();
    inbox.claim_up_to(n, &mut batch);
    batch
}

fn offsets(batch: &[(InboxOffset, Envelope)]) -> Vec<u64> {
    batch.iter().map(|(o, _)| o.as_u64()).collect()
}

#[test]
fn push_then_peek_returns_envelopes_in_fifo_order() {
    let mut inbox = Inbox::new(4, OverloadPolicy::Block);
    push(&mut inbox, 1);
    push(&mut inbox, 2);

    let first_n = inbox.peek().map(n_of);
    let again_n = inbox.peek().map(n_of);

    assert_eq!(first_n, Some(Some(1)));
    assert_eq!(again_n, first_n);
}

#[test]
fn ack_advances_the_cursor_and_exposes_the_next_entry() {
    let mut inbox = Inbox::new(4, OverloadPolicy::Block);
    push(&mut inbox, 1);
    push(&mut inbox, 2);

    inbox.ack();

    assert_eq!(inbox.cursor(), InboxOffset::new(1));
    let front = inbox.peek().expect("front");
    assert_eq!(n_of(front), Some(2));
}

#[test]
fn offsets_survive_drain_and_are_monotonic() {
    let mut inbox = Inbox::new(8, OverloadPolicy::Block);
    let pushed: Vec<u64> = (0..3).map(|n| push(&mut inbox, n).as_u64()).collect();

    let drained = inbox.drain();

    assert_eq!(offsets(&drained), pushed);
    assert!(inbox.is_empty());
    let next = push(&mut inbox, 9);
    assert!(next.as_u64() > drained[2].0.as_u64());
}

#[test]
fn drop_new_policy_refuses_when_full() {
    let mut inbox = Inbox::new(2, OverloadPolicy::DropNew);
    push(&mut inbox, 1);
    push(&mut inbox, 2);

    let result = inbox.push(envelope(3));

    let refused = result.expect_err("must refuse").into_envelope();
    assert_eq!(n_of(&refused), Some(3));
    assert_eq!(inbox.len(), 2);
}

#[test]
fn drop_old_policy_evicts_the_oldest_entry() {
    let mut inbox = Inbox::new(2, OverloadPolicy::DropOld);
    push(&mut inbox, 1);
    push(&mut inbox, 2);

    let evicted = inbox.push(envelope(3)).expect_err("eviction is reported").into_envelope();
    assert_eq!(n_of(&evicted), Some(1));

    assert_eq!(inbox.peek().map(n_of), Some(Some(2)));
    inbox.ack();
    assert_eq!(inbox.peek().map(n_of), Some(Some(3)));
}

#[test]
fn unbounded_inbox_never_refuses_at_any_depth() {
    let mut inbox = Inbox::new(1, OverloadPolicy::Unbounded);
    for n in 0..100_000u32 {
        push(&mut inbox, n);
    }

    assert_eq!(inbox.len(), 100_000);
    assert_eq!(inbox.cursor(), InboxOffset::zero());

    let drained = inbox.drain();
    assert_eq!(drained.len(), 100_000);
    assert_eq!(n_of(&drained[0].1), Some(0), "FIFO order intact");
}

#[test]
fn unbounded_push_never_refuses_even_with_a_full_capacity_field() {
    let mut inbox = Inbox::new(2, OverloadPolicy::Unbounded);
    push(&mut inbox, 1);
    push(&mut inbox, 2);

    let result = inbox.push(envelope(3));

    assert!(result.is_ok());
    assert_eq!(inbox.len(), 3);
    assert_eq!(inbox.cursor(), InboxOffset::zero());
}

#[test]
fn unbounded_inbox_still_refuses_when_closed() {
    let mut inbox = Inbox::new(4, OverloadPolicy::Unbounded);
    push(&mut inbox, 1);
    inbox.close();

    let refused = inbox.push(envelope(2));

    assert!(matches!(refused, Err(Refused::Closed(_))));
}

#[test]
fn unbounded_claims_commits_and_restores_still_work() {
    let mut inbox = Inbox::new(1, OverloadPolicy::Unbounded);
    for n in 1..=3 {
        push(&mut inbox, n);
    }

    let batch = claim(&mut inbox, 2);
    inbox.commit_through(batch[0].0);
    inbox.restore_claims(vec![(batch[1].0, batch[1].1.clone())]);

    assert_eq!(inbox.cursor(), InboxOffset::new(1));
    assert_eq!(inbox.len(), 2);
    assert_eq!(n_of(inbox.peek().expect("front")), Some(2));
}

#[test]
fn block_policy_signals_full_for_the_caller_to_retry() {
    let mut inbox = Inbox::new(1, OverloadPolicy::Block);
    push(&mut inbox, 1);

    let result = inbox.push(envelope(2));

    assert!(result.is_err());
    assert_eq!(inbox.policy(), OverloadPolicy::Block);
}

#[test]
fn closed_inbox_refuses_new_deliveries_but_keeps_readables() {
    let mut inbox = Inbox::new(4, OverloadPolicy::Block);
    push(&mut inbox, 1);
    inbox.close();

    let refused = inbox.push(envelope(2));
    let readable = inbox.peek().is_some();

    assert!(matches!(refused, Err(Refused::Closed(_))));
    assert!(readable);
    assert!(!inbox.is_open());
}

#[test]
fn claim_up_to_returns_fifo_claims_without_moving_the_cursor() {
    let mut inbox = Inbox::new(8, OverloadPolicy::Block);
    for n in 1..=3 {
        push(&mut inbox, n);
    }

    let batch = claim(&mut inbox, 2);

    assert_eq!(offsets(&batch), vec![0, 1]);
    assert_eq!(n_of(&batch[0].1), Some(1));
    assert_eq!(n_of(&batch[1].1), Some(2));
    assert_eq!(inbox.cursor(), InboxOffset::new(0));
    assert_eq!(inbox.len(), 3, "tombstones count toward len");
}

#[test]
fn claim_up_to_takes_what_is_queued_when_shorter_than_n() {
    let mut inbox = Inbox::new(8, OverloadPolicy::Block);
    push(&mut inbox, 1);
    push(&mut inbox, 2);

    let batch = claim(&mut inbox, 5);

    assert_eq!(batch.len(), 2);
    assert_eq!(inbox.len(), 2);

    let mut empty = Inbox::new(4, OverloadPolicy::Block);
    assert!(claim(&mut empty, 5).is_empty());
}

#[test]
fn commit_through_advances_the_cursor_atomically() {
    let mut inbox = Inbox::new(8, OverloadPolicy::Block);
    for n in 1..=3 {
        push(&mut inbox, n);
    }
    let batch = claim(&mut inbox, 2);

    let last = batch.last().expect("non-empty").0;
    let popped = inbox.commit_through(last);

    assert_eq!(inbox.cursor(), InboxOffset::new(2));
    assert_eq!(inbox.len(), 1);
    assert_eq!(n_of(inbox.peek().expect("front")), Some(3));
    assert!(popped);
}

#[test]
fn commit_through_pops_live_entries_it_jumps_over() {
    let mut inbox = Inbox::new(8, OverloadPolicy::Block);
    for n in 1..=2 {
        push(&mut inbox, n);
    }
    let batch = claim(&mut inbox, 1);
    push(&mut inbox, 3);

    inbox.commit_through(batch[0].0);

    assert_eq!(inbox.cursor(), InboxOffset::new(1));
    assert_eq!(inbox.len(), 2);
    assert_eq!(n_of(inbox.peek().expect("front")), Some(2));
}

#[test]
fn tombstones_count_toward_capacity_until_commit() {
    let mut inbox = Inbox::new(2, OverloadPolicy::Block);
    push(&mut inbox, 1);
    push(&mut inbox, 2);

    let batch = claim(&mut inbox, 1);
    assert_eq!(batch.len(), 1);

    let refused = inbox.push(envelope(3)).expect_err("still full");
    assert!(!refused.queued_anyway(), "Block refuses without queuing");

    inbox.commit_through(batch[0].0);
    push(&mut inbox, 3);
}

#[test]
fn dropped_claims_restore_to_their_original_slots() {
    let mut inbox = Inbox::new(8, OverloadPolicy::Block);
    for n in 1..=3 {
        push(&mut inbox, n);
    }
    let batch = claim(&mut inbox, 2);
    assert_eq!(inbox.len(), 3, "tombstones in place");

    inbox.restore_claims(batch);

    assert_eq!(inbox.cursor(), InboxOffset::new(0));
    assert_eq!(inbox.len(), 3);
    assert_eq!(n_of(inbox.peek().expect("front")), Some(1));

    let again = claim(&mut inbox, 2);
    assert_eq!(offsets(&again), vec![0, 1]);
    assert_eq!(n_of(&again[0].1), Some(1));
    assert_eq!(n_of(&again[1].1), Some(2));
}

#[test]
fn restored_claims_keep_fifo_order_across_a_concurrent_push() {
    let mut inbox = Inbox::new(8, OverloadPolicy::Block);
    for n in 1..=2 {
        push(&mut inbox, n);
    }
    let mut batch = claim(&mut inbox, 2);
    let late = push(&mut inbox, 9);
    assert_eq!(late.as_u64(), 2, "the push took the next offset");

    inbox.commit_through(batch[0].0);
    inbox.restore_claims(vec![batch.pop().expect("non-empty")]);

    assert_eq!(inbox.cursor(), InboxOffset::new(1));
    assert_eq!(inbox.len(), 2);
    assert_eq!(n_of(inbox.peek().expect("front")), Some(2));
}

#[test]
fn commit_through_returns_false_when_nothing_pops() {
    let mut inbox = Inbox::new(4, OverloadPolicy::Block);
    push(&mut inbox, 1);

    let batch = claim(&mut inbox, 1);
    assert!(inbox.commit_through(batch[0].0));

    push(&mut inbox, 2);
    let batch = claim(&mut inbox, 1);
    assert!(inbox.commit_through(batch[0].0));
    assert!(inbox.is_empty());
    assert!(!inbox.commit_through(batch[0].0), "nothing is left to pop");
}

#[test]
fn snapshot_commit_round_trip_leaves_no_residue() {
    let mut inbox = Inbox::new(8, OverloadPolicy::Block);
    for n in 1..=3 {
        push(&mut inbox, n);
    }

    let batch = claim(&mut inbox, 3);
    for (offset, _) in &batch {
        inbox.commit_through(*offset);
    }

    assert!(inbox.is_empty());
    assert_eq!(inbox.cursor(), InboxOffset::new(3));
    let next = push(&mut inbox, 9);
    assert!(next.as_u64() >= 3);

    let again = claim(&mut inbox, 4);
    assert_eq!(again.len(), 1);
    assert_eq!(n_of(&again[0].1), Some(9));
}

#[test]
fn drop_old_holes_stay_committed_through_a_batch() {
    let mut inbox = Inbox::new(2, OverloadPolicy::DropOld);
    push(&mut inbox, 1);
    push(&mut inbox, 2);
    let evicted = inbox.push(envelope(3)).expect_err("eviction");
    assert!(evicted.queued_anyway(), "envelope 1 was evicted");

    let batch = claim(&mut inbox, 4);
    assert_eq!(batch.len(), 2, "only envelopes 2 and 3 are live");
    assert_eq!(offsets(&batch), vec![1, 2], "offsets stay monotonic across the eviction hole");
    let last = batch.last().expect("non-empty").0;
    inbox.commit_through(last);

    assert_eq!(inbox.cursor(), InboxOffset::new(3));
    assert!(inbox.is_empty());
}

#[test]
fn drain_still_flushes_a_closed_inbox_for_shutdown() {
    let mut inbox = Inbox::new(4, OverloadPolicy::Block);
    push(&mut inbox, 1);
    push(&mut inbox, 2);
    inbox.close();

    let drained = inbox.drain();

    assert_eq!(drained.len(), 2);
    assert_eq!(offsets(&drained), vec![0, 1]);
}

#[test]
fn drain_live_leaves_claims_behind() {
    let mut inbox = Inbox::new(4, OverloadPolicy::Block);
    push(&mut inbox, 1);
    push(&mut inbox, 2);
    let batch = claim(&mut inbox, 1);

    let drained = inbox.drain_live();

    assert_eq!(batch.len(), 1);
    assert_eq!(drained.len(), 1);
    assert_eq!(n_of(&drained[0]), Some(2));
    assert_eq!(inbox.len(), 1, "the claim keeps its slot");
}

#[test]
fn peeking_a_batch_removes_nothing() {
    let mut inbox = Inbox::new(8, OverloadPolicy::Block);
    for n in 1..=3 {
        push(&mut inbox, n);
    }

    let first = inbox.peek_up_to(2);
    push(&mut inbox, 4);
    let again = inbox.peek_up_to(2);

    assert_eq!(offsets(&first), vec![0, 1]);
    assert_eq!(offsets(&again), offsets(&first));
    assert_eq!(n_of(&again[1].1), Some(2));
    assert_eq!(inbox.len(), 4);
}

#[test]
fn inbox_offset_orders_numerically() {
    let earlier = InboxOffset::zero();
    let later = InboxOffset::new(3);

    let ordered = earlier < later;

    assert!(ordered);
}

#[test]
fn offsets_count_the_accepted_pushes_over_any_history() {
    let mut inbox = Inbox::new(2, OverloadPolicy::DropNew);
    assert_eq!(inbox.push(envelope(0)).ok().expect("accepted"), InboxOffset::new(0));
    assert_eq!(inbox.push(envelope(1)).ok().expect("accepted"), InboxOffset::new(1));
    assert!(inbox.push(envelope(2)).is_err(), "a refusal assigns nothing");
    inbox.ack();
    assert_eq!(inbox.push(envelope(3)).ok().expect("accepted"), InboxOffset::new(2));
    inbox.close();
    assert!(inbox.push(envelope(4)).is_err());
    inbox.reopen();
    inbox.drain();
    assert_eq!(inbox.push(envelope(5)).ok().expect("accepted"), InboxOffset::new(3));
    assert!(inbox.len() <= 2);
}
