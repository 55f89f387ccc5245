//! The step of a service actor, batched.
//!
//! A service keeps no journal, so a message is consumed when it is handed over:
//! each is committed just before its dispatch, and the messages behind it stay
//! queued.

use vstd::prelude::*;

use crate::context::Intent;
use crate::context::Outbox;
use crate::envelope::Envelope;
use crate::inbox::law_commit_keeps_later;
use crate::inbox::through;
use crate::inbox::Inbox;
use crate::inbox::InboxCall;
use crate::inbox::InboxOffset;
use crate::inbox::InboxView;
use crate::kernel::dead_letter;
use crate::kernel::effects::effects;
use crate::kernel::effects::flush_outbox;
use crate::kernel::effects::gated_out;
use crate::kernel::effects::law_messages_settle;
use crate::kernel::effects::law_stop_is_recorded;
use crate::kernel::effects::letters_of;
use crate::kernel::effects::stops;
use crate::kernel::effects::Flushed;
use crate::kernel::es_step::entry_at;
use crate::kernel::es_step::find_entry;
use crate::kernel::es_step::Step;
use crate::kernel::DeadLetter;
use crate::kernel::DeadLetterReason;
use crate::schema::names_of;
use crate::schema::SchemaId;

verus! {

/// What is done with the next message of a batch.
pub enum Handover {
    /// Dispatch it to this entry.
    Dispatch(usize),
    /// It has no entry: it is dead-lettered, and the batch goes on.
    Dead(DeadLetter),
}

/// The inbox once a message was handed over.
pub open spec fn handed_over(inbox: InboxView, offset: u64) -> InboxView {
    InboxView {
        cursor: (offset + 1) as u64,
        slots: inbox.slots.skip(through(inbox.slots, offset) as int),
        ..inbox
    }
}

/// Hands one message of a batch over: it is committed, whatever comes of it.
pub fn hand_over(inbox: &mut Inbox, message: &(InboxOffset, Envelope), entries: &Vec<SchemaId>) -> (handover: Handover)
    requires
        old(inbox)@.wf(),
        message.0@ < old(inbox)@.next_offset,
    ensures
        final(inbox)@.wf(),
        final(inbox)@ == handed_over(old(inbox)@, message.0@),
        match entry_at(names_of(entries@), message.1.schema@) {
            Some(at) => handover == Handover::Dispatch(at as usize) && at < entries@.len(),
            None => handover is Dead && handover->Dead_0.records(
                message.1,
                DeadLetterReason::UnknownSchema,
                "no entry for this schema"@,
            ),
        },
{
    let _popped = inbox.commit_through(message.0);
    match find_entry(entries, &message.1.schema) {
        Some(at) => Handover::Dispatch(at),
        None => Handover::Dead(
            dead_letter(&message.1, DeadLetterReason::UnknownSchema, "no entry for this schema"),
        ),
    }
}

/// How a dispatch ended.
pub enum Dispatched {
    /// The handler ran; these are the effects it recorded.
    Handled(Outbox),
    /// The payload did not decode.
    Undecodable {
        /// What the decoder reported.
        detail: String,
        /// The effects recorded before that.
        outbox: Outbox,
    },
    /// The handler panicked; what it recorded dies with it.
    Panicked,
}

/// What a dispatch leaves to do.
pub enum ServiceNext {
    /// Carry out the effects, then take the next message.
    Continue(Flushed),
    /// Carry out the effects, then stop.
    Stop(Flushed),
    /// Mark the actor crashed; the rest of the batch stays queued.
    Crash,
}

/// Whether a flush is that of an outbox.
pub open spec fn flushed_from(flushed: Flushed, outbox: Outbox, emits: Seq<Seq<char>>) -> bool {
    &&& flushed.effects@ == effects(outbox@, emits)
    &&& letters_of(flushed.letters@, gated_out(outbox@, emits))
    &&& flushed.stops == stops(outbox@)
}

/// Whether a dispatch that recorded an outbox left this to do.
pub open spec fn follows(next: ServiceNext, outbox: Outbox, emits: Seq<Seq<char>>) -> bool {
    match next {
        ServiceNext::Continue(flushed) => flushed_from(flushed, outbox, emits) && !stops(outbox@),
        ServiceNext::Stop(flushed) => flushed_from(flushed, outbox, emits) && stops(outbox@),
        ServiceNext::Crash => false,
    }
}

/// Flushes an outbox and says how the batch goes on.
fn go_on(outbox: Outbox, emits: &Vec<SchemaId>) -> (next: ServiceNext)
    ensures
        follows(next, outbox, names_of(emits@)),
{
    let flushed = flush_outbox(outbox, emits);
    if flushed.stops {
        ServiceNext::Stop(flushed)
    } else {
        ServiceNext::Continue(flushed)
    }
}

/// Settles one dispatch. A message that does not decode is dead-lettered on its
/// own, and what was recorded before is still carried out.
pub fn settle_dispatch(envelope: &Envelope, dispatched: Dispatched, emits: &Vec<SchemaId>) -> (settled: (
    ServiceNext,
    Option<DeadLetter>,
))
    ensures
        match dispatched {
            Dispatched::Handled(outbox) => follows(settled.0, outbox, names_of(emits@)) && settled.1 is None,
            Dispatched::Undecodable { detail, outbox } => {
                &&& follows(settled.0, outbox, names_of(emits@))
                &&& settled.1 is Some
                &&& settled.1->0.records(*envelope, DeadLetterReason::Decode, detail@)
            },
            Dispatched::Panicked => settled.0 is Crash && settled.1 is None,
        },
{
    match dispatched {
        Dispatched::Handled(outbox) => (go_on(outbox, emits), None),
        Dispatched::Undecodable { detail, outbox } => {
            let letter = dead_letter(envelope, DeadLetterReason::Decode, detail.as_str());
            (go_on(outbox, emits), Some(letter))
        },
        Dispatched::Panicked => (ServiceNext::Crash, None),
    }
}

/// What a service step concluded, from how its last dispatch was settled; a
/// batch of no messages is idle.
pub fn step_service(batch: usize, last: Option<&ServiceNext>) -> (step: Step)
    ensures
        step == if batch == 0 {
            Step::Idle
        } else {
            match last {
                Some(ServiceNext::Crash) => Step::Crashed,
                Some(ServiceNext::Stop(_)) => Step::Stop,
                _ => Step::Work,
            }
        },
{
    if batch == 0 {
        return Step::Idle;
    }
    match last {
        Some(ServiceNext::Crash) => Step::Crashed,
        Some(ServiceNext::Stop(_)) => Step::Stop,
        _ => Step::Work,
    }
}

/// A message is delivered at most once: once it was handed over, no slot of the
/// inbox holds it or anything before it, and everything behind it stays.
pub proof fn law_at_most_once(inbox: InboxView, offset: u64)
    requires
        inbox.wf(),
        offset < inbox.next_offset,
    ensures
        handed_over(inbox, offset).cursor > offset,
        forall|i: int|
            0 <= i < handed_over(inbox, offset).slots.len() ==> (#[trigger] handed_over(inbox, offset).slots[i]).0
                > offset,
        forall|i: int|
            0 <= i < inbox.slots.len() && (#[trigger] inbox.slots[i]).0 > offset ==> handed_over(
                inbox,
                offset,
            ).slots.contains(inbox.slots[i]),
{
    law_commit_keeps_later(inbox.slots, offset);
    let k = through(inbox.slots, offset) as int;
    let after = handed_over(inbox, offset).slots;
    assert forall|i: int| 0 <= i < inbox.slots.len() && (#[trigger] inbox.slots[i]).0 > offset implies after.contains(
        inbox.slots[i],
    ) by {
        if i >= k {
            assert(after[i - k] == inbox.slots[i]);
        }
    }
}

/// A dispatch that ran is carried out whole: the batch stops exactly where the
/// handler asked for it, and every message it recorded leaves or is dead-lettered,
/// once.
pub proof fn law_dispatch_is_carried_out(next: ServiceNext, outbox: Outbox, emits: Seq<Seq<char>>)
    requires
        follows(next, outbox, emits),
    ensures
        next is Stop <==> outbox@.contains(Intent::StopSelf),
        next is Continue <==> !outbox@.contains(Intent::StopSelf),
        match next {
            ServiceNext::Continue(flushed) => {
                &&& flushed.effects@ == effects(outbox@, emits)
                &&& flushed.effects@.len() + flushed.letters@.len() == outbox@.filter(
                    |intent: Intent| intent !is StopSelf,
                ).len()
                &&& !flushed.stops
            },
            ServiceNext::Stop(flushed) => {
                &&& flushed.effects@ == effects(outbox@, emits)
                &&& flushed.effects@.len() + flushed.letters@.len() == outbox@.filter(
                    |intent: Intent| intent !is StopSelf,
                ).len()
                &&& flushed.stops
            },
            ServiceNext::Crash => false,
        },
{
    law_stop_is_recorded(outbox@);
    law_messages_settle(outbox@, emits);
}

/// A message is committed as it is handed over: the cursor stands right behind
/// it.
pub proof fn law_handed_over_is_committed(inbox: InboxView, offset: u64)
    requires
        inbox.wf(),
        offset < inbox.next_offset,
    ensures
        handed_over(inbox, offset) == inbox.after(InboxCall::Commit(offset)),
        handed_over(inbox, offset).cursor == offset + 1,
        handed_over(inbox, offset).next_offset == inbox.next_offset,
        handed_over(inbox, offset).open == inbox.open,
{
}

} // verus!
