//! Getting an envelope into an inbox: the direct push, the front door that owns
//! every refusal, and the watermark that reports backpressure.

use vstd::prelude::*;

use crate::envelope::Envelope;
use crate::inbox::Inbox;
use crate::inbox::InboxCall;
use crate::inbox::InboxView;
use crate::inbox::OverloadPolicy;
use crate::inbox::Refused;
use crate::kernel::dead_letter;
use crate::kernel::DeadLetter;
use crate::kernel::DeadLetterReason;

verus! {

/// How long the front door holds a refused envelope between two pushes, in
/// milliseconds.
pub const BLOCK_HOLD_RETRY_MS: u64 = 2;

/// How many times the front door pushes a held envelope again before it is
/// dead-lettered as a last resort.
pub const BLOCK_HOLD_RETRIES: usize = 1_000;

/// The depth at which an inbox reports backpressure, and whether it has.
#[derive(Debug, Clone, Copy, PartialEq, Eq, Structural)]
pub struct Watermark {
    /// The depth above which the watermark fires; `None` where none was
    /// declared.
    pub high: Option<u64>,
    /// Set from the crossing until the depth is back at the mark.
    pub fired: bool,
}

impl Watermark {
    /// A watermark that has not fired.
    pub fn new(high: Option<u64>) -> (mark: Self)
        ensures
            mark == (Watermark { high, fired: false }),
    {
        Watermark { high, fired: false }
    }

    /// Whether the watermark fires at a depth: on the way up, once.
    pub open spec fn fires(self, depth: u64) -> bool {
        self.high is Some && depth > self.high->0 && !self.fired
    }

    /// The watermark after a depth was seen.
    pub open spec fn after(self, depth: u64) -> Watermark {
        match self.high {
            Some(high) => Watermark { fired: depth > high, ..self },
            None => self,
        }
    }

    /// Looks at a depth: it is handed back where the watermark fires.
    pub fn observe(&mut self, depth: u64) -> (fired: Option<u64>)
        ensures
            fired == if old(self).fires(depth) {
                Some(depth)
            } else {
                None
            },
            *final(self) == old(self).after(depth),
    {
        match self.high {
            Some(high) => if depth > high {
                if self.fired {
                    None
                } else {
                    self.fired = true;
                    Some(depth)
                }
            } else {
                self.fired = false;
                None
            },
            None => None,
        }
    }
}

/// A sustained overload is reported once: after the watermark fired it stays
/// quiet until the depth was back at the mark.
pub proof fn law_fires_once(mark: Watermark, depth: u64, next: u64)
    requires
        mark.high is Some,
    ensures
        depth > mark.high->0 ==> !mark.after(depth).fires(next),
        depth <= mark.high->0 ==> (mark.after(depth).fires(next) <==> next > mark.high->0),
{
}

/// Whether an inbox can take a push: the write head has room to move, and an
/// eviction would find an envelope at the front.
pub open spec fn pushable(inbox: InboxView) -> bool {
    &&& inbox.wf()
    &&& inbox.next_offset < u64::MAX
    &&& inbox.open && inbox.full() && inbox.policy == OverloadPolicy::DropOld ==> inbox.slots[0].1 is Some
}

/// The inbox once it queued an envelope: a full one has lost its oldest.
pub open spec fn taken(inbox: InboxView, envelope: Envelope) -> InboxView {
    if inbox.full() {
        (InboxView { cursor: (inbox.cursor + 1) as u64, slots: inbox.slots.drop_first(), ..inbox }).queued(envelope)
    } else {
        inbox.queued(envelope)
    }
}

/// What a direct push came to.
pub enum Pushed {
    /// The envelope is queued.
    Queued {
        /// The depth to report, where the watermark fires.
        backpressure: Option<u64>,
        /// The record of the envelope it displaced.
        evicted: Option<DeadLetter>,
    },
    /// The envelope is handed back; the front door decides about it.
    Refused(Envelope),
}

/// Whether a record is that of the envelope a push displaced.
pub open spec fn records_eviction(inbox: InboxView, evicted: Option<DeadLetter>) -> bool {
    if inbox.full() {
        &&& evicted is Some
        &&& inbox.slots[0].1 is Some
        &&& evicted->0.records(
            inbox.slots[0].1->0,
            DeadLetterReason::InboxRefused,
            "inbox evicted oldest (DropOld)"@,
        )
    } else {
        evicted is None
    }
}

/// Pushes an envelope straight into an inbox and looks at the depth it left.
pub fn direct_push(inbox: &mut Inbox, mark: &mut Watermark, envelope: Envelope) -> (pushed: Pushed)
    requires
        pushable(old(inbox)@),
    ensures
        final(inbox)@.wf(),
        match pushed {
            Pushed::Queued { backpressure, evicted } => {
                let depth = final(inbox)@.slots.len() as u64;
                &&& old(inbox)@.accepts()
                &&& final(inbox)@ == taken(old(inbox)@, envelope)
                &&& records_eviction(old(inbox)@, evicted)
                &&& backpressure == if old(mark).fires(depth) {
                    Some(depth)
                } else {
                    None
                }
                &&& *final(mark) == old(mark).after(depth)
            },
            Pushed::Refused(back) => {
                &&& !old(inbox)@.accepts()
                &&& back == envelope
                &&& final(inbox)@ == old(inbox)@
                &&& *final(mark) == *old(mark)
            },
        },
{
    let evicted = match inbox.push(envelope) {
        Ok(_) => None,
        Err(Refused::Evicted(oldest)) => Some(
            dead_letter(&oldest, DeadLetterReason::InboxRefused, "inbox evicted oldest (DropOld)"),
        ),
        Err(refused) => return Pushed::Refused(refused.into_envelope()),
    };
    let backpressure = mark.observe(inbox.len() as u64);
    Pushed::Queued { backpressure, evicted }
}

/// What the front door does with an envelope.
pub enum DoorStep {
    /// The envelope is queued; wake the actor.
    Accepted,
    /// Hold the envelope and push it again.
    Hold,
    /// An envelope died; the actor is not woken.
    Dead(DeadLetter),
}

/// Whether the front door holds a refused envelope: only a full inbox that
/// blocks, and only so often.
pub open spec fn holds(inbox: InboxView, attempt: usize) -> bool {
    inbox.open && inbox.full() && inbox.policy == OverloadPolicy::Block && attempt < BLOCK_HOLD_RETRIES
}

/// One push of the front door, the first being attempt zero. A full inbox that
/// blocks is tried again; anything else that is refused dies.
pub fn push_holding_block(inbox: &mut Inbox, envelope: &Envelope, attempt: usize) -> (step: DoorStep)
    requires
        pushable(old(inbox)@),
    ensures
        final(inbox)@.wf(),
        final(inbox)@ == if old(inbox)@.accepts() {
            taken(old(inbox)@, *envelope)
        } else {
            old(inbox)@
        },
        match step {
            DoorStep::Accepted => old(inbox)@.open && !old(inbox)@.full(),
            DoorStep::Hold => holds(old(inbox)@, attempt),
            DoorStep::Dead(letter) => if old(inbox)@.accepts() {
                old(inbox)@.full() && records_eviction(old(inbox)@, Some(letter))
            } else {
                !holds(old(inbox)@, attempt) && letter.records(
                    *envelope,
                    DeadLetterReason::InboxRefused,
                    "inbox refused (overload/closed)"@,
                )
            },
        },
{
    match inbox.push(envelope.clone()) {
        Ok(_) => DoorStep::Accepted,
        Err(Refused::Evicted(oldest)) => DoorStep::Dead(
            dead_letter(&oldest, DeadLetterReason::InboxRefused, "inbox evicted oldest (DropOld)"),
        ),
        Err(Refused::Full(back)) => if inbox.policy() == OverloadPolicy::Block && attempt < BLOCK_HOLD_RETRIES {
            DoorStep::Hold
        } else {
            DoorStep::Dead(
                dead_letter(&back, DeadLetterReason::InboxRefused, "inbox refused (overload/closed)"),
            )
        },
        Err(Refused::Closed(back)) => DoorStep::Dead(
            dead_letter(&back, DeadLetterReason::InboxRefused, "inbox refused (overload/closed)"),
        ),
    }
}

/// One turn of the front door: a push, and, unless the envelope is held, a look
/// at the depth it left.
pub fn front_door_turn(inbox: &mut Inbox, mark: &mut Watermark, envelope: &Envelope, attempt: usize) -> (turn: (
    DoorStep,
    Option<u64>,
))
    requires
        pushable(old(inbox)@),
    ensures
        final(inbox)@.wf(),
        final(inbox)@ == if old(inbox)@.accepts() {
            taken(old(inbox)@, *envelope)
        } else {
            old(inbox)@
        },
        match turn.0 {
            DoorStep::Accepted => old(inbox)@.open && !old(inbox)@.full(),
            DoorStep::Hold => holds(old(inbox)@, attempt),
            DoorStep::Dead(letter) => if old(inbox)@.accepts() {
                old(inbox)@.full() && records_eviction(old(inbox)@, Some(letter))
            } else {
                !holds(old(inbox)@, attempt) && letter.records(
                    *envelope,
                    DeadLetterReason::InboxRefused,
                    "inbox refused (overload/closed)"@,
                )
            },
        },
        match turn.0 {
            DoorStep::Hold => turn.1 is None && *final(mark) == *old(mark),
            _ => {
                let depth = final(inbox)@.slots.len() as u64;
                &&& turn.1 == if old(mark).fires(depth) {
                    Some(depth)
                } else {
                    None
                }
                &&& *final(mark) == old(mark).after(depth)
            },
        },
{
    let step = push_holding_block(inbox, envelope, attempt);
    match step {
        DoorStep::Hold => (step, None),
        _ => {
            let fired = mark.observe(inbox.len() as u64);
            (step, fired)
        },
    }
}

/// A front door's depth: exactly the mailbox under `Block`, so senders pace at
/// the configured depth; twice that under the lossy policies, so bursts reach
/// the inbox's own policy. An unbounded inbox never refuses, and its door needs
/// no headroom.
pub fn door_capacity(mailbox_capacity: usize, policy: OverloadPolicy) -> (capacity: usize)
    requires
        policy == OverloadPolicy::DropNew || policy == OverloadPolicy::DropOld ==> mailbox_capacity <= usize::MAX / 2,
    ensures
        capacity == {
            let least = if mailbox_capacity == 0 {
                1int
            } else {
                mailbox_capacity as int
            };
            if policy == OverloadPolicy::DropNew || policy == OverloadPolicy::DropOld {
                2 * least
            } else {
                least
            }
        },
{
    let capacity: usize = if mailbox_capacity == 0 {
        1
    } else {
        mailbox_capacity
    };
    match policy {
        OverloadPolicy::DropNew => capacity * 2,
        OverloadPolicy::DropOld => capacity * 2,
        _ => capacity,
    }
}

/// A push loses nothing in silence: every envelope that was queued or offered
/// is queued afterwards, or has a record, or is handed back.
pub proof fn law_push_conserves(inbox: InboxView, envelope: Envelope)
    requires
        pushable(inbox),
        inbox.accepts(),
    ensures
        taken(inbox, envelope).slots.last().1 == Some(envelope),
        !inbox.full() ==> taken(inbox, envelope).slots.drop_last() == inbox.slots,
        inbox.full() ==> taken(inbox, envelope).slots.drop_last() == inbox.slots.drop_first(),
{
    let after = taken(inbox, envelope);
    if inbox.full() {
        assert(after.slots.drop_last() =~= inbox.slots.drop_first());
    } else {
        assert(after.slots.drop_last() =~= inbox.slots);
    }
}

/// A watermark reports a crossing and nothing else: only a depth above the mark,
/// the first such depth after one at or below it, and never where none was
/// declared. Looking at a depth does not move the mark.
pub proof fn law_watermark_reports_crossings(mark: Watermark, depth: u64)
    ensures
        mark.after(depth).high == mark.high,
        mark.high is None ==> !mark.fires(depth) && mark.after(depth) == mark,
        mark.high matches Some(high) ==> {
            &&& mark.fires(depth) <==> depth > high && !mark.fired
            &&& mark.after(depth).fired <==> depth > high
        },
{
}

/// The door queues just as a push does.
pub proof fn law_door_queues_like_a_push(inbox: InboxView, envelope: Envelope)
    requires
        pushable(inbox),
        inbox.accepts(),
    ensures
        taken(inbox, envelope) == inbox.after(InboxCall::Push(envelope)),
        inbox.open,
{
}

/// The envelope that a push displaces is on record, and only where one is
/// displaced: a full inbox's oldest, whole, with the reason.
pub proof fn law_eviction_is_on_record(inbox: InboxView, evicted: Option<DeadLetter>)
    requires
        pushable(inbox),
        inbox.accepts(),
        records_eviction(inbox, evicted),
    ensures
        evicted is Some <==> inbox.policy == OverloadPolicy::DropOld && inbox.slots.len() >= inbox.capacity,
        evicted matches Some(letter) ==> {
            &&& Some(letter.envelope) == inbox.slots[0].1
            &&& letter.schema == letter.envelope.schema
            &&& letter.dest == letter.envelope.dest
            &&& letter.trace == letter.envelope.trace
            &&& letter.reason == DeadLetterReason::InboxRefused
        },
{
}

/// The door holds an envelope only for an actor that blocks: while the inbox is
/// open, full and blocking, and only so many times; and what an inbox accepts is
/// never held.
pub proof fn law_door_holds_for_block_only(inbox: InboxView, attempt: usize)
    requires
        inbox.wf(),
    ensures
        holds(inbox, attempt) <==> inbox.open && inbox.policy == OverloadPolicy::Block && inbox.slots.len()
            >= inbox.capacity && attempt < 1_000,
        holds(inbox, attempt) ==> !inbox.accepts(),
        !inbox.accepts() && !holds(inbox, attempt) ==> !inbox.open || inbox.policy == OverloadPolicy::DropNew
            || attempt >= 1_000,
{
}

} // verus!
