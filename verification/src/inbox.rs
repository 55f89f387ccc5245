//! Per-actor delivery: bounded inboxes with offset-based claim and commit.
//!
//! Each actor has one inbox. The runtime claims a batch at the cursor,
//! processes it and commits; the offsets survive restarts, which is what makes
//! redelivery possible.

use std::collections::VecDeque;

use vstd::prelude::*;

use crate::envelope::Envelope;
use crate::text::decimal;
use crate::text::decimal_text;

verus! {

/// What an inbox does when it is full.
#[derive(Debug, Clone, Copy, PartialEq, Eq, Structural)]
pub enum OverloadPolicy {
    /// The sender waits until there is room.
    Block,
    /// The incoming message is dropped.
    DropNew,
    /// The oldest queued message is dropped to make room.
    DropOld,
    /// No capacity: the inbox never refuses and grows without bound.
    Unbounded,
}

impl Default for OverloadPolicy {
    fn default() -> (policy: Self)
        ensures
            policy == OverloadPolicy::Block,
    {
        OverloadPolicy::Block
    }
}

/// Errors surfaced by an inbox.
#[derive(Debug, Clone, Copy, PartialEq, Eq, Structural)]
pub enum InboxError {
    /// The inbox is at capacity and the policy declined to make room.
    Full,
    /// The inbox is closed to new deliveries.
    Closed,
}

/// A refused push, carrying an envelope back to the caller.
pub enum Refused {
    /// The inbox is full under `Block` or `DropNew`.
    Full(Envelope),
    /// The inbox accepted the new envelope but evicted this older one.
    Evicted(Envelope),
    /// The inbox is closed.
    Closed(Envelope),
}

impl Refused {
    /// The envelope a refusal carries.
    pub open spec fn envelope(self) -> Envelope {
        match self {
            Refused::Full(envelope) => envelope,
            Refused::Evicted(envelope) => envelope,
            Refused::Closed(envelope) => envelope,
        }
    }

    /// The refused envelope itself.
    pub fn into_envelope(self) -> (envelope: Envelope)
        ensures
            envelope == self.envelope(),
    {
        match self {
            Refused::Full(envelope) => envelope,
            Refused::Evicted(envelope) => envelope,
            Refused::Closed(envelope) => envelope,
        }
    }

    /// Whether the new envelope was still queued despite the refusal.
    pub fn queued_anyway(&self) -> (r: bool)
        ensures
            r == (*self is Evicted),
    {
        match self {
            Refused::Evicted(_) => true,
            _ => false,
        }
    }
}

/// Position within one actor's inbox.
#[derive(Debug, Clone, Copy, PartialEq, Eq, PartialOrd, Ord, Hash, Structural)]
pub struct InboxOffset {
    value: u64,
}

impl View for InboxOffset {
    type V = u64;

    closed spec fn view(&self) -> u64 {
        self.value
    }
}

impl InboxOffset {
    /// The offset of the first inbox entry.
    pub fn zero() -> (offset: Self)
        ensures
            offset@ == 0,
    {
        InboxOffset { value: 0 }
    }

    /// Wraps a raw offset value.
    pub fn new(v: u64) -> (offset: Self)
        ensures
            offset@ == v,
    {
        InboxOffset { value: v }
    }

    /// The raw offset value.
    pub fn as_u64(self) -> (v: u64)
        ensures
            v == self@,
    {
        self.value
    }

    /// The offset as text.
    pub fn to_string(&self) -> (text: String)
        ensures
            text@ == decimal(self@ as nat),
    {
        decimal_text(self.value)
    }
}

/// A queue slot: an offset and its envelope, or a tombstone where the envelope
/// is out in a claim.
pub type Slot = (u64, Option<Envelope>);

/// An inbox as a mathematical value.
#[verifier::ext_equal]
pub struct InboxView {
    /// The most slots the inbox holds.
    pub capacity: nat,
    /// What happens when it is full.
    pub policy: OverloadPolicy,
    /// The offset of the next envelope to be queued.
    pub next_offset: u64,
    /// The offset of the next uncommitted envelope.
    pub cursor: u64,
    /// The queued slots, oldest first.
    pub slots: Seq<Slot>,
    /// Whether new deliveries are accepted.
    pub open: bool,
}

impl InboxView {
    /// Whether the offsets ascend between the cursor and the write head, and
    /// the capacity is kept.
    pub open spec fn wf(self) -> bool {
        &&& self.capacity >= 1
        &&& self.cursor <= self.next_offset
        &&& forall|i: int|
            0 <= i < self.slots.len() ==> self.cursor <= (#[trigger] self.slots[i]).0 < self.next_offset
        &&& forall|i: int, j: int|
            0 <= i < j < self.slots.len() ==> (#[trigger] self.slots[i]).0 < (#[trigger] self.slots[j]).0
        &&& self.policy != OverloadPolicy::Unbounded ==> self.slots.len() <= self.capacity
    }

    /// The inbox with one more envelope at the write head.
    pub open spec fn queued(self, envelope: Envelope) -> InboxView {
        InboxView {
            next_offset: (self.next_offset + 1) as u64,
            slots: self.slots.push((self.next_offset, Some(envelope))),
            ..self
        }
    }

    /// Whether the policy's capacity check refuses or evicts.
    pub open spec fn full(self) -> bool {
        self.policy != OverloadPolicy::Unbounded && self.slots.len() >= self.capacity
    }

    /// An inbox as it is created.
    pub open spec fn created(capacity: usize, policy: OverloadPolicy) -> InboxView {
        InboxView {
            capacity: if capacity == 0 {
                1
            } else {
                capacity as nat
            },
            policy,
            next_offset: 0,
            cursor: 0,
            slots: Seq::empty(),
            open: true,
        }
    }

    /// Whether a push queues its envelope.
    pub open spec fn accepts(self) -> bool {
        self.open && (!self.full() || self.policy == OverloadPolicy::DropOld)
    }

    /// The inbox after a call.
    pub open spec fn after(self, call: InboxCall) -> InboxView {
        match call {
            InboxCall::Push(envelope) => if !self.accepts() {
                self
            } else if self.full() {
                (InboxView { cursor: (self.cursor + 1) as u64, slots: self.slots.drop_first(), ..self }).queued(
                    envelope,
                )
            } else {
                self.queued(envelope)
            },
            InboxCall::Ack => InboxView {
                cursor: (self.cursor + 1) as u64,
                slots: if self.slots.len() > 0 && self.slots[0].0 == self.cursor {
                    self.slots.drop_first()
                } else {
                    self.slots
                },
                ..self
            },
            InboxCall::Claim(n) => InboxView {
                slots: claimed(self.slots, claim_count(self.slots, self.cursor as int, n)),
                ..self
            },
            InboxCall::Restore(batch) => InboxView { slots: restored(self.slots, batch), ..self },
            InboxCall::Commit(offset) => InboxView {
                cursor: (offset + 1) as u64,
                slots: self.slots.skip(through(self.slots, offset) as int),
                ..self
            },
            InboxCall::Drain => InboxView { slots: Seq::empty(), ..self },
            InboxCall::DrainLive => InboxView { slots: tombstones(self.slots), ..self },
            InboxCall::Close => InboxView { open: false, ..self },
            InboxCall::Reopen => InboxView { open: true, ..self },
        }
    }
}

/// A call that changes an inbox.
pub enum InboxCall {
    /// A push of an envelope.
    Push(Envelope),
    /// An ack of the entry at the cursor.
    Ack,
    /// A claim of up to this many entries.
    Claim(nat),
    /// A restore of claimed entries.
    Restore(Seq<(InboxOffset, Envelope)>),
    /// A commit through an offset.
    Commit(u64),
    /// A drain of every entry.
    Drain,
    /// A drain of the live entries.
    DrainLive,
    /// A close.
    Close,
    /// A reopening.
    Reopen,
}

/// The inbox after a history of calls.
pub open spec fn lived(start: InboxView, calls: Seq<InboxCall>) -> InboxView
    decreases calls.len(),
{
    if calls.len() == 0 {
        start
    } else {
        lived(start, calls.drop_last()).after(calls.last())
    }
}

/// How many pushes of a history queued their envelope.
pub open spec fn accepted(start: InboxView, calls: Seq<InboxCall>) -> nat
    decreases calls.len(),
{
    if calls.len() == 0 {
        0
    } else {
        accepted(start, calls.drop_last()) + if calls.last() is Push && lived(start, calls.drop_last()).accepts() {
            1nat
        } else {
            0nat
        }
    }
}

/// How many slots from the front continue the offsets from `cursor` without a
/// gap.
pub open spec fn run_length(slots: Seq<Slot>, cursor: int) -> nat
    decreases slots.len(),
{
    if slots.len() == 0 || slots[0].0 != cursor {
        0
    } else {
        1 + run_length(slots.drop_first(), cursor + 1)
    }
}

/// How many slots a claim of up to `n` takes.
pub open spec fn claim_count(slots: Seq<Slot>, cursor: int, n: nat) -> nat {
    if run_length(slots, cursor) < n {
        run_length(slots, cursor)
    } else {
        n
    }
}

/// The slots with the first `k` turned into tombstones.
pub open spec fn claimed(slots: Seq<Slot>, k: nat) -> Seq<Slot> {
    Seq::new(
        slots.len(),
        |i: int|
            if i < k {
                (slots[i].0, None)
            } else {
                slots[i]
            },
    )
}

/// Whether `batch` holds exactly the envelopes of the first `k` slots, in
/// order.
pub open spec fn holds_claims(batch: Seq<(InboxOffset, Envelope)>, slots: Seq<Slot>, k: nat) -> bool {
    &&& batch.len() == k <= slots.len()
    &&& forall|i: int|
        0 <= i < k ==> (#[trigger] batch[i]).0@ == slots[i].0 && slots[i].1 == Some(batch[i].1)
}

/// The envelope a batch holds for an offset.
pub open spec fn claim_for(batch: Seq<(InboxOffset, Envelope)>, offset: u64) -> Option<Envelope>
    decreases batch.len(),
{
    if batch.len() == 0 {
        None
    } else if batch.last().0@ == offset {
        Some(batch.last().1)
    } else {
        claim_for(batch.drop_last(), offset)
    }
}

/// The slots with every envelope of a batch back in the slot of its offset.
pub open spec fn restored(slots: Seq<Slot>, batch: Seq<(InboxOffset, Envelope)>) -> Seq<Slot> {
    Seq::new(
        slots.len(),
        |i: int|
            match claim_for(batch, slots[i].0) {
                Some(envelope) => (slots[i].0, Some(envelope)),
                None => slots[i],
            },
    )
}

/// Whether every offset of a batch is a queued tombstone, each named once.
pub open spec fn restorable(slots: Seq<Slot>, batch: Seq<(InboxOffset, Envelope)>) -> bool {
    &&& forall|k: int|
        0 <= k < batch.len() ==> exists|i: int|
            0 <= i < slots.len() && #[trigger] slots[i] == ((#[trigger] batch[k]).0@, None::<Envelope>)
    &&& forall|k: int, l: int|
        0 <= k < l < batch.len() ==> (#[trigger] batch[k]).0@ != (#[trigger] batch[l]).0@
}

/// How many slots at the front lie at or before an offset.
pub open spec fn through(slots: Seq<Slot>, offset: u64) -> nat
    decreases slots.len(),
{
    if slots.len() == 0 || slots[0].0 > offset {
        0
    } else {
        1 + through(slots.drop_first(), offset)
    }
}

/// The envelopes still in their slots, in order.
pub open spec fn live(slots: Seq<Slot>) -> Seq<Envelope>
    decreases slots.len(),
{
    if slots.len() == 0 {
        Seq::empty()
    } else {
        match slots.last().1 {
            Some(envelope) => live(slots.drop_last()).push(envelope),
            None => live(slots.drop_last()),
        }
    }
}

/// The tombstones, in order.
pub open spec fn tombstones(slots: Seq<Slot>) -> Seq<Slot>
    decreases slots.len(),
{
    if slots.len() == 0 {
        Seq::empty()
    } else {
        match slots.last().1 {
            Some(_) => tombstones(slots.drop_last()),
            None => tombstones(slots.drop_last()).push(slots.last()),
        }
    }
}

/// A bounded FIFO inbox holding envelopes under a monotonic offset space.
///
/// A claim moves envelopes out of their slots and leaves tombstones. A
/// tombstone counts toward capacity and holds its offset until a commit pops
/// it or a restore puts its envelope back.
pub struct Inbox {
    capacity: usize,
    policy: OverloadPolicy,
    next_offset: u64,
    cursor: u64,
    queue: VecDeque<Slot>,
    open: bool,
}

impl View for Inbox {
    type V = InboxView;

    closed spec fn view(&self) -> InboxView {
        InboxView {
            capacity: self.capacity as nat,
            policy: self.policy,
            next_offset: self.next_offset,
            cursor: self.cursor,
            slots: self.queue@,
            open: self.open,
        }
    }
}

impl Inbox {
    /// Creates an inbox with a capacity, at least one, and an overload policy.
    pub fn new(capacity: usize, policy: OverloadPolicy) -> (inbox: Self)
        ensures
            inbox@ == InboxView::created(capacity, policy),
            inbox@.wf(),
    {
        Inbox {
            capacity: if capacity == 0 {
                1
            } else {
                capacity
            },
            policy,
            next_offset: 0,
            cursor: 0,
            queue: VecDeque::new(),
            open: true,
        }
    }

    /// Attempts to queue an envelope, applying the overload policy.
    ///
    /// A closed inbox refuses. A full one refuses under `Block` and `DropNew`,
    /// and evicts its oldest envelope under `DropOld`; `Unbounded` is never
    /// full. The offset of a queued envelope is the write head, which moves
    /// on.
    pub fn push(&mut self, envelope: Envelope) -> (result: Result<InboxOffset, Refused>)
        requires
            old(self)@.wf(),
            old(self)@.next_offset < u64::MAX,
            old(self)@.open && old(self)@.full() && old(self)@.policy == OverloadPolicy::DropOld
                ==> old(self)@.slots[0].1 is Some,
        ensures
            final(self)@.wf(),
            final(self)@ == old(self)@.after(InboxCall::Push(envelope)),
            match result {
                Err(Refused::Closed(back)) => {
                    &&& !old(self)@.open
                    &&& back == envelope
                    &&& final(self)@ == old(self)@
                },
                Err(Refused::Full(back)) => {
                    &&& old(self)@.open
                    &&& old(self)@.full()
                    &&& old(self)@.policy != OverloadPolicy::DropOld
                    &&& back == envelope
                    &&& final(self)@ == old(self)@
                },
                Err(Refused::Evicted(oldest)) => {
                    &&& old(self)@.open
                    &&& old(self)@.full()
                    &&& old(self)@.policy == OverloadPolicy::DropOld
                    &&& old(self)@.slots[0].1 == Some(oldest)
                    &&& final(self)@ == (InboxView {
                        cursor: (old(self)@.cursor + 1) as u64,
                        slots: old(self)@.slots.drop_first(),
                        ..old(self)@
                    }).queued(envelope)
                },
                Ok(offset) => {
                    &&& old(self)@.open
                    &&& !old(self)@.full()
                    &&& offset@ == old(self)@.next_offset
                    &&& final(self)@ == old(self)@.queued(envelope)
                },
            },
    {
        if !self.open {
            return Err(Refused::Closed(envelope));
        }
        if self.policy == OverloadPolicy::Unbounded {
            self.queue_next(envelope);
            return Ok(InboxOffset::new(self.next_offset - 1));
        }
        if self.queue.len() >= self.capacity {
            match self.policy {
                OverloadPolicy::DropOld => {
                    let ghost before = self@;
                    if let Some((_, Some(evicted))) = self.queue.pop_front() {
                        assert(self@.slots =~= before.slots.drop_first());
                        assert(before.slots[0].0 < self.next_offset);
                        self.cursor = self.cursor + 1;
                        self.queue_next(envelope);
                        return Err(Refused::Evicted(evicted));
                    }
                    assert(false);
                },
                _ => {
                    return Err(Refused::Full(envelope));
                },
            }
        }
        self.queue_next(envelope);
        Ok(InboxOffset::new(self.next_offset - 1))
    }

    /// Assigns the next offset and queues the envelope.
    fn queue_next(&mut self, envelope: Envelope)
        requires
            old(self)@.next_offset < u64::MAX,
            old(self)@.wf(),
            !old(self)@.full(),
        ensures
            final(self)@ == old(self)@.queued(envelope),
            final(self)@.wf(),
    {
        let offset: u64 = self.next_offset;
        self.next_offset = self.next_offset + 1;
        self.queue.push_back((offset, Some(envelope)));
    }

    /// Closes the inbox: no new deliveries, existing entries stay readable.
    pub fn close(&mut self)
        ensures
            final(self)@ == old(self)@.after(InboxCall::Close),
    {
        self.open = false;
    }

    /// Reopens a closed inbox: redelivery resumes from the cursor.
    pub fn reopen(&mut self)
        ensures
            final(self)@ == old(self)@.after(InboxCall::Reopen),
    {
        self.open = true;
    }

    /// Whether the inbox accepts new deliveries.
    pub fn is_open(&self) -> (r: bool)
        ensures
            r == self@.open,
    {
        self.open
    }

    /// The cursor: the offset of the next entry the runtime will see.
    pub fn cursor(&self) -> (offset: InboxOffset)
        ensures
            offset@ == self@.cursor,
    {
        InboxOffset::new(self.cursor)
    }

    /// The inbox's overload policy.
    pub fn policy(&self) -> (policy: OverloadPolicy)
        ensures
            policy == self@.policy,
    {
        self.policy
    }

    /// The number of occupied slots, claims in flight included.
    pub fn len(&self) -> (n: usize)
        ensures
            n == self@.slots.len(),
    {
        self.queue.len()
    }

    /// Whether no slot is occupied.
    pub fn is_empty(&self) -> (r: bool)
        ensures
            r == (self@.slots.len() == 0),
    {
        self.queue.len() == 0
    }

    /// Peeks the envelope at the cursor, if one is ready.
    pub fn peek(&self) -> (envelope: Option<&Envelope>)
        requires
            self@.slots.len() > 0 && self@.slots[0].0 == self@.cursor ==> self@.slots[0].1 is Some,
        ensures
            match envelope {
                Some(envelope) => self@.slots.len() > 0 && self@.slots[0] == (
                    self@.cursor,
                    Some(*envelope),
                ),
                None => self@.slots.len() == 0 || self@.slots[0].0 != self@.cursor,
            },
    {
        if self.queue.len() == 0 {
            return None;
        }
        let front = &self.queue[0];
        if front.0 == self.cursor {
            front.1.as_ref()
        } else {
            None
        }
    }

    /// Acks the entry at the cursor, advancing it. Where the entry is gone, the
    /// cursor just advances past the hole.
    pub fn ack(&mut self) -> (offset: InboxOffset)
        requires
            old(self)@.wf(),
            old(self)@.cursor < old(self)@.next_offset,
        ensures
            final(self)@.wf(),
            final(self)@ == old(self)@.after(InboxCall::Ack),
            offset@ == final(self)@.cursor,
    {
        let ghost before = self@;
        if self.queue.len() > 0 && self.queue[0].0 == self.cursor {
            self.queue.pop_front();
            assert(self@.slots =~= before.slots.drop_first());
        }
        self.cursor = self.cursor + 1;
        proof {
            assert forall|i: int| 0 <= i < self@.slots.len() implies self@.cursor <= (
            #[trigger] self@.slots[i]).0 by {
                if before.slots[0].0 == before.cursor {
                    assert(self@.slots[i] == before.slots[i + 1]);
                    assert(before.slots[0].0 < before.slots[i + 1].0);
                } else if i > 0 {
                    assert(before.slots[0].0 < before.slots[i].0);
                }
            }
        }
        InboxOffset::new(self.cursor)
    }

    /// Drains every entry, in order.
    pub fn drain(&mut self) -> (drained: Vec<(InboxOffset, Envelope)>)
        requires
            old(self)@.wf(),
            forall|i: int| 0 <= i < old(self)@.slots.len() ==> (#[trigger] old(self)@.slots[i]).1 is Some,
        ensures
            final(self)@.wf(),
            final(self)@ == old(self)@.after(InboxCall::Drain),
            holds_claims(drained@, old(self)@.slots, old(self)@.slots.len()),
    {
        let ghost before = self@;
        let mut drained: Vec<(InboxOffset, Envelope)> = Vec::new();
        assert(before.slots.skip(0) =~= before.slots);
        while self.queue.len() > 0
            invariant
                drained.len() <= before.slots.len(),
                self@ == (InboxView { slots: before.slots.skip(drained.len() as int), ..before }),
                forall|i: int| 0 <= i < before.slots.len() ==> (#[trigger] before.slots[i]).1 is Some,
                forall|i: int|
                    0 <= i < drained.len() ==> (#[trigger] drained@[i]).0@ == before.slots[i].0 && before.slots[i].1
                        == Some(drained@[i].1),
            decreases self.queue.len(),
        {
            let ghost k = drained.len() as int;
            assert(self@.slots[0] == before.slots[k]);
            if let Some((offset, Some(envelope))) = self.queue.pop_front() {
                drained.push((InboxOffset::new(offset), envelope));
            }
            assert(before.slots.skip(k).drop_first() =~= before.slots.skip(k + 1));
            assert(self@.slots =~= before.slots.skip(k + 1));
        }
        assert(self@.slots =~= Seq::empty());
        drained
    }

    /// Drains every live entry and keeps the tombstones in order: their
    /// envelopes are owned by steps in flight.
    pub fn drain_live(&mut self) -> (drained: Vec<Envelope>)
        requires
            old(self)@.wf(),
        ensures
            final(self)@.wf(),
            final(self)@ == old(self)@.after(InboxCall::DrainLive),
            drained@ == live(old(self)@.slots),
    {
        let ghost before = self@;
        let mut drained: Vec<Envelope> = Vec::new();
        let mut keep: VecDeque<Slot> = VecDeque::new();
        let ghost mut k: int = 0;
        assert(before.slots.skip(0) =~= before.slots);
        assert(before.slots.take(0) =~= Seq::empty());
        while self.queue.len() > 0
            invariant
                0 <= k <= before.slots.len(),
                self@ == (InboxView { slots: before.slots.skip(k), ..before }),
                drained@ == live(before.slots.take(k)),
                keep@ == tombstones(before.slots.take(k)),
            decreases self.queue.len(),
        {
            assert(self@.slots[0] == before.slots[k]);
            assert(before.slots.take(k + 1).drop_last() =~= before.slots.take(k));
            if let Some((offset, slot)) = self.queue.pop_front() {
                match slot {
                    Some(envelope) => drained.push(envelope),
                    None => keep.push_back((offset, None)),
                }
            }
            assert(before.slots.skip(k).drop_first() =~= before.slots.skip(k + 1));
            assert(self@.slots =~= before.slots.skip(k + 1));
            proof {
                k = k + 1;
            }
        }
        assert(before.slots.take(k) =~= before.slots);
        proof {
            lemma_tombstones(before.slots);
        }
        self.queue = keep;
        assert(self@.wf()) by {
            let ts = tombstones(before.slots);
            assert forall|i: int, j: int| 0 <= i < j < ts.len() implies (#[trigger] ts[i]).0 < (
            #[trigger] ts[j]).0 by {
                lemma_tombstones_ascend(before.slots, i, j);
            }
        }
        drained
    }
}

/// Every tombstone kept is one of the slots.
proof fn lemma_tombstones(slots: Seq<Slot>)
    ensures
        tombstones(slots).len() <= slots.len(),
        forall|i: int|
            0 <= i < tombstones(slots).len() ==> slots.contains(#[trigger] tombstones(slots)[i])
                && tombstones(slots)[i].1 is None,
    decreases slots.len(),
{
    if slots.len() > 0 {
        let rest = slots.drop_last();
        lemma_tombstones(rest);
        assert forall|i: int| 0 <= i < tombstones(slots).len() implies slots.contains(
            #[trigger] tombstones(slots)[i],
        ) && tombstones(slots)[i].1 is None by {
            if i < tombstones(rest).len() {
                assert(rest.contains(tombstones(rest)[i]));
                let at = choose|at: int| 0 <= at < rest.len() && rest[at] == tombstones(rest)[i];
                assert(slots[at] == tombstones(slots)[i]);
            } else {
                assert(slots[slots.len() - 1] == tombstones(slots)[i]);
            }
        }
    }
}

/// The tombstones of ascending slots ascend.
proof fn lemma_tombstones_ascend(slots: Seq<Slot>, i: int, j: int)
    requires
        forall|a: int, b: int|
            0 <= a < b < slots.len() ==> (#[trigger] slots[a]).0 < (#[trigger] slots[b]).0,
        0 <= i < j < tombstones(slots).len(),
    ensures
        tombstones(slots)[i].0 < tombstones(slots)[j].0,
    decreases slots.len(),
{
    if slots.len() > 0 {
        let rest = slots.drop_last();
        lemma_tombstones(rest);
        if j < tombstones(rest).len() {
            lemma_tombstones_ascend(rest, i, j);
        } else {
            assert(rest.contains(tombstones(rest)[i]));
            let at = choose|at: int| 0 <= at < rest.len() && rest[at] == tombstones(rest)[i];
            assert(slots[at].0 < slots[slots.len() - 1].0);
        }
    }
}

impl Inbox {
    /// Puts a slot in place of the one at `i`.
    fn replace_slot(&mut self, i: usize, slot: Option<Envelope>) -> (taken: Option<Envelope>)
        requires
            i < old(self)@.slots.len(),
        ensures
            final(self)@ == (InboxView {
                slots: old(self)@.slots.update(i as int, (old(self)@.slots[i as int].0, slot)),
                ..old(self)@
            }),
            taken == old(self)@.slots[i as int].1,
    {
        let ghost before = self@;
        match self.queue.remove(i) {
            Some((offset, taken)) => {
                self.queue.insert(i, (offset, slot));
                assert(self@.slots =~= before.slots.update(i as int, (before.slots[i as int].0, slot)));
                taken
            },
            None => None,
        }
    }

    /// Claims up to `n` entries from the cursor, oldest first, without moving
    /// the cursor: each claimed envelope moves into `batch` and leaves a
    /// tombstone. The claim stops at a gap in the offsets.
    pub fn claim_up_to(&mut self, n: usize, batch: &mut Vec<(InboxOffset, Envelope)>) -> (count: usize)
        requires
            old(self)@.wf(),
            forall|i: int|
                0 <= i < claim_count(old(self)@.slots, old(self)@.cursor as int, n as nat) ==> (
                #[trigger] old(self)@.slots[i]).1 is Some,
        ensures
            final(self)@.wf(),
            count == claim_count(old(self)@.slots, old(self)@.cursor as int, n as nat),
            final(self)@ == old(self)@.after(InboxCall::Claim(n as nat)),
            final(batch)@.len() == old(batch)@.len() + count,
            final(batch)@.take(old(batch)@.len() as int) == old(batch)@,
            holds_claims(final(batch)@.skip(old(batch)@.len() as int), old(self)@.slots, count as nat),
    {
        let ghost before = self@;
        let ghost held = batch@;
        let ghost cursor = before.cursor as int;
        let mut count: usize = 0;
        proof {
            assert(before.slots.skip(0) =~= before.slots);
            assert(claimed(before.slots, 0) =~= before.slots);
            assert(batch@.take(held.len() as int) =~= held);
        }
        while count < n && count < self.queue.len() && self.queue[count].0 - self.cursor == count as u64
            invariant
                before.wf(),
                cursor == before.cursor,
                count <= n,
                count <= before.slots.len(),
                run_length(before.slots, cursor) == count + run_length(
                    before.slots.skip(count as int),
                    cursor + count,
                ),
                self@ == (InboxView { slots: claimed(before.slots, count as nat), ..before }),
                forall|i: int|
                    0 <= i < claim_count(before.slots, cursor, n as nat) ==> (#[trigger] before.slots[i]).1 is Some,
                batch@.len() == held.len() + count,
                batch@.take(held.len() as int) == held,
                forall|i: int|
                    0 <= i < count ==> (#[trigger] batch@[held.len() + i]).0@ == before.slots[i].0
                        && before.slots[i].1 == Some(batch@[held.len() + i].1),
            decreases n - count,
        {
            let ghost k = count as int;
            let ghost tail = before.slots.skip(k);
            assert(tail[0] == before.slots[k]);
            assert(self@.slots[k] == before.slots[k]);
            assert(tail.drop_first() =~= before.slots.skip(k + 1));
            assert(before.slots[k].1 is Some);
            let offset: u64 = self.queue[count].0;
            if let Some(envelope) = self.replace_slot(count, None) {
                batch.push((InboxOffset::new(offset), envelope));
            }
            assert(self@.slots =~= claimed(before.slots, (k + 1) as nat));
            assert(batch@.take(held.len() as int) =~= held);
            count += 1;
        }
        proof {
            let tail = before.slots.skip(count as int);
            if count < n {
                if count < before.slots.len() {
                    assert(tail[0] == before.slots[count as int]);
                    assert(self@.slots[count as int] == before.slots[count as int]);
                }
                assert(run_length(tail, cursor + count) == 0);
            }
            let taken = batch@.skip(held.len() as int);
            assert forall|i: int| 0 <= i < count implies (#[trigger] taken[i]).0@ == before.slots[i].0
                && before.slots[i].1 == Some(taken[i].1) by {
                assert(taken[i] == batch@[held.len() + i]);
            }
        }
        count
    }

    /// Copies up to `n` entries from the cursor, oldest first. Nothing is
    /// removed; the copy stops at a gap in the offsets.
    pub fn peek_up_to(&self, n: usize) -> (batch: Vec<(InboxOffset, Envelope)>)
        requires
            self@.wf(),
            forall|i: int|
                0 <= i < claim_count(self@.slots, self@.cursor as int, n as nat) ==> (
                #[trigger] self@.slots[i]).1 is Some,
        ensures
            holds_claims(batch@, self@.slots, claim_count(self@.slots, self@.cursor as int, n as nat)),
    {
        let ghost slots = self@.slots;
        let ghost cursor = self@.cursor as int;
        let mut batch: Vec<(InboxOffset, Envelope)> = Vec::new();
        let mut count: usize = 0;
        assert(slots.skip(0) =~= slots);
        while count < n && count < self.queue.len() && self.queue[count].0 - self.cursor == count as u64
            invariant
                self@.wf(),
                slots == self@.slots,
                cursor == self@.cursor,
                count <= n,
                count <= slots.len(),
                run_length(slots, cursor) == count + run_length(slots.skip(count as int), cursor + count),
                forall|i: int|
                    0 <= i < claim_count(slots, cursor, n as nat) ==> (#[trigger] slots[i]).1 is Some,
                batch@.len() == count,
                forall|i: int|
                    0 <= i < count ==> (#[trigger] batch@[i]).0@ == slots[i].0 && slots[i].1 == Some(batch@[i].1),
            decreases n - count,
        {
            let ghost k = count as int;
            let ghost tail = slots.skip(k);
            assert(tail[0] == slots[k]);
            assert(tail.drop_first() =~= slots.skip(k + 1));
            assert(slots[k].1 is Some);
            let slot = &self.queue[count];
            if let Some(envelope) = &slot.1 {
                batch.push((InboxOffset::new(slot.0), envelope.clone()));
            }
            count += 1;
        }
        proof {
            let tail = slots.skip(count as int);
            if count < n {
                if count < slots.len() {
                    assert(tail[0] == slots[count as int]);
                }
                assert(run_length(tail, cursor + count) == 0);
            }
        }
        batch
    }

    /// Restores claimed envelopes into their own slots. Returns whether any
    /// slot was restored.
    pub fn restore_claims(&mut self, batch: Vec<(InboxOffset, Envelope)>) -> (any: bool)
        requires
            old(self)@.wf(),
            restorable(old(self)@.slots, batch@),
        ensures
            final(self)@.wf(),
            final(self)@ == old(self)@.after(InboxCall::Restore(batch@)),
            any == (batch@.len() > 0),
    {
        let ghost before = self@;
        let ghost all = batch@;
        let any = batch.len() > 0;
        let mut rest = batch;
        proof {
            assert(restored(before.slots, all.skip(all.len() as int)) =~= before.slots);
        }
        while rest.len() > 0
            invariant
                before.wf(),
                restorable(before.slots, all),
                rest@.len() <= all.len(),
                rest@ == all.take(rest@.len() as int),
                self@ == (InboxView {
                    slots: restored(before.slots, all.skip(rest@.len() as int)),
                    ..before
                }),
            decreases rest.len(),
        {
            let ghost k = rest@.len() - 1;
            let ghost done = all.skip(k + 1);
            assert(all[k] == rest@[k]);
            if let Some((offset, envelope)) = rest.pop() {
                let ghost at = choose|i: int|
                    0 <= i < before.slots.len() && #[trigger] before.slots[i] == (all[k].0@, None::<Envelope>);
                let wanted: u64 = offset.as_u64();
                let mut i: usize = 0;
                while i < self.queue.len() && self.queue[i].0 != wanted
                    invariant
                        self@.slots.len() == before.slots.len(),
                        self@.slots == restored(before.slots, done),
                        0 <= at < before.slots.len(),
                        before.slots[at].0 == wanted,
                        i <= at,
                        forall|j: int| 0 <= j < i ==> (#[trigger] self@.slots[j]).0 != wanted,
                    decreases self.queue.len() - i,
                {
                    i += 1;
                }
                assert(self@.slots[at].0 == wanted);
                assert(i <= at);
                let ghost midway = self@;
                let _taken = self.replace_slot(i, Some(envelope));
                proof {
                    lemma_restore_step(before.slots, all, k, i as int);
                    assert(self@.slots =~= restored(before.slots, all.skip(k)));
                }
            }
            assert(rest@ =~= all.take(k));
        }
        assert(all.skip(0) =~= all);
        any
    }

    /// Advances the cursor past `offset`, popping every slot at or before it.
    /// Returns whether any slot was popped.
    pub fn commit_through(&mut self, offset: InboxOffset) -> (popped: bool)
        requires
            old(self)@.wf(),
            offset@ < old(self)@.next_offset,
        ensures
            final(self)@.wf(),
            final(self)@ == old(self)@.after(InboxCall::Commit(offset@)),
            popped == (through(old(self)@.slots, offset@) > 0),
    {
        let ghost before = self@;
        let offset: u64 = offset.as_u64();
        let mut popped = false;
        let ghost mut k: int = 0;
        assert(before.slots.skip(0) =~= before.slots);
        while self.queue.len() > 0 && self.queue[0].0 <= offset
            invariant
                0 <= k <= before.slots.len(),
                self@ == (InboxView { slots: before.slots.skip(k), ..before }),
                through(before.slots, offset) == k + through(before.slots.skip(k), offset),
                popped == (k > 0),
            decreases self.queue.len(),
        {
            let ghost tail = before.slots.skip(k);
            assert(tail.drop_first() =~= before.slots.skip(k + 1));
            self.queue.pop_front();
            popped = true;
            assert(self@.slots =~= before.slots.skip(k + 1));
            proof {
                k = k + 1;
            }
        }
        self.cursor = offset + 1;
        proof {
            assert(through(before.slots.skip(k), offset) == 0);
            assert forall|i: int| 0 <= i < self@.slots.len() implies self@.cursor <= (
            #[trigger] self@.slots[i]).0 by {
                assert(self@.slots[i] == before.slots[k + i]);
                if i > 0 {
                    assert(before.slots[k].0 < before.slots[k + i].0);
                }
            }
        }
        popped
    }
}

/// Restoring one more claim updates the slot of its offset and no other.
proof fn lemma_restore_step(slots: Seq<Slot>, batch: Seq<(InboxOffset, Envelope)>, k: int, at: int)
    requires
        restorable(slots, batch),
        0 <= k < batch.len(),
        0 <= at < slots.len(),
        slots[at].0 == batch[k].0@,
        forall|i: int, j: int|
            0 <= i < j < slots.len() ==> (#[trigger] slots[i]).0 < (#[trigger] slots[j]).0,
    ensures
        restored(slots, batch.skip(k)) == restored(slots, batch.skip(k + 1)).update(
            at,
            (slots[at].0, Some(batch[k].1)),
        ),
{
    let more = batch.skip(k);
    let done = batch.skip(k + 1);
    assert forall|i: int| 0 <= i < slots.len() implies #[trigger] restored(slots, more)[i] == restored(
        slots,
        done,
    ).update(at, (slots[at].0, Some(batch[k].1)))[i] by {
        lemma_claim_for_first(batch, k, slots[i].0);
        if i != at {
            if i < at {
                assert(slots[i].0 < slots[at].0);
            } else {
                assert(slots[at].0 < slots[i].0);
            }
        } else {
            lemma_claim_for_absent(done, batch[k].0@);
        }
    }
    assert(restored(slots, more) =~= restored(slots, done).update(at, (slots[at].0, Some(batch[k].1))));
}

/// A batch holds nothing for an offset that none of its claims has.
proof fn lemma_claim_for_absent(batch: Seq<(InboxOffset, Envelope)>, offset: u64)
    requires
        forall|k: int| 0 <= k < batch.len() ==> (#[trigger] batch[k]).0@ != offset,
    ensures
        claim_for(batch, offset) is None,
    decreases batch.len(),
{
    if batch.len() > 0 {
        assert(batch.last() == batch[batch.len() - 1]);
        assert forall|k: int| 0 <= k < batch.drop_last().len() implies (#[trigger] batch.drop_last()[k]).0@
            != offset by {
            assert(batch.drop_last()[k] == batch[k]);
        }
        lemma_claim_for_absent(batch.drop_last(), offset);
    }
}

/// What a batch's tail holds, with its first claim considered last.
proof fn lemma_claim_for_first(batch: Seq<(InboxOffset, Envelope)>, k: int, offset: u64)
    requires
        0 <= k < batch.len(),
    ensures
        claim_for(batch.skip(k), offset) == match claim_for(batch.skip(k + 1), offset) {
            Some(envelope) => Some(envelope),
            None => if batch[k].0@ == offset {
                Some(batch[k].1)
            } else {
                None
            },
        },
    decreases batch.len() - k,
{
    let tail = batch.skip(k);
    let rest = batch.skip(k + 1);
    if rest.len() == 0 {
        assert(tail.drop_last() =~= Seq::empty());
        assert(claim_for(tail.drop_last(), offset) is None);
        assert(tail.last() == batch[k]);
    } else {
        assert(tail.last() == batch.last() && rest.last() == batch.last());
        let shorter = batch.drop_last();
        assert(tail.drop_last() =~= shorter.skip(k));
        assert(rest.drop_last() =~= shorter.skip(k + 1));
        lemma_claim_for_first(shorter, k, offset);
    }
}

/// Restoring a claim undoes it, and envelopes queued in between stay behind the
/// restored ones: nothing changes position, nothing is lost.
pub proof fn law_restore_undoes_claim(
    slots: Seq<Slot>,
    k: nat,
    batch: Seq<(InboxOffset, Envelope)>,
    pushed: Seq<Slot>,
)
    requires
        holds_claims(batch, slots, k),
        forall|i: int, j: int|
            0 <= i < j < (slots + pushed).len() ==> (#[trigger] (slots + pushed)[i]).0 < (
            #[trigger] (slots + pushed)[j]).0,
    ensures
        restorable(claimed(slots, k) + pushed, batch),
        restored(claimed(slots, k) + pushed, batch) == slots + pushed,
{
    let all = slots + pushed;
    let out = claimed(slots, k) + pushed;
    assert forall|b: int| 0 <= b < batch.len() implies exists|i: int|
        0 <= i < out.len() && #[trigger] out[i] == ((#[trigger] batch[b]).0@, None::<Envelope>) by {
        assert(out[b] == (batch[b].0@, None::<Envelope>));
    }
    assert forall|b: int, c: int| 0 <= b < c < batch.len() implies (#[trigger] batch[b]).0@ != (
    #[trigger] batch[c]).0@ by {
        assert(all[b] == slots[b] && all[c] == slots[c]);
    }
    assert forall|i: int| 0 <= i < all.len() implies #[trigger] restored(out, batch)[i] == all[i] by {
        if i < k {
            assert(all[i] == slots[i]);
            assert(batch[i].0@ == slots[i].0);
            lemma_claim_for_present(batch, i);
        } else {
            assert(out[i] == all[i]);
            assert forall|b: int| 0 <= b < batch.len() implies (#[trigger] batch[b]).0@ != all[i].0 by {
                assert(all[b] == slots[b]);
                assert(all[b].0 < all[i].0);
            }
            lemma_claim_for_absent(batch, all[i].0);
        }
    }
    assert(restored(out, batch) =~= all);
}

/// A batch of distinct offsets holds each of its claims.
proof fn lemma_claim_for_present(batch: Seq<(InboxOffset, Envelope)>, i: int)
    requires
        0 <= i < batch.len(),
        forall|b: int, c: int|
            0 <= b < c < batch.len() ==> (#[trigger] batch[b]).0@ != (#[trigger] batch[c]).0@,
    ensures
        claim_for(batch, batch[i].0@) == Some(batch[i].1),
    decreases batch.len(),
{
    let last = batch.len() - 1;
    if i < last {
        assert(batch[i].0@ != batch[last].0@);
        let rest = batch.drop_last();
        assert forall|b: int, c: int| 0 <= b < c < rest.len() implies (#[trigger] rest[b]).0@ != (
        #[trigger] rest[c]).0@ by {
            assert(rest[b] == batch[b] && rest[c] == batch[c]);
        }
        lemma_claim_for_present(rest, i);
    }
}

/// Committing keeps exactly the slots after the offset, whatever their state.
pub proof fn law_commit_keeps_later(slots: Seq<Slot>, offset: u64)
    requires
        forall|i: int, j: int|
            0 <= i < j < slots.len() ==> (#[trigger] slots[i]).0 < (#[trigger] slots[j]).0,
    ensures
        through(slots, offset) <= slots.len(),
        forall|i: int|
            0 <= i < slots.len() ==> ((#[trigger] slots[i]).0 <= offset <==> i < through(slots, offset)),
    decreases slots.len(),
{
    if slots.len() > 0 {
        let rest = slots.drop_first();
        assert forall|i: int, j: int| 0 <= i < j < rest.len() implies (#[trigger] rest[i]).0 < (
        #[trigger] rest[j]).0 by {
            assert(rest[i] == slots[i + 1] && rest[j] == slots[j + 1]);
        }
        law_commit_keeps_later(rest, offset);
        assert forall|i: int| 0 <= i < slots.len() implies ((#[trigger] slots[i]).0 <= offset <==> i < through(
            slots,
            offset,
        )) by {
            if i > 0 {
                assert(slots[0].0 < slots[i].0);
                assert(rest[i - 1] == slots[i]);
            }
        }
    }
}

/// A claim of the whole gapless run followed by a commit of its last offset
/// leaves the inbox as acking each entry in turn would: the slots gone, the
/// cursor past them.
pub proof fn law_commit_after_claim(inbox: InboxView, k: nat)
    requires
        inbox.wf(),
        0 < k <= run_length(inbox.slots, inbox.cursor as int),
    ensures
        k <= inbox.slots.len(),
        inbox.slots[k - 1].0 == inbox.cursor + k - 1,
        through(claimed(inbox.slots, k), inbox.slots[k - 1].0) == k,
        claimed(inbox.slots, k).skip(k as int) == inbox.slots.skip(k as int),
{
    lemma_run(inbox.slots, inbox.cursor as int);
    let out = claimed(inbox.slots, k);
    assert forall|i: int, j: int| 0 <= i < j < out.len() implies (#[trigger] out[i]).0 < (
    #[trigger] out[j]).0 by {
        assert(out[i].0 == inbox.slots[i].0 && out[j].0 == inbox.slots[j].0);
    }
    law_commit_keeps_later(out, inbox.slots[k - 1].0);
    let t = through(out, inbox.slots[k - 1].0);
    assert(out[k - 1].0 == inbox.slots[k - 1].0);
    if t > k {
        assert(out[k as int].0 <= inbox.slots[k - 1].0);
        assert(inbox.slots[k - 1].0 < inbox.slots[k as int].0);
    }
    assert(out.skip(k as int) =~= inbox.slots.skip(k as int));
}

/// The run from the cursor holds the cursor's offsets one by one.
proof fn lemma_run(slots: Seq<Slot>, cursor: int)
    ensures
        run_length(slots, cursor) <= slots.len(),
        forall|i: int| 0 <= i < run_length(slots, cursor) ==> (#[trigger] slots[i]).0 == cursor + i,
    decreases slots.len(),
{
    if slots.len() > 0 && slots[0].0 == cursor {
        lemma_run(slots.drop_first(), cursor + 1);
        assert forall|i: int| 0 <= i < run_length(slots, cursor) implies (#[trigger] slots[i]).0 == cursor + i by {
            if i > 0 {
                assert(slots.drop_first()[i - 1] == slots[i]);
            }
        }
    }
}

/// No more slots lie at or before an offset than there are.
pub proof fn lemma_through_within(slots: Seq<Slot>, offset: u64)
    ensures
        through(slots, offset) <= slots.len(),
    decreases slots.len(),
{
    if slots.len() > 0 && slots[0].0 <= offset {
        lemma_through_within(slots.drop_first(), offset);
    }
}

/// Only a push that is accepted moves the write head, by one, and no call
/// changes the capacity or the policy.
pub proof fn law_only_pushes_assign(inbox: InboxView, call: InboxCall)
    requires
        inbox.next_offset < u64::MAX,
    ensures
        inbox.after(call).next_offset == inbox.next_offset + if call is Push && inbox.accepts() {
            1int
        } else {
            0int
        },
        inbox.after(call).capacity == inbox.capacity,
        inbox.after(call).policy == inbox.policy,
{
}

/// Offsets are handed out 0, 1, 2, and so on: after any history of calls the
/// write head, which is the offset that the next accepted push gets, is the
/// number of pushes accepted so far. An offset is never used twice, and a
/// bounded inbox never holds more than its capacity.
pub proof fn law_offsets_count_pushes(capacity: usize, policy: OverloadPolicy, calls: Seq<InboxCall>)
    requires
        calls.len() <= u64::MAX,
    ensures
        lived(InboxView::created(capacity, policy), calls).next_offset == accepted(
            InboxView::created(capacity, policy),
            calls,
        ),
        accepted(InboxView::created(capacity, policy), calls) <= calls.len(),
        lived(InboxView::created(capacity, policy), calls).policy == policy,
        lived(InboxView::created(capacity, policy), calls).capacity == InboxView::created(capacity, policy).capacity,
        policy != OverloadPolicy::Unbounded ==> lived(InboxView::created(capacity, policy), calls).slots.len()
            <= InboxView::created(capacity, policy).capacity,
    decreases calls.len(),
{
    if calls.len() > 0 {
        let before = lived(InboxView::created(capacity, policy), calls.drop_last());
        law_offsets_count_pushes(capacity, policy, calls.drop_last());
        law_only_pushes_assign(before, calls.last());
        match calls.last() {
            InboxCall::Commit(offset) => lemma_through_within(before.slots, offset),
            InboxCall::DrainLive => lemma_tombstones(before.slots),
            _ => {},
        }
    }
}

/// What a push does, by policy. A closed inbox and a full one that blocks or
/// drops what is new stay as they are; a full one that drops what is old loses
/// its oldest entry and nothing else; and wherever the envelope is queued it
/// stands last, under the next offset, with every other entry where it was.
pub proof fn law_push_by_policy(inbox: InboxView, envelope: Envelope)
    requires
        inbox.wf(),
        inbox.next_offset < u64::MAX,
    ensures
        ({
            let after = inbox.after(InboxCall::Push(envelope));
            let room = inbox.policy == OverloadPolicy::Unbounded || inbox.slots.len() < inbox.capacity;
            if !inbox.open || (!room && inbox.policy != OverloadPolicy::DropOld) {
                after == inbox
            } else {
                let gone = if room {
                    0int
                } else {
                    1int
                };
                &&& after.slots.len() == inbox.slots.len() - gone + 1
                &&& after.slots[after.slots.len() - 1] == (inbox.next_offset, Some(envelope))
                &&& forall|i: int|
                    #![trigger after.slots[i]]
                    0 <= i < inbox.slots.len() - gone ==> after.slots[i] == inbox.slots[i + gone]
                &&& after.next_offset == inbox.next_offset + 1
                &&& after.cursor == inbox.cursor + gone
                &&& after.open
            }
        }),
{
}

/// What a claim takes: the entries from the cursor on, one offset after the
/// other, until the number asked for, a gap in the offsets or the end. Those
/// entries are out, every other is untouched, and no offset moves.
pub proof fn law_claim_takes_the_front(inbox: InboxView, n: nat)
    requires
        inbox.wf(),
    ensures
        ({
            let k = claim_count(inbox.slots, inbox.cursor as int, n);
            let after = inbox.after(InboxCall::Claim(n));
            &&& k <= n
            &&& k <= inbox.slots.len()
            &&& forall|i: int| 0 <= i < k ==> (#[trigger] inbox.slots[i]).0 == inbox.cursor + i
            &&& k < n && k < inbox.slots.len() ==> inbox.slots[k as int].0 != inbox.cursor + k
            &&& after.cursor == inbox.cursor
            &&& after.next_offset == inbox.next_offset
            &&& after.open == inbox.open
            &&& after.slots.len() == inbox.slots.len()
            &&& forall|i: int|
                0 <= i < inbox.slots.len() ==> #[trigger] after.slots[i] == if i < k {
                    (inbox.slots[i].0, None)
                } else {
                    inbox.slots[i]
                }
        }),
{
    lemma_run(inbox.slots, inbox.cursor as int);
    lemma_run_ends(inbox.slots, inbox.cursor as int);
}

/// A run of offsets ends at a gap or with the slots.
proof fn lemma_run_ends(slots: Seq<Slot>, cursor: int)
    ensures
        run_length(slots, cursor) < slots.len() ==> slots[run_length(slots, cursor) as int].0 != cursor + run_length(
            slots,
            cursor,
        ),
    decreases slots.len(),
{
    if slots.len() > 0 && slots[0].0 == cursor {
        let rest = slots.drop_first();
        lemma_run_ends(rest, cursor + 1);
        let k = run_length(rest, cursor + 1) as int;
        if k < rest.len() {
            assert(rest[k] == slots[k + 1]);
        }
    }
}

/// A drain of the live entries takes every envelope that is in its slot, in
/// order, and leaves the entries that are out in a claim, in order.
pub proof fn law_drain_takes_what_is_live(slots: Seq<Slot>)
    ensures
        live(slots) == slots.filter_map(|slot: Slot| slot.1),
        tombstones(slots) == slots.filter(|slot: Slot| slot.1 is None),
        live(slots).len() + tombstones(slots).len() == slots.len(),
    decreases slots.len(),
{
    reveal(Seq::filter);
    if slots.len() > 0 {
        law_drain_takes_what_is_live(slots.drop_last());
    }
}

/// What the other calls do: an ack moves the cursor on by one and takes the
/// entry at the cursor, a drain takes every entry, and closing and reopening
/// change nothing but the door.
pub proof fn law_calls_touch_nothing_else(inbox: InboxView)
    requires
        inbox.wf(),
        inbox.cursor < u64::MAX,
    ensures
        inbox.after(InboxCall::Ack).cursor == inbox.cursor + 1,
        inbox.slots.len() > 0 && inbox.slots[0].0 == inbox.cursor ==> inbox.after(InboxCall::Ack).slots
            == inbox.slots.skip(1),
        inbox.slots.len() == 0 || inbox.slots[0].0 != inbox.cursor ==> inbox.after(InboxCall::Ack).slots
            == inbox.slots,
        inbox.after(InboxCall::Ack).open == inbox.open,
        inbox.after(InboxCall::Drain).slots.len() == 0,
        inbox.after(InboxCall::Drain).cursor == inbox.cursor,
        inbox.after(InboxCall::Drain).open == inbox.open,
        inbox.after(InboxCall::DrainLive).cursor == inbox.cursor,
        inbox.after(InboxCall::DrainLive).open == inbox.open,
        !inbox.after(InboxCall::Close).open,
        inbox.after(InboxCall::Reopen).open,
        inbox.after(InboxCall::Close).after(InboxCall::Reopen).slots == inbox.slots,
        inbox.after(InboxCall::Close).after(InboxCall::Reopen).cursor == inbox.cursor,
{
    if inbox.slots.len() > 0 && inbox.slots[0].0 == inbox.cursor {
        assert(inbox.slots.drop_first() =~= inbox.slots.skip(1));
    }
}

/// A commit moves the cursor behind the offset, and keeps every entry behind it
/// and none before.
pub proof fn law_commit_moves_the_cursor(inbox: InboxView, offset: u64)
    requires
        inbox.wf(),
        offset < inbox.next_offset,
    ensures
        ({
            let after = inbox.after(InboxCall::Commit(offset));
            &&& after.cursor == offset + 1
            &&& after.slots == inbox.slots.filter(|slot: Slot| slot.0 > offset)
            &&& after.next_offset == inbox.next_offset
            &&& after.open == inbox.open
        }),
{
    law_commit_keeps_later(inbox.slots, offset);
    let k = through(inbox.slots, offset) as int;
    let keeps = |slot: Slot| slot.0 > offset;
    lemma_filter_suffix(inbox.slots, k, keeps);
}

/// Filtering by what holds of exactly a suffix gives the suffix.
proof fn lemma_filter_suffix(slots: Seq<Slot>, k: int, keeps: spec_fn(Slot) -> bool)
    requires
        0 <= k <= slots.len(),
        forall|i: int| 0 <= i < slots.len() ==> (keeps(#[trigger] slots[i]) <==> i >= k),
    ensures
        slots.filter(keeps) == slots.skip(k),
    decreases slots.len(),
{
    reveal(Seq::filter);
    if slots.len() > 0 {
        let rest = slots.drop_last();
        if k < slots.len() {
            assert forall|i: int| 0 <= i < rest.len() implies (keeps(#[trigger] rest[i]) <==> i >= k) by {
                assert(rest[i] == slots[i]);
            }
            lemma_filter_suffix(rest, k, keeps);
            assert(slots.last() == slots[slots.len() - 1]);
            assert(rest.skip(k).push(slots.last()) =~= slots.skip(k));
        } else {
            assert forall|i: int| 0 <= i < rest.len() implies (keeps(#[trigger] rest[i]) <==> i >= k - 1) by {
                assert(rest[i] == slots[i]);
            }
            lemma_filter_suffix(rest, k - 1, keeps);
            assert(!keeps(slots[slots.len() - 1]));
            assert(rest.skip(k - 1) =~= slots.skip(k));
        }
    } else {
        assert(slots.skip(k) =~= slots);
    }
}

/// An inbox starts open and empty at offset zero, with the capacity it was given,
/// and room for one at least.
pub proof fn law_inbox_starts_empty(capacity: usize, policy: OverloadPolicy)
    ensures
        ({
            let inbox = InboxView::created(capacity, policy);
            &&& inbox.wf()
            &&& inbox.open
            &&& inbox.slots.len() == 0
            &&& inbox.cursor == 0
            &&& inbox.next_offset == 0
            &&& inbox.policy == policy
            &&& capacity > 0 ==> inbox.capacity == capacity
            &&& capacity == 0 ==> inbox.capacity == 1
            &&& inbox.accepts()
        }),
{
}

} // verus!
