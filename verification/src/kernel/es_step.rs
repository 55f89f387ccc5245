//! The atomic step of an event-sourced actor, batched.
//!
//! A batch is copied from the inbox, every message is decided, the declared
//! events are appended as one write, and only then is the batch committed.
//! Nothing is appended until every decision has succeeded, and nothing is
//! committed that is not journaled: a panic or a failed append leaves the
//! inbox as it was.

use vstd::prelude::*;

use crate::actor::ActorPath;
use crate::actor::SnapshotCadence;
use crate::context::Intent;
use crate::context::Outbox;
use crate::envelope::Address;
use crate::envelope::Envelope;
use crate::envelope::Event;
use crate::envelope::Events;
use crate::envelope::RecordedOrigin;
use crate::envelope::TraceCtx;
use crate::inbox::claim_count;
use crate::inbox::holds_claims;
use crate::inbox::law_commit_keeps_later;
use crate::inbox::lemma_through_within;
use crate::inbox::run_length;
use crate::inbox::through;
use crate::inbox::Inbox;
use crate::inbox::InboxOffset;
use crate::inbox::InboxView;
use crate::inbox::Slot;
use crate::journal::has_seq;
use crate::journal::ScannedEvent;
use crate::journal::SeqNo;
use crate::kernel::dead_letter;
use crate::kernel::effects::batch_stops;
use crate::kernel::effects::flush_batch;
use crate::kernel::effects::flushes;
use crate::kernel::effects::law_stop_is_recorded;
use crate::kernel::effects::stops;
use crate::kernel::effects::Flushed;
use crate::kernel::DeadLetter;
use crate::kernel::DeadLetterReason;
use crate::schema::lists;
use crate::schema::names_of;
use crate::schema::SchemaId;

verus! {

/// What one step concluded.
#[derive(Debug, Clone, Copy, PartialEq, Eq, Structural)]
pub enum Step {
    /// A batch was committed or dead-lettered.
    Work,
    /// No message was ready.
    Idle,
    /// The step failed; the state must not be used again.
    Crashed,
    /// The batch committed and a handler asked for the actor's stop.
    Stop,
}

/// The first entry for a schema.
pub open spec fn entry_at(entries: Seq<Seq<char>>, schema: Seq<char>) -> Option<int>
    decreases entries.len(),
{
    if entries.len() == 0 {
        None
    } else if entries[0] == schema {
        Some(0)
    } else {
        match entry_at(entries.drop_first(), schema) {
            Some(i) => Some(i + 1),
            None => None,
        }
    }
}

/// Stepping past entries of other schemas does not change what is found.
proof fn lemma_entry_skip(entries: Seq<Seq<char>>, schema: Seq<char>, i: int)
    requires
        0 <= i <= entries.len(),
        forall|j: int| 0 <= j < i ==> #[trigger] entries[j] != schema,
    ensures
        entry_at(entries, schema) == match entry_at(entries.skip(i), schema) {
            Some(k) => Some(k + i),
            None => None,
        },
    decreases i,
{
    if i == 0 {
        assert(entries.skip(0) =~= entries);
    } else {
        lemma_entry_skip(entries, schema, i - 1);
        let tail = entries.skip(i - 1);
        assert(tail[0] == entries[i - 1]);
        assert(tail.drop_first() =~= entries.skip(i));
    }
}

/// Finds the entry that handles a schema: the first declared for it.
pub fn find_entry(entries: &Vec<SchemaId>, schema: &SchemaId) -> (at: Option<usize>)
    ensures
        match at {
            Some(at) => at < entries@.len() && entry_at(names_of(entries@), schema@) == Some(at as int),
            None => entry_at(names_of(entries@), schema@) is None,
        },
{
    let ghost names = names_of(entries@);
    let mut i: usize = 0;
    while i < entries.len()
        invariant
            names == names_of(entries@),
            i <= entries.len(),
            forall|j: int| 0 <= j < i ==> #[trigger] names[j] != schema@,
        decreases entries.len() - i,
    {
        assert(names[i as int] == entries@[i as int]@);
        if entries[i].same(schema) {
            proof {
                lemma_entry_skip(names, schema@, i as int);
                assert(names.skip(i as int)[0] == names[i as int]);
            }
            return Some(i);
        }
        i += 1;
    }
    proof {
        lemma_entry_skip(names, schema@, i as int);
        assert(names.skip(i as int) =~= Seq::empty());
    }
    None
}

/// What a dispatch of one message came to.
pub enum Decision {
    /// The handler decided: events, and the effects it recorded.
    Decided {
        /// The events, in order.
        events: Events,
        /// The recorded effects.
        outbox: Outbox,
    },
    /// The payload did not decode.
    Undecodable {
        /// What the decoder reported.
        detail: String,
    },
    /// The handler panicked.
    Panicked,
}

/// An event, and the fact-stamp of the message it was decided on.
pub struct DecidedEvent {
    /// The event.
    pub event: Event,
    /// Where the message's fact was recorded, where it is a copy of one.
    pub origin: Option<RecordedOrigin>,
}

impl Clone for DecidedEvent {
    fn clone(&self) -> (decided: Self)
        ensures
            decided == *self,
    {
        DecidedEvent { event: self.event.clone(), origin: copy_stamp(&self.origin) }
    }
}

/// Copies a fact-stamp.
fn copy_stamp(stamp: &Option<RecordedOrigin>) -> (copy: Option<RecordedOrigin>)
    ensures
        copy == *stamp,
{
    match stamp {
        Some(origin) => Some(origin.clone()),
        None => None,
    }
}

/// Events under the stamp of the message they were decided on.
pub open spec fn stamped(events: Seq<Event>, origin: Option<RecordedOrigin>) -> Seq<DecidedEvent> {
    events.map_values(|event: Event| DecidedEvent { event, origin })
}

/// The events without their stamps.
pub open spec fn bare_events(decided: Seq<DecidedEvent>) -> Seq<Event> {
    decided.map_values(|decided: DecidedEvent| decided.event)
}

/// The events without their stamps.
pub fn events_in(decided: &Vec<DecidedEvent>) -> (events: Vec<Event>)
    ensures
        events@ == bare_events(decided@),
{
    let mut events: Vec<Event> = Vec::new();
    let mut i: usize = 0;
    while i < decided.len()
        invariant
            i <= decided.len(),
            events@ == bare_events(decided@).take(i as int),
        decreases decided.len() - i,
    {
        events.push(decided[i].event.clone());
        i += 1;
        assert(bare_events(decided@).take(i as int) =~= bare_events(decided@).take(i - 1).push(
            decided@[i - 1].event,
        ));
    }
    assert(bare_events(decided@).take(i as int) =~= bare_events(decided@));
    events
}

/// Whether the first `k` messages are the longest run at the front of a batch
/// that is all copies of recorded facts, or all other messages.
pub open spec fn leads(batch: Seq<(InboxOffset, Envelope)>, k: int) -> bool {
    &&& 0 <= k <= batch.len()
    &&& batch.len() > 0 ==> k > 0
    &&& forall|i: int|
        0 <= i < k ==> ((#[trigger] batch[i]).1.recorded_origin is Some) == (batch[0].1.recorded_origin is Some)
    &&& k < batch.len() ==> (batch[k].1.recorded_origin is Some) != (batch[0].1.recorded_origin is Some)
}

/// The messages one step takes from the front of a batch. A projector
/// checkpoints copies of recorded facts and records anything else, so its step
/// takes one sort at a time; any other actor takes the whole batch.
pub fn step_run(batch: Vec<(InboxOffset, Envelope)>, is_projector: bool) -> (run: Vec<(InboxOffset, Envelope)>)
    ensures
        is_projector ==> leads(batch@, run@.len() as int) && run@ == batch@.take(run@.len() as int),
        !is_projector ==> run == batch,
{
    let mut batch = batch;
    if !is_projector || batch.len() == 0 {
        assert(batch@.take(batch@.len() as int) =~= batch@);
        return batch;
    }
    let ghost all = batch@;
    let copies: bool = batch[0].1.recorded_origin().is_some();
    let mut k: usize = 1;
    while k < batch.len() && batch[k].1.recorded_origin().is_some() == copies
        invariant
            batch@ == all,
            1 <= k <= all.len(),
            copies == (all[0].1.recorded_origin is Some),
            forall|i: int| 0 <= i < k ==> ((#[trigger] all[i]).1.recorded_origin is Some) == copies,
        decreases batch.len() - k,
    {
        k += 1;
    }
    batch.truncate(k);
    assert(batch@ =~= all.take(k as int));
    batch
}

/// The decide pass over one batch: how far it has come, and what was decided.
pub struct DecidePass {
    batch: Vec<(InboxOffset, Envelope)>,
    entries: Vec<SchemaId>,
    at: usize,
    events: Vec<DecidedEvent>,
    outboxes: Vec<Outbox>,
    letters: Vec<DeadLetter>,
}

/// What a decide pass holds.
#[verifier::ext_equal]
pub struct PassView {
    /// The batch.
    pub batch: Seq<(InboxOffset, Envelope)>,
    /// The schemas the actor has entries for.
    pub entries: Seq<Seq<char>>,
    /// How many messages are done with.
    pub at: nat,
    /// The events decided, in order, each with its message's stamp.
    pub events: Seq<DecidedEvent>,
    /// The effects of each message done with.
    pub outboxes: Seq<Outbox>,
    /// The messages that died.
    pub letters: Seq<DeadLetter>,
}

impl PassView {
    /// Whether every message done with has its effects, and every event the
    /// stamp of a message done with.
    pub open spec fn wf(self) -> bool {
        &&& self.at <= self.batch.len()
        &&& self.outboxes.len() == self.at
        &&& forall|i: int| 0 <= i < self.events.len() ==> self.has_stamp((#[trigger] self.events[i]).origin)
    }

    /// Whether a stamp is that of a message done with.
    pub open spec fn has_stamp(self, origin: Option<RecordedOrigin>) -> bool {
        exists|k: int| 0 <= k < self.at && (#[trigger] self.batch[k]).1.recorded_origin == origin
    }

    /// Whether a message has an entry.
    pub open spec fn known(self, k: int) -> bool {
        entry_at(self.entries, self.batch[k].1.schema@) is Some
    }

    /// The next message with an entry, from `k` on; the end of the batch where
    /// there is none.
    pub open spec fn next_known(self, k: nat) -> nat
        decreases self.batch.len() - k,
    {
        if k >= self.batch.len() || self.known(k as int) {
            k
        } else {
            self.next_known(k + 1)
        }
    }

    /// Whether `after` is the pass once the messages before `k` were
    /// dead-lettered for want of an entry, each on its own.
    pub open spec fn skips_to(self, k: nat, after: PassView) -> bool {
        let skipped = k - self.at;
        &&& after == (PassView { at: k, outboxes: after.outboxes, letters: after.letters, ..self })
        &&& after.outboxes.len() == self.outboxes.len() + skipped
        &&& after.outboxes.take(self.outboxes.len() as int) == self.outboxes
        &&& after.letters.len() == self.letters.len() + skipped
        &&& after.letters.take(self.letters.len() as int) == self.letters
        &&& forall|i: int|
            0 <= i < skipped ==> (#[trigger] after.outboxes[self.outboxes.len() + i])@.len() == 0
        &&& forall|i: int|
            0 <= i < skipped ==> (#[trigger] after.letters[self.letters.len() + i]).records(
                self.batch[self.at + i].1,
                DeadLetterReason::UnknownSchema,
                "no entry for this schema"@,
            )
    }

    /// Whether `after` is the pass once the message under it was decided. A
    /// message that does not decode is dead-lettered on its own.
    pub open spec fn decides(self, decision: Decision, after: PassView) -> bool {
        match decision {
            Decision::Decided { events, outbox } => after == (PassView {
                at: self.at + 1,
                events: self.events + stamped(events@, self.batch[self.at as int].1.recorded_origin),
                outboxes: self.outboxes.push(outbox),
                ..self
            }),
            Decision::Undecodable { detail } => {
                &&& after == (PassView { at: self.at + 1, outboxes: after.outboxes, letters: after.letters, ..self })
                &&& after.outboxes.len() == self.outboxes.len() + 1
                &&& after.outboxes.drop_last() == self.outboxes
                &&& after.outboxes.last()@.len() == 0
                &&& after.letters.len() == self.letters.len() + 1
                &&& after.letters.drop_last() == self.letters
                &&& after.letters.last().records(self.batch[self.at as int].1, DeadLetterReason::Decode, detail@)
            },
            Decision::Panicked => after == self,
        }
    }
}

impl View for DecidePass {
    type V = PassView;

    closed spec fn view(&self) -> PassView {
        PassView {
            batch: self.batch@,
            entries: names_of(self.entries@),
            at: self.at as nat,
            events: self.events@,
            outboxes: self.outboxes@,
            letters: self.letters@,
        }
    }
}

impl DecidePass {
    /// Starts a decide pass over a batch.
    pub fn new(batch: Vec<(InboxOffset, Envelope)>, entries: Vec<SchemaId>) -> (pass: Self)
        ensures
            pass@.wf(),
            pass@ == (PassView {
                batch: batch@,
                entries: names_of(entries@),
                at: 0,
                events: Seq::empty(),
                outboxes: Seq::empty(),
                letters: Seq::empty(),
            }),
    {
        DecidePass { batch, entries, at: 0, events: Vec::new(), outboxes: Vec::new(), letters: Vec::new() }
    }

    /// The next message to dispatch and the entry for it. Messages without an
    /// entry are dead-lettered on the way: they can never be handled, and the
    /// rest of the batch goes on.
    pub fn next_dispatch(&mut self) -> (next: Option<(usize, usize)>)
        requires
            old(self)@.wf(),
        ensures
            final(self)@.wf(),
            old(self)@.skips_to(old(self)@.next_known(old(self)@.at), final(self)@),
            match next {
                Some((message, entry)) => {
                    &&& message == final(self)@.at < final(self)@.batch.len()
                    &&& entry_at(final(self)@.entries, final(self)@.batch[message as int].1.schema@) == Some(
                        entry as int,
                    )
                },
                None => final(self)@.at == final(self)@.batch.len(),
            },
    {
        let ghost before = self@;
        let ghost (boxes, died) = (before.outboxes.len() as int, before.letters.len() as int);
        assert(before.outboxes.take(boxes) =~= before.outboxes);
        assert(before.letters.take(died) =~= before.letters);
        while self.at < self.batch.len()
            invariant
                before == old(self)@,
                before.wf(),
                boxes == before.outboxes.len(),
                died == before.letters.len(),
                before.at <= self@.at <= before.batch.len(),
                before.skips_to(self@.at, self@),
                before.next_known(before.at) == before.next_known(self@.at),
                self@.wf(),
            decreases self.batch.len() - self.at,
        {
            let ghost midway = self@;
            if let Some(entry) = find_entry(&self.entries, &self.batch[self.at].1.schema) {
                assert(before.known(self@.at as int));
                return Some((self.at, entry));
            }
            let letter = dead_letter(
                &self.batch[self.at].1,
                DeadLetterReason::UnknownSchema,
                "no entry for this schema",
            );
            self.letters.push(letter);
            self.outboxes.push(Outbox::new());
            self.at = self.at + 1;
            proof {
                let after = self@;
                lemma_stamps_kept(midway, after);
                assert(after.outboxes.take(boxes) =~= before.outboxes);
                assert(after.letters.take(died) =~= before.letters);
                assert forall|i: int| 0 <= i < after.at - before.at implies (
                #[trigger] after.outboxes[boxes + i])@.len() == 0 by {
                    if i < midway.at - before.at {
                        assert(after.outboxes[boxes + i] == midway.outboxes[boxes + i]);
                    }
                }
                assert forall|i: int| 0 <= i < after.at - before.at implies (
                #[trigger] after.letters[died + i]).records(
                    before.batch[before.at + i].1,
                    DeadLetterReason::UnknownSchema,
                    "no entry for this schema"@,
                ) by {
                    if i < midway.at - before.at {
                        assert(after.letters[died + i] == midway.letters[died + i]);
                    }
                }
            }
        }
        None
    }

    /// Records what the dispatch of the message under the pass came to. A panic
    /// records nothing and ends the step: the whole batch stays queued.
    pub fn record(&mut self, decision: Decision) -> (ends: Option<Step>)
        requires
            old(self)@.wf(),
            old(self)@.at < old(self)@.batch.len(),
        ensures
            final(self)@.wf(),
            old(self)@.decides(decision, final(self)@),
            ends == if decision is Panicked {
                Some(Step::Crashed)
            } else {
                None
            },
    {
        let ghost before = self@;
        assert(self.at < self.batch.len());
        match decision {
            Decision::Decided { events, outbox } => {
                let ghost origin = self.batch@[self.at as int].1.recorded_origin;
                let ghost decided = events@;
                let events = events.into_vec();
                let mut i: usize = 0;
                assert(stamped(decided, origin).take(0) =~= Seq::empty());
                assert(before.events + Seq::<DecidedEvent>::empty() =~= before.events);
                while i < events.len()
                    invariant
                        events@ == decided,
                        i <= events.len(),
                        before.at < before.batch.len(),
                        origin == before.batch[before.at as int].1.recorded_origin,
                        self@ == (PassView {
                            events: before.events + stamped(decided, origin).take(i as int),
                            ..before
                        }),
                    decreases events.len() - i,
                {
                    let stamp = copy_stamp(&self.batch[self.at].1.recorded_origin);
                    self.events.push(DecidedEvent { event: events[i].clone(), origin: stamp });
                    i += 1;
                    proof {
                        let all = stamped(decided, origin);
                        assert(all.take(i as int) =~= all.take(i - 1).push(all[i - 1]));
                        assert(before.events + all.take(i as int) =~= (before.events + all.take(i - 1)).push(all[i - 1]));
                    }
                }
                assert(stamped(decided, origin).take(i as int) =~= stamped(decided, origin));
                self.outboxes.push(outbox);
                self.at = self.at + 1;
                proof {
                    assert(self@.batch[before.at as int].1.recorded_origin == origin);
                    assert forall|j: int| 0 <= j < self@.events.len() implies self@.has_stamp(
                        (#[trigger] self@.events[j]).origin,
                    ) by {
                        if j < before.events.len() {
                            assert(self@.events[j] == before.events[j]);
                            let k = choose|k: int|
                                0 <= k < before.at && (#[trigger] before.batch[k]).1.recorded_origin
                                    == before.events[j].origin;
                            assert(self@.batch[k] == before.batch[k]);
                        }
                    }
                }
                None
            },
            Decision::Undecodable { detail } => {
                let letter = dead_letter(&self.batch[self.at].1, DeadLetterReason::Decode, detail.as_str());
                self.letters.push(letter);
                self.outboxes.push(Outbox::new());
                self.at = self.at + 1;
                assert(self@.outboxes.drop_last() =~= before.outboxes);
                assert(self@.letters.drop_last() =~= before.letters);
                proof {
                    lemma_stamps_kept(before, self@);
                }
                None
            },
            Decision::Panicked => Some(Step::Crashed),
        }
    }

    /// The message under the pass.
    pub fn message(&self, at: usize) -> (envelope: &Envelope)
        requires
            at < self@.batch.len(),
        ensures
            *envelope == self@.batch[at as int].1,
    {
        &self.batch[at].1
    }

    /// The letters so far, of a pass that goes no further: a message that can
    /// never be handled dies whatever becomes of the batch.
    pub fn into_letters(self) -> (letters: Vec<DeadLetter>)
        ensures
            letters@ == self@.letters,
    {
        self.letters
    }

    /// Ends the pass: the batch, the events, the effects and the letters.
    pub fn finish(self) -> (parts: (
        Vec<(InboxOffset, Envelope)>,
        Vec<DecidedEvent>,
        Vec<Outbox>,
        Vec<DeadLetter>,
    ))
        requires
            self@.wf(),
            self@.at == self@.batch.len(),
        ensures
            parts.0@ == self@.batch,
            parts.1@ == self@.events,
            parts.2@ == self@.outboxes,
            parts.2@.len() == parts.0@.len(),
            parts.3@ == self@.letters,
    {
        (self.batch, self.events, self.outboxes, self.letters)
    }
}

/// Going past a message without an event keeps every event's stamp.
proof fn lemma_stamps_kept(before: PassView, after: PassView)
    requires
        before.wf(),
        after.batch == before.batch,
        after.events == before.events,
        before.at <= after.at <= after.batch.len(),
        after.outboxes.len() == after.at,
    ensures
        after.wf(),
{
    assert forall|i: int| 0 <= i < after.events.len() implies after.has_stamp(
        (#[trigger] after.events[i]).origin,
    ) by {
        let k = choose|k: int|
            0 <= k < before.at && (#[trigger] before.batch[k]).1.recorded_origin == before.events[i].origin;
        assert(after.batch[k].1.recorded_origin == after.events[i].origin);
    }
}

/// Picks the events of declared schemas.
pub open spec fn declared_in(emits: Seq<Seq<char>>) -> spec_fn(DecidedEvent) -> bool {
    |decided: DecidedEvent| emits.contains(decided.event.schema@)
}

/// Picks the events of schemas that were never declared.
pub open spec fn undeclared_in(emits: Seq<Seq<char>>) -> spec_fn(DecidedEvent) -> bool {
    |decided: DecidedEvent| !emits.contains(decided.event.schema@)
}

/// Filtering a list with one more event filters the list and then the event.
proof fn lemma_event_filter(events: Seq<DecidedEvent>, event: DecidedEvent, keeps: spec_fn(DecidedEvent) -> bool)
    ensures
        events.push(event).filter(keeps) == if keeps(event) {
            events.filter(keeps).push(event)
        } else {
            events.filter(keeps)
        },
{
    reveal(Seq::filter);
    assert(events.push(event).drop_last() =~= events);
}

/// Parts a batch's events at the emit gate, before anything is appended: the
/// declared schemas are the only ones that reach the journal.
pub fn split_emits(events: &Vec<DecidedEvent>, emits: &Vec<SchemaId>) -> (parts: (Vec<DecidedEvent>, Vec<DecidedEvent>))
    ensures
        parts.0@ == events@.filter(declared_in(names_of(emits@))),
        parts.1@ == events@.filter(undeclared_in(names_of(emits@))),
{
    let ghost names = names_of(emits@);
    let mut declared: Vec<DecidedEvent> = Vec::new();
    let mut undeclared: Vec<DecidedEvent> = Vec::new();
    let mut i: usize = 0;
    proof {
        reveal(Seq::filter);
        assert(events@.take(0) =~= Seq::empty());
    }
    while i < events.len()
        invariant
            names == names_of(emits@),
            i <= events.len(),
            declared@ == events@.take(i as int).filter(declared_in(names)),
            undeclared@ == events@.take(i as int).filter(undeclared_in(names)),
        decreases events.len() - i,
    {
        proof {
            lemma_event_filter(events@.take(i as int), events@[i as int], declared_in(names));
            lemma_event_filter(events@.take(i as int), events@[i as int], undeclared_in(names));
            assert(events@.take(i + 1) =~= events@.take(i as int).push(events@[i as int]));
        }
        if lists(emits, &events[i].event.schema) {
            declared.push(events[i].clone());
        } else {
            undeclared.push(events[i].clone());
        }
        i += 1;
    }
    assert(events@.take(i as int) =~= events@);
    (declared, undeclared)
}

/// Whether an envelope is a dropped event, addressed back to the actor that
/// emitted it.
pub open spec fn returns_event(envelope: Envelope, path: ActorPath, event: Event) -> bool {
    envelope == (Envelope {
        schema: event.schema,
        dest: Address::Path(path),
        from: Some(path),
        reply_to: None,
        trace: envelope.trace,
        payload: event.payload,
        recorded_origin: None,
    })
}

/// Dead-letters one dropped event: it died before the journal, under a trace
/// of its own.
pub fn undeclared_letter(path: &ActorPath, event: &Event, trace: TraceCtx) -> (letter: DeadLetter)
    ensures
        letter.records(
            letter.envelope,
            DeadLetterReason::UndeclaredEvent,
            "emitted undeclared schema (dropped before journal append)"@,
        ),
        returns_event(letter.envelope, *path, *event),
        letter.trace == trace,
{
    let dropped = Envelope::raw(
        event.schema.clone(),
        Address::Path(path.clone()),
        event.payload.clone(),
        trace,
    ).from(path.clone());
    dead_letter(
        &dropped,
        DeadLetterReason::UndeclaredEvent,
        "emitted undeclared schema (dropped before journal append)",
    )
}

/// How a batch's declared events reach the journal.
pub enum AppendPlan {
    /// Nothing to append.
    Skip,
    /// The batch re-records facts of other journals: checkpoint them, each
    /// under its own origin.
    CatchUp(Vec<ScannedEvent>),
    /// The actor's own decisions: an ordinary append.
    Plain(Vec<Event>),
}

/// Whether every event was decided on a copy of a recorded fact.
pub open spec fn all_stamped(decided: Seq<DecidedEvent>) -> bool {
    forall|i: int| 0 <= i < decided.len() ==> (#[trigger] decided[i]).origin is Some
}

/// The checkpoints of events decided on copies of recorded facts: each event
/// under the origin of its own copy.
pub open spec fn checkpoints(decided: Seq<DecidedEvent>) -> Seq<ScannedEvent> {
    decided.map_values(
        |decided: DecidedEvent|
            ScannedEvent {
                journal: decided.origin->0.journal,
                seq: decided.origin->0.seq,
                ingest_seq: 0,
                event: decided.event,
            },
    )
}

/// Plans the append of a batch's declared events. What a projector folds from
/// copies of recorded facts are checkpoints; everything else is the actor's own
/// record.
pub fn plan_append(is_projector: bool, decided: &Vec<DecidedEvent>) -> (plan: AppendPlan)
    ensures
        match plan {
            AppendPlan::Skip => decided@.len() == 0,
            AppendPlan::CatchUp(scanned) => {
                &&& decided@.len() > 0
                &&& is_projector && all_stamped(decided@)
                &&& scanned@ == checkpoints(decided@)
            },
            AppendPlan::Plain(events) => {
                &&& decided@.len() > 0
                &&& !(is_projector && all_stamped(decided@))
                &&& events@ == bare_events(decided@)
            },
        },
{
    if decided.len() == 0 {
        return AppendPlan::Skip;
    }
    if !is_projector {
        return AppendPlan::Plain(events_in(decided));
    }
    let mut scanned: Vec<ScannedEvent> = Vec::new();
    let mut i: usize = 0;
    while i < decided.len()
        invariant
            is_projector,
            decided@.len() > 0,
            i <= decided.len(),
            forall|j: int| 0 <= j < i ==> (#[trigger] decided@[j]).origin is Some,
            scanned@ == checkpoints(decided@).take(i as int),
        decreases decided.len() - i,
    {
        match &decided[i].origin {
            Some(origin) => {
                scanned.push(
                    ScannedEvent {
                        journal: origin.journal.clone(),
                        seq: origin.seq,
                        ingest_seq: 0,
                        event: decided[i].event.clone(),
                    },
                );
            },
            None => {
                assert(!all_stamped(decided@));
                return AppendPlan::Plain(events_in(decided));
            },
        }
        i += 1;
        assert(checkpoints(decided@).take(i as int) =~= checkpoints(decided@).take(i - 1).push(
            checkpoints(decided@)[i - 1],
        ));
    }
    assert(checkpoints(decided@).take(i as int) =~= checkpoints(decided@));
    AppendPlan::CatchUp(scanned)
}

/// What an append came to.
pub enum AppendResult {
    /// Nothing was appended.
    Skipped,
    /// The events were appended: one seq each, in order.
    Appended(Vec<SeqNo>),
    /// The checkpoints were appended; a slot is empty where the journal held
    /// the fact already.
    CheckPointed(Vec<Option<SeqNo>>),
    /// The store failed.
    Failed,
}

/// What the step does once the append is settled.
pub enum AfterAppend {
    /// The batch commits, and these events are applied and fanned out under
    /// these seqs.
    Commit {
        /// The events.
        events: Vec<Event>,
        /// Their seqs.
        seqs: Vec<SeqNo>,
    },
    /// The batch commits and the step is over: the journal held every fact
    /// already.
    CommitOnly,
    /// The step crashes and the batch stays queued.
    Crash,
}

/// Whether the journal held every checkpoint already.
pub open spec fn held_already(slots: Seq<Option<SeqNo>>) -> bool {
    slots.len() > 0 && forall|i: int| 0 <= i < slots.len() ==> (#[trigger] slots[i]) is None
}

/// Whether the slot of an event was filled.
pub open spec fn is_filled(slots: Seq<Option<SeqNo>>, i: int) -> bool {
    0 <= i < slots.len() && slots[i] is Some
}

/// Of the first `n` events, those whose slot was filled, in order.
pub open spec fn fresh_events(events: Seq<Event>, slots: Seq<Option<SeqNo>>, n: nat) -> Seq<Event>
    decreases n,
{
    if n == 0 {
        Seq::empty()
    } else {
        let before = fresh_events(events, slots, (n - 1) as nat);
        if is_filled(slots, n - 1) {
            before.push(events[n - 1])
        } else {
            before
        }
    }
}

/// The seqs in the filled slots among the first `n`, in order.
pub open spec fn fresh_seqs(slots: Seq<Option<SeqNo>>, n: nat) -> Seq<SeqNo>
    decreases n,
{
    if n == 0 {
        Seq::empty()
    } else {
        let before = fresh_seqs(slots, (n - 1) as nat);
        if is_filled(slots, n - 1) {
            before.push(slots[n - 1]->0)
        } else {
            before
        }
    }
}

/// The events a batch commits with and their seqs: those that the journal
/// newly holds. `None` where the store failed, or held every fact already.
pub open spec fn commits_with(events: Seq<Event>, result: AppendResult) -> Option<(Seq<Event>, Seq<SeqNo>)> {
    match result {
        AppendResult::Skipped => Some((events, Seq::empty())),
        AppendResult::Appended(given) => Some((events, given@)),
        AppendResult::CheckPointed(slots) => if held_already(slots@) {
            None
        } else {
            Some((fresh_events(events, slots@, events.len()), fresh_seqs(slots@, events.len())))
        },
        AppendResult::Failed => None,
    }
}

/// Settles the append of a batch: what the journal held already is not folded
/// again.
pub fn after_append(events: Vec<Event>, result: AppendResult) -> (after: AfterAppend)
    ensures
        match commits_with(events@, result) {
            Some((kept, given)) => after matches AfterAppend::Commit { events, seqs } && events@ == kept && seqs@
                == given,
            None => after == if result is Failed {
                AfterAppend::Crash
            } else {
                AfterAppend::CommitOnly
            },
        },
{
    match result {
        AppendResult::Skipped => AfterAppend::Commit { events, seqs: Vec::new() },
        AppendResult::Appended(seqs) => AfterAppend::Commit { events, seqs },
        AppendResult::CheckPointed(slots) => {
            let mut some = false;
            let mut i: usize = 0;
            while i < slots.len() && !some
                invariant
                    i <= slots.len(),
                    some ==> i > 0 && slots@[i - 1] is Some,
                    !some ==> forall|j: int| 0 <= j < i ==> (#[trigger] slots@[j]) is None,
                decreases slots.len() - i,
            {
                some = slots[i].is_some();
                i += 1;
            }
            if slots.len() > 0 && !some {
                assert(held_already(slots@));
                return AfterAppend::CommitOnly;
            }
            assert(!held_already(slots@));
            let mut kept: Vec<Event> = Vec::new();
            let mut seqs: Vec<SeqNo> = Vec::new();
            let mut k: usize = 0;
            while k < events.len()
                invariant
                    k <= events.len(),
                    kept@ == fresh_events(events@, slots@, k as nat),
                    seqs@ == fresh_seqs(slots@, k as nat),
                decreases events.len() - k,
            {
                if k < slots.len() {
                    if let Some(seq) = slots[k] {
                        kept.push(events[k].clone());
                        seqs.push(seq);
                    }
                }
                k += 1;
            }
            AfterAppend::Commit { events: kept, seqs }
        },
        AppendResult::Failed => AfterAppend::Crash,
    }
}

/// Whether a batch's offsets ascend and were all assigned by an inbox.
pub open spec fn committable(batch: Seq<(InboxOffset, Envelope)>, inbox: InboxView) -> bool {
    &&& forall|i: int| 0 <= i < batch.len() ==> (#[trigger] batch[i]).0@ < inbox.next_offset
    &&& forall|i: int, j: int| 0 <= i < j < batch.len() ==> (#[trigger] batch[i]).0@ < (#[trigger] batch[j]).0@
}

/// The inbox once a batch is committed: the cursor stands behind the last
/// message, and everything up to it is gone.
pub open spec fn committed(batch: Seq<(InboxOffset, Envelope)>, inbox: InboxView) -> InboxView {
    if batch.len() == 0 {
        inbox
    } else {
        InboxView {
            cursor: (batch.last().0@ + 1) as u64,
            slots: inbox.slots.skip(through(inbox.slots, batch.last().0@) as int),
            ..inbox
        }
    }
}

/// Committing through a later offset commits through an earlier one too.
proof fn lemma_through_twice(slots: Seq<Slot>, first: u64, then: u64)
    requires
        first <= then,
        forall|i: int, j: int| 0 <= i < j < slots.len() ==> (#[trigger] slots[i]).0 < (#[trigger] slots[j]).0,
    ensures
        through(slots, first) <= slots.len(),
        through(slots, first) + through(slots.skip(through(slots, first) as int), then) == through(slots, then),
    decreases slots.len(),
{
    if slots.len() > 0 && slots[0].0 <= first {
        let rest = slots.drop_first();
        assert forall|i: int, j: int| 0 <= i < j < rest.len() implies (#[trigger] rest[i]).0 < (
        #[trigger] rest[j]).0 by {
            assert(rest[i] == slots[i + 1] && rest[j] == slots[j + 1]);
        }
        lemma_through_twice(rest, first, then);
        let k = through(rest, first) as int;
        assert(rest.skip(k) =~= slots.skip(k + 1));
    } else {
        assert(slots.skip(0) =~= slots);
    }
}

/// Commits a batch: none of its messages is ever delivered again.
pub fn commit_batch(inbox: &mut Inbox, batch: &Vec<(InboxOffset, Envelope)>)
    requires
        old(inbox)@.wf(),
        committable(batch@, old(inbox)@),
    ensures
        final(inbox)@.wf(),
        final(inbox)@ == committed(batch@, old(inbox)@),
{
    let ghost before = inbox@;
    let mut i: usize = 0;
    assert(batch@.take(0) =~= Seq::empty());
    while i < batch.len()
        invariant
            before.wf(),
            committable(batch@, before),
            i <= batch.len(),
            inbox@.wf(),
            inbox@ == committed(batch@.take(i as int), before),
        decreases batch.len() - i,
    {
        let ghost midway = inbox@;
        let ghost done = batch@.take(i as int);
        let _popped = inbox.commit_through(batch[i].0);
        proof {
            let more = batch@.take(i + 1);
            assert(more.last() == batch@[i as int]);
            if i > 0 {
                assert(done.last() == batch@[i - 1]);
                let k = through(before.slots, batch@[i - 1].0@) as int;
                lemma_through_twice(before.slots, batch@[i - 1].0@, batch@[i as int].0@);
                let m = through(before.slots.skip(k), batch@[i as int].0@) as int;
                lemma_through_within(before.slots.skip(k), batch@[i as int].0@);
                assert(before.slots.skip(k).skip(m) =~= before.slots.skip(k + m));
            }
            assert(inbox@ =~= committed(more, before));
        }
        i += 1;
    }
    assert(batch@.take(i as int) =~= batch@);
}

/// The envelope a recorded fact is broadcast in: shared payload, stamped with
/// where it was recorded.
pub open spec fn fact_copy(path: ActorPath, event: Event, seq: SeqNo, cause: TraceCtx) -> Envelope {
    Envelope {
        schema: event.schema,
        dest: Address::Schema(event.schema),
        from: Some(path),
        reply_to: None,
        trace: cause,
        payload: event.payload,
        recorded_origin: Some(RecordedOrigin { journal: path, seq }),
    }
}

/// The broadcasts of a committed batch: event `k` is stamped with seq `k`. A
/// projector's re-records are checkpoints and are broadcast nowhere.
pub fn fan_out_emits(
    path: &ActorPath,
    is_projector: bool,
    events: &Vec<Event>,
    seqs: &Vec<SeqNo>,
    cause: TraceCtx,
) -> (copies: Vec<Envelope>)
    ensures
        is_projector ==> copies@.len() == 0,
        !is_projector ==> copies@.len() == if events@.len() < seqs@.len() {
            events@.len()
        } else {
            seqs@.len()
        },
        forall|i: int|
            0 <= i < copies@.len() ==> #[trigger] copies@[i] == fact_copy(*path, events@[i], seqs@[i], cause),
{
    let mut copies: Vec<Envelope> = Vec::new();
    if is_projector {
        return copies;
    }
    let mut i: usize = 0;
    while i < events.len() && i < seqs.len()
        invariant
            i <= events.len(),
            i <= seqs.len(),
            copies@.len() == i,
            forall|j: int|
                0 <= j < i ==> #[trigger] copies@[j] == fact_copy(*path, events@[j], seqs@[j], cause),
        decreases events.len() - i,
    {
        let event = &events[i];
        let copy = Envelope::raw(
            event.schema.clone(),
            Address::Schema(event.schema.clone()),
            event.payload.clone(),
            cause,
        ).from(path.clone()).with_recorded_origin(path.clone(), seqs[i]);
        copies.push(copy);
        i += 1;
    }
    copies
}

/// Whether a message-count cadence of `n` snapshots at a seq: its event is at a
/// multiple of `n`, counted from one.
pub open spec fn boundary(n: u64, seq: int) -> bool {
    (seq + 1) % (n as int) == 0
}

/// The snapshots a message-count cadence of `n` asks for over a committed
/// batch: one at every boundary between its first and last seq.
pub fn snapshot_boundaries(n: u64, first: u64, last: u64) -> (seqs: Vec<SeqNo>)
    requires
        first <= last < u64::MAX,
    ensures
        forall|i: int|
            0 <= i < seqs@.len() ==> n > 0 && first <= (#[trigger] seqs@[i])@ <= last && boundary(n, seqs@[i]@ as int),
        forall|i: int, j: int| 0 <= i < j < seqs@.len() ==> (#[trigger] seqs@[i])@ < (#[trigger] seqs@[j])@,
        n > 0 ==> forall|seq: u64|
            first <= seq <= last && #[trigger] boundary(n, seq as int) ==> has_seq(seqs@, seq),
{
    let mut seqs: Vec<SeqNo> = Vec::new();
    if n == 0 {
        return seqs;
    }
    let mut seq: u64 = first;
    while seq <= last
        invariant
            n > 0,
            first <= last < u64::MAX,
            first <= seq <= last + 1,
            forall|i: int|
                0 <= i < seqs@.len() ==> first <= (#[trigger] seqs@[i])@ < seq && boundary(n, seqs@[i]@ as int),
            forall|i: int, j: int| 0 <= i < j < seqs@.len() ==> (#[trigger] seqs@[i])@ < (#[trigger] seqs@[j])@,
            forall|s: u64| first <= s < seq && #[trigger] boundary(n, s as int) ==> has_seq(seqs@, s),
        decreases last + 1 - seq,
    {
        let ghost before = seqs@;
        if (seq + 1) % n == 0 {
            seqs.push(SeqNo::new(seq));
            assert(seqs@[before.len() as int]@ == seq);
        }
        seq += 1;
        assert forall|s: u64| first <= s < seq && #[trigger] boundary(n, s as int) implies has_seq(seqs@, s) by {
            if s < seq - 1 {
                assert(has_seq(before, s));
                let i = choose|i: int| 0 <= i < before.len() && (#[trigger] before[i])@ == s;
                assert(seqs@[i]@ == s);
            }
        }
    }
    seqs
}

/// The snapshots a cadence asks for over a committed batch: a message-count
/// cadence at every boundary, any other none.
pub fn maybe_snapshot(cadence: SnapshotCadence, seqs: &Vec<SeqNo>) -> (at: Vec<SeqNo>)
    requires
        seqs@.len() > 0 ==> seqs@[0]@ <= seqs@.last()@ < u64::MAX,
    ensures
        forall|i: int|
            0 <= i < at@.len() ==> snapshots_at(cadence, seqs@, (#[trigger] at@[i])@),
        forall|i: int, j: int| 0 <= i < j < at@.len() ==> (#[trigger] at@[i])@ < (#[trigger] at@[j])@,
        forall|seq: u64| #[trigger] snapshots_at(cadence, seqs@, seq) ==> has_seq(at@, seq),
{
    match cadence {
        SnapshotCadence::Messages(n) => if seqs.len() == 0 {
            Vec::new()
        } else {
            let at = snapshot_boundaries(n, seqs[0].as_u64(), seqs[seqs.len() - 1].as_u64());
            assert forall|seq: u64| #[trigger] snapshots_at(cadence, seqs@, seq) implies has_seq(at@, seq) by {
                assert(boundary(n, seq as int));
            }
            at
        },
        _ => Vec::new(),
    }
}

/// Whether a cadence asks for a snapshot at a seq of a committed batch.
pub open spec fn snapshots_at(cadence: SnapshotCadence, seqs: Seq<SeqNo>, seq: u64) -> bool {
    match cadence {
        SnapshotCadence::Messages(n) => {
            &&& n > 0
            &&& seqs.len() > 0
            &&& seqs[0]@ <= seq <= seqs.last()@
            &&& boundary(n, seq as int)
        },
        _ => false,
    }
}

/// What a settled step leaves the host to do, in this order: record the last
/// seq, apply the events and capture the state behind those to snapshot, carry
/// out the effects, broadcast the copies, write the snapshots.
pub struct Settled {
    /// What the step concluded.
    pub step: Step,
    /// The events to apply to the state: those the journal newly holds.
    pub events: Vec<Event>,
    /// The seqs the journal gave them, one per event.
    pub seqs: Vec<SeqNo>,
    /// The last of them, where there is one.
    pub last_seq: Option<SeqNo>,
    /// Whether the batch's messages are reported as acknowledged.
    pub acks: bool,
    /// The effects, the messages dead-lettered at the emit gate, and whether the
    /// actor stops.
    pub flushed: Flushed,
    /// The broadcasts of the recorded facts.
    pub copies: Vec<Envelope>,
    /// Where snapshots are taken.
    pub snapshots: Vec<SeqNo>,
}

/// Whether a step settled with nothing more to do.
pub open spec fn settled_bare(settled: Settled, step: Step) -> bool {
    &&& settled.step == step
    &&& settled.events@.len() == 0
    &&& settled.seqs@.len() == 0
    &&& settled.last_seq is None
    &&& !settled.acks
    &&& settled.flushed.effects@.len() == 0
    &&& settled.flushed.letters@.len() == 0
    &&& !settled.flushed.stops
    &&& settled.copies@.len() == 0
    &&& settled.snapshots@.len() == 0
}

/// A step that settled with nothing more to do.
fn bare(step: Step) -> (settled: Settled)
    ensures
        settled_bare(settled, step),
{
    Settled {
        step,
        events: Vec::new(),
        seqs: Vec::new(),
        last_seq: None,
        acks: false,
        flushed: Flushed { effects: Vec::new(), letters: Vec::new(), stops: false },
        copies: Vec::new(),
        snapshots: Vec::new(),
    }
}

/// Whether a step settled under the journal's seqs: everything recorded is
/// carried out.
pub open spec fn settled_under(
    settled: Settled,
    events: Seq<Event>,
    seqs: Seq<SeqNo>,
    path: ActorPath,
    is_projector: bool,
    outboxes: Seq<Outbox>,
    emits: Seq<Seq<char>>,
    cadence: SnapshotCadence,
    cause: TraceCtx,
) -> bool {
    &&& settled.step == if batch_stops(outboxes) {
        Step::Stop
    } else {
        Step::Work
    }
    &&& settled.events@ == events
    &&& settled.seqs@ == seqs
    &&& settled.last_seq == if seqs.len() == 0 {
        None
    } else {
        Some(seqs.last())
    }
    &&& settled.acks
    &&& flushes(settled.flushed, outboxes, emits)
    &&& settled.copies@.len() == if is_projector {
        0
    } else if events.len() < seqs.len() {
        events.len()
    } else {
        seqs.len()
    }
    &&& forall|i: int|
        0 <= i < settled.copies@.len() ==> #[trigger] settled.copies@[i] == fact_copy(path, events[i], seqs[i], cause)
    &&& forall|i: int|
        0 <= i < settled.snapshots@.len() ==> snapshots_at(cadence, seqs, (#[trigger] settled.snapshots@[i])@)
    &&& forall|i: int, j: int|
        0 <= i < j < settled.snapshots@.len() ==> (#[trigger] settled.snapshots@[i])@ < (
        #[trigger] settled.snapshots@[j])@
    &&& forall|seq: u64| #[trigger] snapshots_at(cadence, seqs, seq) ==> has_seq(settled.snapshots@, seq)
}

/// Settles the step of a decided batch once its append is settled. A failed
/// append leaves the inbox as it was; anything else commits the whole batch.
pub fn settle_step(
    inbox: &mut Inbox,
    path: &ActorPath,
    is_projector: bool,
    batch: &Vec<(InboxOffset, Envelope)>,
    decided: &Vec<DecidedEvent>,
    outboxes: Vec<Outbox>,
    result: AppendResult,
    emits: &Vec<SchemaId>,
    cadence: SnapshotCadence,
    cause: TraceCtx,
) -> (settled: Settled)
    requires
        old(inbox)@.wf(),
        committable(batch@, old(inbox)@),
        commits_with(bare_events(decided@), result) matches Some((_, seqs)) ==> seqs.len() > 0 ==> seqs[0]@
            <= seqs.last()@ < u64::MAX,
    ensures
        final(inbox)@.wf(),
        match commits_with(bare_events(decided@), result) {
            Some((events, seqs)) => {
                &&& final(inbox)@ == committed(batch@, old(inbox)@)
                &&& settled_under(
                    settled,
                    events,
                    seqs,
                    *path,
                    is_projector,
                    outboxes@,
                    names_of(emits@),
                    cadence,
                    cause,
                )
            },
            None => if result is Failed {
                final(inbox)@ == old(inbox)@ && settled_bare(settled, Step::Crashed)
            } else {
                final(inbox)@ == committed(batch@, old(inbox)@) && settled_bare(settled, Step::Work)
            },
        },
{
    match after_append(events_in(decided), result) {
        AfterAppend::Crash => bare(Step::Crashed),
        AfterAppend::CommitOnly => {
            commit_batch(inbox, batch);
            bare(Step::Work)
        },
        AfterAppend::Commit { events, seqs } => {
            commit_batch(inbox, batch);
            let last_seq = if seqs.len() == 0 {
                None
            } else {
                Some(seqs[seqs.len() - 1])
            };
            let flushed = flush_batch(outboxes, emits);
            let copies = fan_out_emits(path, is_projector, &events, &seqs, cause);
            let snapshots = maybe_snapshot(cadence, &seqs);
            let step = if flushed.stops {
                Step::Stop
            } else {
                Step::Work
            };
            Settled { step, events, seqs, last_seq, acks: true, flushed, copies, snapshots }
        },
    }
}

/// The slots that continue the offsets from a cursor stand one after the other.
proof fn lemma_run_offsets(slots: Seq<Slot>, cursor: int, i: int)
    requires
        0 <= i < run_length(slots, cursor),
    ensures
        i < slots.len(),
        slots[i].0 == cursor + i,
    decreases slots.len(),
{
    if i > 0 {
        lemma_run_offsets(slots.drop_first(), cursor + 1, i - 1);
        assert(slots.drop_first()[i - 1] == slots[i]);
    }
}

/// A batch copied from an inbox can be committed, and committing it removes
/// exactly its messages: the cursor moves past them and everything behind them
/// stays.
pub proof fn law_commit_removes_batch(inbox: InboxView, batch: Seq<(InboxOffset, Envelope)>, n: nat)
    requires
        inbox.wf(),
        holds_claims(batch, inbox.slots, claim_count(inbox.slots, inbox.cursor as int, n)),
    ensures
        committable(batch, inbox),
        committed(batch, inbox).slots == inbox.slots.skip(batch.len() as int),
        committed(batch, inbox).cursor == inbox.cursor + batch.len(),
{
    let k = batch.len() as int;
    assert forall|i: int| 0 <= i < k implies (#[trigger] batch[i]).0@ == inbox.cursor + i by {
        lemma_run_offsets(inbox.slots, inbox.cursor as int, i);
    }
    assert forall|i: int| 0 <= i < k implies (#[trigger] batch[i]).0@ < inbox.next_offset by {
        assert(inbox.slots[i].0 < inbox.next_offset);
    }
    if k > 0 {
        let last = batch.last().0@;
        assert(batch.last() == batch[k - 1]);
        law_commit_keeps_later(inbox.slots, last);
        assert(inbox.slots[k - 1].0 == last);
        assert(k - 1 < through(inbox.slots, last));
        if through(inbox.slots, last) > k {
            assert(inbox.slots[k - 1].0 < inbox.slots[k].0);
        }
    } else {
        assert(inbox.slots.skip(0) =~= inbox.slots);
    }
}

/// What was not committed is delivered again: envelopes queued behind a batch
/// do not change what is copied from the cursor.
pub proof fn law_redelivery(
    slots: Seq<Slot>,
    more: Seq<Slot>,
    batch: Seq<(InboxOffset, Envelope)>,
    k: nat,
)
    requires
        holds_claims(batch, slots, k),
    ensures
        holds_claims(batch, slots + more, k),
{
    assert forall|i: int| 0 <= i < k implies (#[trigger] batch[i]).0@ == (slots + more)[i].0 && (slots + more)[i].1
        == Some(batch[i].1) by {
        assert((slots + more)[i] == slots[i]);
    }
}

/// Every event of a batch is journaled or dead-lettered, and none both.
pub proof fn law_events_accounted(events: Seq<DecidedEvent>, emits: Seq<Seq<char>>)
    ensures
        events.filter(declared_in(emits)).len() + events.filter(undeclared_in(emits)).len() == events.len(),
    decreases events.len(),
{
    reveal(Seq::filter);
    if events.len() > 0 {
        law_events_accounted(events.drop_last(), emits);
    }
}

/// A projector checkpoints every copy it folds: over a batch of copies of
/// recorded facts, whatever their origins, each declared event is planned as a
/// checkpoint under an origin that one of the copies carries.
pub proof fn law_copies_are_checkpointed(pass: PassView, emits: Seq<Seq<char>>)
    requires
        pass.wf(),
        forall|k: int| 0 <= k < pass.batch.len() ==> (#[trigger] pass.batch[k]).1.recorded_origin is Some,
    ensures
        all_stamped(pass.events.filter(declared_in(emits))),
        forall|i: int|
            0 <= i < pass.events.filter(declared_in(emits)).len() ==> pass.has_stamp(
                (#[trigger] pass.events.filter(declared_in(emits))[i]).origin,
            ),
{
    let declared = pass.events.filter(declared_in(emits));
    assert forall|i: int| 0 <= i < declared.len() implies (#[trigger] declared[i]).origin is Some && pass.has_stamp(
        declared[i].origin,
    ) by {
        pass.events.lemma_filter_contains_rev(declared_in(emits), declared[i]);
        let j = pass.events.index_of(declared[i]);
        assert(pass.has_stamp(pass.events[j].origin));
    }
}

/// A journal that held none of a batch's facts has all of them folded, each
/// under the seq it was given.
pub proof fn law_new_facts_are_folded(events: Seq<Event>, slots: Seq<Option<SeqNo>>, n: nat)
    requires
        n <= events.len(),
        n <= slots.len(),
        forall|i: int| 0 <= i < n ==> (#[trigger] slots[i]) is Some,
    ensures
        fresh_events(events, slots, n) == events.take(n as int),
        fresh_seqs(slots, n) == slots.take(n as int).map_values(|slot: Option<SeqNo>| slot->0),
    decreases n,
{
    if n > 0 {
        law_new_facts_are_folded(events, slots, (n - 1) as nat);
        assert(is_filled(slots, n - 1));
    }
    assert(fresh_events(events, slots, n) =~= events.take(n as int));
    assert(fresh_seqs(slots, n) =~= slots.take(n as int).map_values(|slot: Option<SeqNo>| slot->0));
}

/// Every event that is folded has its own seq.
pub proof fn law_folds_match_seqs(events: Seq<Event>, slots: Seq<Option<SeqNo>>, n: nat)
    ensures
        fresh_events(events, slots, n).len() == fresh_seqs(slots, n).len(),
    decreases n,
{
    if n > 0 {
        law_folds_match_seqs(events, slots, (n - 1) as nat);
    }
}

/// The front of a batch copied from an inbox is what a smaller copy would have
/// taken.
pub proof fn law_front_is_a_batch(inbox: InboxView, batch: Seq<(InboxOffset, Envelope)>, n: nat, k: nat)
    requires
        holds_claims(batch, inbox.slots, claim_count(inbox.slots, inbox.cursor as int, n)),
        k <= batch.len(),
    ensures
        holds_claims(batch.take(k as int), inbox.slots, claim_count(inbox.slots, inbox.cursor as int, k)),
{
    assert forall|i: int| 0 <= i < k implies (#[trigger] batch.take(k as int)[i]).0@ == inbox.slots[i].0
        && inbox.slots[i].1 == Some(batch.take(k as int)[i].1) by {
        assert(batch.take(k as int)[i] == batch[i]);
    }
}

/// The entry that handles a schema is the first declared for it, and there is
/// one exactly where the schema is declared.
pub proof fn law_first_entry_handles(entries: Seq<Seq<char>>, schema: Seq<char>)
    ensures
        match entry_at(entries, schema) {
            Some(k) => {
                &&& 0 <= k < entries.len()
                &&& entries[k] == schema
                &&& forall|j: int| 0 <= j < k ==> #[trigger] entries[j] != schema
            },
            None => !entries.contains(schema),
        },
    decreases entries.len(),
{
    if entries.len() > 0 && entries[0] != schema {
        let rest = entries.drop_first();
        law_first_entry_handles(rest, schema);
        match entry_at(rest, schema) {
            Some(k) => {
                assert forall|j: int| 0 <= j < k + 1 implies #[trigger] entries[j] != schema by {
                    if j > 0 {
                        assert(entries[j] == rest[j - 1]);
                    }
                }
            },
            None => {
                if entries.contains(schema) {
                    let j = choose|j: int| 0 <= j < entries.len() && entries[j] == schema;
                    assert(rest[j - 1] == schema);
                }
            },
        }
    }
}

/// A pass skips exactly the messages that the actor has no entry for: it stops
/// at the next message of a declared schema, or at the end of the batch.
pub proof fn law_pass_skips_unknown_only(pass: PassView, k: nat)
    requires
        k <= pass.batch.len(),
    ensures
        k <= pass.next_known(k) <= pass.batch.len(),
        forall|i: int|
            k <= i < pass.next_known(k) ==> !pass.entries.contains((#[trigger] pass.batch[i]).1.schema@),
        pass.next_known(k) < pass.batch.len() ==> pass.entries.contains(
            pass.batch[pass.next_known(k) as int].1.schema@,
        ),
    decreases pass.batch.len() - k,
{
    if k < pass.batch.len() {
        law_first_entry_handles(pass.entries, pass.batch[k as int].1.schema@);
        if !pass.known(k as int) {
            law_pass_skips_unknown_only(pass, k + 1);
        }
    }
}

/// A message without an entry dies alone: each one that is skipped leaves one
/// letter that records it and an empty outbox, and no event.
pub proof fn law_unknown_messages_die_alone(before: PassView, k: nat, after: PassView)
    requires
        before.wf(),
        before.at <= k <= before.batch.len(),
        before.skips_to(k, after),
    ensures
        after.at == k,
        after.batch == before.batch,
        after.events == before.events,
        after.outboxes.len() == before.outboxes.len() + (k - before.at),
        after.letters.len() == before.letters.len() + (k - before.at),
        forall|i: int| 0 <= i < before.letters.len() ==> #[trigger] after.letters[i] == before.letters[i],
        forall|i: int| 0 <= i < before.outboxes.len() ==> #[trigger] after.outboxes[i] == before.outboxes[i],
        forall|i: int|
            #![trigger before.batch[i]]
            before.at <= i < k ==> {
                let letter = after.letters[before.letters.len() + (i - before.at)];
                &&& letter.envelope == before.batch[i].1
                &&& letter.reason == DeadLetterReason::UnknownSchema
                &&& after.outboxes[before.outboxes.len() + (i - before.at)]@.len() == 0
            },
{
    assert forall|i: int| 0 <= i < before.letters.len() implies #[trigger] after.letters[i] == before.letters[i] by {
        assert(after.letters.take(before.letters.len() as int)[i] == after.letters[i]);
    }
    assert forall|i: int| 0 <= i < before.outboxes.len() implies #[trigger] after.outboxes[i] == before.outboxes[i] by {
        assert(after.outboxes.take(before.outboxes.len() as int)[i] == after.outboxes[i]);
    }
    assert forall|i: int|
        #![trigger before.batch[i]]
        before.at <= i < k implies {
        let letter = after.letters[before.letters.len() + (i - before.at)];
        &&& letter.envelope == before.batch[i].1
        &&& letter.reason == DeadLetterReason::UnknownSchema
        &&& after.outboxes[before.outboxes.len() + (i - before.at)]@.len() == 0
    } by {
        let n = i - before.at;
        assert(after.letters[before.letters.len() + n].records(
            before.batch[before.at + n].1,
            DeadLetterReason::UnknownSchema,
            "no entry for this schema"@,
        ));
    }
}

/// What a handler decided is kept whole and in order: its events follow those
/// of the messages before it, each under the stamp of its own message, and its
/// effects are the message's own. What was not decided leaves no event: a
/// message that does not decode leaves a letter, and a panic leaves nothing.
pub proof fn law_decisions_are_kept(before: PassView, decision: Decision, after: PassView)
    requires
        before.wf(),
        before.at < before.batch.len(),
        before.decides(decision, after),
    ensures
        after.batch == before.batch,
        after.entries == before.entries,
        match decision {
            Decision::Decided { events, outbox } => {
                &&& after.at == before.at + 1
                &&& after.letters == before.letters
                &&& after.events.len() == before.events.len() + events@.len()
                &&& forall|i: int| 0 <= i < before.events.len() ==> #[trigger] after.events[i] == before.events[i]
                &&& forall|i: int|
                    #![trigger events@[i]]
                    0 <= i < events@.len() ==> {
                        &&& after.events[before.events.len() + i].event == events@[i]
                        &&& after.events[before.events.len() + i].origin
                            == before.batch[before.at as int].1.recorded_origin
                    }
                &&& after.outboxes == before.outboxes.push(outbox)
            },
            Decision::Undecodable { detail } => {
                &&& after.at == before.at + 1
                &&& after.events == before.events
                &&& after.outboxes.len() == before.outboxes.len() + 1
                &&& after.outboxes.last()@.len() == 0
                &&& after.letters.len() == before.letters.len() + 1
                &&& after.letters.last().envelope == before.batch[before.at as int].1
                &&& after.letters.last().reason == DeadLetterReason::Decode
                &&& after.letters.last().detail@ == detail@
                &&& forall|i: int| 0 <= i < before.letters.len() ==> #[trigger] after.letters[i] == before.letters[i]
            },
            Decision::Panicked => after == before,
        },
{
    if let Decision::Undecodable { .. } = decision {
        assert forall|i: int| 0 <= i < before.letters.len() implies #[trigger] after.letters[i] == before.letters[i] by {
            assert(after.letters.drop_last()[i] == after.letters[i]);
        }
    }
}

/// The emit gate parts events by what the actor declared: those that go on to
/// the journal are, in order, the events of declared schemas, and those that die
/// are the others.
pub proof fn law_emit_gate_parts_by_declaration(events: Seq<DecidedEvent>, emits: Seq<Seq<char>>)
    ensures
        events.filter(declared_in(emits)) == events.filter(
            |decided: DecidedEvent| exists|k: int| 0 <= k < emits.len() && #[trigger] emits[k] == decided.event.schema@,
        ),
        events.filter(undeclared_in(emits)) == events.filter(
            |decided: DecidedEvent| forall|k: int| 0 <= k < emits.len() ==> #[trigger] emits[k] != decided.event.schema@,
        ),
{
    let declares = |decided: DecidedEvent|
        exists|k: int| 0 <= k < emits.len() && #[trigger] emits[k] == decided.event.schema@;
    let lacks = |decided: DecidedEvent|
        forall|k: int| 0 <= k < emits.len() ==> #[trigger] emits[k] != decided.event.schema@;
    assert(declared_in(emits) =~= declares);
    assert(undeclared_in(emits) =~= lacks);
}

/// A checkpoint is of its own copy: event `i` is re-recorded under the journal
/// and seq that its copy was stamped with.
pub proof fn law_checkpoints_name_their_origin(decided: Seq<DecidedEvent>)
    requires
        forall|i: int| 0 <= i < decided.len() ==> (#[trigger] decided[i]).origin is Some,
    ensures
        all_stamped(decided),
        checkpoints(decided).len() == decided.len(),
        forall|i: int|
            0 <= i < decided.len() ==> {
                let (checkpoint, event) = (checkpoints(decided)[i], #[trigger] decided[i]);
                &&& event.origin == Some(RecordedOrigin { journal: checkpoint.journal, seq: checkpoint.seq })
                &&& checkpoint.event == event.event
            },
        bare_events(decided).len() == decided.len(),
        forall|i: int| 0 <= i < decided.len() ==> bare_events(decided)[i] == (#[trigger] decided[i]).event,
{
}

/// A batch commits with what the journal newly holds and with nothing it held:
/// after an append that is every event under its seq, after checkpoints it is
/// each event whose slot was filled under the seq in it, in order, and after a
/// failed append it is nothing.
pub proof fn law_commit_folds_what_is_new(events: Seq<Event>, result: AppendResult)
    requires
        result matches AppendResult::CheckPointed(slots) ==> slots@.len() == events.len(),
    ensures
        match result {
            AppendResult::Skipped => commits_with(events, result) == Some((events, Seq::<SeqNo>::empty())),
            AppendResult::Appended(given) => commits_with(events, result) == Some((events, given@)),
            AppendResult::Failed => commits_with(events, result) is None,
            AppendResult::CheckPointed(slots) => {
                let fresh = slots@.filter_map(|slot: Option<SeqNo>| slot);
                if fresh.len() == 0 && events.len() > 0 {
                    commits_with(events, result) is None
                } else {
                    commits_with(events, result) == Some(
                        (
                            events.zip_with(slots@).filter_map(
                                |pair: (Event, Option<SeqNo>)|
                                    if pair.1 is Some {
                                        Some(pair.0)
                                    } else {
                                        None
                                    },
                            ),
                            fresh,
                        ),
                    )
                }
            },
        },
{
    if let AppendResult::CheckPointed(slots) = result {
        let n = events.len();
        lemma_fresh(events, slots@, n);
        assert(slots@.take(n as int) =~= slots@);
        assert(events.zip_with(slots@).take(n as int) =~= events.zip_with(slots@));
        lemma_fresh_len(slots@);
    }
}

/// What is fresh among the first events and slots.
proof fn lemma_fresh(events: Seq<Event>, slots: Seq<Option<SeqNo>>, n: nat)
    requires
        slots.len() == events.len(),
        n <= events.len(),
    ensures
        fresh_seqs(slots, n) == slots.take(n as int).filter_map(|slot: Option<SeqNo>| slot),
        fresh_events(events, slots, n) == events.zip_with(slots).take(n as int).filter_map(
            |pair: (Event, Option<SeqNo>)|
                if pair.1 is Some {
                    Some(pair.0)
                } else {
                    None
                },
        ),
    decreases n,
{
    if n > 0 {
        lemma_fresh(events, slots, (n - 1) as nat);
        let pairs = events.zip_with(slots);
        assert(slots.take(n as int).drop_last() =~= slots.take(n - 1));
        assert(slots.take(n as int).last() == slots[n - 1]);
        assert(pairs.take(n as int).drop_last() =~= pairs.take(n - 1));
        assert(pairs.take(n as int).last() == (events[n - 1], slots[n - 1]));
    }
}

/// Slots hold something fresh exactly where one of them is filled.
proof fn lemma_fresh_len(slots: Seq<Option<SeqNo>>)
    ensures
        slots.filter_map(|slot: Option<SeqNo>| slot).len() == 0 <==> forall|i: int|
            0 <= i < slots.len() ==> (#[trigger] slots[i]) is None,
    decreases slots.len(),
{
    if slots.len() > 0 {
        let rest = slots.drop_last();
        lemma_fresh_len(rest);
        if forall|i: int| 0 <= i < rest.len() ==> (#[trigger] rest[i]) is None {
            assert forall|i: int| 0 <= i < slots.len() - 1 implies (#[trigger] slots[i]) is None by {
                assert(rest[i] is None);
            }
        }
        if forall|i: int| 0 <= i < slots.len() ==> (#[trigger] slots[i]) is None {
            assert forall|i: int| 0 <= i < rest.len() implies (#[trigger] rest[i]) is None by {
                assert(slots[i] is None);
            }
        }
        assert(slots[slots.len() - 1] == slots.last());
    }
}

/// A projector's step takes the front of a batch up to where copies of recorded
/// facts and other messages first meet, and never nothing of something.
pub proof fn law_step_takes_one_sort(batch: Seq<(InboxOffset, Envelope)>, k: int)
    requires
        leads(batch, k),
    ensures
        0 <= k <= batch.len(),
        k == 0 ==> batch.len() == 0,
        forall|i: int, j: int|
            0 <= i < k && 0 <= j < k ==> ((#[trigger] batch[i]).1.recorded_origin is Some) == ((
            #[trigger] batch[j]).1.recorded_origin is Some),
        k < batch.len() ==> (batch[k].1.recorded_origin is Some) != (batch[k - 1].1.recorded_origin is Some),
{
}

/// A message-count cadence of `n` snapshots behind every `n`-th event of an
/// actor and behind no other: the first time once it recorded `n` events.
pub proof fn law_every_nth_event_is_a_boundary(n: u64, seq: int)
    requires
        n > 0,
        seq >= 0,
    ensures
        boundary(n, seq) <==> exists|k: int| k > 0 && seq + 1 == #[trigger] (k * n),
        boundary(n, n - 1),
        seq < n - 1 ==> !boundary(n, seq),
        boundary(n, seq) == boundary(n, seq + n),
{
    let m = n as int;
    vstd::arithmetic::div_mod::lemma_fundamental_div_mod(seq + 1, m);
    if boundary(n, seq) {
        let k = (seq + 1) / m;
        assert(seq + 1 == k * m) by (nonlinear_arith)
            requires
                seq + 1 == m * k + 0,
        ;
        assert(k > 0) by (nonlinear_arith)
            requires
                seq + 1 == k * m,
                seq >= 0,
                m > 0,
        ;
        assert(seq + 1 == k * n);
    }
    if exists|k: int| k > 0 && seq + 1 == #[trigger] (k * n) {
        let k = choose|k: int| k > 0 && seq + 1 == #[trigger] (k * n);
        vstd::arithmetic::div_mod::lemma_mod_multiples_basic(k, m);
    }
    vstd::arithmetic::div_mod::lemma_mod_self_0(m);
    if seq < n - 1 {
        vstd::arithmetic::div_mod::lemma_small_mod((seq + 1) as nat, m as nat);
    }
    vstd::arithmetic::div_mod::lemma_mod_add_multiples_vanish(seq + 1, m);
}

/// A settled step does all of what the batch came to: every event the journal
/// newly holds is folded under its seq, every one of them is broadcast once
/// under the actor's name with the seq it was recorded at (a projector's are
/// not), a message-count cadence snapshots behind each event it falls on, and
/// the actor stops exactly where a handler asked for it.
pub proof fn law_settled_step_does_it_all(
    settled: Settled,
    events: Seq<Event>,
    seqs: Seq<SeqNo>,
    path: ActorPath,
    is_projector: bool,
    outboxes: Seq<Outbox>,
    emits: Seq<Seq<char>>,
    cadence: SnapshotCadence,
    cause: TraceCtx,
    seq: u64,
)
    requires
        events.len() == seqs.len(),
        settled_under(settled, events, seqs, path, is_projector, outboxes, emits, cadence, cause),
    ensures
        settled.events@ == events,
        settled.seqs@ == seqs,
        settled.acks,
        seqs.len() > 0 ==> settled.last_seq == Some(seqs[seqs.len() - 1]),
        seqs.len() == 0 ==> settled.last_seq is None,
        settled.step == Step::Stop <==> exists|k: int|
            0 <= k < outboxes.len() && (#[trigger] outboxes[k])@.contains(Intent::StopSelf),
        settled.step == Step::Stop || settled.step == Step::Work,
        is_projector ==> settled.copies@.len() == 0,
        !is_projector ==> settled.copies@.len() == events.len(),
        forall|i: int|
            0 <= i < settled.copies@.len() ==> {
                let copy = #[trigger] settled.copies@[i];
                &&& copy.schema == events[i].schema
                &&& copy.payload == events[i].payload
                &&& copy.dest == Address::Schema(events[i].schema)
                &&& copy.from == Some(path)
                &&& copy.reply_to is None
                &&& copy.trace == cause
                &&& copy.recorded_origin == Some(RecordedOrigin { journal: path, seq: seqs[i] })
            },
        (exists|i: int| 0 <= i < settled.snapshots@.len() && (#[trigger] settled.snapshots@[i])@ == seq) <==> (
        seqs.len() > 0 && seqs[0]@ <= seq <= seqs[seqs.len() - 1]@ && match cadence {
            SnapshotCadence::Messages(n) => n > 0 && exists|k: int| k > 0 && seq + 1 == #[trigger] (k * n),
            _ => false,
        }),
{
    if let SnapshotCadence::Messages(n) = cadence {
        if n > 0 {
            law_every_nth_event_is_a_boundary(n, seq as int);
        }
    }
    assert(snapshots_at(cadence, seqs, seq) ==> has_seq(settled.snapshots@, seq));
    assert forall|k: int| 0 <= k < outboxes.len() implies stops((#[trigger] outboxes[k])@) == outboxes[k]@.contains(
        Intent::StopSelf,
    ) by {
        law_stop_is_recorded(outboxes[k]@);
    }
}

/// A dropped event dies as a message of its own: its schema and payload, from the
/// actor that emitted it and addressed to that actor, awaiting no reply, and not
/// the replay of a recorded fact.
pub proof fn law_dropped_event_is_returned(envelope: Envelope, path: ActorPath, event: Event)
    requires
        returns_event(envelope, path, event),
    ensures
        envelope.schema == event.schema,
        envelope.payload == event.payload,
        envelope.from == Some(path),
        envelope.dest == Address::Path(path),
        envelope.reply_to is None,
        envelope.recorded_origin is None,
{
}

/// A step that settles bare records nothing, sends nothing and acknowledges
/// nothing: it only says how it went.
pub proof fn law_bare_step_leaves_no_trace(settled: Settled, step: Step)
    requires
        settled_bare(settled, step),
    ensures
        settled.step == step,
        settled.events@ =~= Seq::empty(),
        settled.seqs@ =~= Seq::empty(),
        settled.last_seq is None,
        !settled.acks,
        settled.flushed.effects@ =~= Seq::empty(),
        settled.flushed.letters@ =~= Seq::empty(),
        !settled.flushed.stops,
        settled.copies@ =~= Seq::empty(),
        settled.snapshots@ =~= Seq::empty(),
{
}

} // verus!
