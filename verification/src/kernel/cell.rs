//! What the runtime keeps for one actor across restarts, and what its loop does
//! between messages: duties, idling, recovery and stopping.

use vstd::prelude::*;

use crate::actor::fold_all;
use crate::actor::law_fold_continues;
use crate::actor::law_projection_continues;
use crate::actor::project_all;
use crate::actor::rebuilt_from;
use crate::actor::EventSourcedActor;
use crate::actor::Projector;
use crate::actor::SnapshotCadence;
use crate::actor::StopReason;
use crate::clock::Timestamp;
use crate::envelope::Event;
use crate::inbox::Inbox;
use crate::inbox::InboxView;
use crate::journal::events_of;
use crate::journal::facts;
use crate::journal::highest_snapshot;
use crate::journal::law_before_genesis_replays_all;
use crate::journal::law_highest_snapshot;
use crate::journal::law_tail_continues_snapshot;
use crate::journal::replays;
use crate::journal::JournalEntry;
use crate::journal::JournalView;
use crate::journal::JournaledEvent;
use crate::journal::Replay;
use crate::journal::SeqNo;
use crate::journal_daow::answers;
use crate::journal_daow::law_load_covers_every_event_once;
use crate::json::Json;
use crate::json::JsonView;
use crate::kernel::delivery::Watermark;
use crate::kernel::es_step::Step;

verus! {

/// One actor's bookkeeping. Only the actor's own loop writes it, and it
/// survives restarts.
#[derive(Debug, Clone, Copy, PartialEq, Eq, Structural)]
pub struct ActorCell {
    /// How many queued messages one step takes, at least one.
    pub step_batch: usize,
    /// The backpressure watermark.
    pub watermark: Watermark,
    /// Whether the actor's loop died and awaits supervision.
    pub crashed: bool,
    /// Whether the actor's stop hook was claimed.
    pub on_stop_done: bool,
    /// When the last step was completed; the spawn stamps it too.
    pub last_work_ms: u64,
    /// The last committed seq; `None` where nothing was ever committed.
    pub last_event_seq: Option<u64>,
    /// When the last timed snapshot was taken; `None` while unanchored.
    pub snapshot_anchor_ms: Option<u64>,
    /// The snapshot cadence.
    pub snapshot_policy: SnapshotCadence,
    /// After how many idle milliseconds the actor passivates.
    pub passivation: Option<u64>,
}

impl ActorCell {
    /// A cell that has done nothing yet.
    pub fn new(batch: usize) -> (cell: Self)
        ensures
            cell == (ActorCell {
                step_batch: if batch == 0 {
                    1
                } else {
                    batch
                },
                watermark: Watermark { high: None, fired: false },
                crashed: false,
                on_stop_done: false,
                last_work_ms: 0,
                last_event_seq: None,
                snapshot_anchor_ms: None,
                snapshot_policy: SnapshotCadence::Off,
                passivation: None,
            }),
    {
        ActorCell {
            step_batch: if batch == 0 {
                1
            } else {
                batch
            },
            watermark: Watermark::new(None),
            crashed: false,
            on_stop_done: false,
            last_work_ms: 0,
            last_event_seq: None,
            snapshot_anchor_ms: None,
            snapshot_policy: SnapshotCadence::Off,
            passivation: None,
        }
    }

    /// Claims the right to run the stop hook: only the first claim gets it.
    pub fn claim_on_stop(&mut self) -> (claimed: bool)
        ensures
            claimed == !old(self).on_stop_done,
            *final(self) == (ActorCell { on_stop_done: true, ..*old(self) }),
    {
        let claimed = !self.on_stop_done;
        self.on_stop_done = true;
        claimed
    }

    /// Marks the actor crashed.
    pub fn mark_crashed(&mut self)
        ensures
            *final(self) == (ActorCell { crashed: true, ..*old(self) }),
    {
        self.crashed = true;
    }

    /// Clears the crash flag.
    pub fn clear_crashed(&mut self)
        ensures
            *final(self) == (ActorCell { crashed: false, ..*old(self) }),
    {
        self.crashed = false;
    }

    /// Whether the actor is crashed.
    pub fn is_crashed(&self) -> (r: bool)
        ensures
            r == self.crashed,
    {
        self.crashed
    }

    /// Stamps a completed step. A message that is merely queued does not.
    pub fn stamp_work(&mut self, now: Timestamp)
        ensures
            *final(self) == (ActorCell { last_work_ms: now@, ..*old(self) }),
    {
        self.last_work_ms = now.as_millis();
    }

    /// Records the last committed seq, where the commit gave one.
    pub fn record_commit(&mut self, last: Option<SeqNo>)
        ensures
            *final(self) == match last {
                Some(seq) => ActorCell { last_event_seq: Some(seq@), ..*old(self) },
                None => *old(self),
            },
    {
        if let Some(seq) = last {
            self.last_event_seq = Some(seq.as_u64());
        }
    }

    /// Anchors the timed cadence at a snapshot that was taken.
    pub fn record_snapshot(&mut self, now: Timestamp)
        ensures
            *final(self) == (ActorCell { snapshot_anchor_ms: Some(now@), ..*old(self) }),
    {
        self.snapshot_anchor_ms = Some(now.as_millis());
    }

    /// When the timed snapshot falls due: only a timed cadence that is anchored
    /// and has something to snapshot.
    pub open spec fn snapshot_due(self) -> Option<int> {
        match (self.snapshot_policy, self.snapshot_anchor_ms, self.last_event_seq) {
            (SnapshotCadence::Time(interval), Some(anchor), Some(_)) => Some(anchor + interval),
            _ => None,
        }
    }

    /// Whether an idle actor snapshots: its cadence is timed and anchored, it
    /// has something to snapshot, and the interval has passed.
    pub open spec fn snapshots_on_idle(self, now: u64) -> bool {
        match (self.snapshot_policy, self.snapshot_anchor_ms, self.last_event_seq) {
            (SnapshotCadence::Time(interval), Some(anchor), Some(_)) => idle_for(anchor, now) >= interval,
            _ => false,
        }
    }

    /// Whether an idle actor passivates: its idle window has passed, and no
    /// shutdown sweep owns its end.
    pub open spec fn passivates_on_idle(self, now: u64, shutting_down: bool) -> bool {
        !shutting_down && self.passivation is Some && idle_for(self.last_work_ms, now) >= self.passivation->0
    }

    /// When the actor falls due for passivation.
    pub open spec fn passivation_due(self) -> Option<int> {
        match self.passivation {
            Some(idle) => Some(self.last_work_ms + idle),
            None => None,
        }
    }

    /// When the next duty falls due, clamped to the clock's range; `None` where
    /// no duty is armed.
    pub fn next_duty_due_ms(&self) -> (due: Option<u64>)
        ensures
            due == match earliest(self.snapshot_due(), self.passivation_due()) {
                Some(due) => Some(clamped(due)),
                None => None,
            },
    {
        let snapshot: Option<u64> = match (self.snapshot_policy, self.snapshot_anchor_ms, self.last_event_seq) {
            (SnapshotCadence::Time(interval), Some(anchor), Some(_)) => Some(anchor.saturating_add(interval)),
            _ => None,
        };
        let passivation: Option<u64> = match self.passivation {
            Some(idle) => Some(self.last_work_ms.saturating_add(idle)),
            None => None,
        };
        match (snapshot, passivation) {
            (Some(a), Some(b)) => if a < b {
                Some(a)
            } else {
                Some(b)
            },
            (Some(a), None) => Some(a),
            (None, b) => b,
        }
    }

    /// The seq to snapshot at while idle: the last committed one, once the
    /// interval has passed.
    pub fn snapshot_on_idle(&self, now: Timestamp) -> (seq: Option<SeqNo>)
        ensures
            match seq {
                Some(seq) => self.snapshots_on_idle(now@) && self.last_event_seq == Some(seq@),
                None => !self.snapshots_on_idle(now@),
            },
    {
        let interval: u64 = match self.snapshot_policy {
            SnapshotCadence::Time(interval) => interval,
            _ => return None,
        };
        match (self.snapshot_anchor_ms, self.last_event_seq) {
            (Some(anchor), Some(last)) => {
                let now: u64 = now.as_millis();
                if now.saturating_sub(anchor) < interval {
                    return None;
                }
                Some(SeqNo::new(last))
            },
            _ => None,
        }
    }

    /// Whether the actor passivates now: its idle window has passed, and no
    /// shutdown sweep owns its end.
    pub fn passivates(&self, now: Timestamp, shutting_down: bool) -> (r: bool)
        ensures
            r == self.passivates_on_idle(now@, shutting_down),
    {
        if shutting_down {
            return false;
        }
        match self.passivation {
            Some(idle) => now.as_millis().saturating_sub(self.last_work_ms) >= idle,
            None => false,
        }
    }

    /// The cell of a restarted actor: not crashed, its idle window starting
    /// now, its last seq the journal's head.
    pub fn restarted(&mut self, now: Timestamp, head: Option<u64>)
        ensures
            *final(self) == (ActorCell {
                crashed: false,
                last_work_ms: now@,
                last_event_seq: head,
                ..*old(self)
            }),
    {
        self.crashed = false;
        self.last_work_ms = now.as_millis();
        self.last_event_seq = head;
    }
}

/// The earlier of two times, where there are any.
pub open spec fn earliest(a: Option<int>, b: Option<int>) -> Option<int> {
    match (a, b) {
        (Some(x), Some(y)) => if x < y {
            Some(x)
        } else {
            Some(y)
        },
        (Some(x), None) => Some(x),
        (None, y) => y,
    }
}

/// A time, clamped to the clock's range.
pub open spec fn clamped(t: int) -> u64 {
    if t > u64::MAX {
        u64::MAX
    } else {
        t as u64
    }
}

/// How long an actor has idled.
pub open spec fn idle_for(last: u64, now: u64) -> int {
    if now < last {
        0
    } else {
        now - last
    }
}

/// How a loop waits while it idles.
#[derive(Debug, Clone, Copy, PartialEq, Eq, Structural)]
pub enum IdleWait {
    /// A duty is due.
    Due,
    /// Sleep this many milliseconds, or until a message or the shutdown.
    Sleep(u64),
    /// Park until a message or the shutdown.
    Park,
    /// Park until the injected clock moves, a message, or the shutdown.
    ParkOnClock,
}

/// How a loop waits for its next duty. A driven clock may jump, so a loop under
/// one never sleeps: it looks again whenever the clock moves.
pub open spec fn waits(due: Option<u64>, now: u64, driven_clock: bool) -> IdleWait {
    if driven_clock {
        if due is Some && due->0 <= now {
            IdleWait::Due
        } else {
            IdleWait::ParkOnClock
        }
    } else {
        match due {
            Some(due) => IdleWait::Sleep(if due < now {
                0
            } else {
                (due - now) as u64
            }),
            None => IdleWait::Park,
        }
    }
}

/// How a loop waits for its next duty.
pub fn idle_wait(due: Option<u64>, now: Timestamp, driven_clock: bool) -> (wait: IdleWait)
    ensures
        wait == waits(due, now@, driven_clock),
{
    if driven_clock {
        match due {
            Some(due) => if due <= now.as_millis() {
                IdleWait::Due
            } else {
                IdleWait::ParkOnClock
            },
            None => IdleWait::ParkOnClock,
        }
    } else {
        match due {
            Some(due) => IdleWait::Sleep(due.saturating_sub(now.as_millis())),
            None => IdleWait::Park,
        }
    }
}

/// An idle actor without duties never wakes on its own, and one with duties
/// wakes exactly when the earliest falls due.
pub proof fn law_idle_deadline(due: Option<u64>, now: u64)
    ensures
        due is None ==> waits(due, now, false) is Park,
        due matches Some(due) ==> waits(Some(due), now, false) == IdleWait::Sleep(
            idle_for(now, due) as u64,
        ),
{
}

/// Whether the earliest duty has fallen due.
pub open spec fn duty_due(cell: ActorCell, now: u64) -> bool {
    let due = earliest(cell.snapshot_due(), cell.passivation_due());
    due is Some && due->0 <= now
}

/// Whether a duty without an interval is looked at by a clock that stands
/// before the time the interval counts from.
pub open spec fn clock_behind(cell: ActorCell, now: u64) -> bool {
    ||| cell.snapshot_policy == SnapshotCadence::Time(0) && cell.last_event_seq is Some
        && cell.snapshot_anchor_ms is Some && now < cell.snapshot_anchor_ms->0
    ||| cell.passivation == Some(0u64) && now < cell.last_work_ms
}

/// A deadline and the check that consumes it agree: at the time a duty falls
/// due, and no earlier, the idle checks carry one out. A clock that went back
/// behind a duty without an interval is the one exception: the check answers at
/// once.
pub proof fn law_deadlines_agree(cell: ActorCell, now: u64)
    requires
        clock_behind(cell, now) ==> duty_due(cell, now),
    ensures
        cell.snapshots_on_idle(now) || cell.passivates_on_idle(now, false) <==> duty_due(cell, now),
{
}

/// What a loop does after a step.
#[derive(Debug, Clone, Copy, PartialEq, Eq, Structural)]
pub enum LoopNext {
    /// Stamp the work and step again.
    Stamp,
    /// Look after the duties, then idle.
    Duties,
    /// Leave the loop; the supervisor takes over.
    Leave,
    /// Exit gracefully, then leave the loop.
    Exit(StopReason),
}

/// What a loop does after a step. A shutdown is noticed before each step, not
/// here.
pub fn after_step(step: Step) -> (next: LoopNext)
    ensures
        next == match step {
            Step::Work => LoopNext::Stamp,
            Step::Idle => LoopNext::Duties,
            Step::Crashed => LoopNext::Leave,
            Step::Stop => LoopNext::Exit(StopReason::Normal),
        },
{
    match step {
        Step::Work => LoopNext::Stamp,
        Step::Idle => LoopNext::Duties,
        Step::Crashed => LoopNext::Leave,
        Step::Stop => LoopNext::Exit(StopReason::Normal),
    }
}

/// Whether a passivating actor steps once more: it drains what is queued, and a
/// step that does not commit ends the drain.
pub fn drains_on(has_mail: bool, last: Option<Step>) -> (r: bool)
    ensures
        r == (has_mail && (last is None || last == Some(Step::Work))),
{
    if !has_mail {
        return false;
    }
    match last {
        None => true,
        Some(step) => step == Step::Work,
    }
}

/// Leaves the loop's inbox behind: queued entries stay, and the door stays
/// open, so a restart delivers them again from the cursor.
pub fn drain_inbox_on_stop(inbox: &mut Inbox)
    ensures
        final(inbox)@ == (InboxView { open: true, ..old(inbox)@ }),
{
    inbox.close();
    inbox.reopen();
}

/// What an actor's state is rebuilt from.
pub struct Rebuild {
    /// The snapshot to start from; genesis where there is none.
    pub snapshot: Option<Json>,
    /// The events to fold over it, in order.
    pub tail: Vec<Event>,
}

/// The state a snapshot entry holds.
pub open spec fn snapshot_state(entry: Option<JournalEntry>) -> Option<Json> {
    match entry {
        Some(JournalEntry::Snapshot { state, .. }) => Some(state),
        _ => None,
    }
}

/// The state a snapshot entry holds.
fn take_state(entry: Option<JournalEntry>) -> (state: Option<Json>)
    ensures
        state == snapshot_state(entry),
{
    match entry {
        Some(JournalEntry::Snapshot { state, .. }) => Some(state),
        _ => None,
    }
}

/// What an actor is rebuilt from before its first step: nothing where the store
/// holds nothing to replay.
pub fn recover_at_boot(replay: Option<Replay>) -> (rebuild: Option<Rebuild>)
    ensures
        match replay {
            Some(replay) => if snapshot_state(replay.snapshot) is None && replay.tail@.len() == 0 {
                rebuild is None
            } else {
                rebuild is Some && rebuild->0.snapshot == snapshot_state(replay.snapshot) && rebuild->0.tail
                    == replay.tail
            },
            None => rebuild is None,
        },
{
    match replay {
        Some(replay) => {
            let snapshot = take_state(replay.snapshot);
            let tail = replay.tail;
            if snapshot.is_none() && tail.len() == 0 {
                None
            } else {
                Some(Rebuild { snapshot, tail })
            }
        },
        None => None,
    }
}

/// The highest seq of a history; `None` where it is empty.
pub open spec fn journal_head(events: Seq<JournaledEvent>) -> Option<u64>
    decreases events.len(),
{
    if events.len() == 0 {
        None
    } else {
        let seq = events.last().seq@;
        match journal_head(events.drop_last()) {
            Some(head) => if head < seq {
                Some(seq)
            } else {
                Some(head)
            },
            None => Some(seq),
        }
    }
}

/// The highest seq of a history.
fn head_of(events: &Vec<JournaledEvent>) -> (head: Option<u64>)
    ensures
        head == journal_head(events@),
{
    let mut head: Option<u64> = None;
    let mut i: usize = 0;
    assert(events@.take(0) =~= Seq::empty());
    while i < events.len()
        invariant
            i <= events.len(),
            head == journal_head(events@.take(i as int)),
        decreases events.len() - i,
    {
        let ghost upto = events@.take(i + 1);
        assert(upto.drop_last() =~= events@.take(i as int));
        assert(upto.last() == events@[i as int]);
        let seq: u64 = events[i].seq.as_u64();
        head = match head {
            Some(high) => if high < seq {
                Some(seq)
            } else {
                Some(high)
            },
            None => Some(seq),
        };
        i += 1;
    }
    assert(events@.take(i as int) =~= events@);
    head
}

/// What a crashed actor is rebuilt from, and the seq it stands at. It is always
/// rebuilt: one that crashed before its first append starts from genesis.
pub fn restart_es(replay: Option<Replay>) -> (restart: (Rebuild, Option<u64>))
    ensures
        match replay {
            Some(replay) => {
                &&& restart.0.snapshot == snapshot_state(replay.snapshot)
                &&& restart.0.tail == replay.tail
                &&& restart.1 == journal_head(replay.events@)
            },
            None => restart.0.snapshot is None && restart.0.tail@.len() == 0 && restart.1 is None,
        },
{
    match replay {
        Some(replay) => {
            let head = head_of(&replay.events);
            (Rebuild { snapshot: take_state(replay.snapshot), tail: replay.tail }, head)
        },
        None => (Rebuild { snapshot: None, tail: Vec::new() }, None),
    }
}

/// The document a snapshot entry holds.
pub open spec fn snapshot_view(entry: Option<JournalEntry>) -> Option<JsonView> {
    match snapshot_state(entry) {
        Some(state) => Some(state@),
        None => None,
    }
}

/// The read model a rebuild starts from: the snapshot's, or the empty one.
pub open spec fn projected_from<P: Projector>(snapshot: Option<JsonView>) -> Option<P> {
    match snapshot {
        Some(snapshot) => P::thawed(snapshot),
        None => Some(P::genesis()),
    }
}

/// A restart recovers what was lived: where the snapshot a replay starts from is of
/// the moment it is anchored at, the state rebuilt from it and its tail is the
/// state of the whole journal.
pub proof fn law_restart_recovers<A: EventSourcedActor>(args: JsonView, journal: JournalView, replay: Replay)
    requires
        journal.wf(),
        replays(replay, journal),
        highest_snapshot(journal.entries) matches Some(JournalEntry::Snapshot { seq, state }) ==> {
            &&& seq@ < journal.event_count
            &&& A::thawed(state@) == Some(
                fold_all(A::seeded(args), facts(events_of(journal.entries)).take(seq@ + 1)),
            )
        },
    ensures
        rebuilt_from::<A>(args, snapshot_view(replay.snapshot)) is Some,
        fold_all(rebuilt_from::<A>(args, snapshot_view(replay.snapshot))->0, replay.tail@) == fold_all(A::seeded(args), facts(events_of(journal.entries))),
{
    let events = events_of(journal.entries);
    law_highest_snapshot(journal.entries);
    match highest_snapshot(journal.entries) {
        Some(snapshot) => {
            let anchor = snapshot.at();
            law_tail_continues_snapshot(journal, anchor);
            let before = facts(events).take(anchor@ + 1);
            assert(replay.tail@ =~= facts(events).skip(anchor@ + 1));
            assert(before + replay.tail@ =~= facts(events));
            law_fold_continues(A::seeded(args), before, replay.tail@);
        },
        None => {
            law_before_genesis_replays_all(events);
        },
    }
}

/// A restarted projector shows what it showed: where the snapshot a replay starts
/// from is of the moment it is anchored at, the read model rebuilt from it and its
/// tail is that of the whole journal.
pub proof fn law_projector_restart_recovers<P: Projector>(journal: JournalView, replay: Replay)
    requires
        journal.wf(),
        replays(replay, journal),
        highest_snapshot(journal.entries) matches Some(JournalEntry::Snapshot { seq, state }) ==> {
            &&& seq@ < journal.event_count
            &&& P::thawed(state@) == Some(
                project_all(P::genesis(), facts(events_of(journal.entries)).take(seq@ + 1)),
            )
        },
    ensures
        projected_from::<P>(snapshot_view(replay.snapshot)) is Some,
        project_all(projected_from::<P>(snapshot_view(replay.snapshot))->0, replay.tail@) == project_all(P::genesis(), facts(events_of(journal.entries))),
{
    let events = events_of(journal.entries);
    law_highest_snapshot(journal.entries);
    match highest_snapshot(journal.entries) {
        Some(snapshot) => {
            let anchor = snapshot.at();
            law_tail_continues_snapshot(journal, anchor);
            let before = facts(events).take(anchor@ + 1);
            assert(replay.tail@ =~= facts(events).skip(anchor@ + 1));
            assert(before + replay.tail@ =~= facts(events));
            law_projection_continues(P::genesis(), before, replay.tail@);
        },
        None => {
            law_before_genesis_replays_all(events);
        },
    }
}

/// Which stop hook runs.
#[derive(Debug, Clone, Copy, PartialEq, Eq, Structural)]
pub enum StopHook {
    /// None: the shutdown sweep runs the hooks itself, or there is no instance.
    Nothing,
    /// The service's, with a context whose effects are flushed afterwards.
    Service,
    /// The entity's, over its folded state.
    Entity,
}

/// Which stop hook runs for an actor.
pub fn run_on_stop(shutting_down: bool, has_service: bool, has_state: bool) -> (hook: StopHook)
    ensures
        hook == if shutting_down {
            StopHook::Nothing
        } else if has_service {
            StopHook::Service
        } else if has_state {
            StopHook::Entity
        } else {
            StopHook::Nothing
        },
{
    if shutting_down {
        StopHook::Nothing
    } else if has_service {
        StopHook::Service
    } else if has_state {
        StopHook::Entity
    } else {
        StopHook::Nothing
    }
}

/// An actor passivates once it did no work for its window, not before, never
/// without a window and never while a shutdown sweep owns its end.
pub proof fn law_passivates_after_its_window(cell: ActorCell, now: u64)
    requires
        now >= cell.last_work_ms,
    ensures
        !cell.passivates_on_idle(now, true),
        cell.passivation is None ==> !cell.passivates_on_idle(now, false),
        cell.passivation matches Some(window) ==> (cell.passivates_on_idle(now, false) <==> cell.last_work_ms + window
            <= now),
        cell.passivation_due() == match cell.passivation {
            Some(window) => Some(cell.last_work_ms + window),
            None => None::<int>,
        },
{
}

/// A timed cadence snapshots once its interval has passed since the last one,
/// not before, never before anything was committed, and no other cadence does so
/// while the actor idles.
pub proof fn law_snapshots_after_its_interval(cell: ActorCell, now: u64)
    ensures
        cell.snapshots_on_idle(now) ==> cell.snapshot_policy is Time && cell.last_event_seq is Some
            && cell.snapshot_anchor_ms is Some,
        cell.snapshot_due() is Some <==> cell.snapshot_policy is Time && cell.last_event_seq is Some
            && cell.snapshot_anchor_ms is Some,
        cell.snapshot_policy matches SnapshotCadence::Time(interval) ==> cell.last_event_seq is Some ==> (
        cell.snapshot_anchor_ms matches Some(anchor) ==> {
            &&& cell.snapshot_due() == Some(anchor + interval)
            &&& now >= anchor ==> (cell.snapshots_on_idle(now) <==> anchor + interval <= now)
        }),
{
}

/// The next duty is the earlier of the two, and there is one where there is
/// either.
pub proof fn law_earliest_duty(a: Option<int>, b: Option<int>)
    ensures
        earliest(a, b) is None <==> a is None && b is None,
        earliest(a, b) matches Some(t) ==> {
            &&& a == Some(t) || b == Some(t)
            &&& a matches Some(x) ==> t <= x
            &&& b matches Some(y) ==> t <= y
        },
{
}

/// A deadline is told as it is, or as the clock's last instant where it lies
/// beyond.
pub proof fn law_deadlines_stay_on_the_clock(t: int)
    requires
        0 <= t,
    ensures
        t <= u64::MAX ==> clamped(t) == t,
        t > u64::MAX ==> clamped(t) == u64::MAX,
{
}

/// Under a driven clock a loop never sleeps: it acts where a duty is due, and
/// otherwise waits for the clock. Under a real one it sleeps until the duty is
/// due, and parks where there is none.
pub proof fn law_waits_for_the_next_duty(due: Option<u64>, now: u64)
    ensures
        waits(due, now, true) is Due <==> due is Some && due->0 <= now,
        waits(due, now, true) is Due || waits(due, now, true) is ParkOnClock,
        waits(due, now, false) is Park <==> due is None,
        due matches Some(due) ==> (waits(Some(due), now, false) matches IdleWait::Sleep(ms) && (due >= now ==> now + ms
            == due) && (due < now ==> ms == 0)),
{
}

/// The head of a history is its highest seq, and there is one exactly where
/// there is a history.
pub proof fn law_head_is_the_highest_seq(events: Seq<JournaledEvent>)
    ensures
        match journal_head(events) {
            Some(head) => {
                &&& exists|i: int| 0 <= i < events.len() && (#[trigger] events[i]).seq@ == head
                &&& forall|i: int| 0 <= i < events.len() ==> (#[trigger] events[i]).seq@ <= head
            },
            None => events.len() == 0,
        },
    decreases events.len(),
{
    if events.len() > 0 {
        let rest = events.drop_last();
        let last = events.len() - 1;
        law_head_is_the_highest_seq(rest);
        assert(events[last] == events.last());
        if let Some(head) = journal_head(rest) {
            let i = choose|i: int| 0 <= i < rest.len() && (#[trigger] rest[i]).seq@ == head;
            assert(events[i].seq@ == head);
        }
        assert forall|i: int| 0 <= i < events.len() implies (#[trigger] events[i]).seq@ <= journal_head(events)->0 by {
            if i < last {
                assert(rest[i] == events[i]);
            }
        }
    }
}

/// A restarted actor stands at the journal's last event.
pub proof fn law_restart_stands_at_the_head(journal: JournalView)
    requires
        journal.wf(),
    ensures
        journal_head(events_of(journal.entries)) == if journal.event_count == 0 {
            None
        } else {
            Some((journal.event_count - 1) as u64)
        },
{
    let events = events_of(journal.entries);
    law_head_is_the_highest_seq(events);
    if events.len() > 0 {
        assert(events[events.len() - 1].seq@ == events.len() - 1);
    }
}

/// A rebuild starts from what the snapshot holds, and from genesis where there is
/// none.
pub proof fn law_rebuild_starts_from_the_snapshot(seq: SeqNo, state: Json)
    ensures
        snapshot_state(Some(JournalEntry::Snapshot { seq, state })) == Some(state),
        snapshot_state(None) is None,
{
}

/// A restart from the database recovers what was lived, as one from memory does:
/// where the snapshot that a load answers is of the moment it is anchored at, the
/// state rebuilt from it and its tail is the state of the whole journal.
pub proof fn law_database_restart_recovers<A: EventSourcedActor>(args: JsonView, journal: JournalView, replay: Replay)
    requires
        journal.wf(),
        answers(Some(replay), journal),
        replay.snapshot matches Some(JournalEntry::Snapshot { seq, state }) ==> {
            &&& seq@ < journal.event_count
            &&& A::thawed(state@) == Some(
                fold_all(A::seeded(args), facts(events_of(journal.entries)).take(seq@ + 1)),
            )
        },
    ensures
        rebuilt_from::<A>(args, snapshot_view(replay.snapshot)) is Some,
        fold_all(rebuilt_from::<A>(args, snapshot_view(replay.snapshot))->0, replay.tail@) == fold_all(
            A::seeded(args),
            facts(events_of(journal.entries)),
        ),
{
    law_load_covers_every_event_once::<A>(replay, journal, A::seeded(args));
    let history = events_of(journal.entries).map_values(|entry: JournaledEvent| entry.event);
    assert(history =~= facts(events_of(journal.entries)));
}

} // verus!
