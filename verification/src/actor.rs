//! Actor identity and the vocabulary of an actor's life cycle.

use std::marker::PhantomData;

use vstd::prelude::*;

use crate::context::CmdCtx;
use crate::envelope::Event;
use crate::envelope::Events;
use crate::envelope::Payload;
use crate::journal::has_seq;
use crate::journal::lists_seq;
use crate::journal::JournalError;
use crate::journal::SeqNo;
use crate::json::Json;
use crate::json::JsonView;
use crate::schema::ActorManifest;
use crate::schema::Schema;
use crate::schema::SchemaId;
use crate::text::join;

verus! {

/// An actor's identity is its path: handles survive restarts because the
/// registry maps the path to a swappable endpoint slot.
#[derive(Debug, Hash)]
pub struct ActorPath {
    name: String,
}

impl View for ActorPath {
    type V = Seq<char>;

    closed spec fn view(&self) -> Seq<char> {
        self.name@
    }
}

impl ActorPath {
    /// Creates a path from a string.
    pub fn new(s: &str) -> (path: Self)
        ensures
            path@ == s@,
    {
        ActorPath { name: s.to_owned() }
    }

    /// The path as a string slice.
    pub fn as_str(&self) -> (s: &str)
        ensures
            s@ == self@,
    {
        self.name.as_str()
    }

    /// The bare name, as rendered to people.
    pub fn to_string(&self) -> (s: String)
        ensures
            s@ == self@,
    {
        self.name.clone()
    }

    /// Whether two paths name the same actor.
    pub fn same(&self, other: &ActorPath) -> (r: bool)
        ensures
            r == (self@ == other@),
    {
        self.name == other.name
    }
}

impl Clone for ActorPath {
    fn clone(&self) -> (path: Self)
        ensures
            path == *self,
    {
        ActorPath { name: self.name.clone() }
    }
}

impl PartialEq for ActorPath {
    fn eq(&self, other: &Self) -> (r: bool) {
        self.name == other.name
    }
}

impl vstd::std_specs::cmp::PartialEqSpecImpl for ActorPath {
    open spec fn obeys_eq_spec() -> bool {
        true
    }

    open spec fn eq_spec(&self, other: &Self) -> bool {
        self@ == other@
    }
}

impl Eq for ActorPath {}

/// Which of the two actor contracts an actor implements.
#[derive(Debug, Clone, Copy, PartialEq, Eq, Hash, Structural)]
pub enum ActorKind {
    /// Pure, journaled, replayable.
    EventSourced,
    /// Impure by design: handlers may wait, do I/O and ask.
    Service,
}

/// Why an actor's endpoint ceased to exist.
#[derive(Debug, Clone, Copy, PartialEq, Eq, Structural)]
pub enum StopReason {
    /// Finished on its own or was stopped gracefully.
    Normal,
    /// A handler panicked and the supervisor declined to restart it.
    Crashed,
    /// The restart budget was exhausted; escalated to the parent.
    Escalated,
    /// Idled past its declared passivation window.
    Passivated,
    /// Torn down by the graceful shutdown sweep.
    Shutdown,
}

/// How often an event-sourced actor takes journal snapshots.
#[derive(Debug, Clone, Copy, PartialEq, Eq, Structural)]
pub enum SnapshotCadence {
    /// Never snapshot: replay is always full.
    Off,
    /// Snapshot every `n` events, between messages.
    Messages(u64),
    /// Snapshot when at least this many milliseconds passed since the last
    /// one, checked while the actor idles.
    Time(u64),
}

impl Default for SnapshotCadence {
    fn default() -> (cadence: Self)
        ensures
            cadence == SnapshotCadence::Off,
    {
        SnapshotCadence::Off
    }
}

/// The state once a list of events was folded into it, in order.
pub open spec fn fold_all<A: EventSourcedActor>(state: A, events: Seq<Event>) -> A
    decreases events.len(),
{
    if events.len() == 0 {
        state
    } else {
        fold_all(state, events.drop_last()).folded(events.last())
    }
}

/// Event-sourced domain actor: pure, journaled, replayable.
///
/// A spec function that an implementor does not define stays open: nothing is
/// known of it beyond what the methods below say.
pub trait EventSourcedActor: Sized {
    /// The state once an event was folded into it.
    closed spec fn folded(self, event: Event) -> Self {
        arbitrary()
    }

    /// The state that spawn arguments seed.
    closed spec fn seeded(args: JsonView) -> Self {
        arbitrary()
    }

    /// The document a snapshot of the state is; `None` where it cannot be
    /// captured.
    closed spec fn frozen(self) -> Option<JsonView> {
        arbitrary()
    }

    /// The state a snapshot holds; `None` where it does not decode.
    closed spec fn thawed(snapshot: JsonView) -> Option<Self> {
        arbitrary()
    }

    /// Declares edges of the actor's own. The spawn builder merges them with
    /// those it was given.
    fn manifest() -> (manifest: ActorManifest) {
        ActorManifest::new()
    }

    /// Genesis state.
    fn restore(args: &Json) -> (state: Self)
        ensures
            state == Self::seeded(args@),
    ;

    /// The one mutation, for live application and replay alike.
    fn apply(&mut self, event: &Event)
        ensures
            *final(self) == old(self).folded(*event),
    ;

    /// Captures the state for a snapshot.
    fn capture(&self) -> (result: Result<Json, JournalError>)
        ensures
            match result {
                Ok(snapshot) => self.frozen() == Some(snapshot@),
                Err(error) => self.frozen() is None && error is Snapshot,
            },
    ;

    /// Rebuilds the state from a snapshot.
    fn restore_from(snapshot: &Json) -> (result: Result<Self, JournalError>)
        ensures
            match result {
                Ok(state) => Self::thawed(snapshot@) == Some(state),
                Err(error) => Self::thawed(snapshot@) is None && error is Restore,
            },
    ;

    /// Runs once when the actor stops gracefully.
    fn on_stop(&self) {
    }
}

/// A pure decision function for one command type.
pub trait CommandHandler<C>: EventSourcedActor {
    /// The events that follow from a command.
    closed spec fn decided(self, cmd: C, ctx: CmdCtx<'_>) -> Seq<Event> {
        arbitrary()
    }

    /// Decides which events follow from a command.
    fn handle(&self, cmd: C, ctx: &CmdCtx<'_>) -> (events: Events)
        ensures
            events@ == self.decided(cmd, *ctx),
    ;
}

/// What snapshots hold.
pub open spec fn taken_view(taken: Seq<(SeqNo, Json)>) -> Seq<(SeqNo, JsonView)> {
    taken.map_values(|snapshot: (SeqNo, Json)| (snapshot.0, snapshot.1@))
}

/// The snapshots taken while events are folded: the state behind each event whose
/// seq is asked for, where it can be captured.
pub open spec fn captures<A: EventSourcedActor>(state: A, events: Seq<Event>, seqs: Seq<SeqNo>, at: Seq<SeqNo>) -> Seq<
    (SeqNo, JsonView),
>
    decreases events.len(),
{
    if events.len() == 0 {
        Seq::empty()
    } else {
        let rest = captures(state, events.drop_last(), seqs.drop_last(), at);
        match fold_all(state, events).frozen() {
            Some(snapshot) => if has_seq(at, seqs.last()@) {
                rest.push((seqs.last(), snapshot))
            } else {
                rest
            },
            None => rest,
        }
    }
}

/// The live state of an event-sourced actor.
pub struct TypedEsState<A: EventSourcedActor> {
    state: A,
}

impl<A: EventSourcedActor> TypedEsState<A> {
    /// The state itself.
    pub closed spec fn holds(&self) -> A {
        self.state
    }

    /// Wraps live state.
    pub fn new(state: A) -> (shell: Self)
        ensures
            shell.holds() == state,
    {
        TypedEsState { state }
    }

    /// The state, for reading.
    pub fn state(&self) -> (state: &A)
        ensures
            *state == self.holds(),
    {
        &self.state
    }

    /// Applies one event.
    pub fn apply_erased(&mut self, event: &Event)
        ensures
            final(self).holds() == old(self).holds().folded(*event),
    {
        self.state.apply(event);
    }

    /// Captures the state for a snapshot.
    pub fn capture_erased(&self) -> (result: Result<Json, JournalError>)
        ensures
            match result {
                Ok(snapshot) => self.holds().frozen() == Some(snapshot@),
                Err(error) => self.holds().frozen() is None && error is Snapshot,
            },
    {
        self.state.capture()
    }

    /// Applies a batch's events in order, and captures the state behind each
    /// event whose seq is to be snapshotted. A state that cannot be captured is
    /// passed over.
    pub fn apply_batch(&mut self, events: &Vec<Event>, seqs: &Vec<SeqNo>, at: &Vec<SeqNo>) -> (taken: Vec<(SeqNo, Json)>)
        requires
            events@.len() == seqs@.len(),
        ensures
            final(self).holds() == fold_all(old(self).holds(), events@),
            taken_view(taken@) == captures(old(self).holds(), events@, seqs@, at@),
    {
        let ghost start = self.holds();
        let mut taken: Vec<(SeqNo, Json)> = Vec::new();
        let mut i: usize = 0;
        proof {
            assert(events@.take(0) =~= Seq::empty());
            assert(seqs@.take(0) =~= Seq::empty());
            assert(taken_view(taken@) =~= Seq::empty());
        }
        while i < events.len()
            invariant
                events@.len() == seqs@.len(),
                i <= events.len(),
                self.holds() == fold_all(start, events@.take(i as int)),
                taken_view(taken@) == captures(start, events@.take(i as int), seqs@.take(i as int), at@),
            decreases events.len() - i,
        {
            let ghost upto = events@.take(i + 1);
            let ghost numbers = seqs@.take(i + 1);
            let ghost before = taken@;
            assert(upto.drop_last() =~= events@.take(i as int));
            assert(upto.last() == events@[i as int]);
            assert(numbers.drop_last() =~= seqs@.take(i as int));
            assert(numbers.last() == seqs@[i as int]);
            self.apply_erased(&events[i]);
            if lists_seq(at, seqs[i]) {
                match self.capture_erased() {
                    Ok(snapshot) => {
                        taken.push((seqs[i], snapshot));
                        assert(taken_view(taken@) =~= taken_view(before).push((seqs@[i as int], snapshot@)));
                    },
                    Err(_) => {},
                }
            }
            i += 1;
        }
        assert(events@.take(i as int) =~= events@);
        assert(seqs@.take(i as int) =~= seqs@);
        taken
    }

    /// Rebuilds the state: from a snapshot or genesis, then the tail of events
    /// behind it. The instance that crashed is not looked at.
    pub fn rebuild(args: &Json, snapshot: Option<&Json>, tail: &Vec<Event>) -> (result: Result<Self, JournalError>)
        ensures
            match rebuilt_from::<A>(
                args@,
                match snapshot {
                    Some(snapshot) => Some(snapshot@),
                    None => None,
                },
            ) {
                Some(start) => result is Ok && result->Ok_0.holds() == fold_all(start, tail@),
                None => result is Err && result->Err_0 is Restore,
            },
    {
        let mut fresh = match snapshot {
            Some(snapshot) => match A::restore_from(snapshot) {
                Ok(state) => state,
                Err(error) => return Err(error),
            },
            None => A::restore(args),
        };
        let ghost start = fresh;
        let mut i: usize = 0;
        assert(tail@.take(0) =~= Seq::empty());
        while i < tail.len()
            invariant
                i <= tail.len(),
                fresh == fold_all(start, tail@.take(i as int)),
            decreases tail.len() - i,
        {
            let ghost upto = tail@.take(i + 1);
            assert(upto.drop_last() =~= tail@.take(i as int));
            assert(upto.last() == tail@[i as int]);
            fresh.apply(&tail[i]);
            i += 1;
        }
        assert(tail@.take(i as int) =~= tail@);
        Ok(TypedEsState { state: fresh })
    }
}

/// The state a rebuild starts from: the snapshot's, or what the arguments seed;
/// `None` where the snapshot does not decode.
pub open spec fn rebuilt_from<A: EventSourcedActor>(args: JsonView, snapshot: Option<JsonView>) -> Option<A> {
    match snapshot {
        Some(snapshot) => A::thawed(snapshot),
        None => Some(A::seeded(args)),
    }
}

/// Folding a history in two goes is folding it in one.
pub proof fn law_fold_continues<A: EventSourcedActor>(state: A, before: Seq<Event>, after: Seq<Event>)
    ensures
        fold_all(fold_all(state, before), after) == fold_all(state, before + after),
    decreases after.len(),
{
    if after.len() == 0 {
        assert(before + after =~= before);
    } else {
        law_fold_continues(state, before, after.drop_last());
        assert((before + after).drop_last() =~= before + after.drop_last());
        assert((before + after).last() == after.last());
    }
}

/// Replay and live application never diverge: a state rebuilt from a snapshot
/// and the tail behind it is the state that lived through the whole history.
pub proof fn law_replay_agrees<A: EventSourcedActor>(
    args: JsonView,
    history: Seq<Event>,
    tail: Seq<Event>,
    snapshot: JsonView,
)
    requires
        A::thawed(snapshot) == Some(fold_all(A::seeded(args), history)),
    ensures
        rebuilt_from::<A>(args, Some(snapshot)) is Some,
        fold_all(rebuilt_from::<A>(args, Some(snapshot))->0, tail) == fold_all(A::seeded(args), history + tail),
        rebuilt_from::<A>(args, None) == Some(A::seeded(args)),
{
    law_fold_continues(A::seeded(args), history, tail);
}

/// A snapshot is of the moment it is anchored at: where a batch's seqs continue a
/// history, each state captured is the one the history led to through the anchor.
pub proof fn law_snapshot_of_its_anchor<A: EventSourcedActor>(
    args: JsonView,
    before: Seq<Event>,
    events: Seq<Event>,
    seqs: Seq<SeqNo>,
    at: Seq<SeqNo>,
)
    requires
        seqs.len() == events.len(),
        forall|k: int| 0 <= k < seqs.len() ==> (#[trigger] seqs[k])@ == before.len() + k,
    ensures
        forall|i: int|
            #![trigger captures(fold_all(A::seeded(args), before), events, seqs, at)[i]]
            0 <= i < captures(fold_all(A::seeded(args), before), events, seqs, at).len() ==> {
                let (seq, snapshot) = captures(fold_all(A::seeded(args), before), events, seqs, at)[i];
                &&& before.len() <= seq@ < before.len() + events.len()
                &&& fold_all(A::seeded(args), (before + events).take(seq@ + 1)).frozen() == Some(snapshot)
            },
    decreases events.len(),
{
    let start = fold_all(A::seeded(args), before);
    if events.len() > 0 {
        let rest = captures(start, events.drop_last(), seqs.drop_last(), at);
        law_snapshot_of_its_anchor::<A>(args, before, events.drop_last(), seqs.drop_last(), at);
        law_fold_continues(A::seeded(args), before, events);
        let n = before.len() + events.len();
        assert((before + events).take(n as int) =~= before + events);
        assert forall|i: int|
            #![trigger captures(start, events, seqs, at)[i]]
            0 <= i < captures(start, events, seqs, at).len() implies {
            let (seq, snapshot) = captures(start, events, seqs, at)[i];
            &&& before.len() <= seq@ < n
            &&& fold_all(A::seeded(args), (before + events).take(seq@ + 1)).frozen() == Some(snapshot)
        } by {
            if i < rest.len() {
                let seq = rest[i].0;
                assert(captures(start, events, seqs, at)[i] == rest[i]);
                assert((before + events.drop_last()).take(seq@ + 1) =~= (before + events).take(seq@ + 1));
            } else {
                assert(captures(start, events, seqs, at)[i].0 == seqs.last());
            }
        }
    }
}

/// A read model: a state that folds other actors' recorded facts.
pub trait Projector: Sized {
    /// The state once a fact was folded into it.
    closed spec fn folded(self, event: Event) -> Self {
        arbitrary()
    }

    /// The state before any fact.
    closed spec fn genesis() -> Self {
        arbitrary()
    }

    /// The document a snapshot of the state is; `None` where it cannot be
    /// captured.
    closed spec fn frozen(self) -> Option<JsonView> {
        arbitrary()
    }

    /// The state a snapshot holds; `None` where it does not decode.
    closed spec fn thawed(snapshot: JsonView) -> Option<Self> {
        arbitrary()
    }

    /// The state before any fact.
    fn start() -> (state: Self)
        ensures
            state == Self::genesis(),
    ;

    /// The one fold, for history and live facts alike.
    fn apply(&mut self, event: &Event)
        ensures
            *final(self) == old(self).folded(*event),
    ;

    /// Captures the state for a snapshot.
    fn capture(&self) -> (result: Result<Json, JournalError>)
        ensures
            match result {
                Ok(snapshot) => self.frozen() == Some(snapshot@),
                Err(error) => self.frozen() is None && error is Snapshot,
            },
    ;

    /// Rebuilds the state from a snapshot.
    fn restore_from(snapshot: &Json) -> (result: Result<Self, JournalError>)
        ensures
            match result {
                Ok(state) => Self::thawed(snapshot@) == Some(state),
                Err(error) => Self::thawed(snapshot@) is None && error is Restore,
            },
    ;

    /// Runs once when the projector stops gracefully.
    fn on_stop(&self) {
    }
}

/// A projector's state once a list of facts was folded into it, in order.
pub open spec fn project_all<P: Projector>(state: P, events: Seq<Event>) -> P
    decreases events.len(),
{
    if events.len() == 0 {
        state
    } else {
        project_all(state, events.drop_last()).folded(events.last())
    }
}

/// The snapshots taken while facts are folded: the state behind each fact whose
/// seq is asked for, where it can be captured.
pub open spec fn projector_captures<P: Projector>(state: P, events: Seq<Event>, seqs: Seq<SeqNo>, at: Seq<SeqNo>) -> Seq<
    (SeqNo, JsonView),
>
    decreases events.len(),
{
    if events.len() == 0 {
        Seq::empty()
    } else {
        let rest = projector_captures(state, events.drop_last(), seqs.drop_last(), at);
        match project_all(state, events).frozen() {
            Some(snapshot) => if has_seq(at, seqs.last()@) {
                rest.push((seqs.last(), snapshot))
            } else {
                rest
            },
            None => rest,
        }
    }
}

/// The live state of a projector.
pub struct TypedProjectorState<P: Projector> {
    state: P,
}

impl<P: Projector> TypedProjectorState<P> {
    /// The state itself.
    pub closed spec fn holds(&self) -> P {
        self.state
    }

    /// Wraps live state.
    pub fn new(state: P) -> (shell: Self)
        ensures
            shell.holds() == state,
    {
        TypedProjectorState { state }
    }

    /// The state, for reading.
    pub fn state(&self) -> (state: &P)
        ensures
            *state == self.holds(),
    {
        &self.state
    }

    /// Applies one fact.
    pub fn apply_erased(&mut self, event: &Event)
        ensures
            final(self).holds() == old(self).holds().folded(*event),
    {
        self.state.apply(event);
    }

    /// Captures the state for a snapshot.
    pub fn capture_erased(&self) -> (result: Result<Json, JournalError>)
        ensures
            match result {
                Ok(snapshot) => self.holds().frozen() == Some(snapshot@),
                Err(error) => self.holds().frozen() is None && error is Snapshot,
            },
    {
        self.state.capture()
    }

    /// Applies a batch's events in order, and captures the state behind each
    /// event whose seq is to be snapshotted. A state that cannot be captured is
    /// passed over.
    pub fn apply_batch(&mut self, events: &Vec<Event>, seqs: &Vec<SeqNo>, at: &Vec<SeqNo>) -> (taken: Vec<(SeqNo, Json)>)
        requires
            events@.len() == seqs@.len(),
        ensures
            final(self).holds() == project_all(old(self).holds(), events@),
            taken_view(taken@) == projector_captures(old(self).holds(), events@, seqs@, at@),
    {
        let ghost start = self.holds();
        let mut taken: Vec<(SeqNo, Json)> = Vec::new();
        let mut i: usize = 0;
        proof {
            assert(events@.take(0) =~= Seq::empty());
            assert(seqs@.take(0) =~= Seq::empty());
            assert(taken_view(taken@) =~= Seq::empty());
        }
        while i < events.len()
            invariant
                events@.len() == seqs@.len(),
                i <= events.len(),
                self.holds() == project_all(start, events@.take(i as int)),
                taken_view(taken@) == projector_captures(start, events@.take(i as int), seqs@.take(i as int), at@),
            decreases events.len() - i,
        {
            let ghost upto = events@.take(i + 1);
            let ghost numbers = seqs@.take(i + 1);
            let ghost before = taken@;
            assert(upto.drop_last() =~= events@.take(i as int));
            assert(upto.last() == events@[i as int]);
            assert(numbers.drop_last() =~= seqs@.take(i as int));
            assert(numbers.last() == seqs@[i as int]);
            self.apply_erased(&events[i]);
            if lists_seq(at, seqs[i]) {
                match self.capture_erased() {
                    Ok(snapshot) => {
                        taken.push((seqs[i], snapshot));
                        assert(taken_view(taken@) =~= taken_view(before).push((seqs@[i as int], snapshot@)));
                    },
                    Err(_) => {},
                }
            }
            i += 1;
        }
        assert(events@.take(i as int) =~= events@);
        assert(seqs@.take(i as int) =~= seqs@);
        taken
    }

    /// Rebuilds the state: from a snapshot or the empty read model, then the
    /// tail of facts behind it. Spawn arguments play no part.
    pub fn rebuild(snapshot: Option<&Json>, tail: &Vec<Event>) -> (result: Result<Self, JournalError>)
        ensures
            match snapshot {
                Some(snapshot) => match P::thawed(snapshot@) {
                    Some(start) => result is Ok && result->Ok_0.holds() == project_all(start, tail@),
                    None => result is Err && result->Err_0 is Restore,
                },
                None => result is Ok && result->Ok_0.holds() == project_all(P::genesis(), tail@),
            },
    {
        let mut fresh = match snapshot {
            Some(snapshot) => match P::restore_from(snapshot) {
                Ok(state) => state,
                Err(error) => return Err(error),
            },
            None => P::start(),
        };
        let ghost start = fresh;
        let mut i: usize = 0;
        assert(tail@.take(0) =~= Seq::empty());
        while i < tail.len()
            invariant
                i <= tail.len(),
                fresh == project_all(start, tail@.take(i as int)),
            decreases tail.len() - i,
        {
            let ghost upto = tail@.take(i + 1);
            assert(upto.drop_last() =~= tail@.take(i as int));
            assert(upto.last() == tail@[i as int]);
            fresh.apply(&tail[i]);
            i += 1;
        }
        assert(tail@.take(i as int) =~= tail@);
        Ok(TypedProjectorState { state: fresh })
    }
}

/// Folding facts in two goes is folding them in one.
pub proof fn law_projection_continues<P: Projector>(state: P, before: Seq<Event>, after: Seq<Event>)
    ensures
        project_all(project_all(state, before), after) == project_all(state, before + after),
    decreases after.len(),
{
    if after.len() == 0 {
        assert(before + after =~= before);
    } else {
        law_projection_continues(state, before, after.drop_last());
        assert((before + after).drop_last() =~= before + after.drop_last());
        assert((before + after).last() == after.last());
    }
}

/// A projector's snapshot is of the moment it is anchored at.
pub proof fn law_projector_snapshot_of_its_anchor<P: Projector>(
    before: Seq<Event>,
    events: Seq<Event>,
    seqs: Seq<SeqNo>,
    at: Seq<SeqNo>,
)
    requires
        seqs.len() == events.len(),
        forall|k: int| 0 <= k < seqs.len() ==> (#[trigger] seqs[k])@ == before.len() + k,
    ensures
        forall|i: int|
            #![trigger projector_captures(project_all(P::genesis(), before), events, seqs, at)[i]]
            0 <= i < projector_captures(project_all(P::genesis(), before), events, seqs, at).len() ==> {
                let (seq, snapshot) = projector_captures(project_all(P::genesis(), before), events, seqs, at)[i];
                &&& before.len() <= seq@ < before.len() + events.len()
                &&& project_all(P::genesis(), (before + events).take(seq@ + 1)).frozen() == Some(snapshot)
            },
    decreases events.len(),
{
    let start = project_all(P::genesis(), before);
    if events.len() > 0 {
        let rest = projector_captures(start, events.drop_last(), seqs.drop_last(), at);
        law_projector_snapshot_of_its_anchor::<P>(before, events.drop_last(), seqs.drop_last(), at);
        law_projection_continues(P::genesis(), before, events);
        let n = before.len() + events.len();
        assert((before + events).take(n as int) =~= before + events);
        assert forall|i: int|
            #![trigger projector_captures(start, events, seqs, at)[i]]
            0 <= i < projector_captures(start, events, seqs, at).len() implies {
            let (seq, snapshot) = projector_captures(start, events, seqs, at)[i];
            &&& before.len() <= seq@ < n
            &&& project_all(P::genesis(), (before + events).take(seq@ + 1)).frozen() == Some(snapshot)
        } by {
            if i < rest.len() {
                let seq = rest[i].0;
                assert(projector_captures(start, events, seqs, at)[i] == rest[i]);
                assert((before + events.drop_last()).take(seq@ + 1) =~= (before + events).take(seq@ + 1));
            } else {
                assert(projector_captures(start, events, seqs, at)[i].0 == seqs.last());
            }
        }
    }
}

/// Errors surfaced while dispatching a command.
#[derive(Debug)]
pub enum DispatchError {
    /// The payload failed to decode into the handler's type.
    Decode(String),
    /// The state was not of the type the adapter was registered for.
    StateMismatch,
}

/// What a decode failure of a command says.
pub open spec fn command_mismatch(schema: Seq<char>) -> Seq<char> {
    "command "@ + schema + " did not match its schema"@
}

/// What a decode failure of a message says.
pub open spec fn message_mismatch(schema: Seq<char>) -> Seq<char> {
    "message "@ + schema + " did not match its schema"@
}

/// The dispatch of one command type to an event-sourced actor.
pub struct TypedEsAdapter<A, C> {
    schema: SchemaId,
    _actor: PhantomData<A>,
    _cmd: PhantomData<C>,
}

impl<A: CommandHandler<C>, C> TypedEsAdapter<A, C> {
    /// The command schema.
    pub closed spec fn handles(&self) -> SchemaId {
        self.schema
    }

    /// Creates the adapter for command schema `S`.
    pub fn new<S: Schema>() -> (adapter: Self)
        ensures
            adapter.handles()@ == S::declared_name(),
    {
        TypedEsAdapter { schema: S::schema_id(), _actor: PhantomData, _cmd: PhantomData }
    }

    /// The command schema.
    pub fn schema(&self) -> (schema: SchemaId)
        ensures
            schema == self.handles(),
    {
        self.schema.clone()
    }

    /// Runs the handler on a decoded command. It decides only: nothing is
    /// applied here.
    pub fn dispatch(&self, state: &TypedEsState<A>, decoded: Option<C>, ctx: &CmdCtx<'_>) -> (result: Result<
        Events,
        DispatchError,
    >)
        ensures
            match decoded {
                Some(cmd) => result is Ok && result->Ok_0@ == state.holds().decided(cmd, *ctx),
                None => result is Err && result->Err_0 is Decode && result->Err_0->Decode_0@ == command_mismatch(
                    self.handles()@,
                ),
            },
    {
        match decoded {
            Some(cmd) => Ok(state.state.handle(cmd, ctx)),
            None => Err(
                DispatchError::Decode(
                    join(join("command ", self.schema.as_str()).as_str(), " did not match its schema"),
                ),
            ),
        }
    }
}

/// A projector's entry: the delivered fact is the event.
#[derive(Debug)]
pub struct ConsumeEntry {
    schema: SchemaId,
}

impl ConsumeEntry {
    /// The consumed schema.
    pub closed spec fn consumes(&self) -> SchemaId {
        self.schema
    }

    /// Creates the entry for a consumed fact schema.
    pub fn new(schema: SchemaId) -> (entry: Self)
        ensures
            entry.consumes() == schema,
    {
        ConsumeEntry { schema }
    }

    /// The consumed schema.
    pub fn schema(&self) -> (schema: SchemaId)
        ensures
            schema == self.consumes(),
    {
        self.schema.clone()
    }

    /// Records the delivered fact as it is.
    pub fn dispatch(&self, payload: &Payload) -> (events: Events)
        ensures
            events@ == seq![Event { schema: self.consumes(), payload: *payload }],
    {
        let mut events = Events::new();
        events.push(Event::new(self.schema.clone(), payload.clone()));
        assert(events@ =~= seq![Event { schema: self.consumes(), payload: *payload }]);
        events
    }
}

/// The dispatch of one message type to a service.
pub struct TypedServiceAdapter<A, M> {
    schema: SchemaId,
    _actor: PhantomData<A>,
    _msg: PhantomData<M>,
}

impl<A, M> TypedServiceAdapter<A, M> {
    /// The message schema.
    pub closed spec fn handles(&self) -> SchemaId {
        self.schema
    }

    /// Creates the adapter for message schema `S`.
    pub fn new<S: Schema>() -> (adapter: Self)
        ensures
            adapter.handles()@ == S::declared_name(),
    {
        TypedServiceAdapter { schema: S::schema_id(), _actor: PhantomData, _msg: PhantomData }
    }

    /// The message schema.
    pub fn schema(&self) -> (schema: SchemaId)
        ensures
            schema == self.handles(),
    {
        self.schema.clone()
    }

    /// The decoded message, or the error of one that did not decode.
    pub fn decode(&self, decoded: Option<M>) -> (result: Result<M, DispatchError>)
        ensures
            match decoded {
                Some(msg) => result == Ok::<M, DispatchError>(msg),
                None => result is Err && result->Err_0 is Decode && result->Err_0->Decode_0@ == message_mismatch(
                    self.handles()@,
                ),
            },
    {
        match decoded {
            Some(msg) => Ok(msg),
            None => Err(
                DispatchError::Decode(
                    join(join("message ", self.schema.as_str()).as_str(), " did not match its schema"),
                ),
            ),
        }
    }
}

/// The document an actor defined outside Rust is rebuilt from: its snapshot, or
/// else its genesis state.
pub fn foreign_start(args: &Json, snapshot: Option<Json>) -> (state: Json)
    ensures
        match snapshot {
            Some(snapshot) => state == snapshot,
            None => state@ == args@,
        },
{
    match snapshot {
        Some(snapshot) => snapshot,
        None => args.clone(),
    }
}

/// Folding one event folds that event, and folding none changes nothing.
pub proof fn law_fold_one<A: EventSourcedActor>(state: A, event: Event)
    ensures
        fold_all(state, seq![event]) == state.folded(event),
        fold_all(state, Seq::empty()) == state,
{
    assert(seq![event].drop_last() =~= Seq::empty());
    assert(fold_all(state, seq![event].drop_last()) == state);
}

/// Projecting one event projects that event, and projecting none changes nothing.
pub proof fn law_project_one<P: Projector>(state: P, event: Event)
    ensures
        project_all(state, seq![event]) == state.folded(event),
        project_all(state, Seq::empty()) == state,
{
    assert(seq![event].drop_last() =~= Seq::empty());
    assert(project_all(state, seq![event].drop_last()) == state);
}

/// No snapshot that is asked for is left out: the state behind each event whose
/// seq is asked for is captured, where it can be.
pub proof fn law_no_snapshot_is_left_out<A: EventSourcedActor>(
    state: A,
    events: Seq<Event>,
    seqs: Seq<SeqNo>,
    at: Seq<SeqNo>,
    k: int,
)
    requires
        seqs.len() == events.len(),
        0 <= k < events.len(),
        exists|i: int| 0 <= i < at.len() && (#[trigger] at[i])@ == seqs[k]@,
    ensures
        fold_all(state, events.take(k + 1)).frozen() matches Some(snapshot) ==> captures(
            state,
            events,
            seqs,
            at,
        ).contains((seqs[k], snapshot)),
    decreases events.len(),
{
    let all = captures(state, events, seqs, at);
    if let Some(snapshot) = fold_all(state, events.take(k + 1)).frozen() {
        let last = events.len() - 1;
        if k < last {
            let (rest, numbers) = (events.drop_last(), seqs.drop_last());
            assert(rest.take(k + 1) =~= events.take(k + 1));
            assert(numbers[k] == seqs[k]);
            law_no_snapshot_is_left_out(state, rest, numbers, at, k);
            let before = captures(state, rest, numbers, at);
            let i = choose|i: int| 0 <= i < before.len() && before[i] == (seqs[k], snapshot);
            assert(all[i] == (seqs[k], snapshot));
        } else {
            assert(events.take(k + 1) =~= events);
            assert(has_seq(at, seqs[k]@));
            assert(all[all.len() - 1] == (seqs[k], snapshot));
        }
    }
}

/// No snapshot of a read model that is asked for is left out.
pub proof fn law_no_projector_snapshot_is_left_out<P: Projector>(
    state: P,
    events: Seq<Event>,
    seqs: Seq<SeqNo>,
    at: Seq<SeqNo>,
    k: int,
)
    requires
        seqs.len() == events.len(),
        0 <= k < events.len(),
        exists|i: int| 0 <= i < at.len() && (#[trigger] at[i])@ == seqs[k]@,
    ensures
        project_all(state, events.take(k + 1)).frozen() matches Some(snapshot) ==> projector_captures(
            state,
            events,
            seqs,
            at,
        ).contains((seqs[k], snapshot)),
    decreases events.len(),
{
    let all = projector_captures(state, events, seqs, at);
    if let Some(snapshot) = project_all(state, events.take(k + 1)).frozen() {
        let last = events.len() - 1;
        if k < last {
            let (rest, numbers) = (events.drop_last(), seqs.drop_last());
            assert(rest.take(k + 1) =~= events.take(k + 1));
            assert(numbers[k] == seqs[k]);
            law_no_projector_snapshot_is_left_out(state, rest, numbers, at, k);
            let before = projector_captures(state, rest, numbers, at);
            let i = choose|i: int| 0 <= i < before.len() && before[i] == (seqs[k], snapshot);
            assert(all[i] == (seqs[k], snapshot));
        } else {
            assert(events.take(k + 1) =~= events);
            assert(has_seq(at, seqs[k]@));
            assert(all[all.len() - 1] == (seqs[k], snapshot));
        }
    }
}

/// A rebuild starts from the snapshot where there is one, and otherwise from what
/// the arguments seed.
pub proof fn law_rebuild_start<A: EventSourcedActor>(args: JsonView, snapshot: JsonView)
    ensures
        rebuilt_from::<A>(args, Some(snapshot)) == A::thawed(snapshot),
        rebuilt_from::<A>(args, None) == Some(A::seeded(args)),
{
}

} // verus!
