//! The write-behind half of a database journal backend.
//!
//! Appends are buffered writes: an authoritative in-memory [`Journal`] per
//! path plus the length of its durable prefix. The host flushes the suffixes
//! past the prefixes in one transaction and reports back; the frontiers move
//! only then. A failed flush leaves buffers and frontiers as they were.

use vstd::prelude::*;

use crate::actor::fold_all;
use crate::actor::law_fold_continues;
use crate::actor::ActorPath;
use crate::actor::EventSourcedActor;
use crate::envelope::AnyPayload;
use crate::envelope::Event;
use crate::envelope::PayloadBytes;
use crate::journal::appended;
use crate::journal::arrival_place;
use crate::journal::by_arrival;
use crate::journal::copy_facts;
use crate::journal::events_of;
use crate::journal::facts;
use crate::journal::highest_snapshot;
use crate::journal::holds;
use crate::journal::insert_by_arrival;
use crate::journal::law_before_genesis_replays_all;
use crate::journal::law_highest_snapshot;
use crate::journal::law_history_is_the_event_entries;
use crate::journal::law_tail_continues_snapshot;
use crate::journal::lemma_append_wf;
use crate::journal::lemma_arrival_place;
use crate::journal::numbered_from;
use crate::journal::replays;
use crate::journal::seeded;
use crate::journal::EventOrigin;
use crate::journal::Journal;
use crate::journal::JournalEntry;
use crate::journal::JournalError;
use crate::journal::JournalView;
use crate::journal::JournaledEvent;
use crate::journal::Replay;
use crate::journal::ScannedEvent;
use crate::journal::Seeded;
use crate::journal::SeqNo;
use crate::journal::WireEvent;
use crate::json::canonical;
use crate::json::depth;
use crate::json::json_bytes;
use crate::json::json_parsed;
use crate::json::Json;
use crate::json::JsonView;
use crate::json::MAX_DEPTH;
use crate::named_map::lemma_others_kept;
use crate::named_map::only_changes;
use crate::named_map::PathMap;
use crate::schema::lists;
use crate::schema::names_of;
use crate::schema::SchemaId;

verus! {

/// Knobs for the database journal backend.
#[derive(Debug, Clone, Copy, PartialEq, Eq, Structural)]
pub struct DaowConfig {
    /// How often the writer flushes pending entries, in milliseconds.
    pub flush_interval_ms: u64,
}

impl Default for DaowConfig {
    fn default() -> (config: Self)
        ensures
            config.flush_interval_ms == 500,
    {
        DaowConfig { flush_interval_ms: 500 }
    }
}

/// Number of leading entries in a path's in-memory journal that are durable.
#[derive(Debug, Clone, Copy, PartialEq, Eq, Structural)]
pub struct FlushedEntryCount {
    /// The number of entries.
    pub count: usize,
}

impl FlushedEntryCount {
    /// Nothing is durable.
    pub fn start() -> (count: Self)
        ensures
            count.count == 0,
    {
        FlushedEntryCount { count: 0 }
    }

    /// Everything before `end` is durable.
    pub fn through(end: usize) -> (count: Self)
        ensures
            count.count == end,
    {
        FlushedEntryCount { count: end }
    }

    /// The number of durable entries.
    pub fn as_usize(self) -> (n: usize)
        ensures
            n == self.count,
    {
        self.count
    }
}

/// One path's authoritative in-memory journal plus its durable prefix.
pub struct PathBuffer {
    /// The journal.
    pub journal: Journal,
    /// How many of its entries are durable.
    pub flushed_entry_count: FlushedEntryCount,
    /// A passivation waits for durability: remove the buffer once it is.
    pub drop_when_durable: bool,
    /// A cold read is building the journal; appends are refused meanwhile.
    pub activation_in_progress: bool,
}

/// A [`PathBuffer`] as a mathematical value.
#[verifier::ext_equal]
pub struct BufferView {
    /// The journal.
    pub journal: JournalView,
    /// How many of its entries are durable.
    pub flushed: nat,
    /// Whether to remove the buffer once it is durable.
    pub drop_when_durable: bool,
    /// Whether a cold read is building the journal.
    pub activating: bool,
}

impl View for PathBuffer {
    type V = BufferView;

    open spec fn view(&self) -> BufferView {
        BufferView {
            journal: self.journal@,
            flushed: self.flushed_entry_count.count as nat,
            drop_when_durable: self.drop_when_durable,
            activating: self.activation_in_progress,
        }
    }
}

impl BufferView {
    /// A buffer that holds nothing.
    pub open spec fn empty() -> BufferView {
        BufferView { journal: JournalView::genesis(), flushed: 0, drop_when_durable: false, activating: false }
    }

    /// Whether the journal numbers its events and the durable prefix lies
    /// within it.
    pub open spec fn wf(self) -> bool {
        self.journal.wf() && self.flushed <= self.journal.entries.len()
    }
}

impl PathBuffer {
    /// A buffer that holds nothing.
    pub fn new() -> (buffer: Self)
        ensures
            buffer@ == BufferView::empty(),
            buffer@.wf(),
    {
        PathBuffer {
            journal: Journal::new(),
            flushed_entry_count: FlushedEntryCount::start(),
            drop_when_durable: false,
            activation_in_progress: false,
        }
    }

    /// A placeholder for a journal that a cold read is building.
    pub fn activating() -> (buffer: Self)
        ensures
            buffer@ == (BufferView { activating: true, ..BufferView::empty() }),
            buffer@.wf(),
    {
        PathBuffer { activation_in_progress: true, ..PathBuffer::new() }
    }

    /// A journal read from the database: durable to its end.
    pub fn durable(journal: Journal) -> (buffer: Self)
        ensures
            buffer@ == (BufferView {
                journal: journal@,
                flushed: journal@.entries.len(),
                ..BufferView::empty()
            }),
            journal@.wf() ==> buffer@.wf(),
    {
        PathBuffer {
            flushed_entry_count: FlushedEntryCount::through(journal.len()),
            journal,
            drop_when_durable: false,
            activation_in_progress: false,
        }
    }
}

/// The buffer a path maps to; an empty one where it maps to nothing.
pub open spec fn buffer_at(buffers: Map<Seq<char>, PathBuffer>, path: Seq<char>) -> BufferView {
    if buffers.dom().contains(path) {
        buffers[path]@
    } else {
        BufferView::empty()
    }
}

/// The event row's kind code for a recorded fact.
pub const KIND_RECORDED: i64 = 0;

/// The event row's kind code for a re-recorded fact.
pub const KIND_CATCHUP: i64 = 1;

/// One event row on its way to the database.
pub struct PendingEventRow {
    /// The event's seq.
    pub seq: SeqNo,
    /// The kind code.
    pub kind: i64,
    /// The schema's name.
    pub schema: String,
    /// The wire encoding of the payload.
    pub payload: PayloadBytes,
    /// Why the journal holds the fact.
    pub origin: EventOrigin,
    /// The source journal of a re-recorded fact.
    pub catchup_source: Option<String>,
    /// The source seq of a re-recorded fact, as the database stores it.
    pub catchup_seq: Option<i64>,
    /// The arrival order.
    pub ingest_seq: u64,
}

/// One snapshot row on its way to the database.
pub struct PendingSnapshotRow {
    /// The anchor.
    pub seq: SeqNo,
    /// The state as JSON text.
    pub state: PayloadBytes,
}

/// One path's captured suffix and the frontier to install after commit.
pub struct PendingFlush {
    /// The path.
    pub path: ActorPath,
    /// The suffix's events, in order.
    pub events: Vec<PendingEventRow>,
    /// The suffix's last snapshot.
    pub snapshot: Option<PendingSnapshotRow>,
    /// The journal's length at capture.
    pub captured_end: FlushedEntryCount,
    /// Whether a passivation waits for this flush.
    pub drop_when_durable: bool,
}

/// What the frontier update needs once the transaction has committed.
pub struct FlushCompletion {
    /// The path.
    pub path: ActorPath,
    /// The journal's length at capture.
    pub captured_end: FlushedEntryCount,
    /// Whether a passivation waited for this flush.
    pub drop_when_durable: bool,
}

/// The 64 bits of an unsigned number read as a signed one, as the database
/// stores them.
pub open spec fn stored_bits(n: u64) -> i64 {
    n as i64
}

/// Whether `row` is the row of an event entry.
pub open spec fn row_of(row: PendingEventRow, entry: JournaledEvent) -> bool {
    &&& row.seq == entry.seq
    &&& row.schema@ == entry.event.schema@
    &&& row.payload@ == entry.event.payload@.wire()
    &&& row.origin == entry.origin
    &&& row.ingest_seq == entry.ingest_seq
    &&& match entry.origin {
        EventOrigin::Recorded => row.kind == KIND_RECORDED && row.catchup_source is None && row.catchup_seq is None,
        EventOrigin::CatchUp { source, source_seq } => {
            &&& row.kind == KIND_CATCHUP
            &&& row.catchup_source is Some && row.catchup_source->0@ == source@
            &&& row.catchup_seq == Some(stored_bits(source_seq@))
        },
    }
}

/// Encodes an event entry as a row; `None` for a snapshot.
pub fn serialize_event(entry: &JournalEntry) -> (row: Option<PendingEventRow>)
    ensures
        match (row, *entry) {
            (Some(row), JournalEntry::Event { seq, event, origin, ingest_seq }) => row_of(
                row,
                JournaledEvent { seq, event, origin, ingest_seq },
            ),
            (None, JournalEntry::Snapshot { .. }) => true,
            _ => false,
        },
{
    match entry {
        JournalEntry::Event { seq, event, origin, ingest_seq } => {
            let (kind, catchup_source, catchup_seq): (i64, Option<String>, Option<i64>) = match origin {
                EventOrigin::Recorded => (KIND_RECORDED, None, None),
                EventOrigin::CatchUp { source, source_seq } => {
                    let raw: u64 = source_seq.as_u64();
                    (KIND_CATCHUP, Some(source.to_string()), Some(raw as i64))
                },
            };
            Some(
                PendingEventRow {
                    seq: *seq,
                    kind,
                    schema: event.schema.to_string(),
                    payload: event.payload.wire_bytes(),
                    origin: origin.clone(),
                    catchup_source,
                    catchup_seq,
                    ingest_seq: *ingest_seq,
                },
            )
        },
        JournalEntry::Snapshot { .. } => None,
    }
}

/// Whether `rows` are the rows of event entries, one for one.
pub open spec fn rows_of(rows: Seq<PendingEventRow>, entries: Seq<JournaledEvent>) -> bool {
    rows.len() == entries.len() && forall|i: int|
        0 <= i < rows.len() ==> row_of(#[trigger] rows[i], entries[i])
}

/// The last snapshot among entries.
pub open spec fn final_snapshot(entries: Seq<JournalEntry>) -> Option<JournalEntry>
    decreases entries.len(),
{
    if entries.len() == 0 {
        None
    } else if entries.last() is Snapshot {
        Some(entries.last())
    } else {
        final_snapshot(entries.drop_last())
    }
}

/// Whether `row` is the row of the last snapshot among entries.
pub open spec fn snapshot_row_of(row: Option<PendingSnapshotRow>, entry: Option<JournalEntry>) -> bool {
    match (row, entry) {
        (Some(row), Some(JournalEntry::Snapshot { seq, state })) => {
            &&& row.seq == seq
            &&& row.state@ == json_bytes(state@)
            &&& canonical(state@) && depth(state@) <= MAX_DEPTH ==> json_parsed(row.state@) == Some(state@)
        },
        (None, None) => true,
        _ => false,
    }
}

/// The entries past a buffer's durable prefix.
pub open spec fn suffix(buffer: BufferView) -> Seq<JournalEntry> {
    buffer.journal.entries.skip(buffer.flushed as int)
}

/// Whether `flush` captures a buffer: the rows of everything past its durable
/// prefix, and the end of its journal.
pub open spec fn captures(flush: PendingFlush, path: Seq<char>, buffer: BufferView) -> bool {
    &&& flush.path@ == path
    &&& rows_of(flush.events@, events_of(suffix(buffer)))
    &&& snapshot_row_of(flush.snapshot, final_snapshot(suffix(buffer)))
    &&& flush.captured_end.count == buffer.journal.entries.len()
    &&& flush.drop_when_durable == buffer.drop_when_durable
}

/// Captures the suffix of one buffer.
fn capture(path: &ActorPath, buffer: &PathBuffer) -> (flush: PendingFlush)
    requires
        buffer@.wf(),
    ensures
        captures(flush, path@, buffer@),
{
    let entries = buffer.journal.entries();
    let start: usize = buffer.flushed_entry_count.as_usize();
    let end: usize = entries.len();
    let ghost past = suffix(buffer@);
    let mut events: Vec<PendingEventRow> = Vec::new();
    let mut snapshot: Option<PendingSnapshotRow> = None;
    let mut i: usize = start;
    assert(past.take(0) =~= Seq::empty());
    while i < end
        invariant
            entries@ == buffer@.journal.entries,
            past == suffix(buffer@),
            start == buffer@.flushed,
            end == entries.len(),
            start <= i <= end,
            rows_of(events@, events_of(past.take(i - start))),
            snapshot_row_of(snapshot, final_snapshot(past.take(i - start))),
        decreases end - i,
    {
        proof {
            let upto = past.take(i - start + 1);
            assert(upto.drop_last() =~= past.take(i - start));
            assert(upto.last() == entries@[i as int]);
        }
        match &entries[i] {
            JournalEntry::Event { .. } => {
                if let Some(row) = serialize_event(&entries[i]) {
                    events.push(row);
                }
            },
            JournalEntry::Snapshot { seq, state } => {
                snapshot = Some(PendingSnapshotRow { seq: *seq, state: PayloadBytes::from_json(state) });
            },
        }
        i += 1;
    }
    assert(past.take(end - start) =~= past);
    PendingFlush {
        path: path.clone(),
        events,
        snapshot,
        captured_end: FlushedEntryCount::through(end),
        drop_when_durable: buffer.drop_when_durable,
    }
}

/// The state every store method shares: the per-path buffers and the arrival
/// counter.
pub struct Shared {
    journals: PathMap<PathBuffer>,
    ingest_seq: u64,
}

/// The path a flush is confined to, if any.
pub open spec fn target_of(target: Option<&ActorPath>) -> Option<Seq<char>> {
    match target {
        Some(path) => Some(path@),
        None => None,
    }
}

/// Whether a path has entries past its durable prefix and is one that a flush
/// asks for.
pub open spec fn wants_flush(
    buffers: Map<Seq<char>, PathBuffer>,
    target: Option<Seq<char>>,
    path: Seq<char>,
) -> bool {
    &&& buffers.dom().contains(path)
    &&& buffers[path]@.flushed < buffers[path]@.journal.entries.len()
    &&& target matches Some(only) ==> only == path
}

/// Whether some flush is for a path.
pub open spec fn flushes(pending: Seq<PendingFlush>, path: Seq<char>) -> bool {
    exists|i: int| 0 <= i < pending.len() && (#[trigger] pending[i]).path@ == path
}

/// Whether `pending` captures exactly the buffers that a flush asks for, each
/// once.
pub open spec fn captures_all(
    pending: Seq<PendingFlush>,
    buffers: Map<Seq<char>, PathBuffer>,
    target: Option<Seq<char>>,
) -> bool {
    &&& forall|i: int|
        0 <= i < pending.len() ==> wants_flush(buffers, target, (#[trigger] pending[i]).path@) && captures(
            pending[i],
            pending[i].path@,
            buffers[pending[i].path@]@,
        )
    &&& forall|i: int, j: int|
        0 <= i < j < pending.len() ==> (#[trigger] pending[i]).path@ != (#[trigger] pending[j]).path@
    &&& forall|path: Seq<char>| #[trigger] wants_flush(buffers, target, path) ==> flushes(pending, path)
}

/// The buffers as mathematical values.
pub open spec fn views(buffers: Map<Seq<char>, PathBuffer>) -> Map<Seq<char>, BufferView> {
    Map::new(|path: Seq<char>| buffers.dom().contains(path), |path: Seq<char>| buffers[path]@)
}

/// The buffers once one completed flush is accounted for: the frontier moves to
/// the captured end, and a buffer whose passivation waited for it goes, unless
/// it has grown since.
pub open spec fn committed_one(
    buffers: Map<Seq<char>, BufferView>,
    done: FlushCompletion,
) -> Map<Seq<char>, BufferView> {
    let path = done.path@;
    if !buffers.dom().contains(path) {
        buffers
    } else {
        let moved = BufferView { flushed: done.captured_end.count as nat, ..buffers[path] };
        if moved.drop_when_durable && done.drop_when_durable {
            if moved.journal.entries.len() == done.captured_end.count {
                buffers.remove(path)
            } else {
                buffers.insert(path, BufferView { drop_when_durable: false, ..moved })
            }
        } else {
            buffers.insert(path, moved)
        }
    }
}

/// The buffers once completed flushes are accounted for, in order.
pub open spec fn committed(
    buffers: Map<Seq<char>, BufferView>,
    done: Seq<FlushCompletion>,
) -> Map<Seq<char>, BufferView>
    decreases done.len(),
{
    if done.len() == 0 {
        buffers
    } else {
        committed_one(committed(buffers, done.drop_last()), done.last())
    }
}

/// The completions of captured flushes.
pub fn completions(pending: &Vec<PendingFlush>) -> (done: Vec<FlushCompletion>)
    ensures
        done@.len() == pending@.len(),
        forall|i: int|
            0 <= i < pending@.len() ==> {
                &&& (#[trigger] done@[i]).path == pending@[i].path
                &&& done@[i].captured_end == pending@[i].captured_end
                &&& done@[i].drop_when_durable == pending@[i].drop_when_durable
            },
{
    let mut done: Vec<FlushCompletion> = Vec::new();
    let mut i: usize = 0;
    while i < pending.len()
        invariant
            i <= pending.len(),
            done@.len() == i,
            forall|j: int|
                0 <= j < i ==> {
                    &&& (#[trigger] done@[j]).path == pending@[j].path
                    &&& done@[j].captured_end == pending@[j].captured_end
                    &&& done@[j].drop_when_durable == pending@[j].drop_when_durable
                },
        decreases pending.len() - i,
    {
        done.push(
            FlushCompletion {
                path: pending[i].path.clone(),
                captured_end: pending[i].captured_end,
                drop_when_durable: pending[i].drop_when_durable,
            },
        );
        i += 1;
    }
    done
}

/// The events strictly after a snapshot's anchor; all of them without one.
pub open spec fn replay_events(events: Seq<JournaledEvent>, snapshot: Option<JournalEntry>) -> Seq<JournaledEvent>
    decreases events.len(),
{
    if events.len() == 0 {
        Seq::empty()
    } else {
        let rest = replay_events(events.drop_last(), snapshot);
        match snapshot {
            Some(anchor) => if events.last().seq@ > anchor.at()@ {
                rest.push(events.last())
            } else {
                rest
            },
            None => rest.push(events.last()),
        }
    }
}

/// Builds the replay of one authoritative journal; `None` when it holds
/// nothing.
pub fn build_replay(journal: &Journal) -> (replay: Option<Replay>)
    ensures
        answers(replay, journal@),
{
    let snapshot = match journal.last_snapshot() {
        Some(entry) => Some(entry.clone()),
        None => None,
    };
    let events = journal.events();
    if events.len() == 0 && snapshot.is_none() {
        return None;
    }
    let mut later: Vec<JournaledEvent> = Vec::new();
    let mut i: usize = 0;
    assert(events@.take(0) =~= Seq::empty());
    while i < events.len()
        invariant
            i <= events.len(),
            later@ == replay_events(events@.take(i as int), snapshot),
        decreases events.len() - i,
    {
        proof {
            let upto = events@.take(i + 1);
            assert(upto.drop_last() =~= events@.take(i as int));
            assert(upto.last() == events@[i as int]);
        }
        let keep = match &snapshot {
            Some(anchor) => events[i].seq.as_u64() > anchor.seq().as_u64(),
            None => true,
        };
        if keep {
            later.push(events[i].clone());
        }
        i += 1;
    }
    assert(events@.take(i as int) =~= events@);
    Some(Replay { snapshot, tail: copy_facts(&later), events })
}

impl Shared {
    /// The buffers by path.
    pub closed spec fn buffers(&self) -> Map<Seq<char>, PathBuffer> {
        self.journals@
    }

    /// The arrival order the next event gets.
    pub closed spec fn next_ingest(&self) -> u64 {
        self.ingest_seq
    }

    /// Whether every buffer is well formed.
    pub open spec fn wf(&self) -> bool {
        forall|p: Seq<char>| self.buffers().dom().contains(p) ==> (#[trigger] self.buffers()[p])@.wf()
    }

    /// A store over a database whose highest arrival order is `max_ingest`:
    /// the next event continues after it.
    pub fn build(max_ingest: Option<i64>) -> (shared: Self)
        requires
            max_ingest matches Some(max) ==> 0 <= max,
        ensures
            shared.buffers() == Map::<Seq<char>, PathBuffer>::empty(),
            shared.next_ingest() == match max_ingest {
                Some(max) => max + 1,
                None => 1,
            },
            shared.wf(),
    {
        let ingest_seq: u64 = match max_ingest {
            Some(max) => max as u64 + 1,
            None => 1,
        };
        Shared { journals: PathMap::new(), ingest_seq }
    }

    /// Appends events to a path's buffer. Refused while the path activates.
    pub fn buffer_append(&mut self, path: &ActorPath, events: &[Event]) -> (seqs: Result<Vec<SeqNo>, JournalError>)
        requires
            old(self).wf(),
            old(self).next_ingest() + events@.len() <= u64::MAX,
            buffer_at(old(self).buffers(), path@).journal.event_count + events@.len() <= u64::MAX,
        ensures
            final(self).wf(),
            match seqs {
                Ok(seqs) => {
                    let base = buffer_at(old(self).buffers(), path@);
                    &&& !base.activating
                    &&& only_changes(old(self).buffers(), path@, final(self).buffers())
                    &&& final(self).buffers()[path@]@ == (BufferView {
                        journal: appended(base.journal, events@, old(self).next_ingest()),
                        ..base
                    })
                    &&& final(self).next_ingest() == old(self).next_ingest() + events@.len()
                    &&& numbered_from(seqs@, base.journal.event_count, events@.len())
                },
                Err(error) => {
                    &&& buffer_at(old(self).buffers(), path@).activating
                    &&& error is Append
                    &&& *final(self) == *old(self)
                },
            },
    {
        let ghost before = *self;
        let ghost base = buffer_at(before.buffers(), path@);
        let ghost first = before.next_ingest();
        if self.is_activating(path) {
            return Err(JournalError::Append);
        }
        let mut buffer = match self.journals.take(path) {
            Some(buffer) => buffer,
            None => PathBuffer::new(),
        };
        let mut seqs: Vec<SeqNo> = Vec::new();
        let mut i: usize = 0;
        assert(events@.take(0) =~= Seq::empty());
        while i < events.len()
            invariant
                i <= events.len(),
                first + events@.len() <= u64::MAX,
                base.journal.event_count + events@.len() <= u64::MAX,
                base.wf(),
                self.ingest_seq == first + i,
                buffer@.wf(),
                buffer@ == (BufferView {
                    journal: appended(base.journal, events@.take(i as int), first),
                    ..base
                }),
                buffer@.journal.event_count == base.journal.event_count + i,
                self.journals@ == before.buffers().remove(path@),
                numbered_from(seqs@, base.journal.event_count, i as nat),
            decreases events.len() - i,
        {
            proof {
                let upto = events@.take(i + 1);
                assert(upto.drop_last() =~= events@.take(i as int));
                assert(upto.last() == events@[i as int]);
            }
            let ingest: u64 = self.ingest_seq;
            self.ingest_seq = self.ingest_seq + 1;
            seqs.push(buffer.journal.append_event(events[i].clone(), ingest));
            i += 1;
        }
        assert(events@.take(i as int) =~= events@);
        self.install(path, buffer, Ghost(before.buffers()));
        Ok(seqs)
    }

    /// Puts a buffer back that was taken out.
    fn install(&mut self, path: &ActorPath, buffer: PathBuffer, Ghost(before): Ghost<Map<Seq<char>, PathBuffer>>)
        requires
            old(self).buffers() == before.remove(path@),
            buffer@.wf(),
            forall|p: Seq<char>| before.dom().contains(p) ==> (#[trigger] before[p])@.wf(),
        ensures
            only_changes(before, path@, final(self).buffers()),
            final(self).buffers()[path@] == buffer,
            final(self).next_ingest() == old(self).next_ingest(),
            final(self).wf(),
    {
        let _previous = self.journals.put(path, buffer);
        proof {
            assert(self.buffers().remove(path@) =~= before.remove(path@));
            lemma_others_kept(before, path@, self.buffers());
        }
    }

    /// Whether a cold read is building the path's journal.
    pub fn is_activating(&self, path: &ActorPath) -> (r: bool)
        ensures
            r == buffer_at(self.buffers(), path@).activating,
    {
        match self.journals.get(path) {
            Some(buffer) => buffer.activation_in_progress,
            None => false,
        }
    }

    /// Appends a snapshot to a path's buffer. Refused while the path activates.
    pub fn buffer_append_snapshot(
        &mut self,
        path: &ActorPath,
        seq: SeqNo,
        state: Json,
        now_ms: u64,
    ) -> (result: Result<(), JournalError>)
        requires
            old(self).wf(),
        ensures
            final(self).wf(),
            match result {
                Ok(_) => {
                    let base = buffer_at(old(self).buffers(), path@);
                    &&& !base.activating
                    &&& only_changes(old(self).buffers(), path@, final(self).buffers())
                    &&& final(self).buffers()[path@]@ == (BufferView {
                        journal: base.journal.with_snapshot(seq, state, now_ms),
                        ..base
                    })
                    &&& final(self).next_ingest() == old(self).next_ingest()
                },
                Err(error) => {
                    &&& buffer_at(old(self).buffers(), path@).activating
                    &&& error is Snapshot
                    &&& *final(self) == *old(self)
                },
            },
    {
        let ghost before = *self;
        if self.is_activating(path) {
            return Err(JournalError::Snapshot);
        }
        let mut buffer = match self.journals.take(path) {
            Some(buffer) => buffer,
            None => PathBuffer::new(),
        };
        buffer.journal.append_snapshot(seq, state, now_ms);
        self.install(path, buffer, Ghost(before.buffers()));
        Ok(())
    }
}

impl Shared {
    /// Captures every requested path's unflushed suffix.
    pub fn collect_pending(&self, target: Option<&ActorPath>) -> (pending: Vec<PendingFlush>)
        requires
            self.wf(),
        ensures
            captures_all(pending@, self.buffers(), target_of(target)),
    {
        let ghost only = target_of(target);
        let ghost buffers = self.buffers();
        let ghost pairs = self.journals.pairs();
        let mut pending: Vec<PendingFlush> = Vec::new();
        let n = self.journals.len();
        let mut p: usize = 0;
        while p < n
            invariant
                self.wf(),
                buffers == self.buffers(),
                pairs == self.journals.pairs(),
                n == pairs.len(),
                only == target_of(target),
                forall|i: int, j: int| 0 <= i < j < n ==> (#[trigger] pairs[i]).0@ != (#[trigger] pairs[j]).0@,
                p <= n,
                forall|i: int|
                    0 <= i < pending@.len() ==> wants_flush(buffers, only, (#[trigger] pending@[i]).path@)
                        && captures(pending@[i], pending@[i].path@, buffers[pending@[i].path@]@) && walked(
                        pairs,
                        p as int,
                        pending@[i].path@,
                    ),
                forall|i: int, j: int|
                    0 <= i < j < pending@.len() ==> (#[trigger] pending@[i]).path@ != (#[trigger] pending@[j]).path@,
                forall|w: int|
                    0 <= w < p && wants_flush(buffers, only, (#[trigger] pairs[w]).0@) ==> flushes(
                        pending@,
                        pairs[w].0@,
                    ),
            decreases n - p,
        {
            let pair = self.journals.at(p);
            let (path, buffer) = (&pair.0, &pair.1);
            let asked = match target {
                Some(only) => *path == *only,
                None => true,
            };
            let ghost earlier = pending@;
            proof {
                assert forall|i: int| 0 <= i < earlier.len() implies (#[trigger] earlier[i]).path@ != path@ && walked(
                    pairs,
                    p + 1,
                    earlier[i].path@,
                ) by {
                    let w = choose|w: int| 0 <= w < p && (#[trigger] pairs[w]).0@ == earlier[i].path@;
                    assert(pairs[w].0@ != pairs[p as int].0@);
                }
                assert(walked(pairs, p + 1, path@)) by {
                    assert(pairs[p as int].0@ == path@);
                }
            }
            if asked && buffer.flushed_entry_count.as_usize() != buffer.journal.len() {
                pending.push(capture(path, buffer));
                proof {
                    assert(pending@[earlier.len() as int].path@ == path@);
                    assert forall|w: int| 0 <= w < p + 1 && wants_flush(
                        buffers,
                        only,
                        (#[trigger] pairs[w]).0@,
                    ) implies flushes(pending@, pairs[w].0@) by {
                        if w < p {
                            assert(flushes(earlier, pairs[w].0@));
                            let i = choose|i: int|
                                0 <= i < earlier.len() && (#[trigger] earlier[i]).path@ == pairs[w].0@;
                            assert(pending@[i] == earlier[i]);
                        }
                    }
                }
            }
            p += 1;
        }
        proof {
            assert forall|path: Seq<char>| #[trigger] wants_flush(buffers, only, path) implies flushes(
                pending@,
                path,
            ) by {
                self.journals.lemma_pairs(path);
                let w = choose|w: int| 0 <= w < pairs.len() && (#[trigger] pairs[w]).0@ == path;
                assert(wants_flush(buffers, only, pairs[w].0@));
            }
        }
        pending
    }

    /// Accounts for flushes whose transaction has committed.
    pub fn commit_flush(&mut self, done: &Vec<FlushCompletion>)
        requires
            old(self).wf(),
            forall|i: int|
                0 <= i < done@.len() && old(self).buffers().dom().contains((#[trigger] done@[i]).path@)
                    ==> done@[i].captured_end.count <= old(self).buffers()[done@[i].path@]@.journal.entries.len(),
        ensures
            final(self).wf(),
            views(final(self).buffers()) == committed(views(old(self).buffers()), done@),
            final(self).next_ingest() == old(self).next_ingest(),
    {
        let ghost before = self.buffers();
        let mut i: usize = 0;
        assert(done@.take(0) =~= Seq::empty());
        while i < done.len()
            invariant
                i <= done.len(),
                self.wf(),
                self.next_ingest() == old(self).next_ingest(),
                views(self.buffers()) == committed(views(before), done@.take(i as int)),
                forall|p: Seq<char>| #[trigger]
                    self.buffers().dom().contains(p) ==> before.dom().contains(p) && self.buffers()[p]@.journal
                        == before[p]@.journal,
                forall|j: int|
                    0 <= j < done@.len() && before.dom().contains((#[trigger] done@[j]).path@)
                        ==> done@[j].captured_end.count <= before[done@[j].path@]@.journal.entries.len(),
            decreases done.len() - i,
        {
            proof {
                let upto = done@.take(i + 1);
                assert(upto.drop_last() =~= done@.take(i as int));
                assert(upto.last() == done@[i as int]);
            }
            let completion = &done[i];
            let ghost now = self.buffers();
            let ghost path = completion.path@;
            if let Some(buffer) = self.journals.take(&completion.path) {
                let mut buffer = buffer;
                buffer.flushed_entry_count = completion.captured_end;
                let mut keep = true;
                if buffer.drop_when_durable && completion.drop_when_durable {
                    if buffer.journal.len() == completion.captured_end.as_usize() {
                        keep = false;
                    } else {
                        buffer.drop_when_durable = false;
                    }
                }
                if keep {
                    let ghost kept = buffer@;
                    self.install(&completion.path, buffer, Ghost(now));
                    proof {
                        lemma_others_kept(now, path, self.buffers());
                        assert(views(self.buffers()) =~= views(now).insert(path, kept));
                    }
                } else {
                    assert(views(self.buffers()) =~= views(now).remove(path));
                }
            } else {
                assert(self.buffers() =~= now);
            }
            i += 1;
        }
        assert(done@.take(i as int) =~= done@);
    }

    /// Begins a passivation: marks the path's buffer for removal and captures
    /// what is still to be made durable. With nothing to flush the buffer goes
    /// at once.
    pub fn begin_passivation(&mut self, path: &ActorPath) -> (pending: Vec<PendingFlush>)
        requires
            old(self).wf(),
        ensures
            final(self).wf(),
            final(self).next_ingest() == old(self).next_ingest(),
            if wants_flush(old(self).buffers(), Some(path@), path@) {
                &&& views(final(self).buffers()) == views(old(self).buffers()).insert(
                    path@,
                    BufferView { drop_when_durable: true, ..old(self).buffers()[path@]@ },
                )
                &&& captures_all(pending@, final(self).buffers(), Some(path@))
                &&& pending@.len() == 1
            } else {
                &&& final(self).buffers() == old(self).buffers().remove(path@)
                &&& pending@.len() == 0
            },
    {
        let ghost before = self.buffers();
        match self.journals.take(path) {
            Some(buffer) => {
                if buffer.flushed_entry_count.as_usize() == buffer.journal.len() {
                    return Vec::new();
                }
                let mut buffer = buffer;
                buffer.drop_when_durable = true;
                let ghost marked = buffer@;
                self.install(path, buffer, Ghost(before));
                proof {
                    lemma_others_kept(before, path@, self.buffers());
                    assert(views(self.buffers()) =~= views(before).insert(path@, marked));
                }
                let pending = self.collect_pending(Some(path));
                proof {
                    assert(wants_flush(self.buffers(), Some(path@), path@));
                    assert(flushes(pending@, path@));
                    if pending@.len() > 1 {
                        assert(pending@[0].path@ != pending@[1].path@);
                    }
                }
                pending
            },
            None => Vec::new(),
        }
    }
}

/// Whether a path is among the first `n` of a walk.
spec fn walked(pairs: Seq<(ActorPath, PathBuffer)>, n: int, path: Seq<char>) -> bool {
    exists|w: int| 0 <= w < n && (#[trigger] pairs[w]).0@ == path
}

/// One stored event row read back from the database, its origin column decoded
/// where it decodes.
pub struct StoredEventRow {
    /// The seq column.
    pub seq: i64,
    /// The schema column.
    pub schema: String,
    /// The payload column.
    pub payload: PayloadBytes,
    /// The origin column; `None` where it did not decode.
    pub origin: Option<EventOrigin>,
    /// The arrival-order column.
    pub ingest_seq: i64,
}

/// The 64 bits of a stored number read as an unsigned one.
pub open spec fn loaded_bits(n: i64) -> u64 {
    n as u64
}

/// Whether `event` is the event a row stores.
pub open spec fn row_event(row: StoredEventRow, event: Event) -> bool {
    event.schema@ == row.schema@ && event.payload@ == AnyPayload::Bytes(row.payload)
}

/// Whether `fact` is the fact a row of `journal` stores.
pub open spec fn row_fact(journal: Seq<char>, row: StoredEventRow, fact: ScannedEvent) -> bool {
    &&& fact.journal@ == journal
    &&& fact.seq@ == loaded_bits(row.seq)
    &&& fact.ingest_seq == loaded_bits(row.ingest_seq)
    &&& row_event(row, fact.event)
}

impl StoredEventRow {
    /// Whether the payload column holds JSON text.
    pub fn is_json(&self) -> (r: bool)
        ensures
            r == (json_parsed(self.payload@) is Some),
    {
        self.payload.is_json_text()
    }

    /// Decodes into the replay shape. Fails where the origin did not decode.
    pub fn into_journaled(self) -> (event: Result<JournaledEvent, JournalError>)
        requires
            json_parsed(self.payload@) is Some,
        ensures
            match event {
                Ok(entry) => {
                    &&& self.origin == Some(entry.origin)
                    &&& entry.seq@ == loaded_bits(self.seq)
                    &&& entry.ingest_seq == loaded_bits(self.ingest_seq)
                    &&& row_event(self, entry.event)
                },
                Err(error) => self.origin is None && error is Load,
            },
    {
        match self.origin {
            Some(origin) => {
                let wire = WireEvent { schema: SchemaId::new(self.schema.as_str()), payload: self.payload };
                Ok(
                    JournaledEvent {
                        seq: SeqNo::new(self.seq as u64),
                        event: wire.into_event(),
                        origin,
                        ingest_seq: self.ingest_seq as u64,
                    },
                )
            },
            None => Err(JournalError::Load),
        }
    }

    /// Decodes into a scan row; `None` for anything but a recorded fact.
    pub fn into_scanned(self, journal: ActorPath) -> (fact: Option<ScannedEvent>)
        requires
            json_parsed(self.payload@) is Some,
        ensures
            match fact {
                Some(fact) => self.origin == Some(EventOrigin::Recorded) && row_fact(journal@, self, fact),
                None => self.origin != Some(EventOrigin::Recorded),
            },
    {
        let recorded = match &self.origin {
            Some(EventOrigin::Recorded) => true,
            _ => false,
        };
        if !recorded {
            return None;
        }
        let wire = WireEvent { schema: SchemaId::new(self.schema.as_str()), payload: self.payload };
        Some(
            ScannedEvent {
                journal,
                seq: SeqNo::new(self.seq as u64),
                ingest_seq: self.ingest_seq as u64,
                event: wire.into_event(),
            },
        )
    }
}

/// Whether every row's payload is JSON text.
pub open spec fn rows_json(rows: Seq<StoredEventRow>) -> bool {
    forall|i: int| 0 <= i < rows.len() ==> json_parsed((#[trigger] rows[i]).payload@) is Some
}

/// Whether every row's origin decoded.
pub open spec fn rows_decode(rows: Seq<StoredEventRow>) -> bool {
    forall|i: int| 0 <= i < rows.len() ==> (#[trigger] rows[i]).origin is Some
}

/// Whether `events` are the events that rows store, in order and renumbered
/// from zero.
pub open spec fn rebuilt(events: Seq<JournaledEvent>, rows: Seq<StoredEventRow>) -> bool {
    &&& events.len() == rows.len()
    &&& forall|i: int|
        0 <= i < rows.len() ==> {
            &&& (#[trigger] events[i]).seq@ == i
            &&& Some(events[i].origin) == rows[i].origin
            &&& events[i].ingest_seq == loaded_bits(rows[i].ingest_seq)
            &&& row_event(rows[i], events[i].event)
        }
}

/// The tree of a snapshot's text; `None` where it does not decode.
pub open spec fn snapshot_state(snapshot: Option<(i64, PayloadBytes)>) -> Option<JsonView> {
    match snapshot {
        Some((_, text)) => json_parsed(text@),
        None => None,
    }
}

/// Whether `journal` is the journal that stored rows and a stored snapshot
/// make: the events in row order, then the snapshot.
pub open spec fn rebuilt_journal(
    journal: JournalView,
    rows: Seq<StoredEventRow>,
    snapshot: Option<(i64, PayloadBytes)>,
) -> bool {
    &&& journal.wf()
    &&& rebuilt(events_of(journal.entries), rows)
    &&& match snapshot {
        Some((seq, text)) => {
            &&& journal.entries.len() == rows.len() + 1
            &&& journal.entries.last() matches JournalEntry::Snapshot { seq: anchor, state } && anchor@ == loaded_bits(
                seq,
            ) && json_parsed(text@) == Some(state@)
            &&& journal.last_snapshot_ms == Some(0u64)
        },
        None => journal.entries.len() == rows.len() && journal.last_snapshot_ms is None,
    }
}

/// Assembles a journal from stored rows: events first, then the snapshot as an
/// entry. Fails where an origin or the snapshot does not decode.
pub fn rebuild_journal(
    rows: Vec<StoredEventRow>,
    snapshot: Option<(i64, PayloadBytes)>,
) -> (journal: Result<Journal, JournalError>)
    requires
        rows_json(rows@),
    ensures
        match journal {
            Ok(journal) => {
                &&& rows_decode(rows@)
                &&& rebuilt_journal(journal@, rows@, snapshot)
            },
            Err(error) => {
                &&& error is Load
                &&& !rows_decode(rows@) || (snapshot is Some && snapshot_state(snapshot) is None)
            },
        },
{
    let ghost all = rows@;
    let total: usize = rows.len();
    let mut journal = Journal::new();
    let mut rest = rows;
    let mut reversed: Vec<StoredEventRow> = Vec::new();
    assert(all.take(all.len() as int) =~= all);
    while rest.len() > 0
        invariant
            rest@.len() <= all.len(),
            rest@ == all.take(rest@.len() as int),
            reversed@.len() == all.len() - rest@.len(),
            forall|i: int| 0 <= i < reversed@.len() ==> #[trigger] reversed@[i] == all[all.len() - 1 - i],
        decreases rest.len(),
    {
        let ghost k = rest@.len() - 1;
        if let Some(row) = rest.pop() {
            reversed.push(row);
        }
        assert(rest@ =~= all.take(k));
    }
    let ghost mut n: int = 0;
    assert(all.take(0) =~= Seq::empty());
    while reversed.len() > 0
        invariant
            all == rows@,
            rows_json(all),
            total == all.len(),
            0 <= n <= all.len(),
            reversed@.len() == all.len() - n,
            forall|i: int| 0 <= i < reversed@.len() ==> #[trigger] reversed@[i] == all[all.len() - 1 - i],
            rows_decode(all.take(n)),
            rebuilt_journal(journal@, all.take(n), None),
            journal@.event_count == n,
        decreases reversed.len(),
    {
        assert(reversed@[reversed@.len() - 1] == all[n]);
        let ghost before = journal@;
        if let Some(row) = reversed.pop() {
            assert(row == all[n]);
            match row.into_journaled() {
                Ok(entry) => {
                    let _seq = journal.append_event_with_origin(entry.event, entry.origin, entry.ingest_seq);
                    proof {
                        lemma_append_wf(before, entry.event, entry.origin, entry.ingest_seq);
                        let (had, has) = (events_of(before.entries), events_of(journal@.entries));
                        assert(all.take(n + 1) =~= all.take(n).push(all[n]));
                        assert forall|i: int| 0 <= i < n + 1 implies {
                            &&& (#[trigger] has[i]).seq@ == i
                            &&& Some(has[i].origin) == all.take(n + 1)[i].origin
                            &&& has[i].ingest_seq == loaded_bits(all.take(n + 1)[i].ingest_seq)
                            &&& row_event(all.take(n + 1)[i], has[i].event)
                        } by {
                            if i < n {
                                assert(has[i] == had[i]);
                                assert(all.take(n)[i] == all[i]);
                            }
                        }
                        assert forall|i: int| 0 <= i < n + 1 implies (
                        #[trigger] all.take(n + 1)[i]).origin is Some by {
                            if i < n {
                                assert(all.take(n)[i].origin is Some);
                            }
                        }
                    }
                },
                Err(_) => {
                    assert(all[n].origin is None);
                    return Err(JournalError::Load);
                },
            }
        }
        proof {
            n = n + 1;
        }
    }
    assert(all.take(n) =~= all);
    if let Some((seq, text)) = snapshot {
        match Json::from_slice(text.as_bytes()) {
            Some(state) => {
                let ghost before = journal@;
                journal.append_snapshot(SeqNo::new(seq as u64), state, 0);
                assert(journal@.entries.drop_last() =~= before.entries);
            },
            None => {
                return Err(JournalError::Load);
            },
        }
    }
    Ok(journal)
}

/// Assembles a journal from stored rows; `None` when some row's payload is not
/// JSON text.
pub fn try_rebuild_journal(
    rows: Vec<StoredEventRow>,
    snapshot: Option<(i64, PayloadBytes)>,
) -> (journal: Option<Result<Journal, JournalError>>)
    ensures
        match journal {
            Some(Ok(journal)) => rows_json(rows@) && rows_decode(rows@) && rebuilt_journal(
                journal@,
                rows@,
                snapshot,
            ),
            Some(Err(error)) => {
                &&& rows_json(rows@)
                &&& error is Load
                &&& !rows_decode(rows@) || (snapshot is Some && snapshot_state(snapshot) is None)
            },
            None => !rows_json(rows@),
        },
{
    if all_json(&rows) {
        Some(rebuild_journal(rows, snapshot))
    } else {
        None
    }
}

/// Whether every row's payload is JSON text.
pub fn all_json(rows: &Vec<StoredEventRow>) -> (r: bool)
    ensures
        r == rows_json(rows@),
{
    let mut i: usize = 0;
    while i < rows.len()
        invariant
            i <= rows.len(),
            forall|j: int| 0 <= j < i ==> json_parsed((#[trigger] rows@[j]).payload@) is Some,
        decreases rows.len() - i,
    {
        if !rows[i].is_json() {
            return false;
        }
        i += 1;
    }
    true
}

/// What a load does next.
pub enum LoadStep {
    /// The buffer answers.
    Answered(Option<Replay>),
    /// The path is cold: read its rows, then finish the seed.
    ReadRows,
}

impl Shared {
    /// Begins a load. A retained buffer is the whole authoritative view: it
    /// answers at once, and any removal waiting on it is cancelled. A cold path
    /// is marked as activating.
    pub fn begin_load(&mut self, path: &ActorPath) -> (step: LoadStep)
        requires
            old(self).wf(),
        ensures
            final(self).wf(),
            final(self).next_ingest() == old(self).next_ingest(),
            match step {
                LoadStep::Answered(replay) => {
                    &&& old(self).buffers().dom().contains(path@)
                    &&& !old(self).buffers()[path@]@.activating
                    &&& views(final(self).buffers()) == views(old(self).buffers()).insert(
                        path@,
                        BufferView { drop_when_durable: false, ..old(self).buffers()[path@]@ },
                    )
                    &&& answers(replay, old(self).buffers()[path@]@.journal)
                },
                LoadStep::ReadRows => {
                    &&& !old(self).buffers().dom().contains(path@) || old(self).buffers()[path@]@.activating
                    &&& views(final(self).buffers()) == if old(self).buffers().dom().contains(path@) {
                        views(old(self).buffers())
                    } else {
                        views(old(self).buffers()).insert(
                            path@,
                            BufferView { activating: true, ..BufferView::empty() },
                        )
                    }
                },
            },
    {
        let ghost before = self.buffers();
        match self.journals.take(path) {
            Some(buffer) => {
                let mut buffer = buffer;
                let step = if buffer.activation_in_progress {
                    LoadStep::ReadRows
                } else {
                    buffer.drop_when_durable = false;
                    LoadStep::Answered(build_replay(&buffer.journal))
                };
                let ghost kept = buffer@;
                self.install(path, buffer, Ghost(before));
                proof {
                    lemma_others_kept(before, path@, self.buffers());
                    assert(views(self.buffers()) =~= views(before).insert(path@, kept));
                    if before[path@]@.activating {
                        assert(views(self.buffers()) =~= views(before));
                    }
                }
                step
            },
            None => {
                self.install(path, PathBuffer::activating(), Ghost(before));
                proof {
                    lemma_others_kept(before, path@, self.buffers());
                    assert(views(self.buffers()) =~= views(before).insert(
                        path@,
                        BufferView { activating: true, ..BufferView::empty() },
                    ));
                }
                LoadStep::ReadRows
            },
        }
    }

    /// Finishes a cold load with the rows the database holds. With nothing
    /// stored the placeholder goes; otherwise the rows become the authoritative
    /// buffer, durable to its end. A decode failure leaves the placeholder for a
    /// later try.
    pub fn finish_load(
        &mut self,
        path: &ActorPath,
        rows: Vec<StoredEventRow>,
        snapshot: Option<(i64, PayloadBytes)>,
    ) -> (replay: Result<Option<Replay>, JournalError>)
        requires
            old(self).wf(),
            old(self).buffers().dom().contains(path@),
            old(self).buffers()[path@]@.activating,
            rows_json(rows@),
        ensures
            final(self).wf(),
            final(self).next_ingest() == old(self).next_ingest(),
            match replay {
                Ok(replay) => if rows@.len() == 0 && snapshot is None {
                    &&& replay is None
                    &&& final(self).buffers() == old(self).buffers().remove(path@)
                } else {
                    &&& rows_decode(rows@)
                    &&& only_changes(old(self).buffers(), path@, final(self).buffers())
                    &&& rebuilt_journal(final(self).buffers()[path@]@.journal, rows@, snapshot)
                    &&& final(self).buffers()[path@]@ == (BufferView {
                        journal: final(self).buffers()[path@]@.journal,
                        flushed: final(self).buffers()[path@]@.journal.entries.len(),
                        ..BufferView::empty()
                    })
                    &&& answers(replay, final(self).buffers()[path@]@.journal)
                },
                Err(error) => {
                    &&& error is Load
                    &&& !rows_decode(rows@) || (snapshot is Some && snapshot_state(snapshot) is None)
                    &&& final(self).buffers() == old(self).buffers()
                },
            },
    {
        let ghost before = self.buffers();
        if rows.len() == 0 && snapshot.is_none() {
            let _placeholder = self.journals.take(path);
            return Ok(None);
        }
        match rebuild_journal(rows, snapshot) {
            Ok(journal) => {
                let replay = build_replay(&journal);
                let buffer = PathBuffer::durable(journal);
                let _placeholder = self.journals.take(path);
                self.install(path, buffer, Ghost(before));
                Ok(replay)
            },
            Err(_) => Err(JournalError::Load),
        }
    }

    /// Finishes a cold load with rows that may hold anything; `None`, with
    /// nothing changed, when some row's payload is not JSON text or the path is
    /// not activating.
    pub fn try_finish_load(
        &mut self,
        path: &ActorPath,
        rows: Vec<StoredEventRow>,
        snapshot: Option<(i64, PayloadBytes)>,
    ) -> (replay: Option<Result<Option<Replay>, JournalError>>)
        requires
            old(self).wf(),
        ensures
            final(self).wf(),
            final(self).next_ingest() == old(self).next_ingest(),
            replay is None <==> !(buffer_at(old(self).buffers(), path@).activating && rows_json(rows@)),
            replay is None ==> *final(self) == *old(self),
            replay matches Some(Ok(found)) ==> {
                if rows@.len() == 0 && snapshot is None {
                    found is None && final(self).buffers() == old(self).buffers().remove(path@)
                } else {
                    &&& rows_decode(rows@)
                    &&& only_changes(old(self).buffers(), path@, final(self).buffers())
                    &&& rebuilt_journal(final(self).buffers()[path@]@.journal, rows@, snapshot)
                    &&& final(self).buffers()[path@]@ == (BufferView {
                        journal: final(self).buffers()[path@]@.journal,
                        flushed: final(self).buffers()[path@]@.journal.entries.len(),
                        ..BufferView::empty()
                    })
                    &&& answers(found, final(self).buffers()[path@]@.journal)
                }
            },
            replay matches Some(Err(error)) ==> {
                &&& error is Load
                &&& !rows_decode(rows@) || (snapshot is Some && snapshot_state(snapshot) is None)
                &&& final(self).buffers() == old(self).buffers()
            },
    {
        if self.is_activating(path) && all_json(&rows) {
            Some(self.finish_load(path, rows, snapshot))
        } else {
            None
        }
    }

    /// Drops a path's buffer. The arrival counter keeps counting.
    pub fn purge(&mut self, path: &ActorPath)
        requires
            old(self).wf(),
        ensures
            final(self).wf(),
            final(self).next_ingest() == old(self).next_ingest(),
            final(self).buffers() == old(self).buffers().remove(path@),
    {
        let ghost before = self.buffers();
        let _dropped = self.journals.take(path);
        assert forall|p: Seq<char>| self.buffers().dom().contains(p) implies (#[trigger] self.buffers()[p])@.wf() by {
            assert(self.buffers()[p] == before[p]);
        }
    }
}

/// Whether `replay` is the replay of a journal, `None` standing for a journal
/// that holds nothing.
pub open spec fn answers(replay: Option<Replay>, journal: JournalView) -> bool {
    match replay {
        Some(replay) => {
            &&& replay.snapshot == highest_snapshot(journal.entries)
            &&& replay.events@ == events_of(journal.entries)
            &&& replay.tail@ == facts(replay_events(replay.events@, replay.snapshot))
            &&& replay.events@.len() > 0 || replay.snapshot is Some
        },
        None => events_of(journal.entries).len() == 0 && highest_snapshot(journal.entries) is None,
    }
}

/// Re-records scanned facts in order, skipping each whose origin the journal
/// holds or the database does.
pub open spec fn caught_up(
    journal: JournalView,
    facts: Seq<ScannedEvent>,
    stored: Seq<bool>,
    ingest_seq: u64,
) -> Seeded
    decreases facts.len(),
{
    if facts.len() == 0 {
        Seeded { journal, seqs: Seq::empty(), count: 0 }
    } else {
        let prior = caught_up(journal, facts.drop_last(), stored, ingest_seq);
        let fact = facts.last();
        if holds(events_of(prior.journal.entries), fact.journal@, fact.seq) || stored[facts.len() - 1] {
            Seeded { seqs: prior.seqs.push(None), ..prior }
        } else {
            Seeded {
                journal: prior.journal.with_event(
                    fact.event,
                    EventOrigin::CatchUp { source: fact.journal, source_seq: fact.seq },
                    (ingest_seq + prior.count) as u64,
                ),
                seqs: prior.seqs.push(Some(SeqNo { value: prior.journal.event_count })),
                count: prior.count + 1,
            }
        }
    }
}

impl Shared {
    /// Whether the buffer already re-records a fact; the database is asked only
    /// where it does not.
    pub fn buffer_holds(&self, path: &ActorPath, fact: &ScannedEvent) -> (r: bool)
        ensures
            r == holds(
                events_of(buffer_at(self.buffers(), path@).journal.entries),
                fact.journal@,
                fact.seq,
            ),
    {
        match self.journals.get(path) {
            Some(buffer) => buffer.journal.holds_origin(&fact.journal, fact.seq),
            None => {
                assert(events_of(JournalView::genesis().entries) =~= Seq::empty());
                false
            },
        }
    }

    /// Appends catch-up seeds to a projector's buffer. `stored` says of each
    /// fact whether the database already holds its origin. Refused while the
    /// path activates.
    pub fn append_catchup(
        &mut self,
        path: &ActorPath,
        events: &[ScannedEvent],
        stored: &Vec<bool>,
    ) -> (seqs: Result<Vec<Option<SeqNo>>, JournalError>)
        requires
            old(self).wf(),
            stored@.len() == events@.len(),
            old(self).next_ingest() + events@.len() <= u64::MAX,
            buffer_at(old(self).buffers(), path@).journal.event_count + events@.len() <= u64::MAX,
        ensures
            final(self).wf(),
            match seqs {
                Ok(seqs) => if events@.len() == 0 {
                    seqs@.len() == 0 && *final(self) == *old(self)
                } else {
                    let base = buffer_at(old(self).buffers(), path@);
                    let result = caught_up(base.journal, events@, stored@, old(self).next_ingest());
                    &&& !base.activating
                    &&& only_changes(old(self).buffers(), path@, final(self).buffers())
                    &&& final(self).buffers()[path@]@ == (BufferView { journal: result.journal, ..base })
                    &&& final(self).next_ingest() == old(self).next_ingest() + result.count
                    &&& seqs@ == result.seqs
                },
                Err(error) => {
                    &&& events@.len() > 0
                    &&& buffer_at(old(self).buffers(), path@).activating
                    &&& error is Append
                    &&& *final(self) == *old(self)
                },
            },
    {
        if events.len() == 0 {
            return Ok(Vec::new());
        }
        if self.is_activating(path) {
            return Err(JournalError::Append);
        }
        let ghost before = *self;
        let ghost base = buffer_at(before.buffers(), path@);
        let ghost first = before.next_ingest();
        let mut buffer = match self.journals.take(path) {
            Some(buffer) => buffer,
            None => PathBuffer::new(),
        };
        let mut seqs: Vec<Option<SeqNo>> = Vec::new();
        let mut i: usize = 0;
        assert(events@.take(0) =~= Seq::empty());
        while i < events.len()
            invariant
                i <= events.len(),
                stored@.len() == events@.len(),
                first + events@.len() <= u64::MAX,
                base.journal.event_count + events@.len() <= u64::MAX,
                base.wf(),
                buffer@.wf(),
                buffer@ == (BufferView {
                    journal: caught_up(base.journal, events@.take(i as int), stored@, first).journal,
                    ..base
                }),
                seqs@ == caught_up(base.journal, events@.take(i as int), stored@, first).seqs,
                self.ingest_seq == first + caught_up(base.journal, events@.take(i as int), stored@, first).count,
                caught_up(base.journal, events@.take(i as int), stored@, first).count <= i,
                buffer@.journal.event_count == base.journal.event_count + caught_up(
                    base.journal,
                    events@.take(i as int),
                    stored@,
                    first,
                ).count,
                self.journals@ == before.buffers().remove(path@),
            decreases events.len() - i,
        {
            proof {
                let upto = events@.take(i + 1);
                assert(upto.drop_last() =~= events@.take(i as int));
                assert(upto.last() == events@[i as int]);
            }
            let scanned = &events[i];
            if buffer.journal.holds_origin(&scanned.journal, scanned.seq) || stored[i] {
                seqs.push(None);
            } else {
                let ingest: u64 = self.ingest_seq;
                self.ingest_seq = self.ingest_seq + 1;
                let origin = EventOrigin::CatchUp { source: scanned.journal.clone(), source_seq: scanned.seq };
                let seq = buffer.journal.append_event_with_origin(scanned.event.clone(), origin, ingest);
                seqs.push(Some(seq));
            }
            i += 1;
        }
        assert(events@.take(i as int) =~= events@);
        self.install(path, buffer, Ghost(before.buffers()));
        Ok(seqs)
    }
}

/// The events a path's buffer holds.
pub open spec fn buffer_events(buffers: Map<Seq<char>, PathBuffer>, path: Seq<char>) -> Seq<JournaledEvent> {
    if buffers.dom().contains(path) {
        events_of(buffers[path]@.journal.entries)
    } else {
        Seq::empty()
    }
}

/// Whether a fact is event `k` of its buffer, recorded there, and of one of the
/// schemas a scan asks for.
pub open spec fn buffer_hit(
    buffers: Map<Seq<char>, PathBuffer>,
    names: Seq<Seq<char>>,
    fact: ScannedEvent,
    k: int,
) -> bool {
    let events = buffer_events(buffers, fact.journal@);
    &&& 0 <= k < events.len()
    &&& events[k].origin is Recorded
    &&& events[k].seq == fact.seq
    &&& events[k].event == fact.event
    &&& events[k].ingest_seq == fact.ingest_seq
    &&& names.contains(fact.event.schema@)
}

/// Whether a fact is one that a buffer holds and a scan asks for.
pub open spec fn is_buffered(buffers: Map<Seq<char>, PathBuffer>, names: Seq<Seq<char>>, fact: ScannedEvent) -> bool {
    exists|k: int| #[trigger] buffer_hit(buffers, names, fact, k)
}

/// Whether a fact is the one that row `j` stores.
pub open spec fn stored_at(rows: Seq<(ActorPath, StoredEventRow)>, fact: ScannedEvent, j: int) -> bool {
    &&& 0 <= j < rows.len()
    &&& rows[j].1.origin == Some(EventOrigin::Recorded)
    &&& row_fact(rows[j].0@, rows[j].1, fact)
}

/// Whether a fact is one that some row stores.
pub open spec fn is_stored(rows: Seq<(ActorPath, StoredEventRow)>, fact: ScannedEvent) -> bool {
    exists|j: int| #[trigger] stored_at(rows, fact, j)
}

/// Whether two facts have the same place: journal and seq.
pub open spec fn same_place(a: ScannedEvent, b: ScannedEvent) -> bool {
    a.journal@ == b.journal@ && a.seq == b.seq
}

/// Whether some fact found has a fact's place.
pub open spec fn place_taken(found: Seq<ScannedEvent>, fact: ScannedEvent) -> bool {
    exists|f: ScannedEvent| #[trigger] found.contains(f) && same_place(f, fact)
}

/// Whether no two facts have the same place.
pub open spec fn places_distinct(found: Seq<ScannedEvent>) -> bool {
    forall|i: int, j: int|
        0 <= i < j < found.len() ==> !same_place(#[trigger] found[i], #[trigger] found[j])
}

/// Whether no two rows have the same place.
pub open spec fn rows_distinct(rows: Seq<(ActorPath, StoredEventRow)>) -> bool {
    forall|i: int, j: int|
        0 <= i < j < rows.len() ==> (#[trigger] rows[i]).0@ != (#[trigger] rows[j]).0@ || rows[i].1.seq
            != rows[j].1.seq
}

/// Whether some fact found is the one that row `j` stores.
pub open spec fn row_found(found: Seq<ScannedEvent>, rows: Seq<(ActorPath, StoredEventRow)>, j: int) -> bool {
    exists|f: ScannedEvent| #[trigger] found.contains(f) && stored_at(rows, f, j)
}

/// A filed fact is found, and so is every fact found before; nothing else is.
proof fn lemma_filed(found: Seq<ScannedEvent>, at: int, fact: ScannedEvent)
    requires
        0 <= at <= found.len(),
    ensures
        forall|f: ScannedEvent| #[trigger]
            found.insert(at, fact).contains(f) <==> f == fact || found.contains(f),
        places_distinct(found) && !place_taken(found, fact) ==> places_distinct(found.insert(at, fact)),
{
    let after = found.insert(at, fact);
    assert(after[at] == fact);
    assert forall|f: ScannedEvent| #[trigger] after.contains(f) <==> f == fact || found.contains(f) by {
        if after.contains(f) {
            let i = choose|i: int| 0 <= i < after.len() && after[i] == f;
            if i < at {
                assert(found[i] == f);
            } else if i > at {
                assert(found[i - 1] == f);
            }
        }
        if found.contains(f) {
            let i = choose|i: int| 0 <= i < found.len() && found[i] == f;
            if i < at {
                assert(after[i] == f);
            } else {
                assert(after[i + 1] == f);
            }
        }
    }
    if places_distinct(found) && !place_taken(found, fact) {
        assert forall|i: int, j: int| 0 <= i < j < after.len() implies !same_place(
            #[trigger] after[i],
            #[trigger] after[j],
        ) by {
            let x = if i < at {
                i
            } else {
                i - 1
            };
            let y = if j < at {
                j
            } else {
                j - 1
            };
            if i == at {
                assert(after[j] == found[y] && found.contains(found[y]));
            } else if j == at {
                assert(after[i] == found[x] && found.contains(found[x]));
            } else {
                assert(after[i] == found[x] && after[j] == found[y]);
            }
        }
    }
}

/// Whether a walk that stands at event `e` of pair `p` has passed event `k` of
/// a fact's buffer.
spec fn behind(pairs: Seq<(ActorPath, PathBuffer)>, p: int, e: int, journal: Seq<char>, k: int) -> bool {
    exists|w: int|
        0 <= w < pairs.len() && (#[trigger] pairs[w]).0@ == journal && (w < p || (w == p && k < e))
}

/// What a scan has found when every row is in and its walk of the buffers
/// stands at event `e` of pair `p`.
spec fn merge_progress(
    rows: Seq<(ActorPath, StoredEventRow)>,
    buffers: Map<Seq<char>, PathBuffer>,
    names: Seq<Seq<char>>,
    pairs: Seq<(ActorPath, PathBuffer)>,
    p: int,
    e: int,
    found: Seq<ScannedEvent>,
) -> bool {
    &&& by_arrival(found)
    &&& forall|f: ScannedEvent| #[trigger]
        found.contains(f) ==> is_stored(rows, f) || is_buffered(buffers, names, f)
    &&& forall|j: int|
        0 <= j < rows.len() && (#[trigger] rows[j]).1.origin == Some(EventOrigin::Recorded) ==> row_found(
            found,
            rows,
            j,
        )
    &&& forall|fact: ScannedEvent, k: int| #[trigger]
        buffer_hit(buffers, names, fact, k) && behind(pairs, p, e, fact.journal@, k) ==> place_taken(found, fact)
    &&& rows_distinct(rows) ==> places_distinct(found)
}

/// Equal unsigned readings of stored numbers come from equal numbers.
proof fn lemma_loaded_bits(a: i64, b: i64)
    requires
        loaded_bits(a) == loaded_bits(b),
    ensures
        a == b,
{
    assert(a as u64 == b as u64 ==> a == b) by (bit_vector);
}

/// Whether every row's payload is JSON text.
pub open spec fn scan_rows_json(rows: Seq<(ActorPath, StoredEventRow)>) -> bool {
    forall|i: int| 0 <= i < rows.len() ==> json_parsed((#[trigger] rows[i]).1.payload@) is Some
}

/// The facts that stored rows hold, in arrival order.
fn file_rows(rows: &Vec<(ActorPath, StoredEventRow)>) -> (found: Vec<ScannedEvent>)
    requires
        scan_rows_json(rows@),
    ensures
        by_arrival(found@),
        forall|f: ScannedEvent| #[trigger] found@.contains(f) ==> is_stored(rows@, f),
        forall|j: int|
            0 <= j < rows@.len() && (#[trigger] rows@[j]).1.origin == Some(EventOrigin::Recorded) ==> row_found(
                found@,
                rows@,
                j,
            ),
        rows_distinct(rows@) ==> places_distinct(found@),
{
    let mut found: Vec<ScannedEvent> = Vec::new();
    let mut i: usize = 0;
    while i < rows.len()
        invariant
            scan_rows_json(rows@),
            i <= rows.len(),
            by_arrival(found@),
            forall|f: ScannedEvent| #[trigger]
                found@.contains(f) ==> exists|j: int| 0 <= j < i && #[trigger] stored_at(rows@, f, j),
            forall|j: int|
                0 <= j < i && (#[trigger] rows@[j]).1.origin == Some(EventOrigin::Recorded) ==> row_found(
                    found@,
                    rows@,
                    j,
                ),
            rows_distinct(rows@) ==> places_distinct(found@),
        decreases rows.len() - i,
    {
        let ghost earlier = found@;
        if let Some(fact) = rows[i].1.clone().into_scanned(rows[i].0.clone()) {
            let ghost at = arrival_place(earlier, fact.ingest_seq) as int;
            proof {
                lemma_arrival_place(earlier, fact.ingest_seq);
                lemma_filed(earlier, at, fact);
                if rows_distinct(rows@) && place_taken(earlier, fact) {
                    let f = choose|f: ScannedEvent| #[trigger] earlier.contains(f) && same_place(f, fact);
                    let j = choose|j: int| 0 <= j < i && #[trigger] stored_at(rows@, f, j);
                    lemma_loaded_bits(rows@[j].1.seq, rows@[i as int].1.seq);
                    assert(rows@[j].0@ == rows@[i as int].0@);
                }
            }
            insert_by_arrival(&mut found, fact);
            proof {
                assert(stored_at(rows@, fact, i as int));
                assert(found@.contains(fact));
                assert forall|j: int|
                    0 <= j < i + 1 && (#[trigger] rows@[j]).1.origin == Some(
                        EventOrigin::Recorded,
                    ) implies row_found(found@, rows@, j) by {
                    if j < i {
                        assert(row_found(earlier, rows@, j));
                        let f = choose|f: ScannedEvent| #[trigger] earlier.contains(f) && stored_at(rows@, f, j);
                        assert(found@.contains(f));
                    }
                }
            }
        }
        i += 1;
    }
    assert forall|f: ScannedEvent| #[trigger] found@.contains(f) implies is_stored(rows@, f) by {
        let j = choose|j: int| 0 <= j < i && #[trigger] stored_at(rows@, f, j);
        assert(stored_at(rows@, f, j));
    }
    found
}

/// Whether some fact found has this journal and seq.
fn has_place(found: &Vec<ScannedEvent>, journal: &ActorPath, seq: SeqNo) -> (r: bool)
    ensures
        r == exists|f: ScannedEvent| #[trigger] found@.contains(f) && f.journal@ == journal@ && f.seq == seq,
{
    let mut i: usize = 0;
    while i < found.len()
        invariant
            i <= found.len(),
            forall|j: int| 0 <= j < i ==> (#[trigger] found@[j]).journal@ != journal@ || found@[j].seq != seq,
        decreases found.len() - i,
    {
        if found[i].journal == *journal && found[i].seq == seq {
            assert(found@.contains(found@[i as int]));
            return true;
        }
        i += 1;
    }
    false
}

impl Shared {
    /// Surfaces the recorded facts of `schemas`: those of the database's rows
    /// together with those of the buffers that no row holds, in arrival order.
    pub fn merge_scan(
        &self,
        rows: &Vec<(ActorPath, StoredEventRow)>,
        schemas: &Vec<SchemaId>,
    ) -> (found: Vec<ScannedEvent>)
        requires
            self.wf(),
            scan_rows_json(rows@),
        ensures
            by_arrival(found@),
            forall|f: ScannedEvent| #[trigger]
                found@.contains(f) ==> is_stored(rows@, f) || is_buffered(self.buffers(), names_of(schemas@), f),
            forall|j: int|
                0 <= j < rows@.len() && (#[trigger] rows@[j]).1.origin == Some(EventOrigin::Recorded) ==> row_found(
                    found@,
                    rows@,
                    j,
                ),
            forall|fact: ScannedEvent, k: int| #[trigger]
                buffer_hit(self.buffers(), names_of(schemas@), fact, k) ==> place_taken(found@, fact),
            rows_distinct(rows@) ==> places_distinct(found@),
    {
        let ghost names = names_of(schemas@);
        let ghost buffers = self.buffers();
        let ghost pairs = self.journals.pairs();
        let mut found = file_rows(rows);
        let n = self.journals.len();
        let mut p: usize = 0;
        assert forall|fact: ScannedEvent, k: int| #[trigger]
            buffer_hit(buffers, names, fact, k) && behind(pairs, 0, 0, fact.journal@, k) implies place_taken(
            found@,
            fact,
        ) by {}
        while p < n
            invariant
                self.wf(),
                names == names_of(schemas@),
                buffers == self.buffers(),
                pairs == self.journals.pairs(),
                n == pairs.len(),
                forall|i: int, j: int| 0 <= i < j < n ==> (#[trigger] pairs[i]).0@ != (#[trigger] pairs[j]).0@,
                p <= n,
                merge_progress(rows@, buffers, names, pairs, p as int, 0, found@),
            decreases n - p,
        {
            let pair = self.journals.at(p);
            let (path, buffer) = (&pair.0, &pair.1);
            let events = buffer.journal.events();
            let ghost here = buffer_events(buffers, path@);
            assert(events@ == here);
            let mut e: usize = 0;
            while e < events.len()
                invariant
                    self.wf(),
                    names == names_of(schemas@),
                    buffers == self.buffers(),
                    n == pairs.len(),
                    forall|i: int, j: int| 0 <= i < j < n ==> (#[trigger] pairs[i]).0@ != (#[trigger] pairs[j]).0@,
                    p < n,
                    *path == pairs[p as int].0,
                    here == buffer_events(buffers, path@),
                    events@ == here,
                    e <= events.len(),
                    merge_progress(rows@, buffers, names, pairs, p as int, e as int, found@),
                decreases events.len() - e,
            {
                let entry = &events[e];
                let ghost earlier = found@;
                let recorded = match &entry.origin {
                    EventOrigin::Recorded => true,
                    EventOrigin::CatchUp { .. } => false,
                };
                let wanted = recorded && lists(schemas, &entry.event.schema);
                if wanted && !has_place(&found, path, entry.seq) {
                    let fact = ScannedEvent {
                        journal: path.clone(),
                        seq: entry.seq,
                        ingest_seq: entry.ingest_seq,
                        event: entry.event.clone(),
                    };
                    proof {
                        assert(buffer_hit(buffers, names, fact, e as int));
                        lemma_arrival_place(earlier, fact.ingest_seq);
                        lemma_filed(earlier, arrival_place(earlier, fact.ingest_seq) as int, fact);
                        assert(!place_taken(earlier, fact));
                    }
                    insert_by_arrival(&mut found, fact);
                    proof {
                        assert(found@.contains(fact));
                        assert forall|f: ScannedEvent| #[trigger] found@.contains(f) implies is_stored(rows@, f)
                            || is_buffered(buffers, names, f) by {
                            if f != fact {
                                assert(earlier.contains(f));
                            }
                        }
                    }
                }
                proof {
                    assert forall|f: ScannedEvent| #[trigger] earlier.contains(f) implies found@.contains(f) by {}
                    lemma_merge_step(
                        rows@,
                        buffers,
                        names,
                        pairs,
                        p as int,
                        e as int,
                        earlier,
                        found@,
                    );
                }
                e += 1;
            }
            proof {
                assert forall|fact: ScannedEvent, k: int| #[trigger]
                    buffer_hit(buffers, names, fact, k) && behind(
                        pairs,
                        p + 1,
                        0,
                        fact.journal@,
                        k,
                    ) implies place_taken(found@, fact) by {
                    let w = choose|w: int|
                        0 <= w < pairs.len() && (#[trigger] pairs[w]).0@ == fact.journal@ && (w < p + 1 || (w == p + 1
                            && k < 0));
                    assert(behind(pairs, p as int, e as int, fact.journal@, k)) by {
                        assert(pairs[w].0@ == fact.journal@);
                    }
                }
            }
            p += 1;
        }
        proof {
            assert forall|fact: ScannedEvent, k: int| #[trigger]
                buffer_hit(buffers, names, fact, k) implies place_taken(found@, fact) by {
                self.journals.lemma_pairs(fact.journal@);
                let w = choose|w: int| 0 <= w < pairs.len() && (#[trigger] pairs[w]).0@ == fact.journal@;
                assert(behind(pairs, p as int, 0, fact.journal@, k)) by {
                    assert(pairs[w].0@ == fact.journal@);
                }
            }
        }
        found
    }

    /// Surfaces the recorded facts of `schemas` from rows that may hold
    /// anything; `None` when some row's payload is not JSON text.
    pub fn try_merge_scan(
        &self,
        rows: &Vec<(ActorPath, StoredEventRow)>,
        schemas: &Vec<SchemaId>,
    ) -> (found: Option<Vec<ScannedEvent>>)
        requires
            self.wf(),
        ensures
            found is None <==> !scan_rows_json(rows@),
            found matches Some(found) ==> {
                &&& by_arrival(found@)
                &&& forall|f: ScannedEvent| #[trigger]
                    found@.contains(f) ==> is_stored(rows@, f) || is_buffered(
                        self.buffers(),
                        names_of(schemas@),
                        f,
                    )
                &&& forall|j: int|
                    0 <= j < rows@.len() && (#[trigger] rows@[j]).1.origin == Some(
                        EventOrigin::Recorded,
                    ) ==> row_found(found@, rows@, j)
                &&& forall|fact: ScannedEvent, k: int| #[trigger]
                    buffer_hit(self.buffers(), names_of(schemas@), fact, k) ==> place_taken(found@, fact)
                &&& rows_distinct(rows@) ==> places_distinct(found@)
            },
    {
        let mut i: usize = 0;
        while i < rows.len()
            invariant
                i <= rows.len(),
                forall|j: int| 0 <= j < i ==> json_parsed((#[trigger] rows@[j]).1.payload@) is Some,
            decreases rows.len() - i,
        {
            if !rows[i].1.is_json() {
                return None;
            }
            i += 1;
        }
        Some(self.merge_scan(rows, schemas))
    }
}

/// Taking event `e` of pair `p` into account keeps the scan's progress: every
/// fact found stays found, and the event's place is taken if it is a hit.
proof fn lemma_merge_step(
    rows: Seq<(ActorPath, StoredEventRow)>,
    buffers: Map<Seq<char>, PathBuffer>,
    names: Seq<Seq<char>>,
    pairs: Seq<(ActorPath, PathBuffer)>,
    p: int,
    e: int,
    earlier: Seq<ScannedEvent>,
    found: Seq<ScannedEvent>,
)
    requires
        forall|i: int, j: int| 0 <= i < j < pairs.len() ==> (#[trigger] pairs[i]).0@ != (#[trigger] pairs[j]).0@,
        0 <= p < pairs.len(),
        merge_progress(rows, buffers, names, pairs, p, e, earlier),
        by_arrival(found),
        rows_distinct(rows) ==> places_distinct(found),
        forall|f: ScannedEvent| #[trigger]
            found.contains(f) ==> is_stored(rows, f) || is_buffered(buffers, names, f),
        forall|f: ScannedEvent| #[trigger] earlier.contains(f) ==> found.contains(f),
        forall|fact: ScannedEvent| #[trigger]
            buffer_hit(buffers, names, fact, e) && fact.journal@ == pairs[p].0@ ==> place_taken(found, fact),
    ensures
        merge_progress(rows, buffers, names, pairs, p, e + 1, found),
{
    assert forall|j: int| 0 <= j < rows.len() && (#[trigger] rows[j]).1.origin == Some(
        EventOrigin::Recorded,
    ) implies row_found(found, rows, j) by {
        assert(row_found(earlier, rows, j));
        let f = choose|f: ScannedEvent| #[trigger] earlier.contains(f) && stored_at(rows, f, j);
        assert(found.contains(f));
    }
    assert forall|fact: ScannedEvent, k: int| #[trigger]
        buffer_hit(buffers, names, fact, k) && behind(pairs, p, e + 1, fact.journal@, k) implies place_taken(
        found,
        fact,
    ) by {
        let w = choose|w: int|
            0 <= w < pairs.len() && (#[trigger] pairs[w]).0@ == fact.journal@ && (w < p || (w == p && k < e + 1));
        if w == p && k == e {
            assert(buffer_hit(buffers, names, fact, e));
        } else {
            assert(behind(pairs, p, e, fact.journal@, k)) by {
                assert(pairs[w].0@ == fact.journal@);
            }
            assert(place_taken(earlier, fact));
            let f = choose|f: ScannedEvent| #[trigger] earlier.contains(f) && same_place(f, fact);
            assert(found.contains(f));
        }
    }
}

impl Clone for StoredEventRow {
    fn clone(&self) -> (row: Self)
        ensures
            row == *self,
    {
        StoredEventRow {
            seq: self.seq,
            schema: self.schema.clone(),
            payload: self.payload.clone(),
            origin: match &self.origin {
                Some(origin) => Some(origin.clone()),
                None => None,
            },
            ingest_seq: self.ingest_seq,
        }
    }
}

/// The columns of an event row as the database holds them.
pub struct StoredColumns {
    /// The kind column.
    pub kind: i64,
    /// The schema column.
    pub schema: String,
    /// The payload column.
    pub payload: PayloadBytes,
    /// The origin column; `None` where it did not decode.
    pub origin: Option<EventOrigin>,
    /// The source journal column.
    pub catchup_source: Option<String>,
    /// The source seq column.
    pub catchup_seq: Option<i64>,
    /// The arrival-order column.
    pub ingest_seq: i64,
}

/// Whether optional texts agree.
pub open spec fn same_text(a: Option<String>, b: Option<String>) -> bool {
    match (a, b) {
        (Some(a), Some(b)) => a@ == b@,
        (None, None) => true,
        _ => false,
    }
}

/// Whether a stored row is the very row a flush wants to insert.
pub open spec fn already_stored(stored: StoredColumns, row: PendingEventRow) -> bool {
    &&& stored.kind == row.kind
    &&& stored.schema@ == row.schema@
    &&& stored.payload@ == row.payload@
    &&& stored.origin is Some && row.origin.agrees(&stored.origin->0)
    &&& same_text(stored.catchup_source, row.catchup_source)
    &&& stored.catchup_seq == row.catchup_seq
    &&& stored.ingest_seq == stored_bits(row.ingest_seq)
}

/// Checks an existing row against the row a flush wants to insert: a retried
/// flush meets its own rows, anything else is a conflict.
pub fn verify_existing_event(stored: &StoredColumns, row: &PendingEventRow) -> (r: bool)
    ensures
        r == already_stored(*stored, *row),
{
    let origin_agrees = match &stored.origin {
        Some(origin) => row.origin == *origin,
        None => false,
    };
    let source_agrees = match (&stored.catchup_source, &row.catchup_source) {
        (Some(a), Some(b)) => *a == *b,
        (None, None) => true,
        _ => false,
    };
    let seq_agrees = match (stored.catchup_seq, row.catchup_seq) {
        (Some(a), Some(b)) => a == b,
        (None, None) => true,
        _ => false,
    };
    let ingest: i64 = row.ingest_seq as i64;
    stored.kind == row.kind && stored.schema == row.schema && stored.payload == row.payload && origin_agrees
        && source_agrees && seq_agrees && stored.ingest_seq == ingest
}

/// One statement of a flush transaction, naming the batch and row it writes.
#[derive(Debug, Clone, Copy, PartialEq, Eq, Structural)]
pub enum FlushStatement {
    /// Insert one event row.
    InsertEvent {
        /// The batch.
        batch: usize,
        /// The row within it.
        row: usize,
    },
    /// Put the batch's snapshot row in place.
    PutSnapshot {
        /// The batch.
        batch: usize,
    },
}

/// The statements of one batch: its event rows in order, then its snapshot.
pub open spec fn batch_statements(batch: PendingFlush, at: int) -> Seq<FlushStatement> {
    Seq::new(
        batch.events@.len(),
        |row: int| FlushStatement::InsertEvent { batch: at as usize, row: row as usize },
    ) + if batch.snapshot is Some {
        seq![FlushStatement::PutSnapshot { batch: at as usize }]
    } else {
        Seq::empty()
    }
}

/// The statements of a flush transaction: batch by batch.
pub open spec fn flush_statements(pending: Seq<PendingFlush>) -> Seq<FlushStatement>
    decreases pending.len(),
{
    if pending.len() == 0 {
        Seq::empty()
    } else {
        flush_statements(pending.drop_last()) + batch_statements(pending.last(), pending.len() - 1)
    }
}

/// Lays out the statements of a flush transaction.
pub fn plan_flush(pending: &Vec<PendingFlush>) -> (plan: Vec<FlushStatement>)
    ensures
        plan@ == flush_statements(pending@),
{
    let mut plan: Vec<FlushStatement> = Vec::new();
    let mut b: usize = 0;
    assert(pending@.take(0) =~= Seq::empty());
    while b < pending.len()
        invariant
            b <= pending.len(),
            plan@ == flush_statements(pending@.take(b as int)),
        decreases pending.len() - b,
    {
        let ghost laid = plan@;
        let batch = &pending[b];
        proof {
            let upto = pending@.take(b + 1);
            assert(upto.drop_last() =~= pending@.take(b as int));
            assert(upto.last() == *batch);
        }
        let ghost inserts = Seq::new(
            batch.events@.len(),
            |row: int| FlushStatement::InsertEvent { batch: b, row: row as usize },
        );
        let mut row: usize = 0;
        while row < batch.events.len()
            invariant
                row <= batch.events.len(),
                inserts.len() == batch.events@.len(),
                forall|r: int|
                    0 <= r < inserts.len() ==> #[trigger] inserts[r] == (FlushStatement::InsertEvent {
                        batch: b,
                        row: r as usize,
                    }),
                plan@ == laid + inserts.take(row as int),
            decreases batch.events.len() - row,
        {
            plan.push(FlushStatement::InsertEvent { batch: b, row });
            row += 1;
            assert(inserts.take(row as int) =~= inserts.take(row - 1).push(inserts[row - 1]));
            assert(plan@ =~= laid + inserts.take(row as int));
        }
        assert(inserts.take(row as int) =~= inserts);
        if batch.snapshot.is_some() {
            plan.push(FlushStatement::PutSnapshot { batch: b });
        }
        assert(plan@ =~= laid + batch_statements(*batch, b as int));
        b += 1;
    }
    assert(pending@.take(b as int) =~= pending@);
    plan
}

/// Where a transaction over a list of statements stands.
#[derive(Debug, Clone, Copy, PartialEq, Eq, Structural)]
pub enum TxnPhase {
    /// The transaction is being opened.
    Begin,
    /// A statement is being run.
    Run(usize),
    /// The row a statement collided with is being compared.
    Verify(usize),
    /// The transaction is being committed.
    Commit,
    /// The transaction is being rolled back.
    Rollback,
    /// Everything is durable.
    Committed,
    /// Nothing was changed.
    Failed,
}

/// What became of the action that a phase asks for.
#[derive(Debug, Clone, Copy, PartialEq, Eq, Structural)]
pub enum TxnEvent {
    /// It succeeded.
    Done,
    /// A row of the same key exists.
    Collision,
    /// It failed.
    Error,
}

/// The phase after statement `i` of `n` is settled.
pub open spec fn settled(i: usize, n: usize) -> TxnPhase {
    if i + 1 < n {
        TxnPhase::Run((i + 1) as usize)
    } else {
        TxnPhase::Commit
    }
}

/// The phase that follows when a phase's action comes back. A collision is
/// compared where the statement may meet its own row, and is a failure
/// otherwise.
pub open spec fn next_phase(phase: TxnPhase, event: TxnEvent, n: usize, may_meet: bool) -> TxnPhase {
    match (phase, event) {
        (TxnPhase::Begin, TxnEvent::Done) => if n == 0 {
            TxnPhase::Commit
        } else {
            TxnPhase::Run(0)
        },
        (TxnPhase::Begin, _) => TxnPhase::Failed,
        (TxnPhase::Run(i), TxnEvent::Done) => settled(i, n),
        (TxnPhase::Run(i), TxnEvent::Collision) => if may_meet {
            TxnPhase::Verify(i)
        } else {
            TxnPhase::Rollback
        },
        (TxnPhase::Run(_), TxnEvent::Error) => TxnPhase::Rollback,
        (TxnPhase::Verify(i), TxnEvent::Done) => settled(i, n),
        (TxnPhase::Verify(_), _) => TxnPhase::Rollback,
        (TxnPhase::Commit, TxnEvent::Done) => TxnPhase::Committed,
        (TxnPhase::Commit, _) => TxnPhase::Rollback,
        (TxnPhase::Rollback, _) => TxnPhase::Failed,
        (TxnPhase::Committed, _) => TxnPhase::Committed,
        (TxnPhase::Failed, _) => TxnPhase::Failed,
    }
}

/// Moves a transaction on. `may_meet` says whether the statement that was run
/// may meet its own row: inserts of events may, nothing else does.
pub fn advance(phase: TxnPhase, event: TxnEvent, n: usize, may_meet: bool) -> (next: TxnPhase)
    requires
        phase matches TxnPhase::Run(i) ==> i < n,
        phase matches TxnPhase::Verify(i) ==> i < n,
    ensures
        next == next_phase(phase, event, n, may_meet),
        next matches TxnPhase::Run(i) ==> i < n,
        next matches TxnPhase::Verify(i) ==> i < n,
{
    match (phase, event) {
        (TxnPhase::Begin, TxnEvent::Done) => if n == 0 {
            TxnPhase::Commit
        } else {
            TxnPhase::Run(0)
        },
        (TxnPhase::Begin, _) => TxnPhase::Failed,
        (TxnPhase::Run(i), TxnEvent::Done) | (TxnPhase::Verify(i), TxnEvent::Done) => if i + 1 < n {
            TxnPhase::Run(i + 1)
        } else {
            TxnPhase::Commit
        },
        (TxnPhase::Run(i), TxnEvent::Collision) => if may_meet {
            TxnPhase::Verify(i)
        } else {
            TxnPhase::Rollback
        },
        (TxnPhase::Run(_), TxnEvent::Error) => TxnPhase::Rollback,
        (TxnPhase::Verify(_), _) => TxnPhase::Rollback,
        (TxnPhase::Commit, TxnEvent::Done) => TxnPhase::Committed,
        (TxnPhase::Commit, _) => TxnPhase::Rollback,
        (TxnPhase::Rollback, _) => TxnPhase::Failed,
        (TxnPhase::Committed, _) => TxnPhase::Committed,
        (TxnPhase::Failed, _) => TxnPhase::Failed,
    }
}

/// How many statements a phase has settled.
pub open spec fn statements_settled(phase: TxnPhase, n: usize) -> int {
    match phase {
        TxnPhase::Run(i) => i as int,
        TxnPhase::Verify(i) => i as int,
        TxnPhase::Commit => n as int,
        TxnPhase::Committed => n as int,
        _ => 0,
    }
}

/// A transaction commits only with every statement settled one by one, and a
/// failure anywhere ends without a commit.
pub proof fn law_all_or_nothing(phase: TxnPhase, event: TxnEvent, n: usize, may_meet: bool)
    requires
        phase matches TxnPhase::Run(i) ==> i < n,
        phase matches TxnPhase::Verify(i) ==> i < n,
    ensures
        next_phase(phase, event, n, may_meet) is Committed ==> phase is Committed || (phase is Commit
            && event is Done),
        next_phase(phase, event, n, may_meet) is Commit ==> event is Done && (n == 0 || statements_settled(phase, n)
            == n - 1),
        statements_settled(next_phase(phase, event, n, may_meet), n) <= statements_settled(phase, n) + 1 || phase is Begin
            && n == 0,
        (event is Error || phase is Rollback || phase is Failed) && !(phase is Committed) ==> next_phase(
            phase,
            event,
            n,
            may_meet,
        ) is Rollback || next_phase(phase, event, n, may_meet) is Failed,
{
}

/// One migration of the journal tables.
#[derive(Debug, Clone, Copy, PartialEq, Eq)]
pub struct Migration {
    /// The version it brings a database to.
    pub version: i32,
    /// Its stable name.
    pub name: &'static str,
}

/// The schema version a build brings a database to.
pub const LATEST_VERSION: i32 = 0;

/// The version of a database without any migration.
pub const EMPTY_VERSION: i32 = -1;

/// The migration chain, in application order.
pub fn migrations() -> (chain: Vec<Migration>)
    ensures
        chain@.len() == 1,
        chain@[0].version == LATEST_VERSION,
        chain@[0].name@ == "create_journal_schema"@,
{
    let mut chain: Vec<Migration> = Vec::new();
    chain.push(Migration { version: LATEST_VERSION, name: "create_journal_schema" });
    chain
}

/// The highest recorded migration version; that of an empty database where
/// none is recorded.
pub fn current_version(recorded: Option<i32>) -> (version: i32)
    ensures
        version == match recorded {
            Some(version) => version,
            None => EMPTY_VERSION,
        },
{
    match recorded {
        Some(version) => version,
        None => EMPTY_VERSION,
    }
}

/// The migrations above `current`, in application order: none for a database
/// that is up to date.
pub fn pending_migrations(current: i32) -> (pending: Vec<Migration>)
    ensures
        pending@.len() == if current >= LATEST_VERSION {
            0int
        } else {
            1
        },
        forall|i: int| 0 <= i < pending@.len() ==> (#[trigger] pending@[i]).version > current,
        current < LATEST_VERSION ==> pending@[0].version == LATEST_VERSION && pending@[0].name@
            == "create_journal_schema"@,
{
    let chain = migrations();
    let mut pending: Vec<Migration> = Vec::new();
    let migration = chain[0];
    if current < migration.version {
        pending.push(migration);
    }
    pending
}

/// Whether the database holds rows column by column as they were written.
pub open spec fn stored_as(written: Seq<PendingEventRow>, stored: Seq<StoredEventRow>) -> bool {
    stored.len() == written.len() && forall|i: int|
        0 <= i < stored.len() ==> {
            &&& (#[trigger] stored[i]).seq == stored_bits(written[i].seq@)
            &&& stored[i].schema@ == written[i].schema@
            &&& stored[i].payload@ == written[i].payload@
            &&& stored[i].origin == Some(written[i].origin)
            &&& stored[i].ingest_seq == stored_bits(written[i].ingest_seq)
        }
}

/// What a load gives back of a flush: a journal rebuilt from the rows of another
/// holds its events, with the same seqs, schemas, payload text, origins and
/// arrival order.
pub proof fn law_stored_journal_reads_back(
    journal: JournalView,
    written: Seq<PendingEventRow>,
    stored: Seq<StoredEventRow>,
    back: JournalView,
)
    requires
        journal.wf(),
        rows_of(written, events_of(journal.entries)),
        stored_as(written, stored),
        rebuilt(events_of(back.entries), stored),
    ensures
        events_of(back.entries).len() == events_of(journal.entries).len(),
        forall|i: int|
            0 <= i < events_of(journal.entries).len() ==> {
                let (had, has) = (#[trigger] events_of(journal.entries)[i], events_of(back.entries)[i]);
                &&& has.seq == had.seq
                &&& has.origin == had.origin
                &&& has.ingest_seq == had.ingest_seq
                &&& has.event.schema@ == had.event.schema@
                &&& has.event.payload@.wire() == had.event.payload@.wire()
            },
{
    let (had, has) = (events_of(journal.entries), events_of(back.entries));
    assert forall|i: int| 0 <= i < had.len() implies {
        let (one, other) = (#[trigger] had[i], has[i]);
        &&& other.seq == one.seq
        &&& other.origin == one.origin
        &&& other.ingest_seq == one.ingest_seq
        &&& other.event.schema@ == one.event.schema@
        &&& other.event.payload@.wire() == one.event.payload@.wire()
    } by {
        assert(row_of(written[i], had[i]));
        assert(stored[i].origin == Some(written[i].origin));
        assert(has[i].seq@ == i);
        assert(row_event(stored[i], has[i].event));
        let n = written[i].ingest_seq;
        assert((n as i64) as u64 == n) by (bit_vector);
    }
}

/// What a load gives back of a flushed snapshot: its anchor and its state, where
/// the state's text reads back at all.
pub proof fn law_stored_snapshot_reads_back(
    anchor: SeqNo,
    state: Json,
    written: PendingSnapshotRow,
    stored: (i64, PayloadBytes),
    rows: Seq<StoredEventRow>,
    back: JournalView,
)
    requires
        canonical(state@),
        depth(state@) <= MAX_DEPTH,
        snapshot_row_of(Some(written), Some(JournalEntry::Snapshot { seq: anchor, state })),
        stored.0 == stored_bits(written.seq@),
        stored.1@ == written.state@,
        rebuilt_journal(back, rows, Some(stored)),
    ensures
        back.entries.last() matches JournalEntry::Snapshot { seq, state: read } && seq@ == anchor@ && read@ == state@,
{
    let n = anchor@;
    assert((n as i64) as u64 == n) by (bit_vector);
}

/// A flush loses nothing and repeats nothing: what was captured and what is
/// pending after the commit make up what was pending before it together with
/// what was appended meanwhile.
pub proof fn law_flush_advances(buffer: BufferView, more: Seq<JournalEntry>, done: FlushCompletion, path: Seq<char>)
    requires
        buffer.flushed <= buffer.journal.entries.len(),
        done.path@ == path,
        done.captured_end.count == buffer.journal.entries.len(),
        done.drop_when_durable == buffer.drop_when_durable,
    ensures
        ({
            let grown = BufferView {
                journal: JournalView { entries: buffer.journal.entries + more, ..buffer.journal },
                ..buffer
            };
            let after = committed_one(map![path => grown], done);
            if buffer.drop_when_durable && more.len() == 0 {
                !after.dom().contains(path)
            } else {
                &&& after.dom().contains(path)
                &&& suffix(after[path]) == more
                &&& suffix(buffer) + suffix(after[path]) == suffix(grown)
                &&& !after[path].drop_when_durable || !done.drop_when_durable
            }
        }),
{
    let grown = BufferView {
        journal: JournalView { entries: buffer.journal.entries + more, ..buffer.journal },
        ..buffer
    };
    let after = committed_one(map![path => grown], done);
    if !(buffer.drop_when_durable && more.len() == 0) {
        assert(suffix(after[path]) =~= more);
        assert(suffix(buffer) + suffix(after[path]) =~= suffix(grown));
    }
}

/// A path with nothing past its durable prefix after a commit asks for no
/// further flush.
pub proof fn law_durable_is_quiet(buffers: Map<Seq<char>, PathBuffer>, target: Option<Seq<char>>, path: Seq<char>)
    requires
        buffers.dom().contains(path),
        buffers[path]@.flushed == buffers[path]@.journal.entries.len(),
    ensures
        !wants_flush(buffers, target, path),
{
}

/// A flush writes every captured row once and nothing else: each event row of
/// each batch has one statement that inserts it, each captured snapshot one that
/// puts it in place, the rows of a batch go in their order with its snapshot
/// behind them, and batches go one after the other.
pub proof fn law_flush_writes_every_row_once(pending: Seq<PendingFlush>)
    requires
        pending.len() <= usize::MAX,
    ensures
        forall|b: int, r: int|
            0 <= b < pending.len() && 0 <= r < pending[b].events@.len() ==> #[trigger] flush_statements(
                pending,
            ).contains(
                FlushStatement::InsertEvent { batch: b as usize, row: r as usize },
            ),
        forall|b: int|
            0 <= b < pending.len() && (#[trigger] pending[b]).snapshot is Some ==> flush_statements(pending).contains(
                FlushStatement::PutSnapshot { batch: b as usize },
            ),
        forall|i: int|
            0 <= i < flush_statements(pending).len() ==> match #[trigger] flush_statements(pending)[i] {
                FlushStatement::InsertEvent { batch, row } => batch < pending.len() && row
                    < pending[batch as int].events@.len(),
                FlushStatement::PutSnapshot { batch } => batch < pending.len()
                    && pending[batch as int].snapshot is Some,
            },
        forall|i: int, j: int|
            0 <= i < j < flush_statements(pending).len() ==> match (
                #[trigger] flush_statements(pending)[i],
                #[trigger] flush_statements(pending)[j],
            ) {
                (
                    FlushStatement::InsertEvent { batch: b1, row: r1 },
                    FlushStatement::InsertEvent { batch: b2, row: r2 },
                ) => b1 < b2 || (b1 == b2 && r1 < r2),
                (FlushStatement::InsertEvent { batch: b1, .. }, FlushStatement::PutSnapshot { batch: b2 }) => b1 <= b2,
                (FlushStatement::PutSnapshot { batch: b1 }, FlushStatement::InsertEvent { batch: b2, .. }) => b1 < b2,
                (FlushStatement::PutSnapshot { batch: b1 }, FlushStatement::PutSnapshot { batch: b2 }) => b1 < b2,
            },
        flush_statements(pending).no_duplicates(),
{
    let all = flush_statements(pending);
    assert forall|b: int, r: int| 0 <= b < pending.len() && 0 <= r < pending[b].events@.len() implies #[trigger] all.contains(
        FlushStatement::InsertEvent { batch: b as usize, row: r as usize },
    ) by {
        lemma_row_is_written(pending, b, r);
    }
    assert forall|b: int| 0 <= b < pending.len() && (#[trigger] pending[b]).snapshot is Some implies all.contains(
        FlushStatement::PutSnapshot { batch: b as usize },
    ) by {
        lemma_snapshot_is_written(pending, b);
    }
    assert forall|i: int| 0 <= i < all.len() implies match #[trigger] all[i] {
        FlushStatement::InsertEvent { batch, row } => batch < pending.len() && row
            < pending[batch as int].events@.len(),
        FlushStatement::PutSnapshot { batch } => batch < pending.len() && pending[batch as int].snapshot is Some,
    } by {
        lemma_statement_writes(pending, i);
    }
    assert forall|i: int, j: int| 0 <= i < j < all.len() implies match (#[trigger] all[i], #[trigger] all[j]) {
        (
            FlushStatement::InsertEvent { batch: b1, row: r1 },
            FlushStatement::InsertEvent { batch: b2, row: r2 },
        ) => b1 < b2 || (b1 == b2 && r1 < r2),
        (FlushStatement::InsertEvent { batch: b1, .. }, FlushStatement::PutSnapshot { batch: b2 }) => b1 <= b2,
        (FlushStatement::PutSnapshot { batch: b1 }, FlushStatement::InsertEvent { batch: b2, .. }) => b1 < b2,
        (FlushStatement::PutSnapshot { batch: b1 }, FlushStatement::PutSnapshot { batch: b2 }) => b1 < b2,
    } by {
        lemma_statements_in_order(pending, i, j);
    }
}

/// The last batch's statements end the plan.
proof fn lemma_plan_ends(pending: Seq<PendingFlush>)
    requires
        0 < pending.len() <= usize::MAX,
    ensures
        flush_statements(pending) == flush_statements(pending.drop_last()) + batch_statements(
            pending.last(),
            pending.len() - 1,
        ),
        pending.last().events@.len() <= usize::MAX,
{
    assert(pending.last().events@.len() == pending.last().events.len());
}

/// A captured event row has its statement.
proof fn lemma_row_is_written(pending: Seq<PendingFlush>, b: int, r: int)
    requires
        pending.len() <= usize::MAX,
        0 <= b < pending.len(),
        0 <= r < pending[b].events@.len(),
    ensures
        flush_statements(pending).contains(FlushStatement::InsertEvent { batch: b as usize, row: r as usize }),
    decreases pending.len(),
{
    lemma_plan_ends(pending);
    let before = flush_statements(pending.drop_last());
    let here = batch_statements(pending.last(), pending.len() - 1);
    let wanted = FlushStatement::InsertEvent { batch: b as usize, row: r as usize };
    if b < pending.len() - 1 {
        lemma_row_is_written(pending.drop_last(), b, r);
        let i = choose|i: int| 0 <= i < before.len() && before[i] == wanted;
        assert(flush_statements(pending)[i] == wanted);
    } else {
        assert(here[r] == wanted);
        assert(flush_statements(pending)[before.len() + r] == wanted);
    }
}

/// A captured snapshot has its statement.
proof fn lemma_snapshot_is_written(pending: Seq<PendingFlush>, b: int)
    requires
        pending.len() <= usize::MAX,
        0 <= b < pending.len(),
        pending[b].snapshot is Some,
    ensures
        flush_statements(pending).contains(FlushStatement::PutSnapshot { batch: b as usize }),
    decreases pending.len(),
{
    lemma_plan_ends(pending);
    let before = flush_statements(pending.drop_last());
    let here = batch_statements(pending.last(), pending.len() - 1);
    let wanted = FlushStatement::PutSnapshot { batch: b as usize };
    if b < pending.len() - 1 {
        lemma_snapshot_is_written(pending.drop_last(), b);
        let i = choose|i: int| 0 <= i < before.len() && before[i] == wanted;
        assert(flush_statements(pending)[i] == wanted);
    } else {
        assert(here[here.len() - 1] == wanted);
        assert(flush_statements(pending)[before.len() + here.len() - 1] == wanted);
    }
}

/// A statement writes something captured.
proof fn lemma_statement_writes(pending: Seq<PendingFlush>, i: int)
    requires
        pending.len() <= usize::MAX,
        0 <= i < flush_statements(pending).len(),
    ensures
        match flush_statements(pending)[i] {
            FlushStatement::InsertEvent { batch, row } => batch < pending.len() && row
                < pending[batch as int].events@.len(),
            FlushStatement::PutSnapshot { batch } => batch < pending.len() && pending[batch as int].snapshot is Some,
        },
    decreases pending.len(),
{
    if pending.len() > 0 {
        lemma_plan_ends(pending);
        let before = flush_statements(pending.drop_last());
        let here = batch_statements(pending.last(), pending.len() - 1);
        if i < before.len() {
            lemma_statement_writes(pending.drop_last(), i);
            assert(flush_statements(pending)[i] == before[i]);
        } else {
            assert(flush_statements(pending)[i] == here[i - before.len()]);
        }
    }
}

/// Statements go batch by batch, rows in order and the snapshot behind them.
proof fn lemma_statements_in_order(pending: Seq<PendingFlush>, i: int, j: int)
    requires
        pending.len() <= usize::MAX,
        0 <= i < j < flush_statements(pending).len(),
    ensures
        match (flush_statements(pending)[i], flush_statements(pending)[j]) {
            (
                FlushStatement::InsertEvent { batch: b1, row: r1 },
                FlushStatement::InsertEvent { batch: b2, row: r2 },
            ) => b1 < b2 || (b1 == b2 && r1 < r2),
            (FlushStatement::InsertEvent { batch: b1, .. }, FlushStatement::PutSnapshot { batch: b2 }) => b1 <= b2,
            (FlushStatement::PutSnapshot { batch: b1 }, FlushStatement::InsertEvent { batch: b2, .. }) => b1 < b2,
            (FlushStatement::PutSnapshot { batch: b1 }, FlushStatement::PutSnapshot { batch: b2 }) => b1 < b2,
        },
    decreases pending.len(),
{
    if pending.len() > 0 {
        lemma_plan_ends(pending);
        let before = flush_statements(pending.drop_last());
        let here = batch_statements(pending.last(), pending.len() - 1);
        if j < before.len() {
            lemma_statements_in_order(pending.drop_last(), i, j);
            assert(flush_statements(pending)[i] == before[i]);
            assert(flush_statements(pending)[j] == before[j]);
        } else {
            assert(flush_statements(pending)[j] == here[j - before.len()]);
            if i < before.len() {
                lemma_statement_writes(pending.drop_last(), i);
                assert(flush_statements(pending)[i] == before[i]);
            } else {
                assert(flush_statements(pending)[i] == here[i - before.len()]);
            }
        }
    }
}

/// A flush makes everything durable that was not: for each event past a path's
/// durable prefix there is a statement that inserts a row with the event's seq,
/// schema, payload text and arrival order under the path.
pub proof fn law_flush_covers_the_buffers(
    pending: Seq<PendingFlush>,
    buffers: Map<Seq<char>, PathBuffer>,
    path: Seq<char>,
    k: int,
)
    requires
        pending.len() <= usize::MAX,
        captures_all(pending, buffers, None),
        buffers.dom().contains(path),
        0 <= k < events_of(buffers[path]@.journal.entries.skip(buffers[path]@.flushed as int)).len(),
        buffers[path]@.flushed < buffers[path]@.journal.entries.len(),
    ensures
        exists|b: int|
            {
                let entry = events_of(buffers[path]@.journal.entries.skip(buffers[path]@.flushed as int))[k];
                &&& 0 <= b < pending.len()
                &&& (#[trigger] pending[b]).path@ == path
                &&& k < pending[b].events@.len()
                &&& pending[b].events@[k].seq == entry.seq
                &&& pending[b].events@[k].schema@ == entry.event.schema@
                &&& pending[b].events@[k].payload@ == entry.event.payload@.wire()
                &&& pending[b].events@[k].origin == entry.origin
                &&& pending[b].events@[k].ingest_seq == entry.ingest_seq
                &&& flush_statements(pending).contains(
                    FlushStatement::InsertEvent { batch: b as usize, row: k as usize },
                )
            },
{
    law_flush_writes_every_row_once(pending);
    assert(wants_flush(buffers, None, path));
    assert(flushes(pending, path));
    let b = choose|b: int| 0 <= b < pending.len() && (#[trigger] pending[b]).path@ == path;
    assert(captures(pending[b], path, buffers[path]@));
    assert(row_of(pending[b].events@[k], events_of(suffix(buffers[path]@))[k]));
    let insert = FlushStatement::InsertEvent { batch: b as usize, row: k as usize };
    assert(flush_statements(pending).contains(insert));
}

/// Among events numbered from zero, those past an anchor are the ones behind its
/// place.
proof fn lemma_replay_events(events: Seq<JournaledEvent>, snapshot: JournalEntry, n: int)
    requires
        0 <= n <= events.len(),
        forall|k: int| 0 <= k < events.len() ==> (#[trigger] events[k]).seq@ == k,
    ensures
        replay_events(events.take(n), Some(snapshot)) == if n <= snapshot.at()@ {
            Seq::<JournaledEvent>::empty()
        } else {
            events.subrange(snapshot.at()@ + 1, n)
        },
    decreases n,
{
    let anchor = snapshot.at()@;
    if n > 0 {
        lemma_replay_events(events, snapshot, n - 1);
        assert(events.take(n).drop_last() =~= events.take(n - 1));
        assert(events.take(n).last() == events[n - 1]);
        if n - 1 > anchor {
            assert(events.subrange(anchor + 1, n) =~= events.subrange(anchor + 1, n - 1).push(events[n - 1]));
        } else if n - 1 == anchor {
            assert(events.subrange(anchor + 1, n) =~= Seq::empty());
        }
    } else {
        assert(events.take(0) =~= Seq::empty());
    }
}

/// Without a snapshot every event is replayed.
proof fn lemma_replay_all(events: Seq<JournaledEvent>)
    ensures
        replay_events(events, None) == events,
    decreases events.len(),
{
    if events.len() > 0 {
        lemma_replay_all(events.drop_last());
        assert(events.drop_last().push(events.last()) =~= events);
    }
}

/// What a load answers is the journal: a snapshot that none is anchored above
/// and the facts behind its place, so that the two cover every event once; all
/// facts where there is no snapshot; and the whole history. Folding the tail
/// over the state the snapshot stands for is folding the whole journal.
pub proof fn law_load_covers_every_event_once<A: EventSourcedActor>(replay: Replay, journal: JournalView, genesis: A)
    requires
        journal.wf(),
        answers(Some(replay), journal),
    ensures
        replay.events@ == events_of(journal.entries),
        match replay.snapshot {
            Some(JournalEntry::Snapshot { seq, state }) => {
                let history = events_of(journal.entries).map_values(|entry: JournaledEvent| entry.event);
                &&& journal.entries.contains(JournalEntry::Snapshot { seq, state })
                &&& forall|i: int|
                    0 <= i < journal.entries.len() ==> match #[trigger] journal.entries[i] {
                        JournalEntry::Snapshot { seq: other, .. } => other@ <= seq@,
                        JournalEntry::Event { .. } => true,
                    }
                &&& if seq@ < history.len() {
                    &&& replay.tail@ == history.skip(seq@ + 1)
                    &&& history.take(seq@ + 1) + replay.tail@ == history
                    &&& fold_all(fold_all(genesis, history.take(seq@ + 1)), replay.tail@) == fold_all(genesis, history)
                } else {
                    replay.tail@.len() == 0
                }
            },
            Some(JournalEntry::Event { .. }) => false,
            None => {
                &&& replay.tail@ == events_of(journal.entries).map_values(|entry: JournaledEvent| entry.event)
                &&& forall|i: int| 0 <= i < journal.entries.len() ==> #[trigger] journal.entries[i] is Event
            },
        },
{
    let events = events_of(journal.entries);
    let history = events.map_values(|entry: JournaledEvent| entry.event);
    law_highest_snapshot(journal.entries);
    match replay.snapshot {
        Some(snapshot) => {
            lemma_replay_events(events, snapshot, events.len() as int);
            assert(events.take(events.len() as int) =~= events);
            let anchor = snapshot.at()@;
            if anchor < events.len() {
                assert(replay.tail@ =~= history.skip(anchor + 1));
                assert(history.take(anchor + 1) + replay.tail@ =~= history);
                law_fold_continues(genesis, history.take(anchor + 1), replay.tail@);
            } else {
                assert(replay.tail@ =~= Seq::empty());
            }
        },
        None => {
            lemma_replay_all(events);
        },
    }
}

/// Nothing is answered only of a journal that holds nothing.
pub proof fn law_empty_answer(journal: JournalView)
    requires
        answers(None, journal),
    ensures
        journal.entries.len() == 0,
{
    law_highest_snapshot(journal.entries);
    if journal.entries.len() > 0 {
        assert(journal.entries[journal.entries.len() - 1] is Event);
    }
}

/// The database store and the in-memory store answer alike: of one journal they
/// give the same snapshot, tail and history.
pub proof fn law_stores_answer_alike(durable: Replay, in_memory: Replay, journal: JournalView)
    requires
        journal.wf(),
        answers(Some(durable), journal),
        replays(in_memory, journal),
        durable.snapshot matches Some(snapshot) ==> snapshot.at()@ < journal.event_count,
    ensures
        durable.snapshot == in_memory.snapshot,
        durable.tail@ == in_memory.tail@,
        durable.events@ == in_memory.events@,
{
    let events = events_of(journal.entries);
    match durable.snapshot {
        Some(snapshot) => {
            lemma_replay_events(events, snapshot, events.len() as int);
            assert(events.take(events.len() as int) =~= events);
            law_tail_continues_snapshot(journal, snapshot.at());
        },
        None => {
            lemma_replay_all(events);
            law_before_genesis_replays_all(events);
        },
    }
}

/// The snapshot a flush writes is the last one captured: nothing behind it is a
/// snapshot, and there is none exactly where nothing captured is one.
pub proof fn law_last_snapshot_is_flushed(entries: Seq<JournalEntry>)
    ensures
        match final_snapshot(entries) {
            Some(snapshot) => snapshot is Snapshot && exists|k: int|
                0 <= k < entries.len() && #[trigger] entries[k] == snapshot && forall|j: int|
                    k < j < entries.len() ==> #[trigger] entries[j] is Event,
            None => forall|j: int| 0 <= j < entries.len() ==> #[trigger] entries[j] is Event,
        },
    decreases entries.len(),
{
    if entries.len() > 0 {
        let rest = entries.drop_last();
        let last = entries.len() - 1;
        assert(entries[last] == entries.last());
        if !(entries.last() is Snapshot) {
            law_last_snapshot_is_flushed(rest);
            match final_snapshot(rest) {
                Some(snapshot) => {
                    let k = choose|k: int|
                        0 <= k < rest.len() && #[trigger] rest[k] == snapshot && forall|j: int|
                            k < j < rest.len() ==> #[trigger] rest[j] is Event;
                    assert(entries[k] == snapshot);
                    assert forall|j: int| k < j < entries.len() implies #[trigger] entries[j] is Event by {
                        if j < last {
                            assert(rest[j] == entries[j]);
                        }
                    }
                },
                None => {
                    assert forall|j: int| 0 <= j < entries.len() implies #[trigger] entries[j] is Event by {
                        if j < last {
                            assert(rest[j] == entries[j]);
                        }
                    }
                },
            }
        }
    }
}

/// A flush for one path captures that path and no other, and none captures a
/// path twice or a path that is durable to its end.
pub proof fn law_flush_captures_what_was_asked(
    pending: Seq<PendingFlush>,
    buffers: Map<Seq<char>, PathBuffer>,
    target: Option<Seq<char>>,
    i: int,
)
    requires
        captures_all(pending, buffers, target),
        0 <= i < pending.len(),
    ensures
        buffers.dom().contains(pending[i].path@),
        buffers[pending[i].path@]@.flushed < buffers[pending[i].path@]@.journal.entries.len(),
        target matches Some(only) ==> pending[i].path@ == only && pending.len() == 1,
        pending[i].captured_end.count == buffers[pending[i].path@]@.journal.entries.len(),
        pending[i].events@.len() == events_of(
            buffers[pending[i].path@]@.journal.entries.skip(buffers[pending[i].path@]@.flushed as int),
        ).len(),
        pending[i].drop_when_durable == buffers[pending[i].path@]@.drop_when_durable,
        forall|j: int| 0 <= j < pending.len() && j != i ==> (#[trigger] pending[j]).path@ != pending[i].path@,
{
    if target is Some && pending.len() > 1 {
        assert(pending[0].path@ != pending[1].path@);
        assert(wants_flush(buffers, target, pending[0].path@));
        assert(wants_flush(buffers, target, pending[1].path@));
    }
    assert(captures(pending[i], pending[i].path@, buffers[pending[i].path@]@));
}

/// A commit touches only what was flushed: every other path keeps its buffer.
pub proof fn law_commit_touches_what_was_flushed(
    buffers: Map<Seq<char>, BufferView>,
    done: Seq<FlushCompletion>,
    path: Seq<char>,
)
    requires
        forall|i: int| 0 <= i < done.len() ==> (#[trigger] done[i]).path@ != path,
    ensures
        committed(buffers, done).dom().contains(path) == buffers.dom().contains(path),
        buffers.dom().contains(path) ==> committed(buffers, done)[path] == buffers[path],
    decreases done.len(),
{
    if done.len() > 0 {
        let rest = done.drop_last();
        assert(done[done.len() - 1] == done.last());
        assert forall|i: int| 0 <= i < rest.len() implies (#[trigger] rest[i]).path@ != path by {
            assert(rest[i] == done[i]);
        }
        law_commit_touches_what_was_flushed(buffers, rest, path);
    }
}

/// A commit accounts for every flush: once the flushes of distinct paths are
/// done, each path's durable prefix ends where its capture did and its journal
/// is what it was, or the buffer is gone where a passivation waited and nothing
/// was appended meanwhile.
pub proof fn law_commit_accounts_for_every_flush(
    buffers: Map<Seq<char>, BufferView>,
    done: Seq<FlushCompletion>,
    k: int,
)
    requires
        0 <= k < done.len(),
        buffers.dom().contains(done[k].path@),
        forall|i: int, j: int|
            0 <= i < j < done.len() ==> (#[trigger] done[i]).path@ != (#[trigger] done[j]).path@,
    ensures
        ({
            let path = done[k].path@;
            let after = committed(buffers, done);
            let waits = buffers[path].drop_when_durable && done[k].drop_when_durable;
            if waits && buffers[path].journal.entries.len() == done[k].captured_end.count {
                !after.dom().contains(path)
            } else {
                &&& after.dom().contains(path)
                &&& after[path].flushed == done[k].captured_end.count
                &&& after[path].journal == buffers[path].journal
                &&& after[path].activating == buffers[path].activating
                &&& after[path].drop_when_durable == (buffers[path].drop_when_durable && !waits)
            }
        }),
    decreases done.len(),
{
    let rest = done.drop_last();
    let last = done.len() - 1;
    assert(done[last] == done.last());
    assert forall|i: int, j: int| 0 <= i < j < rest.len() implies (#[trigger] rest[i]).path@ != (
    #[trigger] rest[j]).path@ by {
        assert(rest[i] == done[i] && rest[j] == done[j]);
    }
    if k < last {
        assert(rest[k] == done[k]);
        law_commit_accounts_for_every_flush(buffers, rest, k);
        assert(done[k].path@ != done[last].path@);
    } else {
        assert forall|i: int| 0 <= i < rest.len() implies (#[trigger] rest[i]).path@ != done[k].path@ by {
            assert(rest[i] == done[i]);
        }
        law_commit_touches_what_was_flushed(buffers, rest, done[k].path@);
    }
}

/// Seeding over a database is seeding in memory of the facts that the database
/// does not hold: a fact whose origin is stored leaves no trace.
pub proof fn law_stored_facts_are_not_seeded(
    journal: JournalView,
    facts: Seq<ScannedEvent>,
    stored: Seq<bool>,
    ingest_seq: u64,
)
    requires
        stored.len() == facts.len(),
    ensures
        ({
            let unstored = facts.zip_with(stored).filter_map(
                |pair: (ScannedEvent, bool)|
                    if pair.1 {
                        None
                    } else {
                        Some(pair.0)
                    },
            );
            let over = caught_up(journal, facts, stored, ingest_seq);
            let plain = seeded(journal, unstored, ingest_seq);
            &&& over.journal == plain.journal
            &&& over.count == plain.count
            &&& over.seqs.len() == facts.len()
            &&& forall|i: int| 0 <= i < facts.len() && stored[i] ==> #[trigger] over.seqs[i] is None
            &&& over.seqs.filter_map(|seq: Option<SeqNo>| seq) == plain.seqs.filter_map(|seq: Option<SeqNo>| seq)
        }),
    decreases facts.len(),
{
    if facts.len() > 0 {
        let (rest, flags) = (facts.drop_last(), stored.drop_last());
        law_stored_facts_are_not_seeded(journal, rest, flags, ingest_seq);
        lemma_caught_up_reads_front(journal, rest, flags, stored, ingest_seq);
        let pairs = facts.zip_with(stored);
        assert(pairs.drop_last() =~= rest.zip_with(flags));
        assert(pairs.last() == (facts.last(), stored.last()));
        let pick = |pair: (ScannedEvent, bool)|
            if pair.1 {
                None
            } else {
                Some(pair.0)
            };
        let before = rest.zip_with(flags).filter_map(pick);
        let unstored = pairs.filter_map(pick);
        let over = caught_up(journal, facts, stored, ingest_seq);
        let prior = caught_up(journal, rest, flags, ingest_seq);
        assert(over.seqs.drop_last() =~= prior.seqs);
        if !stored.last() {
            assert(unstored =~= before.push(facts.last()));
            assert(unstored.drop_last() =~= before);
            let plain = seeded(journal, unstored, ingest_seq);
            assert(plain.seqs.drop_last() =~= seeded(journal, before, ingest_seq).seqs);
        } else {
            assert(unstored =~= before);
        }
        assert forall|i: int| 0 <= i < facts.len() && stored[i] implies #[trigger] over.seqs[i] is None by {
            if i < facts.len() - 1 {
                assert(over.seqs[i] == prior.seqs[i]);
                assert(flags[i] == stored[i]);
            }
        }
    } else {
        assert(facts.zip_with(stored) =~= Seq::empty());
    }
}

/// What is stored of later facts does not matter to earlier ones.
proof fn lemma_caught_up_reads_front(
    journal: JournalView,
    facts: Seq<ScannedEvent>,
    front: Seq<bool>,
    stored: Seq<bool>,
    ingest_seq: u64,
)
    requires
        front.len() >= facts.len(),
        stored.len() >= facts.len(),
        forall|i: int| 0 <= i < facts.len() ==> front[i] == #[trigger] stored[i],
    ensures
        caught_up(journal, facts, front, ingest_seq) == caught_up(journal, facts, stored, ingest_seq),
    decreases facts.len(),
{
    if facts.len() > 0 {
        lemma_caught_up_reads_front(journal, facts.drop_last(), front, stored, ingest_seq);
        assert(front[facts.len() - 1] == stored[facts.len() - 1]);
    }
}

/// A number read back from the database is the number that was stored.
pub proof fn law_stored_numbers_read_back(n: u64, m: i64)
    ensures
        loaded_bits(stored_bits(n)) == n,
        stored_bits(loaded_bits(m)) == m,
{
    assert((n as i64) as u64 == n) by (bit_vector);
    assert((m as u64) as i64 == m) by (bit_vector);
}

/// What a scan of the database gives back of a flush: the row of a recorded fact
/// is found under its journal with its own seq and arrival order, its schema and
/// its payload text.
pub proof fn law_stored_fact_scans_back(
    entry: JournaledEvent,
    written: PendingEventRow,
    stored: StoredEventRow,
    journal: Seq<char>,
    fact: ScannedEvent,
)
    requires
        row_of(written, entry),
        stored_as(seq![written], seq![stored]),
        row_fact(journal, stored, fact),
    ensures
        fact.journal@ == journal,
        fact.seq@ == entry.seq@,
        fact.ingest_seq == entry.ingest_seq,
        fact.event.schema@ == entry.event.schema@,
        fact.event.payload@.wire() == entry.event.payload@.wire(),
        stored.origin == Some(entry.origin),
{
    let (rows, columns) = (seq![written], seq![stored]);
    assert(columns[0].seq == stored_bits(rows[0].seq@));
    law_stored_numbers_read_back(entry.seq@, 0);
    law_stored_numbers_read_back(entry.ingest_seq, 0);
}

/// A row says of itself where its fact was recorded: a recorded fact and a
/// re-recorded one have kinds of their own, and a re-recorded one names its
/// source.
pub proof fn law_row_names_its_source(row: PendingEventRow, entry: JournaledEvent)
    requires
        row_of(row, entry),
    ensures
        row.kind == KIND_RECORDED <==> entry.origin is Recorded,
        row.kind == KIND_CATCHUP <==> entry.origin is CatchUp,
        match entry.origin {
            EventOrigin::Recorded => row.catchup_source is None && row.catchup_seq is None,
            EventOrigin::CatchUp { source, source_seq } => {
                &&& row.catchup_source is Some
                &&& row.catchup_source->0@ == source@
                &&& row.catchup_seq is Some
                &&& loaded_bits(row.catchup_seq->0) == source_seq@
            },
        },
{
    if let EventOrigin::CatchUp { source_seq, .. } = entry.origin {
        law_stored_numbers_read_back(source_seq@, 0);
    }
}

/// A retried flush meets its own rows: the columns of a row that was written are
/// the row, and no stored row stands for two rows that differ in any column.
pub proof fn law_own_rows_are_met(stored: StoredColumns, row: PendingEventRow, other: PendingEventRow)
    ensures
        stored.kind == row.kind && stored.schema@ == row.schema@ && stored.payload@ == row.payload@ && stored.origin
            == Some(row.origin) && stored.catchup_source == row.catchup_source && stored.catchup_seq == row.catchup_seq
            && stored.ingest_seq == stored_bits(row.ingest_seq) ==> already_stored(stored, row),
        already_stored(stored, row) && already_stored(stored, other) ==> {
            &&& row.kind == other.kind
            &&& row.schema@ == other.schema@
            &&& row.payload@ == other.payload@
            &&& row.catchup_seq == other.catchup_seq
            &&& row.ingest_seq == other.ingest_seq
            &&& row.catchup_source is Some == other.catchup_source is Some
            &&& row.catchup_source is Some ==> row.catchup_source->0@ == other.catchup_source->0@
            &&& row.origin is Recorded == other.origin is Recorded
        },
{
    law_stored_numbers_read_back(row.ingest_seq, 0);
    law_stored_numbers_read_back(other.ingest_seq, 0);
}

/// A transaction runs its statements one by one, none left out and none twice: a
/// statement that is done, or whose row was met, is followed by the next, the
/// last by the commit, and the commit ends it. Anything else rolls back, but for
/// a collision that the statement may have with its own row, which is compared.
pub proof fn law_statements_run_one_by_one(i: usize, n: usize, may_meet: bool)
    requires
        i < n,
    ensures
        next_phase(TxnPhase::Begin, TxnEvent::Done, n, may_meet) == TxnPhase::Run(0),
        next_phase(TxnPhase::Begin, TxnEvent::Done, 0, may_meet) == TxnPhase::Commit,
        i + 1 < n ==> next_phase(TxnPhase::Run(i), TxnEvent::Done, n, may_meet) == TxnPhase::Run((i + 1) as usize),
        i + 1 == n ==> next_phase(TxnPhase::Run(i), TxnEvent::Done, n, may_meet) == TxnPhase::Commit,
        next_phase(TxnPhase::Verify(i), TxnEvent::Done, n, may_meet) == next_phase(
            TxnPhase::Run(i),
            TxnEvent::Done,
            n,
            may_meet,
        ),
        next_phase(TxnPhase::Run(i), TxnEvent::Collision, n, true) == TxnPhase::Verify(i),
        next_phase(TxnPhase::Run(i), TxnEvent::Collision, n, false) == TxnPhase::Rollback,
        next_phase(TxnPhase::Run(i), TxnEvent::Error, n, may_meet) == TxnPhase::Rollback,
        next_phase(TxnPhase::Verify(i), TxnEvent::Collision, n, may_meet) == TxnPhase::Rollback,
        next_phase(TxnPhase::Verify(i), TxnEvent::Error, n, may_meet) == TxnPhase::Rollback,
        next_phase(TxnPhase::Commit, TxnEvent::Done, n, may_meet) == TxnPhase::Committed,
        next_phase(TxnPhase::Commit, TxnEvent::Error, n, may_meet) == TxnPhase::Rollback,
        next_phase(TxnPhase::Begin, TxnEvent::Error, n, may_meet) == TxnPhase::Failed,
        forall|event: TxnEvent| #[trigger] next_phase(TxnPhase::Rollback, event, n, may_meet) == TxnPhase::Failed,
        forall|event: TxnEvent| #[trigger] next_phase(TxnPhase::Committed, event, n, may_meet) == TxnPhase::Committed,
        forall|event: TxnEvent| #[trigger] next_phase(TxnPhase::Failed, event, n, may_meet) == TxnPhase::Failed,
{
}

/// A scan over a database surfaces what actors recorded, flushed or not: every
/// recorded row is found, every recorded event of a buffer under a schema asked
/// for is found by its journal and seq, once; what is found was recorded, and it
/// comes in arrival order.
pub proof fn law_merged_scan_finds_what_was_recorded(
    rows: Seq<(ActorPath, StoredEventRow)>,
    buffers: Map<Seq<char>, PathBuffer>,
    names: Seq<Seq<char>>,
    found: Seq<ScannedEvent>,
    journal: ActorPath,
    k: int,
    r: int,
)
    requires
        by_arrival(found),
        forall|f: ScannedEvent| #[trigger] found.contains(f) ==> is_stored(rows, f) || is_buffered(buffers, names, f),
        forall|j: int|
            0 <= j < rows.len() && (#[trigger] rows[j]).1.origin == Some(EventOrigin::Recorded) ==> row_found(
                found,
                rows,
                j,
            ),
        forall|fact: ScannedEvent, k: int| #[trigger]
            buffer_hit(buffers, names, fact, k) ==> place_taken(found, fact),
        rows_distinct(rows) ==> places_distinct(found),
        buffers.dom().contains(journal@),
        0 <= k < events_of(buffers[journal@]@.journal.entries).len(),
        0 <= r < rows.len(),
    ensures
        ({
            let entry = events_of(buffers[journal@]@.journal.entries)[k];
            entry.origin is Recorded && names.contains(entry.event.schema@) ==> exists|i: int|
                0 <= i < found.len() && (#[trigger] found[i]).journal@ == journal@ && found[i].seq == entry.seq
        }),
        rows[r].1.origin == Some(EventOrigin::Recorded) ==> exists|i: int|
            0 <= i < found.len() && (#[trigger] found[i]).journal@ == rows[r].0@ && found[i].seq@ == loaded_bits(
                rows[r].1.seq,
            ) && found[i].ingest_seq == loaded_bits(rows[r].1.ingest_seq) && found[i].event.schema@ == rows[r].1.schema@
                && found[i].event.payload@.wire() == rows[r].1.payload@,
        forall|i: int, j: int|
            0 <= i < j < found.len() ==> (#[trigger] found[i]).ingest_seq <= (#[trigger] found[j]).ingest_seq,
        rows_distinct(rows) ==> forall|i: int, j: int|
            0 <= i < j < found.len() ==> (#[trigger] found[i]).journal@ != (#[trigger] found[j]).journal@
                || found[i].seq != found[j].seq,
        forall|i: int|
            0 <= i < found.len() ==> {
                let fact = #[trigger] found[i];
                ||| exists|j: int|
                    0 <= j < rows.len() && (#[trigger] rows[j]).0@ == fact.journal@ && rows[j].1.origin == Some(
                        EventOrigin::Recorded,
                    ) && loaded_bits(rows[j].1.seq) == fact.seq@
                ||| names.contains(fact.event.schema@) && buffers.dom().contains(fact.journal@) && exists|e: int|
                    0 <= e < events_of(buffers[fact.journal@]@.journal.entries).len() && (#[trigger] events_of(
                        buffers[fact.journal@]@.journal.entries,
                    )[e]).origin is Recorded && events_of(buffers[fact.journal@]@.journal.entries)[e].seq == fact.seq
                        && events_of(buffers[fact.journal@]@.journal.entries)[e].event == fact.event
            },
{
    let entry = events_of(buffers[journal@]@.journal.entries)[k];
    if entry.origin is Recorded && names.contains(entry.event.schema@) {
        let fact = ScannedEvent { journal, seq: entry.seq, ingest_seq: entry.ingest_seq, event: entry.event };
        assert(buffer_hit(buffers, names, fact, k));
        let f = choose|f: ScannedEvent| #[trigger] found.contains(f) && same_place(f, fact);
        let i = choose|i: int| 0 <= i < found.len() && found[i] == f;
        assert(found[i].journal@ == journal@);
    }
    if rows[r].1.origin == Some(EventOrigin::Recorded) {
        assert(row_found(found, rows, r));
        let f = choose|f: ScannedEvent| #[trigger] found.contains(f) && stored_at(rows, f, r);
        let i = choose|i: int| 0 <= i < found.len() && found[i] == f;
        assert(found[i].journal@ == rows[r].0@);
    }
    assert forall|i: int| 0 <= i < found.len() implies {
        let fact = #[trigger] found[i];
        ||| exists|j: int|
            0 <= j < rows.len() && (#[trigger] rows[j]).0@ == fact.journal@ && rows[j].1.origin == Some(
                EventOrigin::Recorded,
            ) && loaded_bits(rows[j].1.seq) == fact.seq@
        ||| names.contains(fact.event.schema@) && buffers.dom().contains(fact.journal@) && exists|e: int|
            0 <= e < events_of(buffers[fact.journal@]@.journal.entries).len() && (#[trigger] events_of(
                buffers[fact.journal@]@.journal.entries,
            )[e]).origin is Recorded && events_of(buffers[fact.journal@]@.journal.entries)[e].seq == fact.seq
                && events_of(buffers[fact.journal@]@.journal.entries)[e].event == fact.event
    } by {
        let fact = found[i];
        assert(found.contains(fact));
        if is_stored(rows, fact) {
            let j = choose|j: int| #[trigger] stored_at(rows, fact, j);
            assert(rows[j].0@ == fact.journal@);
        } else {
            let e = choose|e: int| #[trigger] buffer_hit(buffers, names, fact, e);
            assert(buffer_events(buffers, fact.journal@)[e].origin is Recorded);
        }
    }
}

/// A journal rebuilt from rows holds the rows, numbered from zero, and the stored
/// snapshot behind them.
pub proof fn law_rebuilt_journal_holds_the_rows(
    journal: JournalView,
    rows: Seq<StoredEventRow>,
    snapshot: Option<(i64, PayloadBytes)>,
    i: int,
)
    requires
        rebuilt_journal(journal, rows, snapshot),
        0 <= i < rows.len(),
    ensures
        journal.event_count == rows.len(),
        events_of(journal.entries)[i].seq@ == i,
        rows[i].origin == Some(events_of(journal.entries)[i].origin),
        events_of(journal.entries)[i].ingest_seq == loaded_bits(rows[i].ingest_seq),
        events_of(journal.entries)[i].event.schema@ == rows[i].schema@,
        events_of(journal.entries)[i].event.payload@.wire() == rows[i].payload@,
        snapshot is None ==> highest_snapshot(journal.entries) is None,
        snapshot matches Some((seq, text)) ==> (highest_snapshot(journal.entries) matches Some(
            JournalEntry::Snapshot { seq: anchor, state },
        ) && anchor@ == loaded_bits(seq) && json_parsed(text@) == Some(state@)),
{
    let events = events_of(journal.entries);
    assert(events[i].seq@ == i);
    lemma_no_room_for_snapshots(journal.entries);
    match snapshot {
        None => {
            law_highest_snapshot(journal.entries);
            if let Some(best) = highest_snapshot(journal.entries) {
                let k = choose|k: int| 0 <= k < journal.entries.len() && journal.entries[k] == best;
                assert(journal.entries[k] is Event);
            }
        },
        Some(_) => {
            let front = journal.entries.drop_last();
            assert(events_of(front) == events);
            lemma_no_room_for_snapshots(front);
            law_highest_snapshot(front);
            if let Some(best) = highest_snapshot(front) {
                let k = choose|k: int| 0 <= k < front.len() && front[k] == best;
                assert(front[k] is Event);
            }
        },
    }
}

/// Entries that are as many as their events are all events.
proof fn lemma_no_room_for_snapshots(entries: Seq<JournalEntry>)
    ensures
        events_of(entries).len() <= entries.len(),
        events_of(entries).len() == entries.len() ==> forall|i: int|
            0 <= i < entries.len() ==> #[trigger] entries[i] is Event,
    decreases entries.len(),
{
    if entries.len() > 0 {
        let rest = entries.drop_last();
        lemma_no_room_for_snapshots(rest);
        if events_of(entries).len() == entries.len() {
            assert forall|i: int| 0 <= i < entries.len() implies #[trigger] entries[i] is Event by {
                if i < rest.len() {
                    assert(rest[i] == entries[i]);
                }
            }
        }
    }
}

/// A flush captures every event past the durable prefix, in order: the row of
/// each holds its number, schema, encoding and arrival, and names the journal it
/// was read from exactly where another journal recorded it.
pub proof fn law_flush_captures_every_event(
    flush: PendingFlush,
    path: Seq<char>,
    buffer: BufferView,
    owed: Seq<JournaledEvent>,
    i: int,
)
    requires
        captures(flush, path, buffer),
        owed == buffer.journal.entries.skip(buffer.flushed as int).filter_map(
            |entry: JournalEntry|
                match entry {
                    JournalEntry::Event { seq, event, origin, ingest_seq } => Some(
                        JournaledEvent { seq, event, origin, ingest_seq },
                    ),
                    JournalEntry::Snapshot { .. } => None,
                },
        ),
    ensures
        flush.path@ == path,
        flush.events@.len() == owed.len(),
        0 <= i < owed.len() ==> {
            let row = flush.events@[i];
            &&& row.seq == owed[i].seq
            &&& row.schema@ == owed[i].event.schema@
            &&& row.payload@ == owed[i].event.payload@.wire()
            &&& row.ingest_seq == owed[i].ingest_seq
            &&& row.catchup_source is Some <==> owed[i].origin is CatchUp
            &&& row.catchup_seq is Some <==> owed[i].origin is CatchUp
            &&& owed[i].origin matches EventOrigin::CatchUp { source, .. } ==> row.catchup_source->0@ == source@
        },
{
    law_history_is_the_event_entries(suffix(buffer));
    if 0 <= i < owed.len() {
        assert(row_of(flush.events@[i], owed[i]));
    }
}

/// Of the snapshots past the durable prefix a flush captures the last, with its
/// anchor and the encoding of its state; it captures none where there is none.
pub proof fn law_flush_captures_the_last_snapshot(flush: PendingFlush, path: Seq<char>, buffer: BufferView, k: int)
    requires
        captures(flush, path, buffer),
        buffer.flushed <= k <= buffer.journal.entries.len(),
        forall|j: int| k <= j < buffer.journal.entries.len() ==> #[trigger] buffer.journal.entries[j] is Event,
    ensures
        k == buffer.flushed ==> flush.snapshot is None,
        k > buffer.flushed ==> (buffer.journal.entries[k - 1] matches JournalEntry::Snapshot { seq, state }
            ==> flush.snapshot is Some && flush.snapshot->0.seq == seq && flush.snapshot->0.state@ == json_bytes(
            state@,
        )),
{
    let entries = suffix(buffer);
    let end = k - buffer.flushed;
    law_last_snapshot_is_flushed(entries);
    assert forall|j: int| end <= j < entries.len() implies #[trigger] entries[j] is Event by {
        assert(entries[j] == buffer.journal.entries[j + buffer.flushed]);
    }
    if end > 0 {
        assert(entries[end - 1] == buffer.journal.entries[k - 1]);
    }
    if final_snapshot(entries) is Some {
        let snapshot = final_snapshot(entries)->0;
        let at = choose|at: int|
            0 <= at < entries.len() && #[trigger] entries[at] == snapshot && forall|j: int|
                at < j < entries.len() ==> #[trigger] entries[j] is Event;
        assert(at < end);
        if at < end - 1 {
            assert(entries[end - 1] is Event);
        }
    }
}

/// A path reads what was last buffered for it: buffering for another path leaves
/// it alone, and a path that nothing was buffered for holds nothing, is durable
/// and waits for no cold read.
pub proof fn law_buffers_are_kept_apart(
    buffers: Map<Seq<char>, PathBuffer>,
    path: Seq<char>,
    buffer: PathBuffer,
    other: Seq<char>,
)
    ensures
        buffer_at(buffers.insert(path, buffer), path) == buffer@,
        other != path ==> buffer_at(buffers.insert(path, buffer), other) == buffer_at(buffers, other),
        buffer_at(buffers.remove(path), path).journal.entries.len() == 0,
        buffer_at(buffers.remove(path), path).journal.event_count == 0,
        buffer_at(buffers.remove(path), path).flushed == 0,
        !buffer_at(buffers.remove(path), path).activating,
        !buffer_at(buffers.remove(path), path).drop_when_durable,
{
}

/// A journal rebuilt from rows ends in the stored snapshot where there is one:
/// its anchor and the state its text encodes, dated zero. Otherwise it holds no
/// snapshot and no date.
pub proof fn law_rebuilt_journal_ends_in_its_snapshot(
    journal: JournalView,
    rows: Seq<StoredEventRow>,
    snapshot: Option<(i64, PayloadBytes)>,
)
    requires
        rebuilt_journal(journal, rows, snapshot),
    ensures
        snapshot is None ==> journal.entries.len() == rows.len() && journal.last_snapshot_ms is None,
        snapshot matches Some((seq, text)) ==> {
            &&& journal.entries.len() == rows.len() + 1
            &&& journal.entries[rows.len() as int] is Snapshot
            &&& journal.entries[rows.len() as int].at()@ == loaded_bits(seq)
            &&& Some(journal.entries[rows.len() as int]->state@) == json_parsed(text@)
            &&& journal.last_snapshot_ms == Some(0u64)
        },
{
}

} // verus!
