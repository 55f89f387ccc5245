//! In-memory, seq-anchored journals: lists of event and snapshot entries.
//!
//! A restart restores from the highest snapshot plus the tail of events after
//! it. Command redelivery is independent of snapshots.

use vstd::prelude::*;

use crate::actor::ActorPath;
use crate::clock::Timestamp;
use crate::envelope::AnyPayload;
use crate::envelope::Event;
use crate::envelope::PayloadBytes;
use crate::json::field_of;
use crate::json::field_or_null;
use crate::json::json_bytes;
use crate::json::json_parsed;
use crate::json::member;
use crate::json::members_view;
use crate::json::object_tree;
use crate::json::push_member;
use crate::json::text_or_empty;
use crate::json::text_tree;
use crate::json::uint_or_zero;
use crate::json::uint_tree;
use crate::json::Json;
use crate::json::JsonTree;
use crate::json::JsonView;
use crate::json::NumberView;
use crate::named_map::lemma_others_kept;
use crate::named_map::only_changes;
use crate::named_map::PathMap;
use crate::registry::RegistryError;
use crate::schema::law_parse_plain_name;
use crate::schema::lists;
use crate::schema::names_of;
use crate::schema::SchemaId;
use crate::text::before_first;
use crate::text::decimal;
use crate::text::decimal_text;

verus! {

/// Sequence number of a journal entry within one actor's journal.
#[derive(Debug, Clone, Copy, PartialEq, Eq, PartialOrd, Ord, Hash, Structural)]
pub struct SeqNo {
    /// The raw sequence value.
    pub value: u64,
}

impl View for SeqNo {
    type V = u64;

    open spec fn view(&self) -> u64 {
        self.value
    }
}

impl SeqNo {
    /// The sequence of the first journal entry.
    pub fn genesis() -> (seq: Self)
        ensures
            seq@ == 0,
    {
        SeqNo { value: 0 }
    }

    /// The sequence before genesis: replaying after it yields every event.
    pub fn before_genesis() -> (seq: Self)
        ensures
            seq@ == u64::MAX,
    {
        SeqNo { value: u64::MAX }
    }

    /// Wraps a raw sequence value.
    pub fn new(v: u64) -> (seq: Self)
        ensures
            seq@ == v,
    {
        SeqNo { value: v }
    }

    /// The raw sequence value.
    pub fn as_u64(self) -> (v: u64)
        ensures
            v == self@,
    {
        self.value
    }

    /// Whether this is the [`SeqNo::before_genesis`] sentinel.
    pub fn is_before_genesis(self) -> (r: bool)
        ensures
            r == (self@ == u64::MAX),
    {
        self.value == u64::MAX
    }

    /// The sequence number as text.
    pub fn to_string(&self) -> (text: String)
        ensures
            text@ == decimal(self@ as nat),
    {
        decimal_text(self.value)
    }
}

/// Why an actor's journal holds a fact.
#[derive(Debug)]
pub enum EventOrigin {
    /// A decision an actor recorded in its own step.
    Recorded,
    /// A fact another actor recorded, re-recorded here as a checkpoint.
    CatchUp {
        /// The actor journal the fact was scanned from.
        source: ActorPath,
        /// The fact's seq inside the source journal.
        source_seq: SeqNo,
    },
}

impl Default for EventOrigin {
    fn default() -> (origin: Self)
        ensures
            origin == EventOrigin::Recorded,
    {
        EventOrigin::Recorded
    }
}

impl Clone for EventOrigin {
    fn clone(&self) -> (origin: Self)
        ensures
            origin == *self,
    {
        match self {
            EventOrigin::Recorded => EventOrigin::Recorded,
            EventOrigin::CatchUp { source, source_seq } => EventOrigin::CatchUp {
                source: source.clone(),
                source_seq: *source_seq,
            },
        }
    }
}

impl EventOrigin {
    /// Whether the origin is the re-recording of one fact.
    pub open spec fn is_catch_up(&self, source: Seq<char>, source_seq: SeqNo) -> bool {
        match *self {
            EventOrigin::Recorded => false,
            EventOrigin::CatchUp { source: s, source_seq: q } => s@ == source && q == source_seq,
        }
    }

    /// Whether two origins are the same origin.
    pub open spec fn agrees(&self, other: &EventOrigin) -> bool {
        match *other {
            EventOrigin::Recorded => *self is Recorded,
            EventOrigin::CatchUp { source, source_seq } => self.is_catch_up(source@, source_seq),
        }
    }
}

impl PartialEq for EventOrigin {
    fn eq(&self, other: &Self) -> (r: bool) {
        match (self, other) {
            (EventOrigin::Recorded, EventOrigin::Recorded) => true,
            (
                EventOrigin::CatchUp { source: a, source_seq: p },
                EventOrigin::CatchUp { source: b, source_seq: q },
            ) => *a == *b && *p == *q,
            _ => false,
        }
    }
}

impl vstd::std_specs::cmp::PartialEqSpecImpl for EventOrigin {
    open spec fn obeys_eq_spec() -> bool {
        true
    }

    open spec fn eq_spec(&self, other: &Self) -> bool {
        self.agrees(other)
    }
}

/// One durable entry in an actor's journal.
pub enum JournalEntry {
    /// A domain event.
    Event {
        /// Position of this event in the actor's journal.
        seq: SeqNo,
        /// The event itself.
        event: Event,
        /// Why this journal holds the fact.
        origin: EventOrigin,
        /// The store-assigned global arrival order across all paths.
        ingest_seq: u64,
    },
    /// A memoized fold of every event up to and including `seq`.
    Snapshot {
        /// Sequence of the last event folded into `state`.
        seq: SeqNo,
        /// The snapshot state.
        state: Json,
    },
}

impl JournalEntry {
    /// The entry's sequence number.
    pub open spec fn at(self) -> SeqNo {
        match self {
            JournalEntry::Event { seq, .. } => seq,
            JournalEntry::Snapshot { seq, .. } => seq,
        }
    }

    /// The entry's sequence number.
    pub fn seq(&self) -> (seq: SeqNo)
        ensures
            seq == self.at(),
    {
        match self {
            JournalEntry::Event { seq, .. } => *seq,
            JournalEntry::Snapshot { seq, .. } => *seq,
        }
    }

    /// The event payload, if this is an event entry.
    pub fn as_event(&self) -> (event: Option<&Event>)
        ensures
            match event {
                Some(event) => *self is Event && self->event == *event,
                None => *self is Snapshot,
            },
    {
        match self {
            JournalEntry::Event { event, .. } => Some(event),
            JournalEntry::Snapshot { .. } => None,
        }
    }
}

impl Clone for JournalEntry {
    fn clone(&self) -> (entry: Self)
        ensures
            entry == *self,
    {
        match self {
            JournalEntry::Event { seq, event, origin, ingest_seq } => JournalEntry::Event {
                seq: *seq,
                event: event.clone(),
                origin: origin.clone(),
                ingest_seq: *ingest_seq,
            },
            JournalEntry::Snapshot { seq, state } => JournalEntry::Snapshot { seq: *seq, state: state.clone() },
        }
    }
}

/// The wire form of an event: schema and payload bytes.
pub struct WireEvent {
    /// The event's schema.
    pub schema: SchemaId,
    /// The event's compact JSON-text payload.
    pub payload: PayloadBytes,
}

impl WireEvent {
    /// Encodes an event.
    pub fn of(event: &Event) -> (wire: Self)
        ensures
            wire.schema == event.schema,
            wire.payload@ == event.payload@.wire(),
    {
        WireEvent { schema: event.schema.clone(), payload: event.payload.wire_bytes() }
    }

    /// Adopts the wire bytes as an event's payload.
    pub fn into_event(self) -> (event: Event)
        requires
            json_parsed(self.payload@) is Some,
        ensures
            event.schema == self.schema,
            event.payload@ == AnyPayload::Bytes(self.payload),
    {
        Event::from_bytes(self.schema, self.payload)
    }

    /// Adopts the wire bytes as an event's payload; `None` when they are not
    /// JSON text.
    pub fn try_into_event(self) -> (event: Option<Event>)
        ensures
            match event {
                Some(event) => {
                    &&& json_parsed(self.payload@) is Some
                    &&& event.schema == self.schema
                    &&& event.payload@ == AnyPayload::Bytes(self.payload)
                },
                None => json_parsed(self.payload@) is None,
            },
    {
        if self.payload.is_json_text() {
            Some(self.into_event())
        } else {
            None
        }
    }
}

/// The wire form of one journal entry: what a persistence backend stores.
pub enum WireJournalEntry {
    /// A domain event.
    Event {
        /// Position of this event in the actor's journal.
        seq: SeqNo,
        /// The event: schema name and JSON-text payload.
        event: WireEvent,
        /// Why this journal holds the fact.
        origin: EventOrigin,
        /// The store-assigned global arrival order across all paths.
        ingest_seq: u64,
    },
    /// A memoized fold of every event up to and including `seq`.
    Snapshot {
        /// Sequence of the last event folded into `state`.
        seq: SeqNo,
        /// The snapshot state.
        state: Json,
    },
}

/// Whether `wire` is the wire form of `entry`: the same entry, its payload as
/// bytes.
pub open spec fn wire_of(wire: WireJournalEntry, entry: JournalEntry) -> bool {
    match (wire, entry) {
        (
            WireJournalEntry::Event { seq, event, origin, ingest_seq },
            JournalEntry::Event { seq: s, event: e, origin: o, ingest_seq: i },
        ) => {
            &&& seq == s
            &&& origin == o
            &&& ingest_seq == i
            &&& event.schema == e.schema
            &&& event.payload@ == e.payload@.wire()
        },
        (WireJournalEntry::Snapshot { seq, state }, JournalEntry::Snapshot { seq: s, state: t }) => {
            seq == s && state == t
        },
        _ => false,
    }
}

impl WireJournalEntry {
    /// Encodes an entry.
    pub fn of(entry: &JournalEntry) -> (wire: Self)
        ensures
            wire_of(wire, *entry),
    {
        match entry {
            JournalEntry::Event { seq, event, origin, ingest_seq } => WireJournalEntry::Event {
                seq: *seq,
                event: WireEvent::of(event),
                origin: origin.clone(),
                ingest_seq: *ingest_seq,
            },
            JournalEntry::Snapshot { seq, state } => WireJournalEntry::Snapshot {
                seq: *seq,
                state: state.clone(),
            },
        }
    }

    /// Decodes an entry; `None` when an event's payload is not JSON text.
    pub fn try_into_entry(self) -> (entry: Option<JournalEntry>)
        ensures
            match entry {
                Some(entry) => {
                    &&& wire_of(self, entry)
                    &&& entry matches JournalEntry::Event { event, .. } ==> event.payload@ is Bytes
                        && json_parsed(event.payload@.wire()) is Some
                },
                None => self is Event && json_parsed(self->event.payload@) is None,
            },
    {
        match self {
            WireJournalEntry::Event { seq, event, origin, ingest_seq } => match event.try_into_event() {
                Some(event) => Some(JournalEntry::Event { seq, event, origin, ingest_seq }),
                None => None,
            },
            WireJournalEntry::Snapshot { seq, state } => Some(JournalEntry::Snapshot { seq, state }),
        }
    }
}

/// A whole number as a document.
pub open spec fn count_view(n: u64) -> JsonView {
    JsonView::Number(NumberView::PosInt(n))
}

/// An event as a document.
pub open spec fn event_view(event: Event) -> JsonView {
    JsonView::Object(
        seq![("payload"@, event.payload@.tree()), ("schema"@, JsonView::Text(event.schema@))],
    )
}

/// An origin as a document.
pub open spec fn origin_view(origin: EventOrigin) -> JsonView {
    match origin {
        EventOrigin::Recorded => JsonView::Text("recorded"@),
        EventOrigin::CatchUp { source, source_seq } => JsonView::Object(
            seq![
                (
                    "CatchUp"@,
                    JsonView::Object(
                        seq![("source"@, JsonView::Text(source@)), ("source_seq"@, count_view(source_seq@))],
                    ),
                ),
            ],
        ),
    }
}

/// Whether an origin is what a document reads as: a re-recorded fact where the
/// document names its source, and otherwise recorded.
pub open spec fn reads_as_origin(view: JsonView, origin: EventOrigin) -> bool {
    match field_of(view, "CatchUp"@) {
        Some(fact) => origin matches EventOrigin::CatchUp { source, source_seq } && source@ == text_or_empty(
            field_or_null(fact, "source"@),
        ) && source_seq@ == uint_or_zero(field_or_null(fact, "source_seq"@)),
        None => origin is Recorded,
    }
}

/// An entry as a document: its payload as a tree.
pub open spec fn entry_view(entry: JournalEntry) -> JsonView {
    match entry {
        JournalEntry::Event { seq, event, origin, ingest_seq } => JsonView::Object(
            seq![
                (
                    "Event"@,
                    JsonView::Object(
                        seq![
                            ("event"@, event_view(event)),
                            ("ingest_seq"@, count_view(ingest_seq)),
                            ("origin"@, origin_view(origin)),
                            ("seq"@, count_view(seq@)),
                        ],
                    ),
                ),
            ],
        ),
        JournalEntry::Snapshot { seq, state } => JsonView::Object(
            seq![("Snapshot"@, JsonView::Object(seq![("seq"@, count_view(seq@)), ("state"@, state@)]))],
        ),
    }
}

/// Whether an entry is what a document reads as: an event or a snapshot, absent
/// numbers as zero, and an absent origin as recorded.
pub open spec fn reads_as(view: JsonView, entry: JournalEntry) -> bool {
    match (field_of(view, "Event"@), field_of(view, "Snapshot"@)) {
        (Some(e), _) => {
            let fact = field_or_null(e, "event"@);
            &&& entry is Event
            &&& entry->Event_seq@ == uint_or_zero(field_or_null(e, "seq"@))
            &&& entry->ingest_seq == uint_or_zero(field_or_null(e, "ingest_seq"@))
            &&& reads_as_origin(field_or_null(e, "origin"@), entry->origin)
            &&& entry->event.schema@ == before_first(text_or_empty(field_or_null(fact, "schema"@)), '@')
            &&& entry->event.payload@ is Bytes
            &&& entry->event.payload@.wire() == json_bytes(field_or_null(fact, "payload"@))
        },
        (None, Some(snap)) => {
            &&& entry is Snapshot
            &&& entry->Snapshot_seq@ == uint_or_zero(field_or_null(snap, "seq"@))
            &&& entry->state@ == field_or_null(snap, "state"@)
        },
        (None, None) => false,
    }
}

/// A document's field as an integer, zero where it is none.
fn read_count(tree: &JsonTree, name: &str) -> (n: u64)
    ensures
        n == uint_or_zero(field_or_null(tree@, name@)),
{
    match tree.get(name) {
        Some(value) => match value.as_u64() {
            Some(n) => n,
            None => 0,
        },
        None => 0,
    }
}

/// A copy of a document's field, `null` where there is none.
fn read_field(tree: &JsonTree, name: &str) -> (value: JsonTree)
    ensures
        value@ == field_or_null(tree@, name@),
{
    match tree.get(name) {
        Some(value) => value.copy(),
        None => JsonTree::Null,
    }
}

/// A document's field as text, empty where it is none.
fn read_text(tree: &JsonTree, name: &str) -> (text: String)
    ensures
        text@ == text_or_empty(field_or_null(tree@, name@)),
{
    let text = match tree.get(name) {
        Some(value) => match value.as_str() {
            Some(text) => text.to_owned(),
            None => String::new(),
        },
        None => String::new(),
    };
    assert(text@ =~= text_or_empty(field_or_null(tree@, name@)));
    text
}

/// Renders an origin as a document.
fn origin_tree(origin: &EventOrigin) -> (tree: JsonTree)
    ensures
        tree@ == origin_view(*origin),
{
    match origin {
        EventOrigin::Recorded => text_tree("recorded"),
        EventOrigin::CatchUp { source, source_seq } => {
            let mut fact: Vec<(String, JsonTree)> = Vec::new();
            let mut outer: Vec<(String, JsonTree)> = Vec::new();
            assert(members_view(fact@) =~= Seq::empty());
            assert(members_view(outer@) =~= Seq::empty());
            push_member(&mut fact, "source", text_tree(source.as_str()));
            push_member(&mut fact, "source_seq", uint_tree(source_seq.as_u64()));
            assert(members_view(fact@) =~= origin_view(*origin)->Object_0[0].1->Object_0);
            push_member(&mut outer, "CatchUp", object_tree(fact));
            assert(members_view(outer@) =~= origin_view(*origin)->Object_0);
            object_tree(outer)
        },
    }
}

/// Reads an origin out of a document.
fn read_origin(tree: &JsonTree) -> (origin: EventOrigin)
    ensures
        reads_as_origin(tree@, origin),
{
    match tree.get("CatchUp") {
        Some(fact) => EventOrigin::CatchUp {
            source: ActorPath::new(read_text(fact, "source").as_str()),
            source_seq: SeqNo::new(read_count(fact, "source_seq")),
        },
        None => EventOrigin::Recorded,
    }
}

impl JournalEntry {
    /// Renders the entry as a document: the payload as a tree, the origin with
    /// its source.
    pub fn to_json_view(&self) -> (view: Json)
        ensures
            view@ == entry_view(*self),
    {
        let mut outer: Vec<(String, JsonTree)> = Vec::new();
        let mut inner: Vec<(String, JsonTree)> = Vec::new();
        assert(members_view(outer@) =~= Seq::empty());
        assert(members_view(inner@) =~= Seq::empty());
        match self {
            JournalEntry::Event { seq, event, origin, ingest_seq } => {
                let mut fact: Vec<(String, JsonTree)> = Vec::new();
                assert(members_view(fact@) =~= Seq::empty());
                push_member(&mut fact, "payload", event.payload_json().tree().copy());
                push_member(&mut fact, "schema", text_tree(event.schema.as_str()));
                assert(members_view(fact@) =~= event_view(*event)->Object_0);
                push_member(&mut inner, "event", object_tree(fact));
                push_member(&mut inner, "ingest_seq", uint_tree(*ingest_seq));
                push_member(&mut inner, "origin", origin_tree(origin));
                push_member(&mut inner, "seq", uint_tree(seq.as_u64()));
                assert(members_view(inner@) =~= entry_view(*self)->Object_0[0].1->Object_0);
                push_member(&mut outer, "Event", object_tree(inner));
            },
            JournalEntry::Snapshot { seq, state } => {
                push_member(&mut inner, "seq", uint_tree(seq.as_u64()));
                push_member(&mut inner, "state", state.tree().copy());
                assert(members_view(inner@) =~= entry_view(*self)->Object_0[0].1->Object_0);
                push_member(&mut outer, "Snapshot", object_tree(inner));
            },
        }
        assert(members_view(outer@) =~= entry_view(*self)->Object_0);
        Json::of(object_tree(outer))
    }

    /// Reads an entry out of a document. Numbers that are absent read as zero,
    /// and an absent origin as recorded, so documents written before they
    /// existed stay readable.
    pub fn from_json_view(view: &Json) -> (result: Result<JournalEntry, RegistryError>)
        ensures
            match result {
                Ok(entry) => reads_as(view@, entry),
                Err(error) => {
                    &&& error is InvalidSpec
                    &&& field_of(view@, "Event"@) is None && field_of(view@, "Snapshot"@) is None
                },
            },
    {
        let tree = view.tree();
        if let Some(e) = tree.get("Event") {
            let fact = read_field(e, "event");
            let name = read_text(&fact, "schema");
            let schema = match SchemaId::parse(name.as_str()) {
                Some(schema) => schema,
                None => SchemaId::new("?"),
            };
            let payload = Json::of(read_field(&fact, "payload"));
            return Ok(
                JournalEntry::Event {
                    seq: SeqNo::new(read_count(e, "seq")),
                    event: Event::from_bytes(schema, PayloadBytes::from_json(&payload)),
                    origin: read_origin(&read_field(e, "origin")),
                    ingest_seq: read_count(e, "ingest_seq"),
                },
            );
        }
        if let Some(snap) = tree.get("Snapshot") {
            return Ok(
                JournalEntry::Snapshot {
                    seq: SeqNo::new(read_count(snap, "seq")),
                    state: Json::of(read_field(snap, "state")),
                },
            );
        }
        Err(RegistryError::InvalidSpec)
    }
}

/// What is written for an origin reads as the origin.
proof fn lemma_origin_reads_back(origin: EventOrigin, read: EventOrigin)
    requires
        reads_as_origin(origin_view(origin), read),
    ensures
        read.agrees(&origin),
{
    if let EventOrigin::CatchUp { source, source_seq } = origin {
        reveal_with_fuel(member, 3);
        reveal_strlit("source");
        reveal_strlit("source_seq");
        assert("source"@.len() == 6 && "source_seq"@.len() == 10);
        let outer = origin_view(origin)->Object_0;
        let fact = outer[0].1->Object_0;
        assert(field_of(origin_view(origin), "CatchUp"@) == Some(outer[0].1));
        assert(fact.drop_first()[0] == fact[1]);
        assert(member(fact, "source"@) == Some(fact[0].1));
        assert(member(fact, "source_seq"@) == Some(fact[1].1));
    }
}

/// A document written for an entry reads as the entry: same kind, seq, origin,
/// arrival order, schema and payload tree.
pub proof fn law_entry_view_reads_back(entry: JournalEntry, read: JournalEntry)
    requires
        reads_as(entry_view(entry), read),
        entry matches JournalEntry::Event { event, .. } ==> !event.schema@.contains('@'),
    ensures
        read is Event <==> entry is Event,
        read.at()@ == entry.at()@,
        entry matches JournalEntry::Event { event, origin, ingest_seq, .. } ==> {
            &&& read->origin.agrees(&origin)
            &&& read->ingest_seq == ingest_seq
            &&& read->event.schema@ == event.schema@
            &&& read->event.payload@.wire() == json_bytes(event.payload@.tree())
        },
        entry matches JournalEntry::Snapshot { state, .. } ==> read->state@ == state@,
{
    reveal_with_fuel(member, 5);
    reveal_strlit("Event");
    reveal_strlit("Snapshot");
    reveal_strlit("event");
    reveal_strlit("ingest_seq");
    reveal_strlit("origin");
    reveal_strlit("seq");
    reveal_strlit("state");
    reveal_strlit("payload");
    reveal_strlit("schema");
    assert("event"@ != "seq"@ && "ingest_seq"@ != "seq"@ && "origin"@ != "seq"@ && "event"@ != "ingest_seq"@
        && "event"@ != "origin"@ && "ingest_seq"@ != "origin"@) by {
        assert("event"@.len() == 5 && "seq"@.len() == 3 && "ingest_seq"@.len() == 10 && "origin"@.len() == 6);
    }
    assert("payload"@[0] == 'p' && "schema"@[0] == 's');
    assert("Snapshot"@[0] == 'S' && "Event"@[0] == 'E');
    assert("state"@.len() == 5 && "seq"@.len() == 3);
    let view = entry_view(entry)->Object_0;
    let inner = view[0].1->Object_0;
    match entry {
        JournalEntry::Event { seq, event, origin, ingest_seq } => {
            assert(field_of(entry_view(entry), "Event"@) == Some(view[0].1));
            let first = inner.drop_first();
            let second = first.drop_first();
            let third = second.drop_first();
            assert(first[0] == inner[1] && second[0] == inner[2] && third[0] == inner[3]);
            assert(member(inner, "event"@) == Some(inner[0].1));
            assert(member(inner, "ingest_seq"@) == Some(inner[1].1));
            assert(member(inner, "origin"@) == Some(inner[2].1));
            assert(member(inner, "seq"@) == Some(inner[3].1));
            lemma_origin_reads_back(origin, read->origin);
            let fact = event_view(event)->Object_0;
            assert(fact.drop_first()[0] == fact[1]);
            assert(member(fact, "payload"@) == Some(fact[0].1));
            assert(member(fact, "schema"@) == Some(fact[1].1));
            law_parse_plain_name(event.schema@);
        },
        JournalEntry::Snapshot { seq, state } => {
            assert(view.drop_first() =~= Seq::empty());
            assert(field_of(entry_view(entry), "Event"@) is None);
            assert(field_of(entry_view(entry), "Snapshot"@) == Some(view[0].1));
            assert(inner.drop_first()[0] == inner[1]);
            assert(member(inner, "seq"@) == Some(inner[0].1));
            assert(member(inner, "state"@) == Some(inner[1].1));
        },
    }
}

/// Errors surfaced by journal operations.
#[derive(Debug, PartialEq, Eq)]
pub enum JournalError {
    /// Snapshot capture failed.
    Snapshot,
    /// Restore from a snapshot blob failed.
    Restore,
    /// An event append failed.
    Append,
    /// A replay load failed.
    Load,
    /// A journal drop was refused.
    Purge,
    /// The store refused a lifecycle hint.
    Hint,
    /// A catch-up scan failed.
    Scan,
    /// A journaled event payload did not decode into its schema's type.
    Decode {
        /// The schema whose payload failed to decode.
        schema: SchemaId,
        /// The seq of the failing entry.
        seq: SeqNo,
    },
}

/// A store-control message the host may observe.
#[derive(Debug)]
pub enum StoreControlMessage {
    /// A store operation failed after its result had no caller.
    Error {
        /// The operation that failed.
        op: &'static str,
        /// The failure rendering.
        detail: String,
    },
}

/// One event entry as the store presents it.
pub struct JournaledEvent {
    /// Position in the owning journal.
    pub seq: SeqNo,
    /// The event itself.
    pub event: Event,
    /// Why the journal holds the fact.
    pub origin: EventOrigin,
    /// The store-assigned global arrival order.
    pub ingest_seq: u64,
}

impl JournaledEvent {
    /// Whether this entry is a recorded fact whose payload names `key` under
    /// `key_field`.
    pub fn recorded_payload_key(&self, key_field: &str, key: &str) -> (r: bool)
        ensures
            r == (self.origin is Recorded && self.event.payload@.field_form(key_field@) == Some(key@)),
    {
        match &self.origin {
            EventOrigin::Recorded => match self.event.payload.field(key_field) {
                Some(form) => form == key.to_owned(),
                None => false,
            },
            EventOrigin::CatchUp { .. } => false,
        }
    }
}

impl Clone for JournaledEvent {
    fn clone(&self) -> (event: Self)
        ensures
            event == *self,
    {
        JournaledEvent {
            seq: self.seq,
            event: self.event.clone(),
            origin: self.origin.clone(),
            ingest_seq: self.ingest_seq,
        }
    }
}

/// One consumed fact surfaced by a scan.
pub struct ScannedEvent {
    /// The actor journal the fact was recorded in.
    pub journal: ActorPath,
    /// Position inside that journal.
    pub seq: SeqNo,
    /// The store-assigned global arrival order.
    pub ingest_seq: u64,
    /// The fact itself.
    pub event: Event,
}

impl Clone for ScannedEvent {
    fn clone(&self) -> (event: Self)
        ensures
            event == *self,
    {
        ScannedEvent {
            journal: self.journal.clone(),
            seq: self.seq,
            ingest_seq: self.ingest_seq,
            event: self.event.clone(),
        }
    }
}

/// What a replay needs: the highest snapshot, the event tail after it, and the
/// full history.
pub struct Replay {
    /// The snapshot, anchored at the seq of the last event it folded.
    pub snapshot: Option<JournalEntry>,
    /// Every event strictly after the snapshot's seq.
    pub tail: Vec<Event>,
    /// Every event entry ever recorded by this path, in journal order.
    pub events: Vec<JournaledEvent>,
}

/// The event entries of a journal, in order.
pub open spec fn events_of(entries: Seq<JournalEntry>) -> Seq<JournaledEvent>
    decreases entries.len(),
{
    if entries.len() == 0 {
        Seq::empty()
    } else {
        match entries.last() {
            JournalEntry::Event { seq, event, origin, ingest_seq } => events_of(entries.drop_last()).push(
                JournaledEvent { seq, event, origin, ingest_seq },
            ),
            JournalEntry::Snapshot { .. } => events_of(entries.drop_last()),
        }
    }
}

/// Whether an event lies strictly after an anchor; everything lies after the
/// sentinel before genesis.
pub open spec fn is_after(seq: SeqNo, anchor: SeqNo) -> bool {
    anchor@ == u64::MAX || seq@ > anchor@
}

/// The event entries strictly after an anchor, in order.
pub open spec fn after_anchor(events: Seq<JournaledEvent>, anchor: SeqNo) -> Seq<JournaledEvent>
    decreases events.len(),
{
    if events.len() == 0 {
        Seq::empty()
    } else if is_after(events.last().seq, anchor) {
        after_anchor(events.drop_last(), anchor).push(events.last())
    } else {
        after_anchor(events.drop_last(), anchor)
    }
}

/// The facts of event entries, in order.
pub open spec fn facts(events: Seq<JournaledEvent>) -> Seq<Event> {
    events.map_values(|entry: JournaledEvent| entry.event)
}

/// The snapshot of the highest anchor, the last of equal ones.
pub open spec fn highest_snapshot(entries: Seq<JournalEntry>) -> Option<JournalEntry>
    decreases entries.len(),
{
    if entries.len() == 0 {
        None
    } else {
        let rest = highest_snapshot(entries.drop_last());
        match entries.last() {
            JournalEntry::Event { .. } => rest,
            JournalEntry::Snapshot { seq, .. } => match rest {
                Some(best) => if best.at()@ > seq@ {
                    rest
                } else {
                    Some(entries.last())
                },
                None => Some(entries.last()),
            },
        }
    }
}

/// Whether some event entry re-records the fact `source_seq` of `source`.
pub open spec fn holds(events: Seq<JournaledEvent>, source: Seq<char>, source_seq: SeqNo) -> bool {
    exists|i: int| 0 <= i < events.len() && (#[trigger] events[i]).origin.is_catch_up(source, source_seq)
}

/// A journal as a mathematical value.
#[verifier::ext_equal]
pub struct JournalView {
    /// The entries, oldest first.
    pub entries: Seq<JournalEntry>,
    /// How many of them are events.
    pub event_count: u64,
    /// When the last snapshot was taken, or the cadence anchored.
    pub last_snapshot_ms: Option<u64>,
}

impl JournalView {
    /// A journal at genesis.
    pub open spec fn genesis() -> JournalView {
        JournalView { entries: Seq::empty(), event_count: 0, last_snapshot_ms: None }
    }

    /// Whether the events are numbered one by one from zero.
    pub open spec fn wf(self) -> bool {
        &&& self.event_count == events_of(self.entries).len()
        &&& forall|k: int|
            0 <= k < events_of(self.entries).len() ==> (#[trigger] events_of(self.entries)[k]).seq@ == k
    }

    /// The journal with one more event.
    pub open spec fn with_event(self, event: Event, origin: EventOrigin, ingest_seq: u64) -> JournalView {
        JournalView {
            entries: self.entries.push(
                JournalEntry::Event { seq: SeqNo { value: self.event_count }, event, origin, ingest_seq },
            ),
            event_count: (self.event_count + 1) as u64,
            ..self
        }
    }

    /// The journal with one more snapshot.
    pub open spec fn with_snapshot(self, seq: SeqNo, state: Json, now_ms: u64) -> JournalView {
        JournalView {
            entries: self.entries.push(JournalEntry::Snapshot { seq, state }),
            last_snapshot_ms: Some(now_ms),
            ..self
        }
    }
}

/// One actor's in-memory journal: seq-anchored events and snapshots.
///
/// The first event is seq 0; a snapshot carries the seq of the last event it
/// folded and takes no seq of its own.
pub struct Journal {
    entries: Vec<JournalEntry>,
    event_count: u64,
    last_snapshot_ms: Option<u64>,
}

impl View for Journal {
    type V = JournalView;

    closed spec fn view(&self) -> JournalView {
        JournalView {
            entries: self.entries@,
            event_count: self.event_count,
            last_snapshot_ms: self.last_snapshot_ms,
        }
    }
}

impl Default for Journal {
    fn default() -> (journal: Self)
        ensures
            journal@ == JournalView::genesis(),
            journal@.wf(),
    {
        Journal::new()
    }
}

impl Journal {
    /// An empty journal.
    pub fn new() -> (journal: Self)
        ensures
            journal@ == JournalView::genesis(),
            journal@.wf(),
    {
        Journal { entries: Vec::new(), event_count: 0, last_snapshot_ms: None }
    }

    /// The sequence the next appended event will get.
    pub fn next_seq(&self) -> (seq: SeqNo)
        ensures
            seq@ == self@.event_count,
    {
        SeqNo::new(self.event_count)
    }

    /// The sequence of the last appended event; genesis when there is none.
    pub fn last_seq(&self) -> (seq: SeqNo)
        ensures
            seq@ == if self@.event_count == 0 {
                0
            } else {
                (self@.event_count - 1) as u64
            },
    {
        if self.event_count == 0 {
            SeqNo::genesis()
        } else {
            SeqNo::new(self.event_count - 1)
        }
    }

    /// Appends a recorded event, assigning it the next event sequence.
    pub fn append_event(&mut self, event: Event, ingest_seq: u64) -> (seq: SeqNo)
        requires
            old(self)@.event_count < u64::MAX,
        ensures
            seq@ == old(self)@.event_count,
            final(self)@ == old(self)@.with_event(event, EventOrigin::Recorded, ingest_seq),
            old(self)@.wf() ==> final(self)@.wf(),
    {
        self.append_event_with_origin(event, EventOrigin::Recorded, ingest_seq)
    }

    /// Appends an event with an explicit origin.
    pub fn append_event_with_origin(&mut self, event: Event, origin: EventOrigin, ingest_seq: u64) -> (seq: SeqNo)
        requires
            old(self)@.event_count < u64::MAX,
        ensures
            seq@ == old(self)@.event_count,
            final(self)@ == old(self)@.with_event(event, origin, ingest_seq),
            old(self)@.wf() ==> final(self)@.wf(),
    {
        let ghost before = self@;
        let seq = self.next_seq();
        self.event_count = self.event_count + 1;
        self.entries.push(JournalEntry::Event { seq, event, origin, ingest_seq });
        proof {
            lemma_append_wf(before, event, origin, ingest_seq);
        }
        seq
    }

    /// Whether this journal already re-records the fact `source_seq` of
    /// `source`.
    pub fn holds_origin(&self, source: &ActorPath, source_seq: SeqNo) -> (r: bool)
        ensures
            r == holds(events_of(self@.entries), source@, source_seq),
    {
        let mut i: usize = 0;
        assert(self.entries@.take(0) =~= Seq::empty());
        while i < self.entries.len()
            invariant
                i <= self.entries.len(),
                !holds(events_of(self.entries@.take(i as int)), source@, source_seq),
            decreases self.entries.len() - i,
        {
            let ghost upto = self.entries@.take(i + 1);
            proof {
                assert(upto.drop_last() =~= self.entries@.take(i as int));
                assert(upto.last() == self.entries@[i as int]);
            }
            let ghost known = events_of(self.entries@.take(i as int));
            if let JournalEntry::Event { origin, .. } = &self.entries[i] {
                let ghost now = events_of(upto);
                if let EventOrigin::CatchUp { source: s, source_seq: q } = origin {
                    if *s == *source && *q == source_seq {
                        proof {
                            lemma_events_prefix(self.entries@, i + 1);
                            let all = events_of(self.entries@);
                            assert(all[known.len() as int] == now[known.len() as int]);
                            assert(all[known.len() as int].origin.is_catch_up(source@, source_seq));
                        }
                        return true;
                    }
                }
                assert forall|k: int| 0 <= k < now.len() implies !(#[trigger] now[k]).origin.is_catch_up(
                    source@,
                    source_seq,
                ) by {
                    if k < known.len() {
                        assert(now[k] == known[k]);
                    }
                }
            }
            i += 1;
        }
        assert(self.entries@.take(i as int) =~= self.entries@);
        false
    }

    /// Appends a snapshot anchored at `seq`, stamped for the time cadence.
    pub fn append_snapshot(&mut self, seq: SeqNo, state: Json, now_ms: u64)
        ensures
            final(self)@ == old(self)@.with_snapshot(seq, state, now_ms),
            old(self)@.wf() ==> final(self)@.wf(),
    {
        let ghost before = self@;
        self.last_snapshot_ms = Some(now_ms);
        self.entries.push(JournalEntry::Snapshot { seq, state });
        assert(self@.entries.drop_last() =~= before.entries);
    }

    /// Anchors the time cadence, unless it is anchored already.
    pub fn anchor_time_cadence(&mut self, now_ms: u64)
        ensures
            final(self)@ == (JournalView {
                last_snapshot_ms: match old(self)@.last_snapshot_ms {
                    Some(ms) => Some(ms),
                    None => Some(now_ms),
                },
                ..old(self)@
            }),
    {
        if self.last_snapshot_ms.is_none() {
            self.last_snapshot_ms = Some(now_ms);
        }
    }

    /// Milliseconds since the last snapshot or the anchor; `None` when the
    /// cadence was never anchored.
    pub fn since_snapshot_ms(&self, now: Timestamp) -> (elapsed: Option<u64>)
        ensures
            elapsed == match self@.last_snapshot_ms {
                Some(ms) => Some(
                    if now@ < ms {
                        0u64
                    } else {
                        (now@ - ms) as u64
                    },
                ),
                None => None,
            },
    {
        match self.last_snapshot_ms {
            Some(ms) => Some(now.as_millis().saturating_sub(ms)),
            None => None,
        }
    }

    /// The highest snapshot in the journal, if any.
    pub fn last_snapshot(&self) -> (snapshot: Option<&JournalEntry>)
        ensures
            match snapshot {
                Some(snapshot) => highest_snapshot(self@.entries) == Some(*snapshot),
                None => highest_snapshot(self@.entries) is None,
            },
    {
        let mut best: Option<&JournalEntry> = None;
        let mut i: usize = 0;
        assert(self.entries@.take(0) =~= Seq::empty());
        while i < self.entries.len()
            invariant
                i <= self.entries.len(),
                match best {
                    Some(best) => highest_snapshot(self.entries@.take(i as int)) == Some(*best),
                    None => highest_snapshot(self.entries@.take(i as int)) is None,
                },
            decreases self.entries.len() - i,
        {
            proof {
                let upto = self.entries@.take(i + 1);
                assert(upto.drop_last() =~= self.entries@.take(i as int));
                assert(upto.last() == self.entries@[i as int]);
            }
            if let JournalEntry::Snapshot { seq, .. } = &self.entries[i] {
                best = match best {
                    Some(entry) => if entry.seq().as_u64() > seq.as_u64() {
                        Some(entry)
                    } else {
                        Some(&self.entries[i])
                    },
                    None => Some(&self.entries[i]),
                };
            }
            i += 1;
        }
        assert(self.entries@.take(i as int) =~= self.entries@);
        best
    }

    /// The event entries, in journal order.
    pub fn events(&self) -> (events: Vec<JournaledEvent>)
        ensures
            events@ == events_of(self@.entries),
    {
        let mut events: Vec<JournaledEvent> = Vec::new();
        let mut i: usize = 0;
        assert(self.entries@.take(0) =~= Seq::empty());
        while i < self.entries.len()
            invariant
                i <= self.entries.len(),
                events@ == events_of(self.entries@.take(i as int)),
            decreases self.entries.len() - i,
        {
            proof {
                let upto = self.entries@.take(i + 1);
                assert(upto.drop_last() =~= self.entries@.take(i as int));
                assert(upto.last() == self.entries@[i as int]);
            }
            if let JournalEntry::Event { seq, event, origin, ingest_seq } = &self.entries[i] {
                events.push(
                    JournaledEvent {
                        seq: *seq,
                        event: event.clone(),
                        origin: origin.clone(),
                        ingest_seq: *ingest_seq,
                    },
                );
            }
            i += 1;
        }
        assert(self.entries@.take(i as int) =~= self.entries@);
        events
    }

    /// Every event entry strictly after `seq`.
    pub fn after(&self, seq: SeqNo) -> (tail: Vec<JournaledEvent>)
        ensures
            tail@ == after_anchor(events_of(self@.entries), seq),
    {
        let events = self.events();
        let mut tail: Vec<JournaledEvent> = Vec::new();
        let mut i: usize = 0;
        assert(events@.take(0) =~= Seq::empty());
        while i < events.len()
            invariant
                i <= events.len(),
                tail@ == after_anchor(events@.take(i as int), seq),
            decreases events.len() - i,
        {
            proof {
                let upto = events@.take(i + 1);
                assert(upto.drop_last() =~= events@.take(i as int));
                assert(upto.last() == events@[i as int]);
            }
            if seq.is_before_genesis() || events[i].seq.as_u64() > seq.as_u64() {
                tail.push(events[i].clone());
            }
            i += 1;
        }
        assert(events@.take(i as int) =~= events@);
        tail
    }

    /// Every entry.
    pub fn entries(&self) -> (entries: &Vec<JournalEntry>)
        ensures
            entries@ == self@.entries,
    {
        &self.entries
    }

    /// The number of entries.
    pub fn len(&self) -> (n: usize)
        ensures
            n == self@.entries.len(),
    {
        self.entries.len()
    }

    /// Whether nothing has been journalled.
    pub fn is_empty(&self) -> (r: bool)
        ensures
            r == (self@.entries.len() == 0),
    {
        self.entries.len() == 0
    }
}

/// Appending an event appends it to the events.
pub proof fn lemma_append_wf(journal: JournalView, event: Event, origin: EventOrigin, ingest_seq: u64)
    ensures
        events_of(journal.with_event(event, origin, ingest_seq).entries) == events_of(journal.entries).push(
            JournaledEvent { seq: SeqNo { value: journal.event_count }, event, origin, ingest_seq },
        ),
        journal.wf() && journal.event_count < u64::MAX ==> journal.with_event(event, origin, ingest_seq).wf(),
{
    let after = journal.with_event(event, origin, ingest_seq);
    assert(after.entries.drop_last() =~= journal.entries);
    if journal.wf() && journal.event_count < u64::MAX {
        let old_events = events_of(journal.entries);
        assert forall|k: int| 0 <= k < events_of(after.entries).len() implies (
        #[trigger] events_of(after.entries)[k]).seq@ == k by {
            if k < old_events.len() {
                assert(events_of(after.entries)[k] == old_events[k]);
            }
        }
    }
}

/// The events of a prefix are a prefix of the events.
pub proof fn lemma_events_prefix(entries: Seq<JournalEntry>, n: int)
    requires
        0 <= n <= entries.len(),
    ensures
        events_of(entries.take(n)).len() <= events_of(entries).len(),
        forall|k: int|
            0 <= k < events_of(entries.take(n)).len() ==> #[trigger] events_of(entries)[k] == events_of(
                entries.take(n),
            )[k],
    decreases entries.len() - n,
{
    if n < entries.len() {
        lemma_events_prefix(entries, n + 1);
        assert(entries.take(n + 1).drop_last() =~= entries.take(n));
        let a = events_of(entries.take(n));
        let b = events_of(entries.take(n + 1));
        assert forall|k: int| 0 <= k < a.len() implies #[trigger] events_of(entries)[k] == a[k] by {
            assert(b[k] == a[k]);
        }
    } else {
        assert(entries.take(n) =~= entries);
    }
}

/// The facts of event entries.
pub fn copy_facts(events: &Vec<JournaledEvent>) -> (copied: Vec<Event>)
    ensures
        copied@ == facts(events@),
{
    let mut copied: Vec<Event> = Vec::new();
    let mut i: usize = 0;
    while i < events.len()
        invariant
            i <= events.len(),
            copied@ == facts(events@).take(i as int),
        decreases events.len() - i,
    {
        copied.push(events[i].event.clone());
        i += 1;
        assert(facts(events@).take(i as int) =~= facts(events@).take(i - 1).push(facts(events@)[i - 1]));
    }
    assert(facts(events@).take(i as int) =~= facts(events@));
    copied
}

/// How many facts at the front arrived no later than `ingest_seq`.
pub open spec fn arrival_place(found: Seq<ScannedEvent>, ingest_seq: u64) -> nat
    decreases found.len(),
{
    if found.len() == 0 || found[0].ingest_seq > ingest_seq {
        0
    } else {
        1 + arrival_place(found.drop_first(), ingest_seq)
    }
}

/// Whether facts are in arrival order.
pub open spec fn by_arrival(found: Seq<ScannedEvent>) -> bool {
    forall|i: int, j: int|
        0 <= i < j < found.len() ==> (#[trigger] found[i]).ingest_seq <= (#[trigger] found[j]).ingest_seq
}

/// In arrival order, the facts before the place are those that arrived no
/// later.
pub proof fn lemma_arrival_place(found: Seq<ScannedEvent>, ingest_seq: u64)
    requires
        by_arrival(found),
    ensures
        arrival_place(found, ingest_seq) <= found.len(),
        forall|i: int|
            0 <= i < found.len() ==> ((#[trigger] found[i]).ingest_seq <= ingest_seq <==> i < arrival_place(
                found,
                ingest_seq,
            )),
    decreases found.len(),
{
    if found.len() > 0 {
        let rest = found.drop_first();
        assert(by_arrival(rest)) by {
            assert forall|i: int, j: int| 0 <= i < j < rest.len() implies (#[trigger] rest[i]).ingest_seq <= (
            #[trigger] rest[j]).ingest_seq by {
                assert(rest[i] == found[i + 1] && rest[j] == found[j + 1]);
            }
        }
        lemma_arrival_place(rest, ingest_seq);
        assert forall|i: int| 0 <= i < found.len() implies ((#[trigger] found[i]).ingest_seq <= ingest_seq <==> i
            < arrival_place(found, ingest_seq)) by {
            if i > 0 {
                assert(found[0].ingest_seq <= found[i].ingest_seq);
                assert(rest[i - 1] == found[i]);
            }
        }
    }
}

/// Filing a fact between those that arrived no later and those that arrived
/// later keeps the arrival order, strictly where no other arrived with it.
proof fn lemma_file(found: Seq<ScannedEvent>, at: int, fact: ScannedEvent)
    requires
        0 <= at <= found.len(),
        forall|i: int| 0 <= i < at ==> (#[trigger] found[i]).ingest_seq <= fact.ingest_seq,
        forall|i: int| at <= i < found.len() ==> (#[trigger] found[i]).ingest_seq > fact.ingest_seq,
    ensures
        by_arrival(found) ==> by_arrival(found.insert(at, fact)),
        ascending(found) && (forall|i: int|
            0 <= i < found.len() ==> (#[trigger] found[i]).ingest_seq != fact.ingest_seq) ==> ascending(
            found.insert(at, fact),
        ),
{
    let after = found.insert(at, fact);
    assert forall|i: int| 0 <= i < after.len() implies #[trigger] after[i] == (if i < at {
        found[i]
    } else if i == at {
        fact
    } else {
        found[i - 1]
    }) by {}
    if by_arrival(found) {
        assert forall|i: int, j: int| 0 <= i < j < after.len() implies (#[trigger] after[i]).ingest_seq <= (
        #[trigger] after[j]).ingest_seq by {
            if i < at && j > at {
                assert(found[i].ingest_seq <= found[j - 1].ingest_seq);
            } else if i < at && j < at {
                assert(found[i].ingest_seq <= found[j].ingest_seq);
            } else if i > at {
                assert(found[i - 1].ingest_seq <= found[j - 1].ingest_seq);
            }
        }
    }
    if ascending(found) && (forall|i: int|
        0 <= i < found.len() ==> (#[trigger] found[i]).ingest_seq != fact.ingest_seq) {
        assert forall|i: int, j: int| 0 <= i < j < after.len() implies (#[trigger] after[i]).ingest_seq < (
        #[trigger] after[j]).ingest_seq by {
            if i < at && j > at {
                assert(found[i].ingest_seq < found[j - 1].ingest_seq);
            } else if i < at && j < at {
                assert(found[i].ingest_seq < found[j].ingest_seq);
            } else if i > at {
                assert(found[i - 1].ingest_seq < found[j - 1].ingest_seq);
            }
        }
    }
}

/// Files a fact behind those that arrived no later.
pub fn insert_by_arrival(found: &mut Vec<ScannedEvent>, fact: ScannedEvent)
    requires
        by_arrival(old(found)@),
    ensures
        final(found)@ == old(found)@.insert(arrival_place(old(found)@, fact.ingest_seq) as int, fact),
        by_arrival(final(found)@),
        arrival_place(old(found)@, fact.ingest_seq) <= old(found)@.len(),
{
    let ghost before = found@;
    let mut at: usize = 0;
    assert(before.skip(0) =~= before);
    while at < found.len() && found[at].ingest_seq <= fact.ingest_seq
        invariant
            found@ == before,
            at <= found.len(),
            arrival_place(before, fact.ingest_seq) == at + arrival_place(before.skip(at as int), fact.ingest_seq),
        decreases found.len() - at,
    {
        assert(before.skip(at as int).drop_first() =~= before.skip(at + 1));
        at += 1;
    }
    proof {
        assert(arrival_place(before.skip(at as int), fact.ingest_seq) == 0);
        lemma_arrival_place(before, fact.ingest_seq);
    }
    proof {
        lemma_file(before, at as int, fact);
    }
    found.insert(at, fact);
}

/// The events of the journal a path maps to; none where it maps to nothing.
pub open spec fn events_at(journals: Map<Seq<char>, Journal>, path: Seq<char>) -> Seq<JournaledEvent> {
    if journals.dom().contains(path) {
        events_of(journals[path]@.entries)
    } else {
        Seq::empty()
    }
}

/// The journal a path maps to; a journal at genesis where it maps to nothing.
pub open spec fn journal_at(journals: Map<Seq<char>, Journal>, path: Seq<char>) -> JournalView {
    if journals.dom().contains(path) {
        journals[path]@
    } else {
        JournalView::genesis()
    }
}

/// Whether every event of every journal arrived before `next`, each at a time
/// of its own.
pub open spec fn arrivals_unique(journals: Map<Seq<char>, Journal>, next: u64) -> bool {
    &&& forall|p: Seq<char>, a: int|
        0 <= a < events_at(journals, p).len() ==> (#[trigger] events_at(journals, p)[a]).ingest_seq < next
    &&& forall|p: Seq<char>, a: int, q: Seq<char>, b: int|
        0 <= a < events_at(journals, p).len() && 0 <= b < events_at(journals, q).len() && (
        #[trigger] events_at(journals, p)[a]).ingest_seq == (#[trigger] events_at(journals, q)[b]).ingest_seq
            ==> p == q && a == b
}

/// A journal with a batch of recorded events appended, arriving one by one
/// from `ingest_seq`.
pub open spec fn appended(journal: JournalView, events: Seq<Event>, ingest_seq: u64) -> JournalView
    decreases events.len(),
{
    if events.len() == 0 {
        journal
    } else {
        appended(journal, events.drop_last(), ingest_seq).with_event(
            events.last(),
            EventOrigin::Recorded,
            (ingest_seq + events.len() - 1) as u64,
        )
    }
}

/// The outcome of re-recording scanned facts into a journal: the journal, the
/// seq given to each fact (`None` where it was held already), and how many
/// were given one.
pub struct Seeded {
    /// The journal after seeding.
    pub journal: JournalView,
    /// Per fact: its seq here, or `None` where it was held already.
    pub seqs: Seq<Option<SeqNo>>,
    /// How many facts were appended.
    pub count: nat,
}

/// Re-records scanned facts in order, skipping each whose origin the journal
/// already holds.
pub open spec fn seeded(journal: JournalView, facts: Seq<ScannedEvent>, ingest_seq: u64) -> Seeded
    decreases facts.len(),
{
    if facts.len() == 0 {
        Seeded { journal, seqs: Seq::empty(), count: 0 }
    } else {
        let prior = seeded(journal, facts.drop_last(), ingest_seq);
        let fact = facts.last();
        if holds(events_of(prior.journal.entries), fact.journal@, fact.seq) {
            Seeded { seqs: prior.seqs.push(None), ..prior }
        } else {
            Seeded {
                journal: prior.journal.with_event(
                    fact.event,
                    EventOrigin::CatchUp { source: fact.journal, source_seq: fact.seq },
                    (ingest_seq + prior.count) as u64,
                ),
                seqs: prior.seqs.push(Some(SeqNo { value: prior.journal.event_count })),
                count: prior.count + 1,
            }
        }
    }
}

/// Whether a fact is event `k` of its journal, recorded there, and of one of
/// the schemas a scan asks for.
pub open spec fn scan_hit(journals: Map<Seq<char>, Journal>, names: Seq<Seq<char>>, fact: ScannedEvent, k: int) -> bool {
    let events = events_at(journals, fact.journal@);
    &&& 0 <= k < events.len()
    &&& events[k].origin is Recorded
    &&& events[k].seq == fact.seq
    &&& events[k].event == fact.event
    &&& events[k].ingest_seq == fact.ingest_seq
    &&& names.contains(fact.event.schema@)
}

/// Whether a scan for `names` surfaces a fact.
pub open spec fn is_hit(journals: Map<Seq<char>, Journal>, names: Seq<Seq<char>>, fact: ScannedEvent) -> bool {
    exists|k: int| #[trigger] scan_hit(journals, names, fact, k)
}

/// The replay of a journal: its highest snapshot, the facts after it, and the
/// full history.
pub open spec fn replays(replay: Replay, journal: JournalView) -> bool {
    &&& replay.snapshot == highest_snapshot(journal.entries)
    &&& replay.events@ == events_of(journal.entries)
    &&& replay.tail@ == facts(
        after_anchor(
            events_of(journal.entries),
            match highest_snapshot(journal.entries) {
                Some(snapshot) => snapshot.at(),
                None => SeqNo { value: u64::MAX },
            },
        ),
    )
}

/// Whether a seq is in a list.
pub open spec fn has_seq(seqs: Seq<SeqNo>, seq: u64) -> bool {
    exists|i: int| 0 <= i < seqs.len() && (#[trigger] seqs[i])@ == seq
}

/// Whether a seq is in a list.
pub fn lists_seq(seqs: &Vec<SeqNo>, seq: SeqNo) -> (r: bool)
    ensures
        r == has_seq(seqs@, seq@),
{
    let mut i: usize = 0;
    while i < seqs.len()
        invariant
            i <= seqs.len(),
            forall|j: int| 0 <= j < i ==> (#[trigger] seqs@[j])@ != seq@,
        decreases seqs.len() - i,
    {
        if seqs[i].as_u64() == seq.as_u64() {
            assert(seqs@[i as int]@ == seq@);
            return true;
        }
        i += 1;
    }
    false
}

/// Whether `seqs` are `n` sequence numbers one by one from `first`.
pub open spec fn numbered_from(seqs: Seq<SeqNo>, first: u64, n: nat) -> bool {
    seqs.len() == n && forall|k: int| 0 <= k < n ==> (#[trigger] seqs[k])@ == first + k
}

/// The default store: an in-memory [`Journal`] per actor path.
pub struct InMemoryJournalStore {
    journals: PathMap<Journal>,
    ingest_seq: u64,
}

impl InMemoryJournalStore {
    /// The journals by path.
    pub closed spec fn journals(&self) -> Map<Seq<char>, Journal> {
        self.journals@
    }

    /// How many journals there are.
    pub closed spec fn count(&self) -> nat {
        self.journals.pairs().len()
    }

    /// The arrival order the next event gets.
    pub closed spec fn next_ingest(&self) -> u64 {
        self.ingest_seq
    }

    /// Whether every journal numbers its events one by one and every event has
    /// an arrival order of its own.
    pub open spec fn wf(&self) -> bool {
        &&& forall|p: Seq<char>| self.journals().dom().contains(p) ==> (#[trigger] self.journals()[p])@.wf()
        &&& arrivals_unique(self.journals(), self.next_ingest())
    }

    /// An empty store.
    pub fn new() -> (store: Self)
        ensures
            store.journals() == Map::<Seq<char>, Journal>::empty(),
            store.next_ingest() == 0,
            store.count() == 0,
            store.wf(),
    {
        InMemoryJournalStore { journals: PathMap::new(), ingest_seq: 0 }
    }

    /// The number of actors with (possibly empty) journals.
    pub fn len(&self) -> (n: usize)
        ensures
            n == self.count(),
    {
        self.journals.len()
    }

    /// Whether no actor has journaled anything.
    pub fn is_empty(&self) -> (r: bool)
        ensures
            r == (self.count() == 0),
    {
        self.journals.len() == 0
    }

    /// One actor's entries.
    pub fn entries_of(&self, path: &ActorPath) -> (entries: Vec<JournalEntry>)
        ensures
            entries@ == journal_at(self.journals(), path@).entries,
    {
        let mut copied: Vec<JournalEntry> = Vec::new();
        if let Some(journal) = self.journals.get(path) {
            let entries = journal.entries();
            let mut i: usize = 0;
            while i < entries.len()
                invariant
                    i <= entries.len(),
                    copied@ == entries@.take(i as int),
                decreases entries.len() - i,
            {
                copied.push(entries[i].clone());
                i += 1;
                assert(entries@.take(i as int) =~= entries@.take(i - 1).push(entries@[i - 1]));
            }
            assert(entries@.take(i as int) =~= entries@);
        }
        copied
    }

    /// Appends events to the actor's journal, returning their seqs.
    pub fn append(&mut self, path: &ActorPath, events: &[Event]) -> (seqs: Vec<SeqNo>)
        requires
            old(self).wf(),
            old(self).next_ingest() + events@.len() <= u64::MAX,
            journal_at(old(self).journals(), path@).event_count + events@.len() <= u64::MAX,
        ensures
            final(self).wf(),
            final(self).next_ingest() == old(self).next_ingest() + events@.len(),
            only_changes(old(self).journals(), path@, final(self).journals()),
            final(self).journals()[path@]@ == appended(
                journal_at(old(self).journals(), path@),
                events@,
                old(self).next_ingest(),
            ),
            numbered_from(seqs@, journal_at(old(self).journals(), path@).event_count, events@.len()),
    {
        let ghost before = *self;
        let ghost base = journal_at(before.journals(), path@);
        let ghost first = before.next_ingest();
        let mut journal = match self.journals.take(path) {
            Some(journal) => journal,
            None => Journal::new(),
        };
        let mut seqs: Vec<SeqNo> = Vec::new();
        let mut i: usize = 0;
        assert(events@.take(0) =~= Seq::empty());
        while i < events.len()
            invariant
                i <= events.len(),
                first + events@.len() <= u64::MAX,
                base.event_count + events@.len() <= u64::MAX,
                self.ingest_seq == first + i,
                base.wf(),
                journal@.wf(),
                journal@ == appended(base, events@.take(i as int), first),
                journal@.event_count == base.event_count + i,
                self.journals@ == before.journals().remove(path@),
                seqs@.len() == i,
                forall|k: int| 0 <= k < i ==> (#[trigger] seqs@[k])@ == base.event_count + k,
            decreases events.len() - i,
        {
            proof {
                let upto = events@.take(i + 1);
                assert(upto.drop_last() =~= events@.take(i as int));
                assert(upto.last() == events@[i as int]);
            }
            let ingest: u64 = self.ingest_seq;
            self.ingest_seq = self.ingest_seq + 1;
            seqs.push(journal.append_event(events[i].clone(), ingest));
            i += 1;
        }
        assert(events@.take(i as int) =~= events@);
        let _previous = self.journals.put(path, journal);
        proof {
            assert(self.journals().remove(path@) =~= before.journals().remove(path@));
            lemma_appended_events(base, events@, first);
            lemma_arrivals_extend(before.journals(), self.journals(), path@, first, events@.len());
            lemma_others_kept(before.journals(), path@, self.journals());
        }
        seqs
    }

    /// The events of a store, appended as the sync seam: as [`append`].
    ///
    /// [`append`]: InMemoryJournalStore::append
    pub fn append_sync(&mut self, path: &ActorPath, events: &[Event]) -> (seqs: Vec<SeqNo>)
        requires
            old(self).wf(),
            old(self).next_ingest() + events@.len() <= u64::MAX,
            journal_at(old(self).journals(), path@).event_count + events@.len() <= u64::MAX,
        ensures
            final(self).wf(),
            final(self).next_ingest() == old(self).next_ingest() + events@.len(),
            only_changes(old(self).journals(), path@, final(self).journals()),
            final(self).journals()[path@]@ == appended(
                journal_at(old(self).journals(), path@),
                events@,
                old(self).next_ingest(),
            ),
            numbered_from(seqs@, journal_at(old(self).journals(), path@).event_count, events@.len()),
    {
        self.append(path, events)
    }

    /// Appends catch-up seeds to a projector's journal, each traced to its
    /// origin. A fact whose origin the journal already holds is skipped.
    pub fn append_catchup(&mut self, path: &ActorPath, events: &[ScannedEvent]) -> (seqs: Vec<Option<SeqNo>>)
        requires
            old(self).wf(),
            old(self).next_ingest() + events@.len() <= u64::MAX,
            journal_at(old(self).journals(), path@).event_count + events@.len() <= u64::MAX,
        ensures
            final(self).wf(),
            final(self).next_ingest() == old(self).next_ingest() + seeded(
                journal_at(old(self).journals(), path@),
                events@,
                old(self).next_ingest(),
            ).count,
            only_changes(old(self).journals(), path@, final(self).journals()),
            final(self).journals()[path@]@ == seeded(
                journal_at(old(self).journals(), path@),
                events@,
                old(self).next_ingest(),
            ).journal,
            seqs@ == seeded(
                journal_at(old(self).journals(), path@),
                events@,
                old(self).next_ingest(),
            ).seqs,
    {
        let ghost before = *self;
        let ghost base = journal_at(before.journals(), path@);
        let ghost first = before.next_ingest();
        let mut journal = match self.journals.take(path) {
            Some(journal) => journal,
            None => Journal::new(),
        };
        let mut seqs: Vec<Option<SeqNo>> = Vec::new();
        let mut i: usize = 0;
        assert(events@.take(0) =~= Seq::empty());
        while i < events.len()
            invariant
                i <= events.len(),
                first + events@.len() <= u64::MAX,
                base.event_count + events@.len() <= u64::MAX,
                base.wf(),
                journal@.wf(),
                journal@ == seeded(base, events@.take(i as int), first).journal,
                seqs@ == seeded(base, events@.take(i as int), first).seqs,
                self.ingest_seq == first + seeded(base, events@.take(i as int), first).count,
                seeded(base, events@.take(i as int), first).count <= i,
                journal@.event_count == base.event_count + seeded(base, events@.take(i as int), first).count,
                self.journals@ == before.journals().remove(path@),
            decreases events.len() - i,
        {
            proof {
                let upto = events@.take(i + 1);
                assert(upto.drop_last() =~= events@.take(i as int));
                assert(upto.last() == events@[i as int]);
            }
            let scanned = &events[i];
            if journal.holds_origin(&scanned.journal, scanned.seq) {
                seqs.push(None);
            } else {
                let ingest: u64 = self.ingest_seq;
                self.ingest_seq = self.ingest_seq + 1;
                let origin = EventOrigin::CatchUp { source: scanned.journal.clone(), source_seq: scanned.seq };
                let seq = journal.append_event_with_origin(scanned.event.clone(), origin, ingest);
                seqs.push(Some(seq));
            }
            i += 1;
        }
        assert(events@.take(i as int) =~= events@);
        let _previous = self.journals.put(path, journal);
        proof {
            let n = seeded(base, events@, first).count;
            assert(self.journals().remove(path@) =~= before.journals().remove(path@));
            lemma_seeded_events(base, events@, first);
            lemma_arrivals_extend(before.journals(), self.journals(), path@, first, n);
            lemma_others_kept(before.journals(), path@, self.journals());
        }
        seqs
    }

    /// Surfaces every recorded event whose schema is in `schemas`, across all
    /// paths, in arrival order. Re-recorded entries never surface.
    pub fn scan(&self, schemas: &Vec<SchemaId>) -> (found: Vec<ScannedEvent>)
        requires
            self.wf(),
        ensures
            ascending(found@),
            forall|i: int|
                0 <= i < found@.len() ==> is_hit(self.journals(), names_of(schemas@), #[trigger] found@[i]),
            forall|fact: ScannedEvent, k: int| #[trigger]
                scan_hit(self.journals(), names_of(schemas@), fact, k) ==> surfaced(found@, fact),
    {
        let ghost names = names_of(schemas@);
        let ghost journals = self.journals();
        let mut found: Vec<ScannedEvent> = Vec::new();
        let n = self.journals.len();
        let ghost pairs = self.journals.pairs();
        let mut p: usize = 0;
        while p < n
            invariant
                n == pairs.len(),
                pairs == self.journals.pairs(),
                journals == self.journals(),
                names == names_of(schemas@),
                self.wf(),
                forall|i: int, j: int| 0 <= i < j < n ==> (#[trigger] pairs[i]).0@ != (#[trigger] pairs[j]).0@,
                p <= n,
                scan_progress(journals, names, pairs, p as int, 0, found@),
            decreases n - p,
        {
            let pair = self.journals.at(p);
            let events = pair.1.events();
            let path = &pair.0;
            let ghost here = events_at(journals, path@);
            assert(events@ == here);
            let mut e: usize = 0;
            while e < events.len()
                invariant
                    n == pairs.len(),
                    pairs == self.journals.pairs(),
                    journals == self.journals(),
                    names == names_of(schemas@),
                    self.wf(),
                    forall|i: int, j: int| 0 <= i < j < n ==> (#[trigger] pairs[i]).0@ != (#[trigger] pairs[j]).0@,
                    p < n,
                    *pair == pairs[p as int],
                    *path == pair.0,
                    here == events_at(journals, path@),
                    events@ == here,
                    e <= events.len(),
                    scan_progress(journals, names, pairs, p as int, e as int, found@),
                decreases events.len() - e,
            {
                let entry = &events[e];
                let ghost earlier = found@;
                let recorded = match &entry.origin {
                    EventOrigin::Recorded => true,
                    EventOrigin::CatchUp { .. } => false,
                };
                if recorded && lists(schemas, &entry.event.schema) {
                    let fact = ScannedEvent {
                        journal: path.clone(),
                        seq: entry.seq,
                        ingest_seq: entry.ingest_seq,
                        event: entry.event.clone(),
                    };
                    proof {
                        lemma_scan_new(journals, names, pairs, p as int, e as int, earlier, fact, self.next_ingest());
                    }
                    insert_by_arrival(&mut found, fact);
                } else {
                    proof {
                        lemma_scan_on(journals, names, pairs, p as int, e as int, earlier, p as int, e + 1);
                    }
                }
                e += 1;
            }
            proof {
                lemma_scan_on(journals, names, pairs, p as int, e as int, found@, p + 1, 0);
            }
            p += 1;
        }
        proof {
            assert forall|fact: ScannedEvent, k: int| #[trigger] scan_hit(journals, names, fact, k) implies surfaced(
                found@,
                fact,
            ) by {
                self.journals.lemma_pairs(fact.journal@);
                let at = choose|at: int| 0 <= at < pairs.len() && (#[trigger] pairs[at]).0@ == fact.journal@;
                assert(passed(journals, names, pairs, p as int, 0, fact, at, k));
            }
            assert forall|i: int| 0 <= i < found@.len() implies is_hit(journals, names, #[trigger] found@[i]) by {
                assert(traced(journals, names, pairs, p as int, 0, found@[i]));
                let (w, k) = choose|w: int, k: int| #[trigger]
                    passed(journals, names, pairs, p as int, 0, found@[i], w, k);
                assert(scan_hit(journals, names, found@[i], k));
            }
        }
        found
    }

    /// Appends a snapshot of the folded state.
    pub fn append_snapshot(&mut self, path: &ActorPath, seq: SeqNo, state: Json, now_ms: u64)
        requires
            old(self).wf(),
        ensures
            final(self).wf(),
            final(self).next_ingest() == old(self).next_ingest(),
            only_changes(old(self).journals(), path@, final(self).journals()),
            final(self).journals()[path@]@ == journal_at(old(self).journals(), path@).with_snapshot(
                seq,
                state,
                now_ms,
            ),
    {
        let ghost before = *self;
        let ghost base = journal_at(before.journals(), path@);
        let mut journal = match self.journals.take(path) {
            Some(journal) => journal,
            None => Journal::new(),
        };
        journal.append_snapshot(seq, state, now_ms);
        proof {
            assert(journal@.entries.drop_last() =~= base.entries);
        }
        let _previous = self.journals.put(path, journal);
        proof {
            assert(self.journals().remove(path@) =~= before.journals().remove(path@));
            lemma_others_kept(before.journals(), path@, self.journals());
            lemma_arrivals_extend(before.journals(), self.journals(), path@, before.next_ingest(), 0);
        }
    }

    /// The highest snapshot, the event tail after it and the full history;
    /// `None` where the path has no journal.
    pub fn load(&self, path: &ActorPath) -> (replay: Option<Replay>)
        ensures
            match replay {
                Some(replay) => self.journals().dom().contains(path@) && replays(replay, self.journals()[path@]@),
                None => !self.journals().dom().contains(path@),
            },
    {
        match self.journals.get(path) {
            Some(journal) => {
                let snapshot = match journal.last_snapshot() {
                    Some(entry) => Some(entry.clone()),
                    None => None,
                };
                let anchor = match &snapshot {
                    Some(entry) => entry.seq(),
                    None => SeqNo::before_genesis(),
                };
                let tail = copy_facts(&journal.after(anchor));
                Some(Replay { snapshot, tail, events: journal.events() })
            },
            None => None,
        }
    }

    /// Drops the actor's journal. The arrival counter keeps counting.
    pub fn purge(&mut self, path: &ActorPath)
        requires
            old(self).wf(),
        ensures
            final(self).wf(),
            final(self).next_ingest() == old(self).next_ingest(),
            final(self).journals() == old(self).journals().remove(path@),
    {
        let ghost before = *self;
        let _dropped = self.journals.take(path);
        proof {
            let (a, b) = (before.journals(), self.journals());
            assert forall|p: Seq<char>| p != path@ implies #[trigger] events_at(b, p) == events_at(a, p) by {}
            assert forall|p: Seq<char>, k: int| 0 <= k < events_at(b, p).len() implies (#[trigger] events_at(
                b,
                p,
            )[k]).ingest_seq < self.next_ingest() by {
                assert(events_at(b, p) == events_at(a, p));
                assert(events_at(a, p)[k].ingest_seq < before.next_ingest());
            }
            assert forall|p: Seq<char>, i: int, q: Seq<char>, j: int|
                0 <= i < events_at(b, p).len() && 0 <= j < events_at(b, q).len() && (#[trigger] events_at(
                    b,
                    p,
                )[i]).ingest_seq == (#[trigger] events_at(b, q)[j]).ingest_seq implies p == q && i == j by {
                assert(events_at(b, p) == events_at(a, p) && events_at(b, q) == events_at(a, q));
                assert(events_at(a, p)[i].ingest_seq == events_at(a, q)[j].ingest_seq);
            }
        }
    }

    /// The backend's name.
    pub fn name(&self) -> (name: &'static str)
        ensures
            name@ == "in-memory"@,
    {
        "in-memory"
    }
}

/// Whether two scanned facts are the same fact.
pub open spec fn same_fact(a: ScannedEvent, b: ScannedEvent) -> bool {
    a.journal@ == b.journal@ && a.seq == b.seq && a.ingest_seq == b.ingest_seq && a.event == b.event
}

/// Whether a walk that stands at event `e` of pair `p` has passed event `k` of
/// pair `at`.
spec fn reached(pairs: Seq<(ActorPath, Journal)>, p: int, e: int, at: int, k: int) -> bool {
    0 <= at < pairs.len() && (at < p || (at == p && k < e))
}

/// Whether a fact is a hit that a walk standing at event `e` of pair `p` has
/// passed.
spec fn traced(
    journals: Map<Seq<char>, Journal>,
    names: Seq<Seq<char>>,
    pairs: Seq<(ActorPath, Journal)>,
    p: int,
    e: int,
    fact: ScannedEvent,
) -> bool {
    exists|at: int, k: int| #[trigger]
        passed(journals, names, pairs, p, e, fact, at, k)
}

/// Whether a fact is the hit at event `k` of pair `at`, and the walk has passed
/// it.
spec fn passed(
    journals: Map<Seq<char>, Journal>,
    names: Seq<Seq<char>>,
    pairs: Seq<(ActorPath, Journal)>,
    p: int,
    e: int,
    fact: ScannedEvent,
    at: int,
    k: int,
) -> bool {
    &&& reached(pairs, p, e, at, k)
    &&& pairs[at].0@ == fact.journal@
    &&& scan_hit(journals, names, fact, k)
}

/// Whether a fact is among those found.
pub open spec fn surfaced(found: Seq<ScannedEvent>, fact: ScannedEvent) -> bool {
    exists|i: int| 0 <= i < found.len() && same_fact(#[trigger] found[i], fact)
}

/// Whether facts strictly ascend in arrival order.
pub open spec fn ascending(found: Seq<ScannedEvent>) -> bool {
    forall|i: int, j: int|
        0 <= i < j < found.len() ==> (#[trigger] found[i]).ingest_seq < (#[trigger] found[j]).ingest_seq
}

/// What a scan has found when it stands at event `e` of pair `p`: exactly the
/// hits it has passed, in arrival order.
spec fn scan_progress(
    journals: Map<Seq<char>, Journal>,
    names: Seq<Seq<char>>,
    pairs: Seq<(ActorPath, Journal)>,
    p: int,
    e: int,
    found: Seq<ScannedEvent>,
) -> bool {
    &&& ascending(found)
    &&& forall|i: int| 0 <= i < found.len() ==> traced(journals, names, pairs, p, e, #[trigger] found[i])
    &&& forall|fact: ScannedEvent, at: int, k: int| #[trigger]
        passed(journals, names, pairs, p, e, fact, at, k) ==> surfaced(found, fact)
}

/// A hit the scan comes to is filed among those found.
proof fn lemma_scan_new(
    journals: Map<Seq<char>, Journal>,
    names: Seq<Seq<char>>,
    pairs: Seq<(ActorPath, Journal)>,
    p: int,
    e: int,
    found: Seq<ScannedEvent>,
    fact: ScannedEvent,
    next: u64,
)
    requires
        arrivals_unique(journals, next),
        forall|i: int, j: int| 0 <= i < j < pairs.len() ==> (#[trigger] pairs[i]).0@ != (#[trigger] pairs[j]).0@,
        0 <= p < pairs.len(),
        pairs[p].0@ == fact.journal@,
        scan_hit(journals, names, fact, e),
        scan_progress(journals, names, pairs, p, e, found),
    ensures
        by_arrival(found),
        scan_progress(
            journals,
            names,
            pairs,
            p,
            e + 1,
            found.insert(arrival_place(found, fact.ingest_seq) as int, fact),
        ),
{
    assert(by_arrival(found));
    lemma_arrival_place(found, fact.ingest_seq);
    let at = arrival_place(found, fact.ingest_seq) as int;
    let after = found.insert(at, fact);
    assert forall|i: int| 0 <= i < found.len() implies (#[trigger] found[i]).ingest_seq != fact.ingest_seq by {
        assert(traced(journals, names, pairs, p, e, found[i]));
        let (w, k) = choose|w: int, k: int| #[trigger] passed(journals, names, pairs, p, e, found[i], w, k);
        if found[i].ingest_seq == fact.ingest_seq {
            let mine = events_at(journals, fact.journal@)[e];
            let other = events_at(journals, found[i].journal@)[k];
            assert(mine.ingest_seq == other.ingest_seq);
            assert(fact.journal@ == found[i].journal@ && e == k);
            if w < p {
                assert(pairs[w].0@ != pairs[p].0@);
            }
        }
    }
    lemma_file(found, at, fact);
    lemma_scan_filed(journals, names, pairs, p, e, found, fact, at);
}

/// The bookkeeping half of [`lemma_scan_new`]: with the hit filed at `at`, every
/// hit passed is found and every fact found is a hit passed.
proof fn lemma_scan_filed(
    journals: Map<Seq<char>, Journal>,
    names: Seq<Seq<char>>,
    pairs: Seq<(ActorPath, Journal)>,
    p: int,
    e: int,
    found: Seq<ScannedEvent>,
    fact: ScannedEvent,
    at: int,
)
    requires
        0 <= p < pairs.len(),
        pairs[p].0@ == fact.journal@,
        scan_hit(journals, names, fact, e),
        scan_progress(journals, names, pairs, p, e, found),
        0 <= at <= found.len(),
    ensures
        forall|i: int|
            0 <= i < found.len() + 1 ==> traced(
                journals,
                names,
                pairs,
                p,
                e + 1,
                #[trigger] found.insert(at, fact)[i],
            ),
        forall|other: ScannedEvent, w: int, k: int| #[trigger]
            passed(journals, names, pairs, p, e + 1, other, w, k) ==> surfaced(found.insert(at, fact), other),
{
    let after = found.insert(at, fact);
    assert forall|i: int| 0 <= i < after.len() implies traced(journals, names, pairs, p, e + 1, #[trigger] after[i]) by {
        if i == at {
            assert(passed(journals, names, pairs, p, e + 1, fact, p, e));
        } else {
            let x = if i < at {
                i
            } else {
                i - 1
            };
            assert(after[i] == found[x]);
            assert(traced(journals, names, pairs, p, e, found[x]));
            let (w, k) = choose|w: int, k: int| #[trigger] passed(journals, names, pairs, p, e, found[x], w, k);
            assert(passed(journals, names, pairs, p, e + 1, found[x], w, k));
        }
    }
    assert forall|other: ScannedEvent, w: int, k: int| #[trigger]
        passed(journals, names, pairs, p, e + 1, other, w, k) implies surfaced(after, other) by {
        if w == p && k == e {
            assert(same_fact(after[at], other));
        } else {
            assert(passed(journals, names, pairs, p, e, other, w, k));
            assert(surfaced(found, other));
            let x = choose|x: int| 0 <= x < found.len() && same_fact(#[trigger] found[x], other);
            let i = if x < at {
                x
            } else {
                x + 1
            };
            assert(after[i] == found[x]);
        }
    }
}

/// Moving on past nothing but misses changes nothing.
proof fn lemma_scan_on(
    journals: Map<Seq<char>, Journal>,
    names: Seq<Seq<char>>,
    pairs: Seq<(ActorPath, Journal)>,
    p: int,
    e: int,
    found: Seq<ScannedEvent>,
    q: int,
    f: int,
)
    requires
        scan_progress(journals, names, pairs, p, e, found),
        forall|at: int, k: int| reached(pairs, p, e, at, k) ==> #[trigger] reached(pairs, q, f, at, k),
        forall|fact: ScannedEvent, at: int, k: int| #[trigger]
            passed(journals, names, pairs, q, f, fact, at, k) ==> reached(pairs, p, e, at, k),
    ensures
        scan_progress(journals, names, pairs, q, f, found),
{
    assert forall|i: int| 0 <= i < found.len() implies traced(journals, names, pairs, q, f, #[trigger] found[i]) by {
        assert(traced(journals, names, pairs, p, e, found[i]));
        let (w, k) = choose|w: int, k: int| #[trigger] passed(journals, names, pairs, p, e, found[i], w, k);
        assert(reached(pairs, q, f, w, k));
        assert(passed(journals, names, pairs, q, f, found[i], w, k));
    }
    assert forall|other: ScannedEvent, w: int, k: int| #[trigger]
        passed(journals, names, pairs, q, f, other, w, k) implies surfaced(found, other) by {
        assert(passed(journals, names, pairs, p, e, other, w, k));
    }
}

/// The events of a seeding: those held before, then the facts that were new,
/// arriving one by one.
pub proof fn lemma_seeded_events(journal: JournalView, facts: Seq<ScannedEvent>, ingest_seq: u64)
    requires
        journal.event_count + facts.len() <= u64::MAX,
        ingest_seq + facts.len() <= u64::MAX,
    ensures
        seeded(journal, facts, ingest_seq).count <= facts.len(),
        seeded(journal, facts, ingest_seq).seqs.len() == facts.len(),
        seeded(journal, facts, ingest_seq).journal.event_count == journal.event_count + seeded(
            journal,
            facts,
            ingest_seq,
        ).count,
        events_of(seeded(journal, facts, ingest_seq).journal.entries).len() == events_of(journal.entries).len()
            + seeded(journal, facts, ingest_seq).count,
        forall|k: int|
            0 <= k < events_of(journal.entries).len() ==> #[trigger] events_of(
                seeded(journal, facts, ingest_seq).journal.entries,
            )[k] == events_of(journal.entries)[k],
        forall|k: int|
            0 <= k < seeded(journal, facts, ingest_seq).count ==> (#[trigger] events_of(
                seeded(journal, facts, ingest_seq).journal.entries,
            )[events_of(journal.entries).len() + k]).ingest_seq == ingest_seq + k && events_of(
                seeded(journal, facts, ingest_seq).journal.entries,
            )[events_of(journal.entries).len() + k].origin is CatchUp,
    decreases facts.len(),
{
    if facts.len() > 0 {
        let prior = seeded(journal, facts.drop_last(), ingest_seq);
        lemma_seeded_events(journal, facts.drop_last(), ingest_seq);
        let fact = facts.last();
        if !holds(events_of(prior.journal.entries), fact.journal@, fact.seq) {
            lemma_append_wf(
                prior.journal,
                fact.event,
                EventOrigin::CatchUp { source: fact.journal, source_seq: fact.seq },
                (ingest_seq + prior.count) as u64,
            );
            let base = events_of(journal.entries);
            let some = events_of(prior.journal.entries);
            let all = events_of(seeded(journal, facts, ingest_seq).journal.entries);
            assert forall|k: int| 0 <= k < base.len() implies #[trigger] all[k] == base[k] by {
                assert(all[k] == some[k]);
            }
            assert forall|k: int| 0 <= k < prior.count + 1 implies (
            #[trigger] all[base.len() + k]).ingest_seq == ingest_seq + k && all[base.len() + k].origin is CatchUp by {
                if k < prior.count {
                    assert(all[base.len() + k] == some[base.len() + k]);
                }
            }
        }
    }
}

/// The events of a batch append: those held before, then the batch, recorded
/// and arriving one by one.
pub proof fn lemma_appended_events(journal: JournalView, events: Seq<Event>, ingest_seq: u64)
    requires
        journal.event_count + events.len() <= u64::MAX,
        ingest_seq + events.len() <= u64::MAX,
    ensures
        appended(journal, events, ingest_seq).event_count == journal.event_count + events.len(),
        events_of(appended(journal, events, ingest_seq).entries).len() == events_of(journal.entries).len()
            + events.len(),
        forall|k: int|
            0 <= k < events_of(journal.entries).len() ==> #[trigger] events_of(
                appended(journal, events, ingest_seq).entries,
            )[k] == events_of(journal.entries)[k],
        forall|k: int|
            0 <= k < events.len() ==> #[trigger] events_of(appended(journal, events, ingest_seq).entries)[events_of(
                journal.entries,
            ).len() + k] == (JournaledEvent {
                seq: SeqNo { value: (journal.event_count + k) as u64 },
                event: events[k],
                origin: EventOrigin::Recorded,
                ingest_seq: (ingest_seq + k) as u64,
            }),
    decreases events.len(),
{
    if events.len() > 0 {
        let n = events.len() - 1;
        let prior = appended(journal, events.drop_last(), ingest_seq);
        lemma_appended_events(journal, events.drop_last(), ingest_seq);
        lemma_append_wf(prior, events.last(), EventOrigin::Recorded, (ingest_seq + n) as u64);
        let base = events_of(journal.entries);
        let all = events_of(appended(journal, events, ingest_seq).entries);
        let some = events_of(prior.entries);
        assert forall|k: int| 0 <= k < base.len() implies #[trigger] all[k] == base[k] by {
            assert(all[k] == some[k]);
        }
        assert forall|k: int| 0 <= k < events.len() implies #[trigger] all[base.len() + k] == (JournaledEvent {
            seq: SeqNo { value: (journal.event_count + k) as u64 },
            event: events[k],
            origin: EventOrigin::Recorded,
            ingest_seq: (ingest_seq + k) as u64,
        }) by {
            if k < n {
                assert(all[base.len() + k] == some[base.len() + k]);
                assert(events.drop_last()[k] == events[k]);
            }
        }
    }
}

/// Events arriving one by one from the store's counter keep every arrival
/// order unique.
proof fn lemma_arrivals_extend(
    before: Map<Seq<char>, Journal>,
    after: Map<Seq<char>, Journal>,
    path: Seq<char>,
    next: u64,
    n: nat,
)
    requires
        arrivals_unique(before, next),
        next + n <= u64::MAX,
        only_changes(before, path, after),
        events_at(after, path).len() == events_at(before, path).len() + n,
        forall|k: int|
            0 <= k < events_at(before, path).len() ==> #[trigger] events_at(after, path)[k] == events_at(
                before,
                path,
            )[k],
        forall|k: int|
            0 <= k < n ==> (#[trigger] events_at(after, path)[events_at(before, path).len() + k]).ingest_seq == next
                + k,
    ensures
        arrivals_unique(after, (next + n) as u64),
{
    let held = events_at(before, path).len() as int;
    lemma_others_kept(before, path, after);
    assert forall|p: Seq<char>, a: int| 0 <= a < events_at(after, p).len() implies (#[trigger] events_at(
        after,
        p,
    )[a]).ingest_seq < next + n && (p != path || a < held ==> events_at(after, p)[a] == events_at(before, p)[a] && a
        < events_at(before, p).len()) && (p == path && a >= held ==> events_at(after, p)[a].ingest_seq == next + (a
        - held)) by {
        if p == path {
            if a >= held {
                assert(events_at(after, path)[held + (a - held)].ingest_seq == next + (a - held));
            } else {
                assert(events_at(after, path)[a] == events_at(before, path)[a]);
            }
        } else {
            assert(before.dom().contains(p));
            assert(after[p] == before[p]);
            assert(events_at(before, p)[a].ingest_seq < next);
        }
    }
    assert forall|p: Seq<char>, a: int, q: Seq<char>, b: int|
        0 <= a < events_at(after, p).len() && 0 <= b < events_at(after, q).len() && (#[trigger] events_at(
            after,
            p,
        )[a]).ingest_seq == (#[trigger] events_at(after, q)[b]).ingest_seq implies p == q && a == b by {
        let fresh_a = p == path && a >= held;
        let fresh_b = q == path && b >= held;
        if !fresh_a {
            assert(events_at(before, p)[a].ingest_seq < next);
        }
        if !fresh_b {
            assert(events_at(before, q)[b].ingest_seq < next);
        }
    }
}

/// What a journal gives back of a write: after a batch append the history is
/// the history before it followed by the batch, in order.
pub proof fn law_append_reads_back(journal: JournalView, events: Seq<Event>, ingest_seq: u64)
    requires
        journal.event_count + events.len() <= u64::MAX,
        ingest_seq + events.len() <= u64::MAX,
    ensures
        facts(events_of(appended(journal, events, ingest_seq).entries)) == facts(events_of(journal.entries)) + events,
{
    lemma_appended_events(journal, events, ingest_seq);
    let all = events_of(appended(journal, events, ingest_seq).entries);
    let base = events_of(journal.entries);
    assert forall|k: int| 0 <= k < all.len() implies #[trigger] facts(all)[k] == (facts(base) + events)[k] by {
        if k < base.len() {
            assert(all[k] == base[k]);
        } else {
            assert(all[base.len() + (k - base.len())].event == events[k - base.len()]);
        }
    }
    assert(facts(all) =~= facts(base) + events);
}

/// Past an anchor the events of a journal continue where the anchor ends: a
/// snapshot and its tail cover every event once.
pub proof fn law_tail_continues_snapshot(journal: JournalView, anchor: SeqNo)
    requires
        journal.wf(),
        anchor@ < journal.event_count,
    ensures
        after_anchor(events_of(journal.entries), anchor) == events_of(journal.entries).skip(anchor@ + 1),
{
    let events = events_of(journal.entries);
    lemma_after_anchor(events, anchor, events.len() as int);
    assert(events.take(events.len() as int) =~= events);
}

/// Among events numbered from zero, those after the anchor are the ones past
/// its place.
proof fn lemma_after_anchor(events: Seq<JournaledEvent>, anchor: SeqNo, n: int)
    requires
        0 <= n <= events.len(),
        events.len() <= u64::MAX,
        anchor@ < events.len(),
        forall|k: int| 0 <= k < events.len() ==> (#[trigger] events[k]).seq@ == k,
    ensures
        after_anchor(events.take(n), anchor) == if n <= anchor@ {
            Seq::<JournaledEvent>::empty()
        } else {
            events.subrange(anchor@ + 1, n)
        },
    decreases n,
{
    if n > 0 {
        lemma_after_anchor(events, anchor, n - 1);
        assert(events.take(n).drop_last() =~= events.take(n - 1));
        assert(events.take(n).last() == events[n - 1]);
        if n - 1 > anchor@ {
            assert(events.subrange(anchor@ + 1, n) =~= events.subrange(anchor@ + 1, n - 1).push(events[n - 1]));
        } else if n - 1 == anchor@ {
            assert(events.subrange(anchor@ + 1, n) =~= Seq::empty());
        }
    } else {
        assert(events.take(0) =~= Seq::empty());
    }
}

/// Replaying after the sentinel before genesis yields every event.
pub proof fn law_before_genesis_replays_all(events: Seq<JournaledEvent>)
    ensures
        after_anchor(events, SeqNo { value: u64::MAX }) == events,
    decreases events.len(),
{
    if events.len() > 0 {
        law_before_genesis_replays_all(events.drop_last());
        assert(events.drop_last().push(events.last()) =~= events);
    }
}

/// The snapshot a replay starts from is one of the journal's, and none is
/// anchored higher.
pub proof fn law_highest_snapshot(entries: Seq<JournalEntry>)
    ensures
        match highest_snapshot(entries) {
            Some(best) => {
                &&& best is Snapshot
                &&& entries.contains(best)
                &&& forall|i: int|
                    0 <= i < entries.len() && #[trigger] entries[i] is Snapshot ==> entries[i].at()@ <= best.at()@
            },
            None => forall|i: int| 0 <= i < entries.len() ==> #[trigger] entries[i] is Event,
        },
    decreases entries.len(),
{
    if entries.len() > 0 {
        let rest = entries.drop_last();
        law_highest_snapshot(rest);
        let last = entries.len() - 1;
        assert(entries[last] == entries.last());
        assert forall|i: int| 0 <= i < last implies #[trigger] entries[i] == rest[i] by {}
        match highest_snapshot(rest) {
            Some(best) => {
                let at = choose|at: int| 0 <= at < rest.len() && rest[at] == best;
                assert(entries[at] == best);
            },
            None => {},
        }
    }
}

/// An origin a journal holds, it keeps holding as events are appended.
proof fn lemma_holds_grows(events: Seq<JournaledEvent>, more: JournaledEvent, source: Seq<char>, source_seq: SeqNo)
    requires
        holds(events, source, source_seq),
    ensures
        holds(events.push(more), source, source_seq),
{
    let i = choose|i: int| 0 <= i < events.len() && (#[trigger] events[i]).origin.is_catch_up(source, source_seq);
    assert(events.push(more)[i].origin.is_catch_up(source, source_seq));
}

/// A seeded journal holds the origin of every fact it was seeded with, and
/// every origin it held before.
proof fn lemma_seeded_holds(journal: JournalView, facts: Seq<ScannedEvent>, ingest_seq: u64)
    ensures
        forall|i: int|
            0 <= i < facts.len() ==> holds(
                events_of(seeded(journal, facts, ingest_seq).journal.entries),
                (#[trigger] facts[i]).journal@,
                facts[i].seq,
            ),
    decreases facts.len(),
{
    if facts.len() > 0 {
        let rest = facts.drop_last();
        let prior = seeded(journal, rest, ingest_seq);
        let fact = facts.last();
        let known = events_of(prior.journal.entries);
        lemma_seeded_holds(journal, rest, ingest_seq);
        let now = events_of(seeded(journal, facts, ingest_seq).journal.entries);
        if !holds(known, fact.journal@, fact.seq) {
            let origin = EventOrigin::CatchUp { source: fact.journal, source_seq: fact.seq };
            lemma_append_wf(prior.journal, fact.event, origin, (ingest_seq + prior.count) as u64);
            assert(now[known.len() as int].origin.is_catch_up(fact.journal@, fact.seq));
        }
        assert forall|i: int| 0 <= i < facts.len() implies holds(now, (#[trigger] facts[i]).journal@, facts[i].seq) by {
            if i < rest.len() {
                assert(facts[i] == rest[i]);
                if !holds(known, fact.journal@, fact.seq) {
                    lemma_holds_grows(known, now.last(), facts[i].journal@, facts[i].seq);
                }
            } else {
                assert(facts[i] == fact);
            }
        }
    }
}

/// Seeding facts whose origins a journal holds changes nothing.
proof fn lemma_seed_known(journal: JournalView, facts: Seq<ScannedEvent>, ingest_seq: u64)
    requires
        forall|i: int|
            0 <= i < facts.len() ==> holds(events_of(journal.entries), (#[trigger] facts[i]).journal@, facts[i].seq),
    ensures
        seeded(journal, facts, ingest_seq).journal == journal,
        seeded(journal, facts, ingest_seq).count == 0,
        seeded(journal, facts, ingest_seq).seqs == Seq::new(facts.len(), |i: int| None::<SeqNo>),
    decreases facts.len(),
{
    if facts.len() > 0 {
        let rest = facts.drop_last();
        assert forall|i: int| 0 <= i < rest.len() implies holds(
            events_of(journal.entries),
            (#[trigger] rest[i]).journal@,
            rest[i].seq,
        ) by {
            assert(rest[i] == facts[i]);
        }
        lemma_seed_known(journal, rest, ingest_seq);
        assert(facts.last() == facts[facts.len() - 1]);
    }
    assert(seeded(journal, facts, ingest_seq).seqs =~= Seq::new(facts.len(), |i: int| None::<SeqNo>));
}

/// Seeding is idempotent: seeding the same facts again appends nothing and
/// reports each as known.
pub proof fn law_seeding_idempotent(journal: JournalView, facts: Seq<ScannedEvent>, first: u64, again: u64)
    ensures
        seeded(seeded(journal, facts, first).journal, facts, again).journal == seeded(journal, facts, first).journal,
        seeded(seeded(journal, facts, first).journal, facts, again).count == 0,
        seeded(seeded(journal, facts, first).journal, facts, again).seqs == Seq::new(
            facts.len(),
            |i: int| None::<SeqNo>,
        ),
{
    lemma_seeded_holds(journal, facts, first);
    lemma_seed_known(seeded(journal, facts, first).journal, facts, again);
}

/// Whether one of some facts has this origin.
pub open spec fn names_origin(facts: Seq<ScannedEvent>, source: Seq<char>, source_seq: SeqNo) -> bool {
    exists|j: int| 0 <= j < facts.len() && (#[trigger] facts[j]).journal@ == source && facts[j].seq == source_seq
}

/// How many facts were appended, by the answers of a seeding.
pub open spec fn newly_held(seqs: Seq<Option<SeqNo>>) -> nat
    decreases seqs.len(),
{
    if seqs.len() == 0 {
        0
    } else {
        newly_held(seqs.drop_last()) + if seqs.last() is Some {
            1nat
        } else {
            0nat
        }
    }
}

/// A seeding holds an origin exactly where the journal held it before or a fact
/// has it.
proof fn lemma_seeded_origins(
    journal: JournalView,
    facts: Seq<ScannedEvent>,
    ingest_seq: u64,
    source: Seq<char>,
    source_seq: SeqNo,
)
    ensures
        holds(events_of(seeded(journal, facts, ingest_seq).journal.entries), source, source_seq) <==> holds(
            events_of(journal.entries),
            source,
            source_seq,
        ) || names_origin(facts, source, source_seq),
    decreases facts.len(),
{
    if facts.len() > 0 {
        let rest = facts.drop_last();
        let fact = facts.last();
        let prior = seeded(journal, rest, ingest_seq);
        let known = events_of(prior.journal.entries);
        let now = events_of(seeded(journal, facts, ingest_seq).journal.entries);
        lemma_seeded_origins(journal, rest, ingest_seq, source, source_seq);
        if names_origin(rest, source, source_seq) {
            let j = choose|j: int|
                0 <= j < rest.len() && (#[trigger] rest[j]).journal@ == source && rest[j].seq == source_seq;
            assert(facts[j] == rest[j]);
        }
        if names_origin(facts, source, source_seq) {
            let j = choose|j: int|
                0 <= j < facts.len() && (#[trigger] facts[j]).journal@ == source && facts[j].seq == source_seq;
            if j < rest.len() {
                assert(rest[j] == facts[j]);
            }
        }
        if fact.journal@ == source && fact.seq == source_seq {
            assert(facts[facts.len() - 1] == fact);
        }
        if !holds(known, fact.journal@, fact.seq) {
            let origin = EventOrigin::CatchUp { source: fact.journal, source_seq: fact.seq };
            lemma_append_wf(prior.journal, fact.event, origin, (ingest_seq + prior.count) as u64);
            if holds(known, source, source_seq) {
                lemma_holds_grows(known, now.last(), source, source_seq);
            }
            if fact.journal@ == source && fact.seq == source_seq {
                assert(now[known.len() as int].origin.is_catch_up(source, source_seq));
            }
            if holds(now, source, source_seq) {
                let i = choose|i: int|
                    0 <= i < now.len() && (#[trigger] now[i]).origin.is_catch_up(source, source_seq);
                if i < known.len() {
                    assert(known[i].origin.is_catch_up(source, source_seq));
                }
            }
        }
    }
}

/// What a seeding answers, fact by fact: `None` exactly where the journal held
/// the fact's origin before or an earlier fact has it; otherwise the journal's
/// next seq, at which the fact is stored under that origin.
pub proof fn law_seeding_answers(journal: JournalView, facts: Seq<ScannedEvent>, ingest_seq: u64)
    requires
        journal.wf(),
        journal.event_count + facts.len() <= u64::MAX,
        ingest_seq + facts.len() <= u64::MAX,
    ensures
        seeded(journal, facts, ingest_seq).seqs.len() == facts.len(),
        seeded(journal, facts, ingest_seq).count == newly_held(seeded(journal, facts, ingest_seq).seqs),
        forall|i: int|
            0 <= i < facts.len() ==> ((#[trigger] seeded(journal, facts, ingest_seq).seqs[i]) is None <==> holds(
                events_of(journal.entries),
                facts[i].journal@,
                facts[i].seq,
            ) || names_origin(facts.take(i), facts[i].journal@, facts[i].seq)),
        forall|i: int|
            0 <= i < facts.len() ==> ((#[trigger] seeded(journal, facts, ingest_seq).seqs[i]) matches Some(seq) ==> {
                &&& seq@ == journal.event_count + newly_held(seeded(journal, facts, ingest_seq).seqs.take(i))
                &&& seq@ < events_of(seeded(journal, facts, ingest_seq).journal.entries).len()
                &&& events_of(seeded(journal, facts, ingest_seq).journal.entries)[seq@ as int].event == facts[i].event
                &&& events_of(seeded(journal, facts, ingest_seq).journal.entries)[seq@ as int].origin
                    == (EventOrigin::CatchUp { source: facts[i].journal, source_seq: facts[i].seq })
            }),
    decreases facts.len(),
{
    if facts.len() > 0 {
        let rest = facts.drop_last();
        let fact = facts.last();
        let last = facts.len() - 1;
        let prior = seeded(journal, rest, ingest_seq);
        let done = seeded(journal, facts, ingest_seq);
        let known = events_of(prior.journal.entries);
        let now = events_of(done.journal.entries);
        law_seeding_answers(journal, rest, ingest_seq);
        lemma_seeded_events(journal, rest, ingest_seq);
        lemma_seeded_origins(journal, rest, ingest_seq, fact.journal@, fact.seq);
        assert(done.seqs.drop_last() =~= prior.seqs);
        assert(facts.take(last) =~= rest);
        assert(done.seqs.take(last) =~= prior.seqs);
        if !holds(known, fact.journal@, fact.seq) {
            let origin = EventOrigin::CatchUp { source: fact.journal, source_seq: fact.seq };
            lemma_append_wf(prior.journal, fact.event, origin, (ingest_seq + prior.count) as u64);
        }
        assert forall|i: int| 0 <= i < last implies {
            &&& (#[trigger] done.seqs[i]) == prior.seqs[i]
            &&& facts.take(i) == rest.take(i)
            &&& facts[i] == rest[i]
            &&& done.seqs.take(i) == prior.seqs.take(i)
        } by {
            assert(facts.take(i) =~= rest.take(i));
            assert(done.seqs.take(i) =~= prior.seqs.take(i));
        }
        assert forall|k: int| 0 <= k < known.len() implies #[trigger] now[k] == known[k] by {}
    }
}

/// Checkpoints are invisible: seeding a journal surfaces nothing new in any
/// scan and hides nothing that surfaced.
pub proof fn law_scans_ignore_seeding(
    before: Map<Seq<char>, Journal>,
    path: Seq<char>,
    after: Map<Seq<char>, Journal>,
    seeds: Seq<ScannedEvent>,
    ingest_seq: u64,
    names: Seq<Seq<char>>,
    fact: ScannedEvent,
)
    requires
        journal_at(before, path).event_count + seeds.len() <= u64::MAX,
        ingest_seq + seeds.len() <= u64::MAX,
        only_changes(before, path, after),
        after[path]@ == seeded(journal_at(before, path), seeds, ingest_seq).journal,
    ensures
        is_hit(before, names, fact) <==> is_hit(after, names, fact),
{
    lemma_others_kept(before, path, after);
    lemma_seeded_events(journal_at(before, path), seeds, ingest_seq);
    assert(events_of(JournalView::genesis().entries) =~= Seq::empty());
    let old_events = events_at(before, path);
    let new_events = events_at(after, path);
    if is_hit(before, names, fact) {
        let k = choose|k: int| #[trigger] scan_hit(before, names, fact, k);
        if fact.journal@ == path {
            assert(new_events[k] == old_events[k]);
        }
        assert(scan_hit(after, names, fact, k));
    }
    if is_hit(after, names, fact) {
        let k = choose|k: int| #[trigger] scan_hit(after, names, fact, k);
        if fact.journal@ == path {
            if k >= old_events.len() {
                assert(new_events[old_events.len() + (k - old_events.len())].origin is CatchUp);
            } else {
                assert(new_events[k] == old_events[k]);
            }
        } else {
            assert(after.dom().contains(fact.journal@));
        }
        assert(scan_hit(before, names, fact, k));
    }
}

/// The history of a journal is its event entries, each as it was recorded and in
/// order; snapshots are no part of it.
pub proof fn law_history_is_the_event_entries(entries: Seq<JournalEntry>)
    ensures
        events_of(entries) == entries.filter_map(
            |entry: JournalEntry|
                match entry {
                    JournalEntry::Event { seq, event, origin, ingest_seq } => Some(
                        JournaledEvent { seq, event, origin, ingest_seq },
                    ),
                    JournalEntry::Snapshot { .. } => None,
                },
        ),
        facts(events_of(entries)).len() == events_of(entries).len(),
        forall|i: int|
            0 <= i < events_of(entries).len() ==> facts(events_of(entries))[i] == (#[trigger] events_of(
                entries,
            )[i]).event,
    decreases entries.len(),
{
    if entries.len() > 0 {
        law_history_is_the_event_entries(entries.drop_last());
    }
}

/// The tail behind an anchor is every event of a higher seq, in order, and the
/// whole history behind the sentinel before genesis.
pub proof fn law_tail_is_what_lies_behind(events: Seq<JournaledEvent>, anchor: SeqNo)
    ensures
        anchor@ < u64::MAX ==> after_anchor(events, anchor) == events.filter(
            |entry: JournaledEvent| entry.seq@ > anchor@,
        ),
    decreases events.len(),
{
    reveal(Seq::filter);
    if events.len() > 0 {
        law_tail_is_what_lies_behind(events.drop_last(), anchor);
    }
}

/// Among snapshots of one anchor the latest counts: every later snapshot is
/// anchored lower.
pub proof fn law_latest_snapshot_of_an_anchor(entries: Seq<JournalEntry>)
    ensures
        highest_snapshot(entries) matches Some(best) ==> exists|k: int|
            0 <= k < entries.len() && #[trigger] entries[k] == best && forall|j: int|
                k < j < entries.len() && #[trigger] entries[j] is Snapshot ==> entries[j].at()@ < best.at()@,
    decreases entries.len(),
{
    if entries.len() > 0 {
        let rest = entries.drop_last();
        let last = entries.len() - 1;
        law_latest_snapshot_of_an_anchor(rest);
        if let Some(best) = highest_snapshot(entries) {
            if highest_snapshot(rest) == Some(best) && !(entries[last] is Snapshot && entries[last].at()@
                >= best.at()@) {
                let k = choose|k: int|
                    0 <= k < rest.len() && #[trigger] rest[k] == best && forall|j: int|
                        k < j < rest.len() && #[trigger] rest[j] is Snapshot ==> rest[j].at()@ < best.at()@;
                assert(entries[k] == best);
                assert forall|j: int| k < j < entries.len() && #[trigger] entries[j] is Snapshot implies entries[j].at()@
                    < best.at()@ by {
                    if j < last {
                        assert(rest[j] == entries[j]);
                    }
                }
            } else {
                assert(entries[last] == best);
            }
        }
    }
}

/// What a load gives back of a snapshot: one that is anchored no lower than any
/// before it is the one a load starts from, and it changes nothing of the
/// history.
pub proof fn law_snapshot_reads_back(journal: JournalView, seq: SeqNo, state: Json, now_ms: u64)
    requires
        forall|i: int|
            0 <= i < journal.entries.len() && #[trigger] journal.entries[i] is Snapshot ==> journal.entries[i].at()@
                <= seq@,
    ensures
        highest_snapshot(journal.with_snapshot(seq, state, now_ms).entries) == Some(
            JournalEntry::Snapshot { seq, state },
        ),
        events_of(journal.with_snapshot(seq, state, now_ms).entries) == events_of(journal.entries),
        journal.with_snapshot(seq, state, now_ms).event_count == journal.event_count,
        journal.with_snapshot(seq, state, now_ms).last_snapshot_ms == Some(now_ms),
{
    let after = journal.with_snapshot(seq, state, now_ms).entries;
    assert(after.drop_last() =~= journal.entries);
    law_highest_snapshot(journal.entries);
    if let Some(best) = highest_snapshot(journal.entries) {
        let i = choose|i: int| 0 <= i < journal.entries.len() && journal.entries[i] == best;
        assert(journal.entries[i].at()@ <= seq@);
    }
}

/// What an append writes: one entry per event, behind everything the journal
/// held, numbered on from it, recorded as the actor's own, and arriving one
/// after the other.
pub proof fn law_append_writes_one_entry_each(journal: JournalView, events: Seq<Event>, ingest_seq: u64)
    requires
        journal.event_count + events.len() <= u64::MAX,
        ingest_seq + events.len() <= u64::MAX,
    ensures
        appended(journal, events, ingest_seq).entries == journal.entries + Seq::new(
            events.len(),
            |i: int|
                JournalEntry::Event {
                    seq: SeqNo { value: (journal.event_count + i) as u64 },
                    event: events[i],
                    origin: EventOrigin::Recorded,
                    ingest_seq: (ingest_seq + i) as u64,
                },
        ),
        appended(journal, events, ingest_seq).event_count == journal.event_count + events.len(),
        appended(journal, events, ingest_seq).last_snapshot_ms == journal.last_snapshot_ms,
    decreases events.len(),
{
    let all = appended(journal, events, ingest_seq).entries;
    if events.len() > 0 {
        law_append_writes_one_entry_each(journal, events.drop_last(), ingest_seq);
        assert forall|i: int| 0 <= i < events.len() implies #[trigger] all[journal.entries.len() + i]
            == (JournalEntry::Event {
            seq: SeqNo { value: (journal.event_count + i) as u64 },
            event: events[i],
            origin: EventOrigin::Recorded,
            ingest_seq: (ingest_seq + i) as u64,
        }) by {
            if i < events.len() - 1 {
                assert(all[journal.entries.len() + i] == appended(journal, events.drop_last(), ingest_seq).entries[
                    journal.entries.len() + i]);
                assert(events.drop_last()[i] == events[i]);
            }
        }
    }
    assert(all =~= journal.entries + Seq::new(
        events.len(),
        |i: int|
            JournalEntry::Event {
                seq: SeqNo { value: (journal.event_count + i) as u64 },
                event: events[i],
                origin: EventOrigin::Recorded,
                ingest_seq: (ingest_seq + i) as u64,
            },
    ));
}

/// Two appends, one after the other, are one append of both.
pub proof fn law_appends_continue(journal: JournalView, first: Seq<Event>, then: Seq<Event>, ingest_seq: u64)
    requires
        journal.event_count + first.len() + then.len() <= u64::MAX,
        ingest_seq + first.len() + then.len() <= u64::MAX,
    ensures
        appended(
            appended(journal, first, ingest_seq),
            then,
            (ingest_seq + first.len()) as u64,
        ) == appended(journal, first + then, ingest_seq),
    decreases then.len(),
{
    if then.len() == 0 {
        assert(first + then =~= first);
    } else {
        law_appends_continue(journal, first, then.drop_last(), ingest_seq);
        assert((first + then).drop_last() =~= first + then.drop_last());
        assert((first + then).last() == then.last());
    }
}

/// What the in-memory store answers to a load is the journal: a snapshot that
/// none is anchored above and the facts behind its place, so that the two cover
/// every event once; all facts where there is no snapshot; and the whole
/// history.
pub proof fn law_replay_covers_every_event_once(replay: Replay, journal: JournalView)
    requires
        journal.wf(),
        replays(replay, journal),
        replay.snapshot matches Some(snapshot) ==> snapshot.at()@ < journal.event_count,
    ensures
        replay.events@ == events_of(journal.entries),
        match replay.snapshot {
            Some(JournalEntry::Snapshot { seq, state }) => {
                let history = events_of(journal.entries).map_values(|entry: JournaledEvent| entry.event);
                &&& journal.entries.contains(JournalEntry::Snapshot { seq, state })
                &&& replay.tail@ == history.skip(seq@ + 1)
                &&& history.take(seq@ + 1) + replay.tail@ == history
            },
            Some(JournalEntry::Event { .. }) => false,
            None => replay.tail@ == events_of(journal.entries).map_values(|entry: JournaledEvent| entry.event),
        },
{
    let events = events_of(journal.entries);
    let history = events.map_values(|entry: JournaledEvent| entry.event);
    law_highest_snapshot(journal.entries);
    match replay.snapshot {
        Some(snapshot) => {
            law_tail_continues_snapshot(journal, snapshot.at());
            assert(replay.tail@ =~= history.skip(snapshot.at()@ + 1));
            assert(history.take(snapshot.at()@ + 1) + replay.tail@ =~= history);
        },
        None => {
            law_before_genesis_replays_all(events);
        },
    }
}

/// A journal holds an origin exactly where one of its events re-records that
/// very fact.
pub proof fn law_holds_names_the_fact(events: Seq<JournaledEvent>, source: Seq<char>, source_seq: SeqNo)
    ensures
        holds(events, source, source_seq) <==> exists|i: int|
            0 <= i < events.len() && match (#[trigger] events[i]).origin {
                EventOrigin::CatchUp { source: from, source_seq: at } => from@ == source && at == source_seq,
                EventOrigin::Recorded => false,
            },
{
    if holds(events, source, source_seq) {
        let i = choose|i: int| 0 <= i < events.len() && (#[trigger] events[i]).origin.is_catch_up(source, source_seq);
        assert(events[i].origin is CatchUp);
    }
    if exists|i: int|
        0 <= i < events.len() && match (#[trigger] events[i]).origin {
            EventOrigin::CatchUp { source: from, source_seq: at } => from@ == source && at == source_seq,
            EventOrigin::Recorded => false,
        } {
        let i = choose|i: int|
            0 <= i < events.len() && match (#[trigger] events[i]).origin {
                EventOrigin::CatchUp { source: from, source_seq: at } => from@ == source && at == source_seq,
                EventOrigin::Recorded => false,
            };
        assert(events[i].origin.is_catch_up(source, source_seq));
    }
}

/// A scan surfaces what actors recorded and nothing else: each event that a
/// journal records as its own under a schema asked for is found, with its
/// journal, seq and arrival order, and nothing is found twice; a re-recorded
/// fact and a fact of another schema are never found.
pub proof fn law_scan_finds_what_was_recorded(
    journals: Map<Seq<char>, Journal>,
    names: Seq<Seq<char>>,
    found: Seq<ScannedEvent>,
    journal: ActorPath,
    k: int,
)
    requires
        ascending(found),
        forall|i: int| 0 <= i < found.len() ==> is_hit(journals, names, #[trigger] found[i]),
        forall|fact: ScannedEvent, k: int| #[trigger] scan_hit(journals, names, fact, k) ==> surfaced(found, fact),
        journals.dom().contains(journal@),
        0 <= k < events_of(journals[journal@]@.entries).len(),
    ensures
        ({
            let entry = events_of(journals[journal@]@.entries)[k];
            entry.origin is Recorded && names.contains(entry.event.schema@) ==> exists|i: int|
                0 <= i < found.len() && (#[trigger] found[i]).journal@ == journal@ && found[i].seq == entry.seq
                    && found[i].ingest_seq == entry.ingest_seq && found[i].event == entry.event
        }),
        forall|i: int|
            0 <= i < found.len() ==> {
                let fact = #[trigger] found[i];
                &&& names.contains(fact.event.schema@)
                &&& journals.dom().contains(fact.journal@)
                &&& exists|e: int|
                    0 <= e < events_of(journals[fact.journal@]@.entries).len() && (#[trigger] events_of(
                        journals[fact.journal@]@.entries,
                    )[e]).origin is Recorded && events_of(journals[fact.journal@]@.entries)[e].event == fact.event
                        && events_of(journals[fact.journal@]@.entries)[e].seq == fact.seq && events_of(
                        journals[fact.journal@]@.entries,
                    )[e].ingest_seq == fact.ingest_seq
            },
        found.no_duplicates(),
{
    let entry = events_of(journals[journal@]@.entries)[k];
    if entry.origin is Recorded && names.contains(entry.event.schema@) {
        let fact = ScannedEvent { journal, seq: entry.seq, ingest_seq: entry.ingest_seq, event: entry.event };
        assert(scan_hit(journals, names, fact, k));
        let i = choose|i: int| 0 <= i < found.len() && same_fact(#[trigger] found[i], fact);
        assert(found[i].journal@ == journal@);
    }
    assert forall|i: int| 0 <= i < found.len() implies {
        let fact = #[trigger] found[i];
        &&& names.contains(fact.event.schema@)
        &&& journals.dom().contains(fact.journal@)
        &&& exists|e: int|
            0 <= e < events_of(journals[fact.journal@]@.entries).len() && (#[trigger] events_of(
                journals[fact.journal@]@.entries,
            )[e]).origin is Recorded && events_of(journals[fact.journal@]@.entries)[e].event == fact.event
                && events_of(journals[fact.journal@]@.entries)[e].seq == fact.seq && events_of(
                journals[fact.journal@]@.entries,
            )[e].ingest_seq == fact.ingest_seq
    } by {
        assert(is_hit(journals, names, found[i]));
        let e = choose|e: int| #[trigger] scan_hit(journals, names, found[i], e);
        assert(events_at(journals, found[i].journal@)[e].origin is Recorded);
    }
}

/// An entry's wire form is the entry: two entries of one wire form have the same
/// seq, schema, payload text, origin and arrival order, or the same snapshot.
pub proof fn law_wire_form_is_faithful(wire: WireJournalEntry, one: JournalEntry, other: JournalEntry)
    requires
        wire_of(wire, one),
        wire_of(wire, other),
    ensures
        match (one, other) {
            (
                JournalEntry::Event { seq: s, event: e, origin: o, ingest_seq: i },
                JournalEntry::Event { seq: t, event: f, origin: p, ingest_seq: j },
            ) => s == t && o == p && i == j && e.schema == f.schema && e.payload@.wire() == f.payload@.wire(),
            (
                JournalEntry::Snapshot { seq: s, state: a },
                JournalEntry::Snapshot { seq: t, state: b },
            ) => s == t && a == b,
            _ => false,
        },
{
}

/// The seqs that an append answers are the places where its events stand in the
/// history afterwards.
pub proof fn law_answered_seqs_are_the_places(
    journal: JournalView,
    events: Seq<Event>,
    ingest_seq: u64,
    seqs: Seq<SeqNo>,
    k: int,
)
    requires
        journal.wf(),
        journal.event_count + events.len() <= u64::MAX,
        ingest_seq + events.len() <= u64::MAX,
        numbered_from(seqs, journal.event_count, events.len()),
        0 <= k < events.len(),
    ensures
        seqs.len() == events.len(),
        ({
            let history = events_of(appended(journal, events, ingest_seq).entries);
            &&& seqs[k]@ < history.len()
            &&& history[seqs[k]@ as int].seq == seqs[k]
            &&& history[seqs[k]@ as int].event == events[k]
            &&& history[seqs[k]@ as int].origin is Recorded
            &&& history[seqs[k]@ as int].ingest_seq == ingest_seq + k
        }),
{
    lemma_appended_events(journal, events, ingest_seq);
    let history = events_of(appended(journal, events, ingest_seq).entries);
    let base = events_of(journal.entries).len() as int;
    assert(seqs[k]@ == journal.event_count + k);
    assert(history[base + k].event == events[k]);
}

/// A number is listed exactly where one of the numbers is it.
pub proof fn law_listed_seq(seqs: Seq<SeqNo>, seq: u64)
    ensures
        has_seq(seqs, seq) <==> seqs.map_values(|listed: SeqNo| listed@).contains(seq),
{
    let values = seqs.map_values(|listed: SeqNo| listed@);
    if has_seq(seqs, seq) {
        let i = choose|i: int| 0 <= i < seqs.len() && (#[trigger] seqs[i])@ == seq;
        assert(values[i] == seq);
    }
    if values.contains(seq) {
        let i = choose|i: int| 0 <= i < values.len() && values[i] == seq;
        assert(seqs[i]@ == seq);
    }
}

} // verus!
