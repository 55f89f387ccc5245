//! Envelopes and the message shapes that ride in them.
//!
//! A payload is a live value, wire bytes that arrived without one, or a JSON
//! tree, behind a shared cell. Copies of an envelope share the payload.

use std::sync::Arc;

use vstd::prelude::*;
use vstd::string::StringExecFns;

use crate::actor::ActorPath;
use crate::clock::Timestamp;
use crate::ids::id_chars;
use crate::ids::minted;
use crate::ids::IdBits;
use crate::ids::IdMint;
use crate::journal::SeqNo;
use crate::json::canonical;
use crate::json::depth;
use crate::json::field_of;
use crate::json::json_bytes;
use crate::json::json_parsed;
use crate::json::share;
use crate::json::string_form;
use crate::json::Json;
use crate::json::JsonView;
use crate::json::MAX_DEPTH;
use crate::reply::LeaseId;
use crate::schema::Schema;
use crate::schema::SchemaId;

verus! {

/// Where a message is headed.
#[derive(Debug, Hash)]
pub enum Address {
    /// A named actor's inbox. Survives restarts.
    Path(ActorPath),
    /// A reply slot for an in-flight ask.
    Slot(LeaseId),
    /// Any handler of the schema: one is picked per send.
    Schema(SchemaId),
}

/// What an address names.
pub enum AddressView {
    /// An actor path.
    Path(Seq<char>),
    /// A reply slot's id.
    Slot((u64, u64)),
    /// A schema name.
    Schema(Seq<char>),
}

impl View for Address {
    type V = AddressView;

    open spec fn view(&self) -> AddressView {
        match *self {
            Address::Path(path) => AddressView::Path(path@),
            Address::Slot(lease) => AddressView::Slot(lease@),
            Address::Schema(schema) => AddressView::Schema(schema@),
        }
    }
}

/// An address as text: a path bare, a slot and a schema inside their word.
pub open spec fn address_chars(address: AddressView) -> Seq<char> {
    match address {
        AddressView::Path(path) => path,
        AddressView::Slot(lease) => "slot("@ + id_chars(lease.0, lease.1) + ")"@,
        AddressView::Schema(schema) => "schema("@ + schema + ")"@,
    }
}

impl Address {
    /// The address as text.
    pub fn to_string(&self) -> (text: String)
        ensures
            text@ == address_chars(self@),
    {
        match self {
            Address::Path(path) => path.to_string(),
            Address::Slot(lease) => {
                let mut text = "slot(".to_owned();
                text.append(lease.to_string().as_str());
                text.append(")");
                text
            },
            Address::Schema(schema) => {
                let mut text = "schema(".to_owned();
                text.append(schema.as_str());
                text.append(")");
                text
            },
        }
    }
}

impl Clone for Address {
    fn clone(&self) -> (address: Self)
        ensures
            address == *self,
    {
        match self {
            Address::Path(path) => Address::Path(path.clone()),
            Address::Slot(lease) => Address::Slot(*lease),
            Address::Schema(schema) => Address::Schema(schema.clone()),
        }
    }
}

impl PartialEq for Address {
    fn eq(&self, other: &Self) -> (r: bool) {
        match (self, other) {
            (Address::Path(a), Address::Path(b)) => *a == *b,
            (Address::Slot(a), Address::Slot(b)) => a.bits().same(b.bits()),
            (Address::Schema(a), Address::Schema(b)) => *a == *b,
            _ => false,
        }
    }
}

impl vstd::std_specs::cmp::PartialEqSpecImpl for Address {
    open spec fn obeys_eq_spec() -> bool {
        true
    }

    open spec fn eq_spec(&self, other: &Self) -> bool {
        self@ == other@
    }
}

impl Eq for Address {}

/// Identifies a whole causal conversation.
#[derive(Debug, Clone, Copy, PartialEq, Eq, Hash, Structural)]
pub struct TraceId {
    bits: IdBits,
}

impl View for TraceId {
    type V = (u64, u64);

    closed spec fn view(&self) -> (u64, u64) {
        self.bits@
    }
}

impl TraceId {
    /// Generates a fresh, time-ordered trace id.
    pub fn new(mint: &mut IdMint, now: Timestamp) -> (id: Self)
        ensures
            minted(*old(mint), now@, *final(mint), id@),
    {
        TraceId { bits: IdBits::mint(mint, now.as_millis()) }
    }

    /// Wraps the bits of an id.
    pub fn from_bits(bits: IdBits) -> (id: Self)
        ensures
            id@ == bits@,
    {
        TraceId { bits }
    }

    /// The bits of the id.
    pub fn bits(self) -> (bits: IdBits)
        ensures
            bits@ == self@,
    {
        self.bits
    }

    /// The id as text.
    pub fn to_string(&self) -> (text: String)
        ensures
            text@ == id_chars(self@.0, self@.1),
    {
        self.bits.to_string()
    }
}

/// Identifies one hop's position within a conversation.
#[derive(Debug, Clone, Copy, PartialEq, Eq, Hash, Structural)]
pub struct CausalityId {
    bits: IdBits,
}

impl View for CausalityId {
    type V = (u64, u64);

    closed spec fn view(&self) -> (u64, u64) {
        self.bits@
    }
}

impl CausalityId {
    /// Generates a fresh, time-ordered causality id.
    pub fn new(mint: &mut IdMint, now: Timestamp) -> (id: Self)
        ensures
            minted(*old(mint), now@, *final(mint), id@),
    {
        CausalityId { bits: IdBits::mint(mint, now.as_millis()) }
    }

    /// Wraps the bits of an id.
    pub fn from_bits(bits: IdBits) -> (id: Self)
        ensures
            id@ == bits@,
    {
        CausalityId { bits }
    }

    /// The bits of the id.
    pub fn bits(self) -> (bits: IdBits)
        ensures
            bits@ == self@,
    {
        self.bits
    }

    /// The id as text.
    pub fn to_string(&self) -> (text: String)
        ensures
            text@ == id_chars(self@.0, self@.1),
    {
        self.bits.to_string()
    }

    /// The millisecond embedded in the id.
    pub fn as_millis_ts(self) -> (ts: Timestamp)
        ensures
            ts@ == self@.0 >> 16,
    {
        Timestamp::from_millis(self.bits.millis())
    }
}

/// Trace metadata carried by every envelope.
#[derive(Debug, Clone, Copy, PartialEq, Eq, Hash, Structural)]
pub struct TraceCtx {
    /// Identifies the whole causal conversation.
    pub trace_id: TraceId,
    /// Identifies this hop's position within the conversation.
    pub causality_id: CausalityId,
}

impl TraceCtx {
    /// Starts a fresh conversation with a fresh causality root.
    pub fn root(mint: &mut IdMint, now: Timestamp) -> (trace: Self)
        ensures
            exists|between: IdMint|
                {
                    &&& #[trigger] minted(*old(mint), now@, between, trace.trace_id@)
                    &&& minted(between, now@, *final(mint), trace.causality_id@)
                },
    {
        let trace_id = TraceId::new(mint, now);
        let ghost between = *mint;
        let causality_id = CausalityId::new(mint, now);
        let trace = TraceCtx { trace_id, causality_id };
        assert(minted(*old(mint), now@, between, trace.trace_id@));
        assert(minted(between, now@, *mint, trace.causality_id@));
        trace
    }

    /// The metadata for a hop caused by this one: same trace, new causality.
    pub fn caused(&self, mint: &mut IdMint, now: Timestamp) -> (trace: Self)
        ensures
            trace.trace_id == self.trace_id,
            minted(*old(mint), now@, *final(mint), trace.causality_id@),
    {
        TraceCtx { trace_id: self.trace_id, causality_id: CausalityId::new(mint, now) }
    }
}

/// Calls `std::str::from_utf8`: the text that the bytes encode, or nothing
/// when they are not UTF-8.
#[verifier::external_body]
pub(crate) fn utf8_text(bytes: &[u8]) -> (text: Option<&str>)
    ensures
        match text {
            Some(text) => vstd::utf8::valid_utf8(bytes@) && vstd::utf8::encode_utf8(text@) == bytes@,
            None => !vstd::utf8::valid_utf8(bytes@),
        },
{
    std::str::from_utf8(bytes).ok()
}

/// The only byte type in the system: compact JSON text.
#[derive(Debug)]
pub struct PayloadBytes {
    bytes: Arc<Vec<u8>>,
}

impl View for PayloadBytes {
    type V = Seq<u8>;

    closed spec fn view(&self) -> Seq<u8> {
        self.bytes@
    }
}

/// The characters of bytes, with a stand-in for bytes that are not UTF-8.
pub open spec fn bytes_text(bytes: Seq<u8>) -> Seq<char> {
    if vstd::utf8::valid_utf8(bytes) {
        vstd::utf8::decode_utf8(bytes)
    } else {
        "<invalid utf8>"@
    }
}

impl PayloadBytes {
    /// Wraps already-encoded bytes. The caller guarantees that they are JSON
    /// text; [`PayloadBytes::is_json_text`] tells.
    pub fn from_bytes(bytes: Vec<u8>) -> (payload: Self)
        ensures
            payload@ == bytes@,
    {
        PayloadBytes { bytes: Arc::new(bytes) }
    }

    /// Encodes a JSON tree once.
    pub fn from_json(json: &Json) -> (payload: Self)
        ensures
            payload@ == json_bytes(json@),
            vstd::utf8::valid_utf8(payload@),
            canonical(json@) && depth(json@) <= MAX_DEPTH ==> json_parsed(payload@) == Some(json@),
    {
        PayloadBytes::from_bytes(json.to_vec())
    }

    /// The bytes.
    pub fn as_bytes(&self) -> (bytes: &[u8])
        ensures
            bytes@ == self@,
    {
        self.bytes.as_slice()
    }

    /// The bytes as text.
    pub fn as_str(&self) -> (text: &str)
        ensures
            text@ == bytes_text(self@),
    {
        match utf8_text(self.bytes.as_slice()) {
            Some(text) => {
                proof {
                    vstd::utf8::encode_utf8_decode_utf8(text@);
                }
                text
            },
            None => "<invalid utf8>",
        }
    }

    /// Whether the bytes are JSON text.
    pub fn is_json_text(&self) -> (r: bool)
        ensures
            r == (json_parsed(self@) is Some),
    {
        Json::from_slice(self.bytes.as_slice()).is_some()
    }
}

impl Clone for PayloadBytes {
    fn clone(&self) -> (payload: Self)
        ensures
            payload == *self,
    {
        PayloadBytes { bytes: share(&self.bytes) }
    }
}

impl PartialEq for PayloadBytes {
    fn eq(&self, other: &Self) -> (r: bool) {
        let (a, b) = (&self.bytes, &other.bytes);
        if a.len() != b.len() {
            return false;
        }
        let mut i: usize = 0;
        while i < a.len()
            invariant
                a@ == self@,
                b@ == other@,
                a.len() == b.len(),
                i <= a.len(),
                forall|j: int| 0 <= j < i ==> a@[j] == b@[j],
            decreases a.len() - i,
        {
            if a[i] != b[i] {
                return false;
            }
            i += 1;
        }
        assert(a@ =~= b@);
        true
    }
}

impl vstd::std_specs::cmp::PartialEqSpecImpl for PayloadBytes {
    open spec fn obeys_eq_spec() -> bool {
        true
    }

    open spec fn eq_spec(&self, other: &Self) -> bool {
        self@ == other@
    }
}

impl Eq for PayloadBytes {}

/// The runtime's questions to a live payload value, answered by every declared
/// message type.
pub trait PayloadValue: Send + Sync {
    /// The string form of the value's field of that name.
    closed spec fn field_form(&self, name: Seq<char>) -> Option<Seq<char>> {
        arbitrary()
    }

    /// The value's compact JSON text.
    closed spec fn encoding(&self) -> Seq<u8> {
        arbitrary()
    }

    /// A declared field's value as a string; `None` when the field is absent or
    /// its type has no string form.
    fn field(&self, name: &str) -> (form: Option<String>)
        ensures
            match form {
                Some(form) => self.field_form(name@) == Some(form@),
                None => self.field_form(name@) is None,
            },
    ;

    /// The value's compact JSON-text encoding.
    fn to_json_bytes(&self) -> (bytes: Vec<u8>)
        ensures
            bytes@ == self.encoding(),
    ;
}

/// The three ways a message body can exist.
pub enum AnyPayload {
    /// A live value of the schema's registered type.
    Value(Box<dyn PayloadValue>),
    /// Wire bytes that arrived without a live value.
    Bytes(PayloadBytes),
    /// A JSON tree.
    Json(Json),
}

/// The tree that bytes parse into, `null` when they do not parse.
pub open spec fn parsed_or_null(bytes: Seq<u8>) -> JsonView {
    match json_parsed(bytes) {
        Some(tree) => tree,
        None => JsonView::Null,
    }
}

/// Reads a field of the tree that bytes parse into.
pub open spec fn bytes_field(bytes: Seq<u8>, name: Seq<char>) -> Option<Seq<char>> {
    match json_parsed(bytes) {
        Some(tree) => tree_field(tree, name),
        None => None,
    }
}

/// A tree's field in its string form.
pub open spec fn tree_field(tree: JsonView, name: Seq<char>) -> Option<Seq<char>> {
    match field_of(tree, name) {
        Some(value) => string_form(value),
        None => None,
    }
}

impl AnyPayload {
    /// The wire encoding.
    pub open spec fn wire(&self) -> Seq<u8> {
        match *self {
            AnyPayload::Value(value) => value.encoding(),
            AnyPayload::Bytes(bytes) => bytes@,
            AnyPayload::Json(json) => json_bytes(json@),
        }
    }

    /// The JSON view: the tree itself, or what the encoding parses into.
    pub open spec fn tree(&self) -> JsonView {
        match *self {
            AnyPayload::Value(value) => parsed_or_null(value.encoding()),
            AnyPayload::Bytes(bytes) => parsed_or_null(bytes@),
            AnyPayload::Json(json) => json@,
        }
    }

    /// A field in its string form: a live value answers itself.
    pub open spec fn field_form(&self, name: Seq<char>) -> Option<Seq<char>> {
        match *self {
            AnyPayload::Value(value) => value.field_form(name),
            AnyPayload::Bytes(bytes) => bytes_field(bytes@, name),
            AnyPayload::Json(json) => tree_field(json@, name),
        }
    }

    /// A field's value as a string: the shard-key read.
    pub fn field(&self, name: &str) -> (form: Option<String>)
        ensures
            match form {
                Some(form) => self.field_form(name@) == Some(form@),
                None => self.field_form(name@) is None,
            },
    {
        match self {
            AnyPayload::Value(value) => value.field(name),
            AnyPayload::Bytes(bytes) => match Json::from_slice(bytes.as_bytes()) {
                Some(json) => match json.tree().get(name) {
                    Some(value) => value.to_string_form(),
                    None => None,
                },
                None => None,
            },
            AnyPayload::Json(json) => match json.tree().get(name) {
                Some(value) => value.to_string_form(),
                None => None,
            },
        }
    }

    /// The wire encoding.
    pub fn json_text(&self) -> (bytes: PayloadBytes)
        ensures
            bytes@ == self.wire(),
    {
        match self {
            AnyPayload::Value(value) => PayloadBytes::from_bytes(value.to_json_bytes()),
            AnyPayload::Bytes(bytes) => bytes.clone(),
            AnyPayload::Json(json) => PayloadBytes::from_json(json),
        }
    }
}

/// What an envelope carries: one shared payload. Wire bytes are parsed once, as
/// they come in, and the view stays beside them for every reader.
pub struct Payload {
    cell: Arc<AnyPayload>,
    view: Option<Json>,
}

impl View for Payload {
    type V = AnyPayload;

    closed spec fn view(&self) -> AnyPayload {
        *self.cell
    }
}

impl Clone for Payload {
    fn clone(&self) -> (payload: Self)
        ensures
            payload == *self,
    {
        proof {
            use_type_invariant(self);
        }
        let view = match &self.view {
            Some(view) => Some(view.clone()),
            None => None,
        };
        Payload { cell: share(&self.cell), view }
    }
}

impl Default for Payload {
    fn default() -> (payload: Self)
        ensures
            payload@.tree() == JsonView::Null,
    {
        Payload::json_view(Json::default())
    }
}

impl Payload {
    /// The view that is kept is the payload's own, and wire bytes have one.
    #[verifier::type_invariant]
    spec fn keeps_its_view(self) -> bool {
        match self.view {
            Some(view) => view@ == self.cell.tree(),
            None => !(*self.cell is Bytes),
        }
    }

    /// Wraps a live value. The value is not encoded.
    pub fn value(value: Box<dyn PayloadValue>) -> (payload: Self)
        ensures
            payload@ == AnyPayload::Value(value),
    {
        Payload { cell: Arc::new(AnyPayload::Value(value)), view: None }
    }

    /// Wraps wire bytes, and parses their view.
    pub fn bytes(bytes: PayloadBytes) -> (payload: Self)
        ensures
            payload@ == AnyPayload::Bytes(bytes),
    {
        let view = match Json::from_slice(bytes.as_bytes()) {
            Some(json) => json,
            None => Json::default(),
        };
        Payload { cell: Arc::new(AnyPayload::Bytes(bytes)), view: Some(view) }
    }

    /// Wraps a JSON tree.
    pub fn json_view(view: Json) -> (payload: Self)
        ensures
            payload@ == AnyPayload::Json(view),
    {
        Payload { cell: Arc::new(AnyPayload::Json(view)), view: None }
    }

    /// Shares a payload: one value across many envelopes.
    pub fn shared(source: &Payload) -> (payload: Self)
        ensures
            payload == *source,
    {
        source.clone()
    }

    /// The payload union.
    pub fn inner(&self) -> (inner: &AnyPayload)
        ensures
            *inner == self@,
    {
        &self.cell
    }

    /// The JSON view: the tree, or what the wire encoding parses into, `null`
    /// where it does not parse.
    pub fn json(&self) -> (json: Json)
        ensures
            json@ == self@.tree(),
    {
        match self.kept_view() {
            Some(view) => view.clone(),
            None => match Json::from_slice(self.json_text().as_bytes()) {
                Some(json) => json,
                None => Json::default(),
            },
        }
    }

    /// The JSON view, where it is there already: only a live value has none.
    pub fn kept_view(&self) -> (json: Option<&Json>)
        ensures
            match json {
                Some(json) => !(self@ is Value) && json@ == self@.tree(),
                None => self@ is Value,
            },
    {
        proof {
            use_type_invariant(self);
        }
        match &*self.cell {
            AnyPayload::Value(_) => None,
            AnyPayload::Bytes(_) => self.view.as_ref(),
            AnyPayload::Json(view) => Some(view),
        }
    }

    /// The wire encoding.
    pub fn json_text(&self) -> (bytes: PayloadBytes)
        ensures
            bytes@ == self@.wire(),
    {
        self.cell.json_text()
    }

    /// The wire encoding, in the shape a journal entry stores.
    pub fn wire_bytes(&self) -> (bytes: PayloadBytes)
        ensures
            bytes@ == self@.wire(),
    {
        self.json_text()
    }

    /// A field's value as a string.
    pub fn field(&self, name: &str) -> (form: Option<String>)
        ensures
            match form {
                Some(form) => self@.field_form(name@) == Some(form@),
                None => self@.field_form(name@) is None,
            },
    {
        self.cell.field(name)
    }
}

/// A domain event: a schema-tagged payload, appended to journals and folded
/// into state.
pub struct Event {
    /// The event's schema.
    pub schema: SchemaId,
    /// The event's payload.
    pub payload: Payload,
}

impl Event {
    /// Creates an event from a payload.
    pub fn new(schema: SchemaId, fact: Payload) -> (event: Self)
        ensures
            event == (Event { schema, payload: fact }),
    {
        Event { schema, payload: fact }
    }

    /// Creates an event from wire bytes.
    pub fn from_bytes(schema: SchemaId, bytes: PayloadBytes) -> (event: Self)
        ensures
            event.schema == schema,
            event.payload@ == AnyPayload::Bytes(bytes),
    {
        Event { schema, payload: Payload::bytes(bytes) }
    }

    /// Creates an event from a JSON tree.
    pub fn from_json_view(schema: SchemaId, view: Json) -> (event: Self)
        ensures
            event.schema == schema,
            event.payload@ == AnyPayload::Json(view),
    {
        Event { schema, payload: Payload::json_view(view) }
    }

    /// Creates an event that adopts an existing payload.
    pub fn with_shared_payload(schema: SchemaId, payload: Payload) -> (event: Self)
        ensures
            event == (Event { schema, payload }),
    {
        Event { schema, payload }
    }

    /// Whether this event's schema is exactly `T`'s.
    pub fn is<T: Schema>(&self) -> (r: bool)
        ensures
            r == (self.schema@ == T::declared_name()),
    {
        self.schema == T::schema_id()
    }

    /// The event's JSON view.
    pub fn payload_json(&self) -> (json: Json)
        ensures
            json@ == self.payload@.tree(),
    {
        self.payload.json()
    }
}

impl Clone for Event {
    fn clone(&self) -> (event: Self)
        ensures
            event == *self,
    {
        Event { schema: self.schema.clone(), payload: self.payload.clone() }
    }
}

impl PartialEq for Event {
    fn eq(&self, other: &Self) -> (r: bool) {
        self.schema == other.schema && self.payload_json().tree().same(other.payload_json().tree())
    }
}

impl vstd::std_specs::cmp::PartialEqSpecImpl for Event {
    open spec fn obeys_eq_spec() -> bool {
        true
    }

    open spec fn eq_spec(&self, other: &Self) -> bool {
        self.schema@ == other.schema@ && self.payload@.tree() == other.payload@.tree()
    }
}

/// A `smallvec::SmallVec` of events, the first two of them kept inline.
#[verifier::external_body]
pub struct EventBuffer {
    items: smallvec::SmallVec<[Event; 2]>,
}

/// The events a buffer holds, in order.
pub uninterp spec fn held_events(buffer: EventBuffer) -> Seq<Event>;

/// Calls `SmallVec::new`: a vector without items.
#[verifier::external_body]
fn no_events() -> (buffer: EventBuffer)
    ensures
        held_events(buffer) == Seq::<Event>::empty(),
{
    EventBuffer { items: smallvec::SmallVec::new() }
}

/// Calls `SmallVec::push`: the item goes behind the others.
#[verifier::external_body]
fn push_held(buffer: &mut EventBuffer, event: Event)
    ensures
        held_events(*final(buffer)) == held_events(*old(buffer)).push(event),
{
    buffer.items.push(event);
}

/// Calls `SmallVec::from_vec`: the vector's items, in order.
#[verifier::external_body]
fn adopt_events(events: Vec<Event>) -> (buffer: EventBuffer)
    ensures
        held_events(buffer) == events@,
{
    EventBuffer { items: smallvec::SmallVec::from_vec(events) }
}

/// Calls `SmallVec::as_slice`: the items, in order.
#[verifier::external_body]
fn held_slice(buffer: &EventBuffer) -> (events: &[Event])
    ensures
        events@ == held_events(*buffer),
{
    buffer.items.as_slice()
}

/// Calls `SmallVec::into_vec`: the items, in order.
#[verifier::external_body]
fn take_held(buffer: EventBuffer) -> (events: Vec<Event>)
    ensures
        events@ == held_events(buffer),
{
    buffer.items.into_vec()
}

/// A typed fact that knows how to become an event.
pub trait IntoEvent: Schema + Sized {
    /// The payload the fact becomes.
    closed spec fn payload_form(self) -> Payload {
        arbitrary()
    }

    /// The fact as a payload.
    fn into_payload(self) -> (payload: Payload)
        ensures
            payload == self.payload_form(),
    ;

    /// Builds the event; its schema is the type's.
    fn into_event(self) -> (event: Event)
        ensures
            event.schema@ == Self::declared_name(),
            event.payload == self.payload_form(),
    {
        Event { schema: Self::schema_id(), payload: self.into_payload() }
    }
}

/// The events a command handler decided on, in order.
pub struct Events {
    buffer: EventBuffer,
}

impl View for Events {
    type V = Seq<Event>;

    closed spec fn view(&self) -> Seq<Event> {
        held_events(self.buffer)
    }
}

impl Events {
    /// An empty buffer.
    pub fn new() -> (events: Self)
        ensures
            events@ == Seq::<Event>::empty(),
    {
        Events { buffer: no_events() }
    }

    /// A buffer holding exactly one event, built from a typed fact.
    pub fn one<E: IntoEvent>(e: E) -> (events: Self)
        ensures
            events@.len() == 1,
            events@[0].schema@ == E::declared_name(),
            events@[0].payload == e.payload_form(),
    {
        let mut events = Events::new();
        events.push_event(e);
        events
    }

    /// Appends an event built from a typed fact.
    pub fn push_event<E: IntoEvent>(&mut self, e: E)
        ensures
            final(self)@.len() == old(self)@.len() + 1,
            final(self)@.drop_last() == old(self)@,
            final(self)@.last().schema@ == E::declared_name(),
            final(self)@.last().payload == e.payload_form(),
    {
        let ghost before = self@;
        push_held(&mut self.buffer, e.into_event());
        assert(self@.drop_last() =~= before);
    }

    /// Appends a hand-built event.
    pub fn push(&mut self, e: Event)
        ensures
            final(self)@ == old(self)@.push(e),
    {
        push_held(&mut self.buffer, e);
    }

    /// Adopts a vector of events.
    pub fn from_vec(v: Vec<Event>) -> (events: Self)
        ensures
            events@ == v@,
    {
        Events { buffer: adopt_events(v) }
    }

    /// The events as a slice.
    pub fn as_slice(&self) -> (events: &[Event])
        ensures
            events@ == self@,
    {
        held_slice(&self.buffer)
    }

    /// The events as a vector.
    pub fn into_vec(self) -> (events: Vec<Event>)
        ensures
            events@ == self@,
    {
        take_held(self.buffer)
    }
}

/// The fact-stamp a broadcast copy carries: where its fact was recorded.
#[derive(Debug)]
pub struct RecordedOrigin {
    /// The journal the fact was recorded in.
    pub journal: ActorPath,
    /// The fact's seq inside that journal.
    pub seq: SeqNo,
}

impl Clone for RecordedOrigin {
    fn clone(&self) -> (origin: Self)
        ensures
            origin == *self,
    {
        RecordedOrigin { journal: self.journal.clone(), seq: self.seq }
    }
}

impl PartialEq for RecordedOrigin {
    fn eq(&self, other: &Self) -> (r: bool) {
        self.journal == other.journal && self.seq == other.seq
    }
}

impl vstd::std_specs::cmp::PartialEqSpecImpl for RecordedOrigin {
    open spec fn obeys_eq_spec() -> bool {
        true
    }

    open spec fn eq_spec(&self, other: &Self) -> bool {
        self.journal@ == other.journal@ && self.seq == other.seq
    }
}

/// The runtime's message wrapper.
pub struct Envelope {
    /// The payload's schema.
    pub schema: SchemaId,
    /// Where the message is headed.
    pub dest: Address,
    /// The logical sending path, when the sender is an actor.
    pub from: Option<ActorPath>,
    /// Where a reply should go.
    pub reply_to: Option<Address>,
    /// Trace metadata of this hop.
    pub trace: TraceCtx,
    /// The message body.
    pub payload: Payload,
    /// Where this copy's fact was recorded, when the message is a recorded
    /// fact.
    pub recorded_origin: Option<RecordedOrigin>,
}

impl Envelope {
    /// Assembles an envelope around a payload.
    pub fn json(schema: SchemaId, dest: Address, value: Payload, trace: TraceCtx) -> (envelope: Self)
        ensures
            envelope == (Envelope {
                schema,
                dest,
                from: None,
                reply_to: None,
                trace,
                payload: value,
                recorded_origin: None,
            }),
    {
        Envelope::raw(schema, dest, value, trace)
    }

    /// Assembles an envelope that shares another's payload and fact-stamp.
    pub fn shared_from(schema: SchemaId, dest: Address, source: &Envelope, trace: TraceCtx) -> (envelope: Self)
        ensures
            envelope == (Envelope {
                schema,
                dest,
                from: None,
                reply_to: None,
                trace,
                payload: source.payload,
                recorded_origin: source.recorded_origin,
            }),
    {
        let copy = Envelope::raw(schema, dest, Payload::shared(&source.payload), trace);
        let recorded_origin = match &source.recorded_origin {
            Some(origin) => Some(origin.clone()),
            None => None,
        };
        Envelope { recorded_origin, ..copy }
    }

    /// The bare constructor: schema, destination, payload, trace.
    pub fn raw(schema: SchemaId, dest: Address, payload: Payload, trace: TraceCtx) -> (envelope: Self)
        ensures
            envelope == (Envelope {
                schema,
                dest,
                from: None,
                reply_to: None,
                trace,
                payload,
                recorded_origin: None,
            }),
    {
        Envelope { schema, dest, from: None, reply_to: None, trace, payload, recorded_origin: None }
    }

    /// Assembles an envelope around JSON text from outside the system.
    pub fn from_bytes(schema: SchemaId, dest: Address, bytes: PayloadBytes, trace: TraceCtx) -> (envelope: Self)
        requires
            json_parsed(bytes@) is Some,
        ensures
            envelope.payload@ == AnyPayload::Bytes(bytes),
            envelope == (Envelope {
                schema,
                dest,
                from: None,
                reply_to: None,
                trace,
                payload: envelope.payload,
                recorded_origin: None,
            }),
    {
        Envelope::raw(schema, dest, Payload::bytes(bytes), trace)
    }

    /// Assembles an envelope around bytes from outside the system; `None` when
    /// they are not JSON text.
    pub fn try_from_bytes(
        schema: SchemaId,
        dest: Address,
        bytes: PayloadBytes,
        trace: TraceCtx,
    ) -> (envelope: Option<Self>)
        ensures
            match envelope {
                Some(envelope) => {
                    &&& json_parsed(bytes@) is Some
                    &&& envelope.payload@ == AnyPayload::Bytes(bytes)
                    &&& envelope == (Envelope {
                        schema,
                        dest,
                        from: None,
                        reply_to: None,
                        trace,
                        payload: envelope.payload,
                        recorded_origin: None,
                    })
                },
                None => json_parsed(bytes@) is None,
            },
    {
        if bytes.is_json_text() {
            Some(Envelope::from_bytes(schema, dest, bytes, trace))
        } else {
            None
        }
    }

    /// Assembles an envelope around a JSON tree, written out as compact text. A
    /// deeper tree would write text that nothing reads back.
    pub fn from_bytes_wrapped(schema: SchemaId, dest: Address, payload: &Json, trace: TraceCtx) -> (envelope: Self)
        requires
            depth(payload@) <= MAX_DEPTH,
        ensures
            envelope.payload@ is Bytes,
            envelope.payload@->Bytes_0@ == json_bytes(payload@),
            envelope == (Envelope {
                schema,
                dest,
                from: None,
                reply_to: None,
                trace,
                payload: envelope.payload,
                recorded_origin: None,
            }),
    {
        Envelope::raw(schema, dest, Payload::bytes(PayloadBytes::from_json(payload)), trace)
    }

    /// The payload's JSON view.
    pub fn payload_json(&self) -> (json: Json)
        ensures
            json@ == self.payload@.tree(),
    {
        self.payload.json()
    }

    /// Stamps this copy as a recorded fact.
    pub fn with_recorded_origin(self, journal: ActorPath, seq: SeqNo) -> (envelope: Self)
        ensures
            envelope == (Envelope { recorded_origin: Some(RecordedOrigin { journal, seq }), ..self }),
    {
        Envelope { recorded_origin: Some(RecordedOrigin { journal, seq }), ..self }
    }

    /// The copy's fact stamp, if it carries one.
    pub fn recorded_origin(&self) -> (origin: Option<&RecordedOrigin>)
        ensures
            match origin {
                Some(origin) => self.recorded_origin == Some(*origin),
                None => self.recorded_origin is None,
            },
    {
        self.recorded_origin.as_ref()
    }

    /// Sets the logical sender.
    pub fn from(self, from: ActorPath) -> (envelope: Self)
        ensures
            envelope == (Envelope { from: Some(from), ..self }),
    {
        Envelope { from: Some(from), ..self }
    }

    /// Sets the reply destination.
    pub fn reply_to(self, reply_to: Address) -> (envelope: Self)
        ensures
            envelope == (Envelope { reply_to: Some(reply_to), ..self }),
    {
        Envelope { reply_to: Some(reply_to), ..self }
    }

    /// The payload as JSON, if its view is there already: nothing is encoded or
    /// parsed for it.
    pub fn as_json(&self) -> (json: Option<&Json>)
        ensures
            match json {
                Some(json) => !(self.payload@ is Value) && json@ == self.payload@.tree(),
                None => self.payload@ is Value,
            },
    {
        self.payload.kept_view()
    }

    /// The payload's wire encoding.
    pub fn to_payload_bytes(&self) -> (bytes: PayloadBytes)
        ensures
            bytes@ == self.payload@.wire(),
    {
        self.payload.json_text()
    }
}

impl Clone for Envelope {
    fn clone(&self) -> (envelope: Self)
        ensures
            envelope == *self,
    {
        Envelope {
            schema: self.schema.clone(),
            dest: self.dest.clone(),
            from: match &self.from {
                Some(from) => Some(from.clone()),
                None => None,
            },
            reply_to: match &self.reply_to {
                Some(reply_to) => Some(reply_to.clone()),
                None => None,
            },
            trace: self.trace,
            payload: self.payload.clone(),
            recorded_origin: match &self.recorded_origin {
                Some(origin) => Some(origin.clone()),
                None => None,
            },
        }
    }
}

/// A payload's encoding reads back as the payload: bytes from a canonical tree
/// give the same JSON view as the tree.
pub proof fn law_encoding_reads_back(json: Json, bytes: PayloadBytes)
    requires
        bytes@ == json_bytes(json@),
        json_parsed(bytes@) == Some(json@),
    ensures
        AnyPayload::Bytes(bytes).tree() == AnyPayload::Json(json).tree(),
        AnyPayload::Bytes(bytes).wire() == AnyPayload::Json(json).wire(),
        forall|name: Seq<char>| #[trigger]
            AnyPayload::Bytes(bytes).field_form(name) == AnyPayload::Json(json).field_form(name),
{
}

/// A payload's field is what its JSON view holds under the name, in string form,
/// whether it came as bytes or as a tree.
pub proof fn law_field_is_read_off_the_view(payload: AnyPayload, name: Seq<char>)
    requires
        !(payload is Value),
    ensures
        payload.field_form(name) == match field_of(payload.tree(), name) {
            Some(value) => string_form(value),
            None => None,
        },
{
}

/// A payload's view and its wire encoding tell the same: the view of what came as
/// bytes is what the bytes parse into, and `null` where they do not; what came as
/// a tree is the view, and reads back from its encoding.
pub proof fn law_view_and_wire_agree(payload: AnyPayload)
    ensures
        payload is Bytes || payload is Value ==> payload.tree() == match json_parsed(payload.wire()) {
            Some(tree) => tree,
            None => JsonView::Null,
        },
        payload matches AnyPayload::Bytes(bytes) ==> payload.wire() == bytes@,
        payload matches AnyPayload::Json(json) ==> payload.tree() == json@ && payload.wire() == json_bytes(json@),
{
}

/// Payload text and payload bytes agree: bytes that are text give that text, text
/// gives its bytes back, and everything else reads as a fixed notice.
pub proof fn law_text_of_bytes(bytes: Seq<u8>, text: Seq<char>)
    ensures
        vstd::utf8::valid_utf8(bytes) ==> vstd::utf8::encode_utf8(bytes_text(bytes)) == bytes,
        bytes_text(vstd::utf8::encode_utf8(text)) == text,
        !vstd::utf8::valid_utf8(bytes) ==> bytes_text(bytes) == "<invalid utf8>"@,
{
    vstd::utf8::encode_utf8_valid_utf8(text);
    vstd::utf8::encode_utf8_decode_utf8(text);
    if vstd::utf8::valid_utf8(bytes) {
        vstd::utf8::decode_utf8_encode_utf8(bytes);
    }
}

/// The text of an address gives away what it names: a path as it stands, and a
/// schema or a slot's id in brackets behind a word of its own.
pub proof fn law_address_text_names_its_target(name: Seq<char>, lease: (u64, u64))
    ensures
        address_chars(AddressView::Path(name)) == name,
        address_chars(AddressView::Schema(name)).len() == name.len() + 8,
        address_chars(AddressView::Schema(name)).subrange(7, 7 + name.len() as int) == name,
        address_chars(AddressView::Schema(name)).take(7) == "schema("@,
        address_chars(AddressView::Schema(name)).last() == ')',
        address_chars(AddressView::Slot(lease)).len() == id_chars(lease.0, lease.1).len() + 6,
        address_chars(AddressView::Slot(lease)).subrange(5, 5 + id_chars(lease.0, lease.1).len() as int) == id_chars(
            lease.0,
            lease.1,
        ),
        address_chars(AddressView::Slot(lease)).take(5) == "slot("@,
        address_chars(AddressView::Slot(lease)).last() == ')',
{
    reveal_strlit("schema(");
    reveal_strlit("slot(");
    reveal_strlit(")");
    let id = id_chars(lease.0, lease.1);
    assert(address_chars(AddressView::Schema(name)).subrange(7, 7 + name.len() as int) =~= name);
    assert(address_chars(AddressView::Schema(name)).take(7) =~= "schema("@);
    assert(address_chars(AddressView::Slot(lease)).subrange(5, 5 + id.len() as int) =~= id);
    assert(address_chars(AddressView::Slot(lease)).take(5) =~= "slot("@);
}

} // verus!
