//! Handler-facing context: the actors' entire syscall surface.
//!
//! Handlers perform nothing. A context records intents into an outbox, and the
//! runtime carries them out once the message is committed, so a crash before
//! that never duplicates a send.

use vstd::prelude::*;

use crate::actor::ActorPath;
use crate::clock::Timestamp;
use crate::envelope::address_chars;
use crate::envelope::Address;
use crate::envelope::Envelope;
use crate::envelope::Payload;
use crate::envelope::TraceCtx;
use crate::ids::minted;
use crate::ids::IdMint;
use crate::kernel::AskOutcome;
use crate::registry::paths_of;
use crate::registry::EndpointInfo;
use crate::registry::Registry;
use crate::registry::RegistryView;
use crate::schema::Schema;
use crate::schema::SchemaId;

verus! {

/// One deferred effect, carried out once its message is committed.
pub enum Intent {
    /// A point-to-point send.
    Send(Envelope),
    /// An event broadcast to every handler of the schema.
    Broadcast(Envelope),
    /// A reply to the message being handled.
    Reply {
        /// The reply address of the incoming envelope.
        to: Address,
        /// The reply's schema.
        schema: SchemaId,
        /// The reply's payload.
        payload: Payload,
        /// The reply's trace.
        trace: TraceCtx,
    },
    /// Stops the handling actor gracefully.
    StopSelf,
}

impl Intent {
    /// The name of the schema this intent would emit; a stop emits none.
    pub open spec fn emits(self) -> Option<Seq<char>> {
        match self {
            Intent::Send(envelope) => Some(envelope.schema@),
            Intent::Broadcast(envelope) => Some(envelope.schema@),
            Intent::Reply { schema, .. } => Some(schema@),
            Intent::StopSelf => None,
        }
    }

    /// The schema this intent would emit; a stop emits none.
    pub fn emitted_schema(&self) -> (schema: Option<&SchemaId>)
        ensures
            match schema {
                Some(schema) => self.emits() == Some(schema@),
                None => self.emits() is None,
            },
    {
        match self {
            Intent::Send(envelope) => Some(&envelope.schema),
            Intent::Broadcast(envelope) => Some(&envelope.schema),
            Intent::Reply { schema, .. } => Some(schema),
            Intent::StopSelf => None,
        }
    }
}

/// Effects recorded by a handler, in order.
pub struct Outbox {
    intents: Vec<Intent>,
}

impl View for Outbox {
    type V = Seq<Intent>;

    closed spec fn view(&self) -> Seq<Intent> {
        self.intents@
    }
}

impl Outbox {
    /// An empty outbox.
    pub fn new() -> (outbox: Self)
        ensures
            outbox@ == Seq::<Intent>::empty(),
    {
        Outbox { intents: Vec::new() }
    }

    /// Records a send.
    pub fn push_send(&mut self, envelope: Envelope)
        ensures
            final(self)@ == old(self)@.push(Intent::Send(envelope)),
    {
        self.intents.push(Intent::Send(envelope));
    }

    /// Records a broadcast.
    pub fn push_broadcast(&mut self, envelope: Envelope)
        ensures
            final(self)@ == old(self)@.push(Intent::Broadcast(envelope)),
    {
        self.intents.push(Intent::Broadcast(envelope));
    }

    /// Records a reply.
    pub fn push_reply(&mut self, to: Address, schema: SchemaId, payload: Payload, trace: TraceCtx)
        ensures
            final(self)@ == old(self)@.push(Intent::Reply { to, schema, payload, trace }),
    {
        self.intents.push(Intent::Reply { to, schema, payload, trace });
    }

    /// Records the actor's own stop.
    pub fn push_stop_self(&mut self)
        ensures
            final(self)@ == old(self)@.push(Intent::StopSelf),
    {
        self.intents.push(Intent::StopSelf);
    }

    /// Takes every intent, leaving the outbox empty.
    pub fn drain(&mut self) -> (intents: Vec<Intent>)
        ensures
            intents@ == old(self)@,
            final(self)@ == Seq::<Intent>::empty(),
    {
        let mut intents: Vec<Intent> = Vec::new();
        std::mem::swap(&mut intents, &mut self.intents);
        intents
    }

    /// Whether no effect is pending.
    pub fn is_empty(&self) -> (r: bool)
        ensures
            r == (self@.len() == 0),
    {
        self.intents.len() == 0
    }

    /// The number of pending effects.
    pub fn len(&self) -> (n: usize)
        ensures
            n == self@.len(),
    {
        self.intents.len()
    }
}

/// Read-only runtime view for handlers: registry lookups and the time the
/// message was received.
pub struct RuntimeView<'a> {
    /// The routing tables.
    pub registry: &'a Registry,
    /// The injected clock's reading.
    pub now: Timestamp,
}

impl<'a> RuntimeView<'a> {
    /// What is known about a path.
    pub fn lookup(&self, path: &ActorPath) -> (info: Option<EndpointInfo>)
        requires
            self.registry@.kind_known(path@),
        ensures
            match info {
                Some(info) => shows_slot(self.registry@, path@, info),
                None => !self.registry@.slots.dom().contains(path@),
            },
    {
        self.registry.lookup(path)
    }

    /// Every path registered as a handler for a schema.
    pub fn handlers_of(&self, schema: &SchemaId) -> (paths: Vec<ActorPath>)
        ensures
            paths_of(paths@) == self.registry@.handlers(schema@),
    {
        self.registry.handlers_of(schema)
    }
}

/// Whether a lookup shows a registered path's slot.
pub open spec fn shows_slot(registry: RegistryView, path: Seq<char>, info: EndpointInfo) -> bool {
    &&& registry.slots.dom().contains(path)
    &&& info.path@ == path
    &&& Some(info.kind) == registry.slots[path].manifest.kind
    &&& info.manifest@ == registry.slots[path].manifest
}

/// Context for event-sourced handlers: introspection only. An entity announces
/// by returning facts; it has no effects to record and never replies.
pub struct CmdCtx<'a> {
    /// The processing actor's path.
    path: &'a ActorPath,
    /// The runtime view.
    view: RuntimeView<'a>,
}

impl<'a> CmdCtx<'a> {
    /// The processing actor's path.
    pub closed spec fn actor(&self) -> ActorPath {
        *self.path
    }

    /// The registry the context reads.
    pub closed spec fn registry(&self) -> Registry {
        *self.view.registry
    }

    /// When the message was received.
    pub closed spec fn received(&self) -> u64 {
        self.view.now@
    }

    /// Assembles the context for one command dispatch.
    pub fn new(path: &'a ActorPath, view: RuntimeView<'a>) -> (ctx: CmdCtx<'a>)
        ensures
            ctx.actor() == *path,
            ctx.registry() == *view.registry,
            ctx.received() == view.now@,
    {
        CmdCtx { path, view }
    }

    /// What is known about a path.
    pub fn lookup(&self, path: &ActorPath) -> (info: Option<EndpointInfo>)
        requires
            self.registry()@.kind_known(path@),
        ensures
            match info {
                Some(info) => shows_slot(self.registry()@, path@, info),
                None => !self.registry()@.slots.dom().contains(path@),
            },
    {
        self.view.lookup(path)
    }

    /// Every path registered as a handler for a schema.
    pub fn handlers_of(&self, schema: &SchemaId) -> (paths: Vec<ActorPath>)
        ensures
            paths_of(paths@) == self.registry()@.handlers(schema@),
    {
        self.view.handlers_of(schema)
    }

    /// The time the message was received.
    pub fn recv_ts(&self) -> (ts: Timestamp)
        ensures
            ts@ == self.received(),
    {
        self.view.now
    }

    /// The processing actor's path.
    pub fn self_path(&self) -> (path: &ActorPath)
        ensures
            *path == self.actor(),
    {
        self.path
    }
}

/// Errors surfaced by an ask.
#[derive(Debug)]
pub enum AskError {
    /// Nothing answers at the destination.
    Unresolved(String),
}

/// Whether `child` is a fresh hop of the trace `parent` belongs to.
pub open spec fn child_of(parent: TraceCtx, child: TraceCtx, before: IdMint, now: u64, after: IdMint) -> bool {
    &&& child.trace_id == parent.trace_id
    &&& minted(before, now, after, child.causality_id@)
}

/// What a service context holds.
pub struct MsgCtxView {
    /// The processing actor's path.
    pub path: ActorPath,
    /// The trace of the message being processed.
    pub trace: TraceCtx,
    /// Where a reply should go.
    pub reply_to: Option<Address>,
    /// When the message was received.
    pub now: u64,
    /// The effects recorded so far.
    pub intents: Seq<Intent>,
}

/// Context for service handlers. An effect is stamped at the clock's reading
/// when it is recorded, which may be later than when the message was received.
pub struct MsgCtx<'a> {
    path: &'a ActorPath,
    trace: TraceCtx,
    reply_to: Option<Address>,
    view: RuntimeView<'a>,
    outbox: Outbox,
}

impl<'a> View for MsgCtx<'a> {
    type V = MsgCtxView;

    closed spec fn view(&self) -> MsgCtxView {
        MsgCtxView {
            path: *self.path,
            trace: self.trace,
            reply_to: self.reply_to,
            now: self.view.now@,
            intents: self.outbox@,
        }
    }
}

/// Whether a context recorded one more effect and changed nothing else.
pub open spec fn recorded(before: MsgCtxView, after: MsgCtxView, intent: Intent) -> bool {
    after == (MsgCtxView { intents: before.intents.push(intent), ..before })
}

/// Whether a send of these parts was recorded, as a fresh hop of the context's
/// trace, from the context's actor.
pub open spec fn sent(
    before: MsgCtxView,
    after: MsgCtxView,
    schema: Seq<char>,
    dest: Address,
    payload: Payload,
    reply_to: Option<Address>,
    mint: IdMint,
    now: u64,
    spent: IdMint,
) -> bool {
    exists|envelope: Envelope| #[trigger]
        recorded(before, after, Intent::Send(envelope)) && stamped(
            before,
            envelope,
            schema,
            dest,
            payload,
            reply_to,
            mint,
            now,
            spent,
        )
}

/// Whether a broadcast of these parts was recorded.
pub open spec fn published(
    before: MsgCtxView,
    after: MsgCtxView,
    schema: Seq<char>,
    payload: Payload,
    mint: IdMint,
    now: u64,
    spent: IdMint,
) -> bool {
    exists|envelope: Envelope| #[trigger]
        recorded(before, after, Intent::Broadcast(envelope)) && envelope.dest is Schema
            && envelope.dest->Schema_0@ == schema && stamped(
            before,
            envelope,
            schema,
            envelope.dest,
            payload,
            None,
            mint,
            now,
            spent,
        )
}

/// Whether an envelope is an outgoing message of a context.
pub open spec fn stamped(
    ctx: MsgCtxView,
    envelope: Envelope,
    schema: Seq<char>,
    dest: Address,
    payload: Payload,
    reply_to: Option<Address>,
    mint: IdMint,
    now: u64,
    spent: IdMint,
) -> bool {
    &&& envelope.schema@ == schema
    &&& envelope.dest == dest
    &&& envelope.from == Some(ctx.path)
    &&& envelope.reply_to == reply_to
    &&& envelope.payload == payload
    &&& envelope.recorded_origin is None
    &&& child_of(ctx.trace, envelope.trace, mint, now, spent)
}

/// Whether a reply of these parts was recorded: only where the sender asked for
/// one.
pub open spec fn replied(
    before: MsgCtxView,
    after: MsgCtxView,
    schema: Seq<char>,
    payload: Payload,
    mint: IdMint,
    now: u64,
    spent: IdMint,
) -> bool {
    match before.reply_to {
        Some(to) => exists|id: SchemaId, trace: TraceCtx|
            id@ == schema && child_of(before.trace, trace, mint, now, spent) && #[trigger] recorded(
                before,
                after,
                Intent::Reply { to, schema: id, payload, trace },
            ),
        None => after == before && spent == mint,
    }
}

impl<'a> MsgCtx<'a> {
    /// The registry the context reads.
    pub closed spec fn registry(&self) -> Registry {
        *self.view.registry
    }

    /// Assembles the context for one message dispatch.
    pub fn new(path: &'a ActorPath, trace: TraceCtx, reply_to: Option<Address>, view: RuntimeView<'a>) -> (ctx: MsgCtx<
        'a,
    >)
        ensures
            ctx@ == (MsgCtxView { path: *path, trace, reply_to, now: view.now@, intents: Seq::empty() }),
            ctx.registry() == *view.registry,
    {
        MsgCtx { path, trace, reply_to, view, outbox: Outbox::new() }
    }

    /// The effects recorded, in order.
    pub fn into_outbox(self) -> (outbox: Outbox)
        ensures
            outbox@ == self@.intents,
    {
        self.outbox
    }

    /// Records the actor's own graceful stop, after everything recorded so far.
    pub fn stop_self(&mut self)
        ensures
            recorded(old(self)@, final(self)@, Intent::StopSelf),
            final(self).registry() == old(self).registry(),
    {
        self.outbox.push_stop_self();
    }

    /// Records a send under an explicit schema.
    pub fn send_json(
        &mut self,
        mint: &mut IdMint,
        now: Timestamp,
        dest: Address,
        schema: SchemaId,
        payload: Payload,
        reply_to: Option<Address>,
    )
        ensures
            sent(
                old(self)@,
                final(self)@,
                schema@,
                dest,
                payload,
                reply_to,
                *old(mint),
                now@,
                *final(mint),
            ),
            final(self).registry() == old(self).registry(),
    {
        let ghost before = self@;
        let ghost unspent = *mint;
        let trace = self.trace.caused(mint, now);
        let envelope = Envelope::json(schema, dest, payload, trace).from(self.path.clone());
        let envelope = Envelope { reply_to, ..envelope };
        self.outbox.push_send(envelope);
        assert(stamped(before, envelope, schema@, dest, payload, reply_to, unspent, now@, *mint));
        assert(recorded(before, self@, Intent::Send(envelope)));
    }

    /// Records a broadcast under an explicit schema; its destination is the
    /// schema itself.
    pub fn publish_json(&mut self, mint: &mut IdMint, now: Timestamp, schema: SchemaId, payload: Payload)
        ensures
            published(old(self)@, final(self)@, schema@, payload, *old(mint), now@, *final(mint)),
            final(self).registry() == old(self).registry(),
    {
        let ghost before = self@;
        let ghost unspent = *mint;
        let trace = self.trace.caused(mint, now);
        let dest = Address::Schema(schema.clone());
        let envelope = Envelope::json(schema, dest, payload, trace).from(self.path.clone());
        self.outbox.push_broadcast(envelope);
        assert(stamped(before, envelope, schema@, envelope.dest, payload, None, unspent, now@, *mint));
        assert(recorded(before, self@, Intent::Broadcast(envelope)));
    }

    /// Records a reply under an explicit schema, where the sender asked for
    /// one; otherwise it is dropped.
    pub fn reply_json(&mut self, mint: &mut IdMint, now: Timestamp, schema: SchemaId, payload: Payload)
        ensures
            replied(old(self)@, final(self)@, schema@, payload, *old(mint), now@, *final(mint)),
            final(self).registry() == old(self).registry(),
    {
        let ghost before = self@;
        let ghost unspent = *mint;
        if let Some(to) = &self.reply_to {
            let to = to.clone();
            let trace = self.trace.caused(mint, now);
            self.outbox.push_reply(to, schema, payload, trace);
            assert(child_of(before.trace, trace, unspent, now@, *mint));
            assert(recorded(before, self@, Intent::Reply { to, schema, payload, trace }));
        }
    }

    /// Records a send to one actor handling the message's type, whichever the
    /// route table picks.
    pub fn send_to_any<M: Schema>(&mut self, mint: &mut IdMint, now: Timestamp, msg: Payload)
        ensures
            exists|dest: Address|
                dest is Schema && dest->Schema_0@ == M::declared_name() && #[trigger] sent(
                    old(self)@,
                    final(self)@,
                    M::declared_name(),
                    dest,
                    msg,
                    None,
                    *old(mint),
                    now@,
                    *final(mint),
                ),
            final(self).registry() == old(self).registry(),
    {
        let schema = M::schema_id();
        let dest = Address::Schema(schema.clone());
        self.send_json(mint, now, dest, schema, msg, None);
    }

    /// Records a send; the schema is the message type's.
    pub fn send<M: Schema>(
        &mut self,
        mint: &mut IdMint,
        now: Timestamp,
        dest: Address,
        msg: Payload,
        reply_to: Option<Address>,
    )
        ensures
            sent(
                old(self)@,
                final(self)@,
                M::declared_name(),
                dest,
                msg,
                reply_to,
                *old(mint),
                now@,
                *final(mint),
            ),
            final(self).registry() == old(self).registry(),
    {
        self.send_json(mint, now, dest, M::schema_id(), msg, reply_to);
    }

    /// Records a broadcast; the schema is the message type's.
    pub fn publish<M: Schema>(&mut self, mint: &mut IdMint, now: Timestamp, msg: Payload)
        ensures
            published(old(self)@, final(self)@, M::declared_name(), msg, *old(mint), now@, *final(mint)),
            final(self).registry() == old(self).registry(),
    {
        self.publish_json(mint, now, M::schema_id(), msg);
    }

    /// Records a reply; the schema is the message type's.
    pub fn reply<M: Schema>(&mut self, mint: &mut IdMint, now: Timestamp, msg: Payload)
        ensures
            replied(old(self)@, final(self)@, M::declared_name(), msg, *old(mint), now@, *final(mint)),
            final(self).registry() == old(self).registry(),
    {
        self.reply_json(mint, now, M::schema_id(), msg);
    }

    /// What is known about a path.
    pub fn lookup(&self, path: &ActorPath) -> (info: Option<EndpointInfo>)
        requires
            self.registry()@.kind_known(path@),
        ensures
            match info {
                Some(info) => shows_slot(self.registry()@, path@, info),
                None => !self.registry()@.slots.dom().contains(path@),
            },
    {
        self.view.lookup(path)
    }

    /// Every path registered as a handler for a schema.
    pub fn handlers_of(&self, schema: &SchemaId) -> (paths: Vec<ActorPath>)
        ensures
            paths_of(paths@) == self.registry()@.handlers(schema@),
    {
        self.view.handlers_of(schema)
    }

    /// The time the message was received.
    pub fn recv_ts(&self) -> (ts: Timestamp)
        ensures
            ts@ == self@.now,
    {
        self.view.now
    }

    /// The processing actor's path.
    pub fn self_path(&self) -> (path: &ActorPath)
        ensures
            *path == self@.path,
    {
        self.path
    }

    /// The incoming message's reply address, if the sender asked for a reply.
    pub fn reply_dest(&self) -> (dest: Option<Address>)
        ensures
            dest == self@.reply_to,
    {
        match &self.reply_to {
            Some(to) => Some(to.clone()),
            None => None,
        }
    }
}

/// How the wait for a reply ended.
pub enum AskReply {
    /// The callee replied in time.
    Replied(Payload),
    /// The reply slot was lost.
    Lost,
    /// The timeout elapsed.
    TimedOut,
}

/// Settles an ask: the outcome to record, and what the asker gets.
pub fn settle_ask(dest: &Address, reply: AskReply) -> (settled: (AskOutcome, Result<Payload, AskError>))
    ensures
        match reply {
            AskReply::Replied(payload) => settled.0 == AskOutcome::Replied && settled.1 == Ok::<_, AskError>(payload),
            AskReply::Lost => settled.0 == AskOutcome::Failed && unresolved(settled.1, *dest),
            AskReply::TimedOut => settled.0 == AskOutcome::Timeout && unresolved(settled.1, *dest),
        },
{
    match reply {
        AskReply::Replied(payload) => (AskOutcome::Replied, Ok(payload)),
        AskReply::Lost => (AskOutcome::Failed, Err(AskError::Unresolved(dest.to_string()))),
        AskReply::TimedOut => (AskOutcome::Timeout, Err(AskError::Unresolved(dest.to_string()))),
    }
}

/// Whether an ask failed, naming its destination.
pub open spec fn unresolved(result: Result<Payload, AskError>, dest: Address) -> bool {
    &&& result is Err
    &&& result->Err_0->Unresolved_0@ == address_chars(dest@)
}

/// A send is recorded as it was made: behind every effect before it, from the
/// actor, to its destination, with its payload, inside the trace of the message
/// being handled; and the context is otherwise as it was.
pub proof fn law_send_is_recorded(
    before: MsgCtxView,
    after: MsgCtxView,
    schema: Seq<char>,
    dest: Address,
    payload: Payload,
    reply_to: Option<Address>,
    mint: IdMint,
    now: u64,
    spent: IdMint,
)
    requires
        sent(before, after, schema, dest, payload, reply_to, mint, now, spent),
    ensures
        after == (MsgCtxView { intents: after.intents, ..before }),
        after.intents.len() == before.intents.len() + 1,
        forall|i: int| 0 <= i < before.intents.len() ==> #[trigger] after.intents[i] == before.intents[i],
        match after.intents[before.intents.len() as int] {
            Intent::Send(envelope) => {
                &&& envelope.schema@ == schema
                &&& envelope.dest == dest
                &&& envelope.payload == payload
                &&& envelope.reply_to == reply_to
                &&& envelope.from == Some(before.path)
                &&& envelope.trace.trace_id == before.trace.trace_id
                &&& minted(mint, now, spent, envelope.trace.causality_id@)
                &&& envelope.recorded_origin is None
            },
            _ => false,
        },
{
}

/// A publication is recorded as it was made: behind every effect before it, from
/// the actor, to whoever handles its schema, asking for no reply.
pub proof fn law_publication_is_recorded(
    before: MsgCtxView,
    after: MsgCtxView,
    schema: Seq<char>,
    payload: Payload,
    mint: IdMint,
    now: u64,
    spent: IdMint,
)
    requires
        published(before, after, schema, payload, mint, now, spent),
    ensures
        after == (MsgCtxView { intents: after.intents, ..before }),
        after.intents.len() == before.intents.len() + 1,
        forall|i: int| 0 <= i < before.intents.len() ==> #[trigger] after.intents[i] == before.intents[i],
        match after.intents[before.intents.len() as int] {
            Intent::Broadcast(envelope) => {
                &&& envelope.schema@ == schema
                &&& envelope.dest is Schema
                &&& envelope.dest->Schema_0@ == schema
                &&& envelope.payload == payload
                &&& envelope.reply_to is None
                &&& envelope.from == Some(before.path)
                &&& envelope.trace.trace_id == before.trace.trace_id
                &&& minted(mint, now, spent, envelope.trace.causality_id@)
                &&& envelope.recorded_origin is None
            },
            _ => false,
        },
{
}

/// A reply goes to whoever asked for one and to nobody where nobody did: it is
/// recorded behind every effect before it, with its payload, inside the trace of
/// the message it answers.
pub proof fn law_reply_goes_to_the_asker(
    before: MsgCtxView,
    after: MsgCtxView,
    schema: Seq<char>,
    payload: Payload,
    mint: IdMint,
    now: u64,
    spent: IdMint,
)
    requires
        replied(before, after, schema, payload, mint, now, spent),
    ensures
        before.reply_to is None ==> after == before && spent == mint,
        before.reply_to matches Some(asker) ==> {
            &&& after == (MsgCtxView { intents: after.intents, ..before })
            &&& after.intents.len() == before.intents.len() + 1
            &&& forall|i: int| 0 <= i < before.intents.len() ==> #[trigger] after.intents[i] == before.intents[i]
            &&& match after.intents[before.intents.len() as int] {
                Intent::Reply { to, schema: id, payload: body, trace } => {
                    &&& to == asker
                    &&& id@ == schema
                    &&& body == payload
                    &&& trace.trace_id == before.trace.trace_id
                    &&& minted(mint, now, spent, trace.causality_id@)
                },
                _ => false,
            }
        },
{
}

/// A lookup shows the actor that is registered at the path, with what it declares.
pub proof fn law_lookup_shows_the_slot(registry: RegistryView, path: Seq<char>, info: EndpointInfo)
    requires
        shows_slot(registry, path, info),
    ensures
        registry.slots.dom().contains(path),
        info.path@ == path,
        registry.slots[path].manifest.kind == Some(info.kind),
        info.manifest@.handles == registry.slots[path].manifest.handles,
        info.manifest@.emits == registry.slots[path].manifest.emits,
{
}

/// An ask that fails names its destination: a path as it stands, a schema by its
/// name.
pub proof fn law_failed_ask_names_its_destination(result: Result<Payload, AskError>, dest: Address)
    requires
        unresolved(result, dest),
    ensures
        result matches Err(AskError::Unresolved(told)) && match dest {
            Address::Path(path) => told@ == path@,
            Address::Schema(schema) => told@ == "schema("@ + schema@ + ")"@,
            Address::Slot(_) => told@.len() > 0,
        },
{
    reveal_strlit(")");
}

} // verus!
