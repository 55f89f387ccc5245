//! The delivery kernel: what the runtime decides about cells, front doors,
//! routing, the batch step and supervision. Each decision takes what was read
//! from the world and says what is to be done next.

use vstd::prelude::*;

use crate::envelope::Address;
use crate::envelope::Envelope;
use crate::envelope::TraceCtx;
use crate::schema::SchemaId;

pub mod ask;
pub mod broadcast;
pub mod cell;
pub mod delivery;
pub mod effects;
pub mod es_step;
pub mod routing;
pub mod service;

verus! {

/// How an ask ended.
#[derive(Debug, Clone, Copy, PartialEq, Eq, Structural)]
pub enum AskOutcome {
    /// The callee replied in time.
    Replied,
    /// The timeout elapsed with no reply.
    Timeout,
    /// The ask failed outright.
    Failed,
}

/// Why an envelope was dead-lettered.
#[derive(Debug, Clone, Copy, PartialEq, Eq, Structural)]
pub enum DeadLetterReason {
    /// No slot or route resolved for the destination.
    Unresolvable,
    /// No handler is registered for the payload's schema.
    UnknownSchema,
    /// The payload did not decode against its registered schema.
    Decode,
    /// The destination inbox refused the envelope.
    InboxRefused,
    /// The actor was stopped with undelivered inbox entries.
    StoppedWithMail,
    /// The system is in its graceful shutdown sweep.
    ShuttingDown,
    /// The actor emitted an event whose schema it never declared.
    UndeclaredEvent,
    /// The actor recorded an effect whose schema it never declared.
    UndeclaredEmit,
    /// A partition-set command arrived without its shard key.
    ShardKeyMissing,
}

/// An envelope the runtime could not deliver or decode, kept inspectable.
pub struct DeadLetter {
    /// The undeliverable payload's schema.
    pub schema: SchemaId,
    /// Where it was headed.
    pub dest: Address,
    /// Why it died.
    pub reason: DeadLetterReason,
    /// A human-readable detail line.
    pub detail: String,
    /// The trace of the hop that failed.
    pub trace: TraceCtx,
    /// The full envelope.
    pub envelope: Envelope,
}

impl DeadLetter {
    /// Whether this is the record of an envelope that died for a reason.
    pub open spec fn records(self, envelope: Envelope, reason: DeadLetterReason, detail: Seq<char>) -> bool {
        &&& self.schema == envelope.schema
        &&& self.dest == envelope.dest
        &&& self.reason == reason
        &&& self.detail@ == detail
        &&& self.trace == envelope.trace
        &&& self.envelope == envelope
    }
}

/// Dead-letters an envelope: `reason` is the category, `detail` the
/// elaboration.
pub fn dead_letter(envelope: &Envelope, reason: DeadLetterReason, detail: &str) -> (letter: DeadLetter)
    ensures
        letter.records(*envelope, reason, detail@),
{
    DeadLetter {
        schema: envelope.schema.clone(),
        dest: envelope.dest.clone(),
        reason,
        detail: detail.to_owned(),
        trace: envelope.trace,
        envelope: envelope.clone(),
    }
}

/// A dead letter keeps the message: the whole envelope, where it was headed, its
/// schema and trace, and why it died.
pub proof fn law_letter_keeps_the_message(
    letter: DeadLetter,
    envelope: Envelope,
    reason: DeadLetterReason,
    detail: Seq<char>,
)
    requires
        letter.records(envelope, reason, detail),
    ensures
        letter.envelope == envelope,
        letter.schema == envelope.schema,
        letter.dest == envelope.dest,
        letter.trace == envelope.trace,
        letter.reason == reason,
        letter.detail@ == detail,
{
}

} // verus!
