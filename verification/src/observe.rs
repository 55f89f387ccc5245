//! Opt-in runtime observation: one value per observed boundary crossing, and
//! its projection to a document.
//!
//! Observations are not a delivery path and are not kept.

use vstd::prelude::*;

use crate::actor::ActorKind;
use crate::actor::ActorPath;
use crate::actor::StopReason;
use crate::clock::Timestamp;
use crate::envelope::address_chars;
use crate::envelope::Address;
use crate::envelope::Envelope;
use crate::envelope::TraceCtx;
use crate::ids::id_chars;
use crate::journal::SeqNo;
use crate::json::bool_tree;
use crate::json::members_view;
use crate::json::object_tree;
use crate::json::push_member;
use crate::json::text_tree;
use crate::json::uint_tree;
use crate::json::Json;
use crate::json::JsonTree;
use crate::json::JsonView;
use crate::json::NumberView;
use crate::kernel::AskOutcome;
use crate::kernel::DeadLetter;
use crate::kernel::DeadLetterReason;
use crate::schema::SchemaId;

verus! {

/// One observed runtime event.
#[derive(Debug)]
pub struct Observation {
    /// The clock's reading at emission.
    pub ts: Timestamp,
    /// What happened.
    pub kind: ObservationKind,
}

/// What was observed.
#[derive(Debug)]
#[allow(inconsistent_fields)]
pub enum ObservationKind {
    /// An envelope was routed to a destination.
    Sent {
        /// The sender.
        from: Option<ActorPath>,
        /// The destination.
        dest: Address,
        /// The schema.
        schema: SchemaId,
        /// The hop.
        trace: TraceCtx,
    },
    /// A loop picked an envelope out of its inbox.
    Delivered {
        /// The actor.
        to: ActorPath,
        /// The schema.
        schema: SchemaId,
        /// The hop.
        trace: TraceCtx,
    },
    /// An event-sourced actor committed a message.
    Acked {
        /// The actor.
        to: ActorPath,
        /// The schema.
        schema: SchemaId,
        /// The hop.
        trace: TraceCtx,
    },
    /// An ask was opened.
    AskOpened {
        /// The asker.
        from: ActorPath,
        /// The callee.
        dest: Address,
        /// The hop.
        trace: TraceCtx,
    },
    /// An ask settled.
    AskSettled {
        /// How it ended.
        outcome: AskOutcome,
        /// The hop.
        trace: TraceCtx,
    },
    /// An actor was spawned.
    Spawned {
        /// The actor.
        path: ActorPath,
        /// Its contract.
        kind: ActorKind,
        /// Whether it was restarted.
        restart: bool,
    },
    /// An actor stopped.
    Stopped {
        /// The actor.
        path: ActorPath,
        /// Why.
        reason: StopReason,
    },
    /// A handler failed.
    Failed {
        /// The actor.
        path: ActorPath,
        /// What happened.
        error: String,
    },
    /// An event-sourced actor took a snapshot.
    SnapshotTaken {
        /// The actor.
        path: ActorPath,
        /// The seq of the last event folded.
        seq: SeqNo,
    },
    /// A failure was escalated to the parent.
    Escalated {
        /// The actor.
        path: ActorPath,
        /// Why.
        reason: String,
    },
    /// A parent was told that its child is gone.
    LinkNotified {
        /// The parent.
        parent: ActorPath,
        /// The child.
        child: ActorPath,
    },
    /// An envelope was dead-lettered.
    DeadLettered {
        /// The destination.
        dest: Address,
        /// The schema.
        schema: SchemaId,
        /// Why.
        reason: DeadLetterReason,
        /// The hop.
        trace: TraceCtx,
    },
    /// An inbox crossed its high watermark.
    Backpressured {
        /// The actor.
        path: ActorPath,
        /// The depth.
        depth: u64,
    },
    /// A projector finished its catch-up.
    CaughtUp {
        /// The projector.
        path: ActorPath,
        /// How many facts were filled in.
        seeded: u64,
    },
}

/// The name of an outcome.
pub open spec fn outcome_name(value: AskOutcome) -> Seq<char> {
    match value {
        AskOutcome::Replied => "Replied"@,
        AskOutcome::Timeout => "Timeout"@,
        AskOutcome::Failed => "Failed"@,
    }
}

/// The name of an outcome.
fn outcome_text(value: AskOutcome) -> (text: &'static str)
    ensures
        text@ == outcome_name(value),
{
    match value {
        AskOutcome::Replied => "Replied",
        AskOutcome::Timeout => "Timeout",
        AskOutcome::Failed => "Failed",
    }
}

/// The name of a contract.
pub open spec fn kind_name(value: ActorKind) -> Seq<char> {
    match value {
        ActorKind::EventSourced => "EventSourced"@,
        ActorKind::Service => "Service"@,
    }
}

/// The name of a contract.
fn kind_text(value: ActorKind) -> (text: &'static str)
    ensures
        text@ == kind_name(value),
{
    match value {
        ActorKind::EventSourced => "EventSourced",
        ActorKind::Service => "Service",
    }
}

/// The name of a stop reason.
pub open spec fn stop_name(value: StopReason) -> Seq<char> {
    match value {
        StopReason::Normal => "Normal"@,
        StopReason::Crashed => "Crashed"@,
        StopReason::Escalated => "Escalated"@,
        StopReason::Passivated => "Passivated"@,
        StopReason::Shutdown => "Shutdown"@,
    }
}

/// The name of a stop reason.
fn stop_text(value: StopReason) -> (text: &'static str)
    ensures
        text@ == stop_name(value),
{
    match value {
        StopReason::Normal => "Normal",
        StopReason::Crashed => "Crashed",
        StopReason::Escalated => "Escalated",
        StopReason::Passivated => "Passivated",
        StopReason::Shutdown => "Shutdown",
    }
}

/// The name of a dead-letter reason.
pub open spec fn dead_name(value: DeadLetterReason) -> Seq<char> {
    match value {
        DeadLetterReason::Unresolvable => "Unresolvable"@,
        DeadLetterReason::UnknownSchema => "UnknownSchema"@,
        DeadLetterReason::Decode => "Decode"@,
        DeadLetterReason::InboxRefused => "InboxRefused"@,
        DeadLetterReason::StoppedWithMail => "StoppedWithMail"@,
        DeadLetterReason::ShuttingDown => "ShuttingDown"@,
        DeadLetterReason::UndeclaredEvent => "UndeclaredEvent"@,
        DeadLetterReason::UndeclaredEmit => "UndeclaredEmit"@,
        DeadLetterReason::ShardKeyMissing => "ShardKeyMissing"@,
    }
}

/// The name of a dead-letter reason.
fn dead_text(value: DeadLetterReason) -> (text: &'static str)
    ensures
        text@ == dead_name(value),
{
    match value {
        DeadLetterReason::Unresolvable => "Unresolvable",
        DeadLetterReason::UnknownSchema => "UnknownSchema",
        DeadLetterReason::Decode => "Decode",
        DeadLetterReason::InboxRefused => "InboxRefused",
        DeadLetterReason::StoppedWithMail => "StoppedWithMail",
        DeadLetterReason::ShuttingDown => "ShuttingDown",
        DeadLetterReason::UndeclaredEvent => "UndeclaredEvent",
        DeadLetterReason::UndeclaredEmit => "UndeclaredEmit",
        DeadLetterReason::ShardKeyMissing => "ShardKeyMissing",
    }
}

/// The members of an observation's document, in name order.
pub open spec fn observation_members(ts: u64, kind: ObservationKind) -> Seq<(Seq<char>, JsonView)> {
    let ts_value = JsonView::Number(NumberView::PosInt(ts));
    match kind {
        ObservationKind::Sent { from, dest, schema, trace } => seq![
            ("causality_id"@, JsonView::Text(id_chars(trace.causality_id@.0, trace.causality_id@.1))),
            ("dest"@, JsonView::Text(address_chars(dest@))),
            ("from"@, match from {
                Some(path) => JsonView::Text(path@),
                None => JsonView::Null,
            }),
            ("kind"@, JsonView::Text("sent"@)),
            ("schema"@, JsonView::Text(schema@)),
            ("trace_id"@, JsonView::Text(id_chars(trace.trace_id@.0, trace.trace_id@.1))),
            ("ts"@, ts_value),
        ],
        ObservationKind::Delivered { to, schema, trace } => seq![
            ("causality_id"@, JsonView::Text(id_chars(trace.causality_id@.0, trace.causality_id@.1))),
            ("kind"@, JsonView::Text("delivered"@)),
            ("schema"@, JsonView::Text(schema@)),
            ("to"@, JsonView::Text(to@)),
            ("trace_id"@, JsonView::Text(id_chars(trace.trace_id@.0, trace.trace_id@.1))),
            ("ts"@, ts_value),
        ],
        ObservationKind::Acked { to, schema, trace } => seq![
            ("causality_id"@, JsonView::Text(id_chars(trace.causality_id@.0, trace.causality_id@.1))),
            ("kind"@, JsonView::Text("acked"@)),
            ("schema"@, JsonView::Text(schema@)),
            ("to"@, JsonView::Text(to@)),
            ("trace_id"@, JsonView::Text(id_chars(trace.trace_id@.0, trace.trace_id@.1))),
            ("ts"@, ts_value),
        ],
        ObservationKind::AskOpened { from, dest, trace } => seq![
            ("causality_id"@, JsonView::Text(id_chars(trace.causality_id@.0, trace.causality_id@.1))),
            ("dest"@, JsonView::Text(address_chars(dest@))),
            ("from"@, JsonView::Text(from@)),
            ("kind"@, JsonView::Text("ask_opened"@)),
            ("trace_id"@, JsonView::Text(id_chars(trace.trace_id@.0, trace.trace_id@.1))),
            ("ts"@, ts_value),
        ],
        ObservationKind::AskSettled { outcome, trace } => seq![
            ("causality_id"@, JsonView::Text(id_chars(trace.causality_id@.0, trace.causality_id@.1))),
            ("kind"@, JsonView::Text("ask_settled"@)),
            ("outcome"@, JsonView::Text(outcome_name(outcome))),
            ("trace_id"@, JsonView::Text(id_chars(trace.trace_id@.0, trace.trace_id@.1))),
            ("ts"@, ts_value),
        ],
        ObservationKind::Spawned { path, kind, restart } => seq![
            ("actor_kind"@, JsonView::Text(kind_name(kind))),
            ("kind"@, JsonView::Text("spawned"@)),
            ("path"@, JsonView::Text(path@)),
            ("restart"@, JsonView::Bool(restart)),
            ("ts"@, ts_value),
        ],
        ObservationKind::Stopped { path, reason } => seq![
            ("kind"@, JsonView::Text("stopped"@)),
            ("path"@, JsonView::Text(path@)),
            ("reason"@, JsonView::Text(stop_name(reason))),
            ("ts"@, ts_value),
        ],
        ObservationKind::Failed { path, error } => seq![
            ("error"@, JsonView::Text(error@)),
            ("kind"@, JsonView::Text("failed"@)),
            ("path"@, JsonView::Text(path@)),
            ("ts"@, ts_value),
        ],
        ObservationKind::SnapshotTaken { path, seq } => seq![
            ("kind"@, JsonView::Text("snapshot_taken"@)),
            ("path"@, JsonView::Text(path@)),
            ("seq"@, JsonView::Number(NumberView::PosInt(seq@))),
            ("ts"@, ts_value),
        ],
        ObservationKind::Escalated { path, reason } => seq![
            ("kind"@, JsonView::Text("escalated"@)),
            ("path"@, JsonView::Text(path@)),
            ("reason"@, JsonView::Text(reason@)),
            ("ts"@, ts_value),
        ],
        ObservationKind::LinkNotified { parent, child } => seq![
            ("child"@, JsonView::Text(child@)),
            ("kind"@, JsonView::Text("link_notified"@)),
            ("parent"@, JsonView::Text(parent@)),
            ("ts"@, ts_value),
        ],
        ObservationKind::DeadLettered { dest, schema, reason, trace } => seq![
            ("causality_id"@, JsonView::Text(id_chars(trace.causality_id@.0, trace.causality_id@.1))),
            ("dest"@, JsonView::Text(address_chars(dest@))),
            ("kind"@, JsonView::Text("dead_lettered"@)),
            ("reason"@, JsonView::Text(dead_name(reason))),
            ("schema"@, JsonView::Text(schema@)),
            ("trace_id"@, JsonView::Text(id_chars(trace.trace_id@.0, trace.trace_id@.1))),
            ("ts"@, ts_value),
        ],
        ObservationKind::Backpressured { path, depth } => seq![
            ("depth"@, JsonView::Number(NumberView::PosInt(depth))),
            ("kind"@, JsonView::Text("backpressured"@)),
            ("path"@, JsonView::Text(path@)),
            ("ts"@, ts_value),
        ],
        ObservationKind::CaughtUp { path, seeded } => seq![
            ("kind"@, JsonView::Text("caught_up"@)),
            ("path"@, JsonView::Text(path@)),
            ("seeded"@, JsonView::Number(NumberView::PosInt(seeded))),
            ("ts"@, ts_value),
        ],
    }
}

impl Observation {
    /// Creates an observation.
    pub fn new(ts: Timestamp, kind: ObservationKind) -> (observation: Self)
        ensures
            observation.ts == ts,
            observation.kind == kind,
    {
        Observation { ts, kind }
    }

    /// An observation of a hop, at the time its causality id was minted.
    pub fn of_hop(trace: TraceCtx, kind: ObservationKind) -> (observation: Self)
        ensures
            observation.ts@ == trace.causality_id@.0 >> 16,
            observation.kind == kind,
    {
        Observation { ts: trace.causality_id.as_millis_ts(), kind }
    }

    /// The observation that an envelope was sent.
    pub fn sent(envelope: &Envelope, dest: Address) -> (observation: Self)
        ensures
            observation.ts@ == envelope.trace.causality_id@.0 >> 16,
            observation.kind == (ObservationKind::Sent {
                from: envelope.from,
                dest,
                schema: envelope.schema,
                trace: envelope.trace,
            }),
    {
        let from = match &envelope.from {
            Some(from) => Some(from.clone()),
            None => None,
        };
        let kind = ObservationKind::Sent { from, dest, schema: envelope.schema.clone(), trace: envelope.trace };
        Observation::of_hop(envelope.trace, kind)
    }

    /// The observation that an actor picked an envelope out of its inbox.
    pub fn delivered(to: &ActorPath, envelope: &Envelope) -> (observation: Self)
        ensures
            observation.ts@ == envelope.trace.causality_id@.0 >> 16,
            observation.kind == (ObservationKind::Delivered {
                to: *to,
                schema: envelope.schema,
                trace: envelope.trace,
            }),
    {
        let kind = ObservationKind::Delivered {
            to: to.clone(),
            schema: envelope.schema.clone(),
            trace: envelope.trace,
        };
        Observation::of_hop(envelope.trace, kind)
    }

    /// The observation that an actor committed an envelope.
    pub fn acked(to: &ActorPath, envelope: &Envelope) -> (observation: Self)
        ensures
            observation.ts@ == envelope.trace.causality_id@.0 >> 16,
            observation.kind == (ObservationKind::Acked {
                to: *to,
                schema: envelope.schema,
                trace: envelope.trace,
            }),
    {
        let kind = ObservationKind::Acked {
            to: to.clone(),
            schema: envelope.schema.clone(),
            trace: envelope.trace,
        };
        Observation::of_hop(envelope.trace, kind)
    }

    /// The observation that an actor's handler panicked over an envelope.
    pub fn panicked(path: &ActorPath, envelope: &Envelope) -> (observation: Self)
        ensures
            observation.ts@ == envelope.trace.causality_id@.0 >> 16,
            observation.kind matches ObservationKind::Failed { path: failed, error } && failed == *path && error@
                == "handler panic"@,
    {
        let kind = ObservationKind::Failed { path: path.clone(), error: "handler panic".to_owned() };
        Observation::of_hop(envelope.trace, kind)
    }

    /// The observation of a dead letter.
    pub fn dead_lettered(letter: &DeadLetter) -> (observation: Self)
        ensures
            observation.ts@ == letter.trace.causality_id@.0 >> 16,
            observation.kind == (ObservationKind::DeadLettered {
                dest: letter.dest,
                schema: letter.schema,
                reason: letter.reason,
                trace: letter.trace,
            }),
    {
        let kind = ObservationKind::DeadLettered {
            dest: letter.dest.clone(),
            schema: letter.schema.clone(),
            reason: letter.reason,
            trace: letter.trace,
        };
        Observation::of_hop(letter.trace, kind)
    }

    /// The observation as a document.
    pub fn to_json(&self) -> (json: Json)
        ensures
            json@ == JsonView::Object(observation_members(self.ts@, self.kind)),
    {
        let ts: u64 = self.ts.as_millis();
        let mut members: Vec<(String, JsonTree)> = Vec::new();
        assert(members_view(members@) =~= Seq::empty());
        match &self.kind {
            ObservationKind::Sent { from, dest, schema, trace } => {
                push_member(&mut members, "causality_id", text_tree(trace.causality_id.to_string().as_str()));
                push_member(&mut members, "dest", text_tree(dest.to_string().as_str()));
                push_member(&mut members, "from", match from {
                    Some(path) => text_tree(path.as_str()),
                    None => JsonTree::Null,
                });
                push_member(&mut members, "kind", text_tree("sent"));
                push_member(&mut members, "schema", text_tree(schema.as_str()));
                push_member(&mut members, "trace_id", text_tree(trace.trace_id.to_string().as_str()));
                push_member(&mut members, "ts", uint_tree(ts));
            },
            ObservationKind::Delivered { to, schema, trace } => {
                push_member(&mut members, "causality_id", text_tree(trace.causality_id.to_string().as_str()));
                push_member(&mut members, "kind", text_tree("delivered"));
                push_member(&mut members, "schema", text_tree(schema.as_str()));
                push_member(&mut members, "to", text_tree(to.as_str()));
                push_member(&mut members, "trace_id", text_tree(trace.trace_id.to_string().as_str()));
                push_member(&mut members, "ts", uint_tree(ts));
            },
            ObservationKind::Acked { to, schema, trace } => {
                push_member(&mut members, "causality_id", text_tree(trace.causality_id.to_string().as_str()));
                push_member(&mut members, "kind", text_tree("acked"));
                push_member(&mut members, "schema", text_tree(schema.as_str()));
                push_member(&mut members, "to", text_tree(to.as_str()));
                push_member(&mut members, "trace_id", text_tree(trace.trace_id.to_string().as_str()));
                push_member(&mut members, "ts", uint_tree(ts));
            },
            ObservationKind::AskOpened { from, dest, trace } => {
                push_member(&mut members, "causality_id", text_tree(trace.causality_id.to_string().as_str()));
                push_member(&mut members, "dest", text_tree(dest.to_string().as_str()));
                push_member(&mut members, "from", text_tree(from.as_str()));
                push_member(&mut members, "kind", text_tree("ask_opened"));
                push_member(&mut members, "trace_id", text_tree(trace.trace_id.to_string().as_str()));
                push_member(&mut members, "ts", uint_tree(ts));
            },
            ObservationKind::AskSettled { outcome, trace } => {
                push_member(&mut members, "causality_id", text_tree(trace.causality_id.to_string().as_str()));
                push_member(&mut members, "kind", text_tree("ask_settled"));
                push_member(&mut members, "outcome", text_tree(outcome_text(*outcome)));
                push_member(&mut members, "trace_id", text_tree(trace.trace_id.to_string().as_str()));
                push_member(&mut members, "ts", uint_tree(ts));
            },
            ObservationKind::Spawned { path, kind, restart } => {
                push_member(&mut members, "actor_kind", text_tree(kind_text(*kind)));
                push_member(&mut members, "kind", text_tree("spawned"));
                push_member(&mut members, "path", text_tree(path.as_str()));
                push_member(&mut members, "restart", bool_tree(*restart));
                push_member(&mut members, "ts", uint_tree(ts));
            },
            ObservationKind::Stopped { path, reason } => {
                push_member(&mut members, "kind", text_tree("stopped"));
                push_member(&mut members, "path", text_tree(path.as_str()));
                push_member(&mut members, "reason", text_tree(stop_text(*reason)));
                push_member(&mut members, "ts", uint_tree(ts));
            },
            ObservationKind::Failed { path, error } => {
                push_member(&mut members, "error", text_tree(error.as_str()));
                push_member(&mut members, "kind", text_tree("failed"));
                push_member(&mut members, "path", text_tree(path.as_str()));
                push_member(&mut members, "ts", uint_tree(ts));
            },
            ObservationKind::SnapshotTaken { path, seq } => {
                push_member(&mut members, "kind", text_tree("snapshot_taken"));
                push_member(&mut members, "path", text_tree(path.as_str()));
                push_member(&mut members, "seq", uint_tree(seq.as_u64()));
                push_member(&mut members, "ts", uint_tree(ts));
            },
            ObservationKind::Escalated { path, reason } => {
                push_member(&mut members, "kind", text_tree("escalated"));
                push_member(&mut members, "path", text_tree(path.as_str()));
                push_member(&mut members, "reason", text_tree(reason.as_str()));
                push_member(&mut members, "ts", uint_tree(ts));
            },
            ObservationKind::LinkNotified { parent, child } => {
                push_member(&mut members, "child", text_tree(child.as_str()));
                push_member(&mut members, "kind", text_tree("link_notified"));
                push_member(&mut members, "parent", text_tree(parent.as_str()));
                push_member(&mut members, "ts", uint_tree(ts));
            },
            ObservationKind::DeadLettered { dest, schema, reason, trace } => {
                push_member(&mut members, "causality_id", text_tree(trace.causality_id.to_string().as_str()));
                push_member(&mut members, "dest", text_tree(dest.to_string().as_str()));
                push_member(&mut members, "kind", text_tree("dead_lettered"));
                push_member(&mut members, "reason", text_tree(dead_text(*reason)));
                push_member(&mut members, "schema", text_tree(schema.as_str()));
                push_member(&mut members, "trace_id", text_tree(trace.trace_id.to_string().as_str()));
                push_member(&mut members, "ts", uint_tree(ts));
            },
            ObservationKind::Backpressured { path, depth } => {
                push_member(&mut members, "depth", uint_tree(*depth));
                push_member(&mut members, "kind", text_tree("backpressured"));
                push_member(&mut members, "path", text_tree(path.as_str()));
                push_member(&mut members, "ts", uint_tree(ts));
            },
            ObservationKind::CaughtUp { path, seeded } => {
                push_member(&mut members, "kind", text_tree("caught_up"));
                push_member(&mut members, "path", text_tree(path.as_str()));
                push_member(&mut members, "seeded", uint_tree(*seeded));
                push_member(&mut members, "ts", uint_tree(ts));
            },
        }
        assert(members_view(members@) =~= observation_members(self.ts@, self.kind));
        Json::of(object_tree(members))
    }
}

/// An observation's document shows the observation: when it was made, what it is,
/// and each part of it under the part's own name.
pub proof fn law_document_shows_the_observation(ts: u64, kind: ObservationKind)
    ensures
        observation_members(ts, kind).contains(("ts"@, JsonView::Number(NumberView::PosInt(ts)))),
        ({
            let members = observation_members(ts, kind);
            match kind {
                ObservationKind::Sent { from, dest, schema, trace } => {
                    &&& members.contains(("causality_id"@, JsonView::Text(id_chars(trace.causality_id@.0, trace.causality_id@.1))))
                    &&& members.contains(("dest"@, JsonView::Text(address_chars(dest@))))
                    &&& members.contains(("from"@, match from {
                    Some(path) => JsonView::Text(path@),
                    None => JsonView::Null,
                }))
                    &&& members.contains(("kind"@, JsonView::Text("sent"@)))
                    &&& members.contains(("schema"@, JsonView::Text(schema@)))
                    &&& members.contains(("trace_id"@, JsonView::Text(id_chars(trace.trace_id@.0, trace.trace_id@.1))))
                },
                ObservationKind::Delivered { to, schema, trace } => {
                    &&& members.contains(("causality_id"@, JsonView::Text(id_chars(trace.causality_id@.0, trace.causality_id@.1))))
                    &&& members.contains(("kind"@, JsonView::Text("delivered"@)))
                    &&& members.contains(("schema"@, JsonView::Text(schema@)))
                    &&& members.contains(("to"@, JsonView::Text(to@)))
                    &&& members.contains(("trace_id"@, JsonView::Text(id_chars(trace.trace_id@.0, trace.trace_id@.1))))
                },
                ObservationKind::Acked { to, schema, trace } => {
                    &&& members.contains(("causality_id"@, JsonView::Text(id_chars(trace.causality_id@.0, trace.causality_id@.1))))
                    &&& members.contains(("kind"@, JsonView::Text("acked"@)))
                    &&& members.contains(("schema"@, JsonView::Text(schema@)))
                    &&& members.contains(("to"@, JsonView::Text(to@)))
                    &&& members.contains(("trace_id"@, JsonView::Text(id_chars(trace.trace_id@.0, trace.trace_id@.1))))
                },
                ObservationKind::AskOpened { from, dest, trace } => {
                    &&& members.contains(("causality_id"@, JsonView::Text(id_chars(trace.causality_id@.0, trace.causality_id@.1))))
                    &&& members.contains(("dest"@, JsonView::Text(address_chars(dest@))))
                    &&& members.contains(("from"@, JsonView::Text(from@)))
                    &&& members.contains(("kind"@, JsonView::Text("ask_opened"@)))
                    &&& members.contains(("trace_id"@, JsonView::Text(id_chars(trace.trace_id@.0, trace.trace_id@.1))))
                },
                ObservationKind::AskSettled { outcome, trace } => {
                    &&& members.contains(("causality_id"@, JsonView::Text(id_chars(trace.causality_id@.0, trace.causality_id@.1))))
                    &&& members.contains(("kind"@, JsonView::Text("ask_settled"@)))
                    &&& members.contains(("outcome"@, JsonView::Text(outcome_name(outcome))))
                    &&& members.contains(("trace_id"@, JsonView::Text(id_chars(trace.trace_id@.0, trace.trace_id@.1))))
                },
                ObservationKind::Spawned { path, kind, restart } => {
                    &&& members.contains(("actor_kind"@, JsonView::Text(kind_name(kind))))
                    &&& members.contains(("kind"@, JsonView::Text("spawned"@)))
                    &&& members.contains(("path"@, JsonView::Text(path@)))
                    &&& members.contains(("restart"@, JsonView::Bool(restart)))
                },
                ObservationKind::Stopped { path, reason } => {
                    &&& members.contains(("kind"@, JsonView::Text("stopped"@)))
                    &&& members.contains(("path"@, JsonView::Text(path@)))
                    &&& members.contains(("reason"@, JsonView::Text(stop_name(reason))))
                },
                ObservationKind::Failed { path, error } => {
                    &&& members.contains(("error"@, JsonView::Text(error@)))
                    &&& members.contains(("kind"@, JsonView::Text("failed"@)))
                    &&& members.contains(("path"@, JsonView::Text(path@)))
                },
                ObservationKind::SnapshotTaken { path, seq } => {
                    &&& members.contains(("kind"@, JsonView::Text("snapshot_taken"@)))
                    &&& members.contains(("path"@, JsonView::Text(path@)))
                    &&& members.contains(("seq"@, JsonView::Number(NumberView::PosInt(seq@))))
                },
                ObservationKind::Escalated { path, reason } => {
                    &&& members.contains(("kind"@, JsonView::Text("escalated"@)))
                    &&& members.contains(("path"@, JsonView::Text(path@)))
                    &&& members.contains(("reason"@, JsonView::Text(reason@)))
                },
                ObservationKind::LinkNotified { parent, child } => {
                    &&& members.contains(("child"@, JsonView::Text(child@)))
                    &&& members.contains(("kind"@, JsonView::Text("link_notified"@)))
                    &&& members.contains(("parent"@, JsonView::Text(parent@)))
                },
                ObservationKind::DeadLettered { dest, schema, reason, trace } => {
                    &&& members.contains(("causality_id"@, JsonView::Text(id_chars(trace.causality_id@.0, trace.causality_id@.1))))
                    &&& members.contains(("dest"@, JsonView::Text(address_chars(dest@))))
                    &&& members.contains(("kind"@, JsonView::Text("dead_lettered"@)))
                    &&& members.contains(("reason"@, JsonView::Text(dead_name(reason))))
                    &&& members.contains(("schema"@, JsonView::Text(schema@)))
                    &&& members.contains(("trace_id"@, JsonView::Text(id_chars(trace.trace_id@.0, trace.trace_id@.1))))
                },
                ObservationKind::Backpressured { path, depth } => {
                    &&& members.contains(("depth"@, JsonView::Number(NumberView::PosInt(depth))))
                    &&& members.contains(("kind"@, JsonView::Text("backpressured"@)))
                    &&& members.contains(("path"@, JsonView::Text(path@)))
                },
                ObservationKind::CaughtUp { path, seeded } => {
                    &&& members.contains(("kind"@, JsonView::Text("caught_up"@)))
                    &&& members.contains(("path"@, JsonView::Text(path@)))
                    &&& members.contains(("seeded"@, JsonView::Number(NumberView::PosInt(seeded))))
                },
            }
        }),
{
    let members = observation_members(ts, kind);
    match kind {
        ObservationKind::Sent { from, dest, schema, trace } => {
            assert(members[0] == ("causality_id"@, JsonView::Text(id_chars(trace.causality_id@.0, trace.causality_id@.1))));
            assert(members[1] == ("dest"@, JsonView::Text(address_chars(dest@))));
            assert(members[2] == ("from"@, match from {
                Some(path) => JsonView::Text(path@),
                None => JsonView::Null,
            }));
            assert(members[3] == ("kind"@, JsonView::Text("sent"@)));
            assert(members[4] == ("schema"@, JsonView::Text(schema@)));
            assert(members[5] == ("trace_id"@, JsonView::Text(id_chars(trace.trace_id@.0, trace.trace_id@.1))));
        },
        ObservationKind::Delivered { to, schema, trace } => {
            assert(members[0] == ("causality_id"@, JsonView::Text(id_chars(trace.causality_id@.0, trace.causality_id@.1))));
            assert(members[1] == ("kind"@, JsonView::Text("delivered"@)));
            assert(members[2] == ("schema"@, JsonView::Text(schema@)));
            assert(members[3] == ("to"@, JsonView::Text(to@)));
            assert(members[4] == ("trace_id"@, JsonView::Text(id_chars(trace.trace_id@.0, trace.trace_id@.1))));
        },
        ObservationKind::Acked { to, schema, trace } => {
            assert(members[0] == ("causality_id"@, JsonView::Text(id_chars(trace.causality_id@.0, trace.causality_id@.1))));
            assert(members[1] == ("kind"@, JsonView::Text("acked"@)));
            assert(members[2] == ("schema"@, JsonView::Text(schema@)));
            assert(members[3] == ("to"@, JsonView::Text(to@)));
            assert(members[4] == ("trace_id"@, JsonView::Text(id_chars(trace.trace_id@.0, trace.trace_id@.1))));
        },
        ObservationKind::AskOpened { from, dest, trace } => {
            assert(members[0] == ("causality_id"@, JsonView::Text(id_chars(trace.causality_id@.0, trace.causality_id@.1))));
            assert(members[1] == ("dest"@, JsonView::Text(address_chars(dest@))));
            assert(members[2] == ("from"@, JsonView::Text(from@)));
            assert(members[3] == ("kind"@, JsonView::Text("ask_opened"@)));
            assert(members[4] == ("trace_id"@, JsonView::Text(id_chars(trace.trace_id@.0, trace.trace_id@.1))));
        },
        ObservationKind::AskSettled { outcome, trace } => {
            assert(members[0] == ("causality_id"@, JsonView::Text(id_chars(trace.causality_id@.0, trace.causality_id@.1))));
            assert(members[1] == ("kind"@, JsonView::Text("ask_settled"@)));
            assert(members[2] == ("outcome"@, JsonView::Text(outcome_name(outcome))));
            assert(members[3] == ("trace_id"@, JsonView::Text(id_chars(trace.trace_id@.0, trace.trace_id@.1))));
        },
        ObservationKind::Spawned { path, kind, restart } => {
            assert(members[0] == ("actor_kind"@, JsonView::Text(kind_name(kind))));
            assert(members[1] == ("kind"@, JsonView::Text("spawned"@)));
            assert(members[2] == ("path"@, JsonView::Text(path@)));
            assert(members[3] == ("restart"@, JsonView::Bool(restart)));
        },
        ObservationKind::Stopped { path, reason } => {
            assert(members[0] == ("kind"@, JsonView::Text("stopped"@)));
            assert(members[1] == ("path"@, JsonView::Text(path@)));
            assert(members[2] == ("reason"@, JsonView::Text(stop_name(reason))));
        },
        ObservationKind::Failed { path, error } => {
            assert(members[0] == ("error"@, JsonView::Text(error@)));
            assert(members[1] == ("kind"@, JsonView::Text("failed"@)));
            assert(members[2] == ("path"@, JsonView::Text(path@)));
        },
        ObservationKind::SnapshotTaken { path, seq } => {
            assert(members[0] == ("kind"@, JsonView::Text("snapshot_taken"@)));
            assert(members[1] == ("path"@, JsonView::Text(path@)));
            assert(members[2] == ("seq"@, JsonView::Number(NumberView::PosInt(seq@))));
        },
        ObservationKind::Escalated { path, reason } => {
            assert(members[0] == ("kind"@, JsonView::Text("escalated"@)));
            assert(members[1] == ("path"@, JsonView::Text(path@)));
            assert(members[2] == ("reason"@, JsonView::Text(reason@)));
        },
        ObservationKind::LinkNotified { parent, child } => {
            assert(members[0] == ("child"@, JsonView::Text(child@)));
            assert(members[1] == ("kind"@, JsonView::Text("link_notified"@)));
            assert(members[2] == ("parent"@, JsonView::Text(parent@)));
        },
        ObservationKind::DeadLettered { dest, schema, reason, trace } => {
            assert(members[0] == ("causality_id"@, JsonView::Text(id_chars(trace.causality_id@.0, trace.causality_id@.1))));
            assert(members[1] == ("dest"@, JsonView::Text(address_chars(dest@))));
            assert(members[2] == ("kind"@, JsonView::Text("dead_lettered"@)));
            assert(members[3] == ("reason"@, JsonView::Text(dead_name(reason))));
            assert(members[4] == ("schema"@, JsonView::Text(schema@)));
            assert(members[5] == ("trace_id"@, JsonView::Text(id_chars(trace.trace_id@.0, trace.trace_id@.1))));
        },
        ObservationKind::Backpressured { path, depth } => {
            assert(members[0] == ("depth"@, JsonView::Number(NumberView::PosInt(depth))));
            assert(members[1] == ("kind"@, JsonView::Text("backpressured"@)));
            assert(members[2] == ("path"@, JsonView::Text(path@)));
        },
        ObservationKind::CaughtUp { path, seeded } => {
            assert(members[0] == ("kind"@, JsonView::Text("caught_up"@)));
            assert(members[1] == ("path"@, JsonView::Text(path@)));
            assert(members[2] == ("seeded"@, JsonView::Number(NumberView::PosInt(seeded))));
        },
    }
    assert(members[members.len() - 1] == ("ts"@, JsonView::Number(NumberView::PosInt(ts))));
}

/// Reasons for which a message dies are told apart by their names.
pub proof fn law_dead_letter_reasons_told_apart(one: DeadLetterReason, other: DeadLetterReason)
    requires
        dead_name(one) == dead_name(other),
    ensures
        one == other,
{
    reveal_strlit("Unresolvable");
    reveal_strlit("UnknownSchema");
    reveal_strlit("Decode");
    reveal_strlit("InboxRefused");
    reveal_strlit("StoppedWithMail");
    reveal_strlit("ShuttingDown");
    reveal_strlit("UndeclaredEvent");
    reveal_strlit("UndeclaredEmit");
    reveal_strlit("ShardKeyMissing");
    assert("Unresolvable"@[0] != "InboxRefused"@[0]);
    assert("Unresolvable"@[0] != "ShuttingDown"@[0]);
    assert("InboxRefused"@[0] != "ShuttingDown"@[0]);
    assert("StoppedWithMail"@[0] != "UndeclaredEvent"@[0]);
    assert("StoppedWithMail"@[1] != "ShardKeyMissing"@[1]);
    assert("UndeclaredEvent"@[0] != "ShardKeyMissing"@[0]);
    assert("Unresolvable"@.len() == 12);
    assert("UnknownSchema"@.len() == 13);
    assert("Decode"@.len() == 6);
    assert("InboxRefused"@.len() == 12);
    assert("StoppedWithMail"@.len() == 15);
    assert("ShuttingDown"@.len() == 12);
    assert("UndeclaredEvent"@.len() == 15);
    assert("UndeclaredEmit"@.len() == 14);
    assert("ShardKeyMissing"@.len() == 15);
}

/// Reasons for which an actor stops are told apart by their names.
pub proof fn law_stop_reasons_told_apart(one: StopReason, other: StopReason)
    requires
        stop_name(one) == stop_name(other),
    ensures
        one == other,
{
    reveal_strlit("Normal");
    reveal_strlit("Crashed");
    reveal_strlit("Escalated");
    reveal_strlit("Passivated");
    reveal_strlit("Shutdown");
    assert("Normal"@.len() == 6);
    assert("Crashed"@.len() == 7);
    assert("Escalated"@.len() == 9);
    assert("Passivated"@.len() == 10);
    assert("Shutdown"@.len() == 8);
}

/// Outcomes of an ask are told apart by their names.
pub proof fn law_outcomes_told_apart(one: AskOutcome, other: AskOutcome)
    requires
        outcome_name(one) == outcome_name(other),
    ensures
        one == other,
{
    reveal_strlit("Replied");
    reveal_strlit("Timeout");
    reveal_strlit("Failed");
    assert("Replied"@[0] != "Timeout"@[0]);
    assert("Replied"@.len() == 7);
    assert("Timeout"@.len() == 7);
    assert("Failed"@.len() == 6);
}

/// Kinds of actors are told apart by their names.
pub proof fn law_kinds_told_apart(one: ActorKind, other: ActorKind)
    requires
        kind_name(one) == kind_name(other),
    ensures
        one == other,
{
    reveal_strlit("EventSourced");
    reveal_strlit("Service");
    assert("EventSourced"@.len() == 12);
    assert("Service"@.len() == 7);
}

} // verus!
