//! Asks: who answers them, what is sent, and what the ledger records.

use vstd::prelude::*;

use crate::actor::ActorKind;
use crate::actor::ActorPath;
use crate::context::AskError;
use crate::envelope::address_chars;
use crate::envelope::Address;
use crate::envelope::Envelope;
use crate::envelope::Payload;
use crate::envelope::TraceCtx;
use crate::kernel::AskOutcome;
use crate::registry::Endpoint;
use crate::registry::Registry;
use crate::registry::RegistryView;
use crate::reply::LeaseId;
use crate::schema::SchemaId;

verus! {

/// One entry of the ask ledger.
pub struct AskFact {
    /// Whether this opened or settled an ask.
    pub opened: bool,
    /// The outcome, once settled.
    pub outcome: Option<AskOutcome>,
    /// The callee.
    pub dest: Address,
    /// The ask's trace.
    pub trace: TraceCtx,
}

/// Who answers an ask.
pub enum Callee {
    /// The endpoint that does.
    Answers(Endpoint),
    /// Nobody: an entity announces facts and does not answer.
    Entity,
    /// Nobody: the destination is no path, or nothing runs there.
    Nobody,
}

/// Who answers an ask.
pub open spec fn callee(registry: RegistryView, dest: Address) -> Callee {
    match dest {
        Address::Path(path) => if registry.slots.dom().contains(path@) && registry.slots[path@].manifest.kind == Some(
            ActorKind::EventSourced,
        ) {
            Callee::Entity
        } else {
            match registry.endpoint(path@) {
                Some(endpoint) => Callee::Answers(endpoint),
                None => Callee::Nobody,
            }
        },
        _ => Callee::Nobody,
    }
}

/// Finds who answers an ask, before any lease is opened: an ask that nobody can
/// answer fails at once.
pub fn resolve_ask(registry: &Registry, dest: &Address) -> (result: Result<Endpoint, AskError>)
    requires
        dest matches Address::Path(path) ==> registry@.kind_known(path@),
    ensures
        match callee(registry@, *dest) {
            Callee::Answers(endpoint) => result == Ok::<_, AskError>(endpoint),
            Callee::Entity => result is Err && result->Err_0->Unresolved_0@
                == "event-sourced actors do not answer asks — listen for the fact"@,
            Callee::Nobody => result is Err && result->Err_0->Unresolved_0@ == address_chars(dest@),
        },
{
    if let Address::Path(path) = dest {
        if let Some(info) = registry.lookup(path) {
            if info.kind == ActorKind::EventSourced {
                return Err(
                    AskError::Unresolved(
                        "event-sourced actors do not answer asks — listen for the fact".to_owned(),
                    ),
                );
            }
        }
        if let Some(endpoint) = registry.resolve(path) {
            return Ok(endpoint);
        }
    }
    Err(AskError::Unresolved(dest.to_string()))
}

/// The request of an ask, and the fact that it opened.
pub fn ask_request(
    schema: SchemaId,
    dest: &Address,
    payload: Payload,
    lease: LeaseId,
    opened: TraceCtx,
    trace: TraceCtx,
) -> (ask: (Envelope, AskFact))
    ensures
        ask.0 == (Envelope {
            schema,
            dest: *dest,
            from: None,
            reply_to: Some(Address::Slot(lease)),
            trace,
            payload,
            recorded_origin: None,
        }),
        ask.1 == (AskFact { opened: true, outcome: None, dest: *dest, trace: opened }),
{
    (
        Envelope::raw(schema, dest.clone(), payload, trace).reply_to(Address::Slot(lease)),
        AskFact { opened: true, outcome: None, dest: dest.clone(), trace: opened },
    )
}

/// The fact that an ask settled.
pub fn ask_settled(dest: &Address, outcome: AskOutcome, trace: TraceCtx) -> (fact: AskFact)
    ensures
        fact == (AskFact { opened: false, outcome: Some(outcome), dest: *dest, trace }),
{
    AskFact { opened: false, outcome: Some(outcome), dest: dest.clone(), trace }
}

/// An ask whose request never left settles as failed, and names its
/// destination.
pub fn ask_undelivered(dest: &Address, trace: TraceCtx) -> (failed: (AskFact, AskError))
    ensures
        failed.0 == (AskFact { opened: false, outcome: Some(AskOutcome::Failed), dest: *dest, trace }),
        failed.1->Unresolved_0@ == address_chars(dest@),
{
    (ask_settled(dest, AskOutcome::Failed, trace), AskError::Unresolved(dest.to_string()))
}

/// An event-sourced actor never answers an ask.
pub proof fn law_entities_do_not_answer(registry: RegistryView, dest: Address)
    requires
        dest is Path,
        registry.slots.dom().contains(dest->Path_0@),
        registry.slots[dest->Path_0@].manifest.kind == Some(ActorKind::EventSourced),
    ensures
        callee(registry, dest) is Entity,
{
}

/// Who answers an ask: whoever runs at the path it names, unless that is an
/// entity; nobody where nothing runs there, and nobody where it names no path.
pub proof fn law_who_answers(registry: RegistryView, path: ActorPath)
    ensures
        ({
            let known = registry.slots.dom().contains(path@);
            let entity = known && registry.slots[path@].manifest.kind == Some(ActorKind::EventSourced);
            &&& callee(registry, Address::Path(path)) is Entity <==> entity
            &&& callee(registry, Address::Path(path)) is Answers <==> known && !entity
                && registry.slots[path@].endpoint is Some
            &&& callee(registry, Address::Path(path)) matches Callee::Answers(endpoint) ==> registry.slots[path@].endpoint
                == Some(endpoint)
        }),
        forall|lease: LeaseId| #[trigger] callee(registry, Address::Slot(lease)) is Nobody,
        forall|schema: SchemaId| #[trigger] callee(registry, Address::Schema(schema)) is Nobody,
{
}

} // verus!
