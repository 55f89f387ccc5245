//! Where an envelope goes.
//!
//! Routing alternates decisions with deliveries the host performs. A route is a
//! phase; each step looks at the registry and at how the last delivery ended,
//! and says what is to be done next.

use vstd::prelude::*;

use crate::actor::ActorPath;
use crate::clock::Timestamp;
use crate::envelope::Address;
use crate::envelope::CausalityId;
use crate::envelope::Envelope;
use crate::envelope::TraceCtx;
use crate::ids::minted;
use crate::ids::IdMint;
use crate::json::field_of;
use crate::json::Json;
use crate::json::JsonView;
use crate::kernel::dead_letter;
use crate::kernel::DeadLetter;
use crate::kernel::DeadLetterReason;
use crate::pool::derive_path;
use crate::pool::derived_path;
use crate::pool::entity_args_view;
use crate::pool::extract_shard_key;
use crate::pool::law_shard_key_not_empty;
use crate::pool::segment;
use crate::pool::shard_key;
use crate::pool::PartitionSpec;
use crate::pool::ProjectorSetSpec;
use crate::pool::Rule;
use crate::pool::RuleAction;
use crate::registry::law_one_owner;
use crate::registry::owned;
use crate::registry::owns;
use crate::registry::Endpoint;
use crate::registry::Registry;
use crate::registry::RegistryView;
use crate::schema::SchemaDef;
use crate::schema::SchemaId;

verus! {

/// Whether a rule applies to an envelope headed for a path: every criterion it
/// declares matches.
pub open spec fn rule_matches(rule: Rule, envelope: Envelope, dest: Seq<char>) -> bool {
    &&& rule.source matches Some(source) ==> envelope.from is Some && envelope.from->0@ == source@
    &&& rule.schema matches Some(schema) ==> envelope.schema@ == schema@
    &&& rule.dest matches Some(wanted) ==> wanted@ == dest
}

/// The action of the first rule that applies.
pub open spec fn first_match(rules: Seq<Rule>, envelope: Envelope, dest: Seq<char>) -> Option<RuleAction>
    decreases rules.len(),
{
    if rules.len() == 0 {
        None
    } else if rule_matches(rules[0], envelope, dest) {
        Some(rules[0].action)
    } else {
        first_match(rules.drop_first(), envelope, dest)
    }
}

/// Rules that do not apply do not decide.
proof fn lemma_match_skip(rules: Seq<Rule>, envelope: Envelope, dest: Seq<char>, i: int)
    requires
        0 <= i <= rules.len(),
        forall|j: int| 0 <= j < i ==> !rule_matches(#[trigger] rules[j], envelope, dest),
    ensures
        first_match(rules, envelope, dest) == first_match(rules.skip(i), envelope, dest),
    decreases i,
{
    if i == 0 {
        assert(rules.skip(0) =~= rules);
    } else {
        lemma_match_skip(rules, envelope, dest, i - 1);
        let tail = rules.skip(i - 1);
        assert(tail[0] == rules[i - 1]);
        assert(tail.drop_first() =~= rules.skip(i));
    }
}

/// Whether a rule applies to an envelope headed for a path.
fn applies(rule: &Rule, envelope: &Envelope, dest: &ActorPath) -> (r: bool)
    ensures
        r == rule_matches(*rule, *envelope, dest@),
{
    if let Some(source) = &rule.source {
        match &envelope.from {
            Some(from) => if !from.same(source) {
                return false;
            },
            None => return false,
        }
    }
    if let Some(schema) = &rule.schema {
        if !envelope.schema.same(schema) {
            return false;
        }
    }
    if let Some(wanted) = &rule.dest {
        if !wanted.same(dest) {
            return false;
        }
    }
    true
}

/// Where the first matching rule places an observer.
pub enum Placement {
    /// No rule applies.
    Direct,
    /// A copy goes to the observer; the primary delivery is untouched.
    Tee {
        /// The copy.
        copy: Envelope,
        /// The observer.
        observer: ActorPath,
    },
    /// The observer receives the envelope in the primary's place.
    Inline(ActorPath),
}

/// Whether a copy is the one a tee delivers: a fresh cause inside the
/// original's trace, sharing its payload.
pub open spec fn tee_copy(
    envelope: Envelope,
    observer: ActorPath,
    copy: Envelope,
    before: IdMint,
    now: u64,
    after: IdMint,
) -> bool {
    &&& copy == (Envelope {
        schema: envelope.schema,
        dest: Address::Path(observer),
        from: copy.from,
        reply_to: None,
        trace: copy.trace,
        payload: envelope.payload,
        recorded_origin: envelope.recorded_origin,
    })
    &&& match envelope.from {
        Some(from) => copy.from == Some(from),
        None => copy.from is Some && copy.from->0@ == "anonymous"@,
    }
    &&& copy.trace.trace_id == envelope.trace.trace_id
    &&& minted(before, now, after, copy.trace.causality_id@)
}

/// Applies the first matching rule: declaration order is priority order.
pub fn apply_rules(
    rules: &Vec<Rule>,
    envelope: &Envelope,
    dest: &ActorPath,
    mint: &mut IdMint,
    now: Timestamp,
) -> (placement: Placement)
    ensures
        match first_match(rules@, *envelope, dest@) {
            None => placement is Direct && *final(mint) == *old(mint),
            Some(RuleAction::Inline(path)) => placement == Placement::Inline(path) && *final(mint) == *old(mint),
            Some(RuleAction::Tee(path)) => {
                &&& placement is Tee
                &&& placement->observer == path
                &&& tee_copy(*envelope, path, placement->copy, *old(mint), now@, *final(mint))
            },
        },
{
    let mut i: usize = 0;
    while i < rules.len()
        invariant
            i <= rules.len(),
            *mint == *old(mint),
            forall|j: int| 0 <= j < i ==> !rule_matches(#[trigger] rules@[j], *envelope, dest@),
        decreases rules.len() - i,
    {
        let rule = &rules[i];
        if applies(rule, envelope, dest) {
            proof {
                lemma_match_skip(rules@, *envelope, dest@, i as int);
                assert(rules@.skip(i as int)[0] == rules@[i as int]);
            }
            match &rule.action {
                RuleAction::Tee(observer) => {
                    let trace = TraceCtx {
                        trace_id: envelope.trace.trace_id,
                        causality_id: CausalityId::new(mint, now),
                    };
                    let from = match &envelope.from {
                        Some(from) => from.clone(),
                        None => ActorPath::new("anonymous"),
                    };
                    let copy = Envelope::shared_from(
                        envelope.schema.clone(),
                        Address::Path(observer.clone()),
                        envelope,
                        trace,
                    ).from(from);
                    return Placement::Tee { copy, observer: observer.clone() };
                },
                RuleAction::Inline(observer) => {
                    return Placement::Inline(observer.clone());
                },
            }
        }
        i += 1;
    }
    proof {
        lemma_match_skip(rules@, *envelope, dest@, i as int);
        assert(rules@.skip(i as int) =~= Seq::empty());
    }
    Placement::Direct
}

/// The shard key of an envelope: what its payload answers for the field, or
/// else what the schema's descriptor makes of the payload's JSON view. A key is
/// a path segment and never empty.
pub open spec fn routing_key(
    schemas: Map<Seq<char>, SchemaDef>,
    envelope: Envelope,
    field: Seq<char>,
) -> Option<Seq<char>> {
    let form = envelope.payload@.field_form(field);
    let tree = envelope.payload@.tree();
    if form is Some && form->0.len() > 0 {
        form
    } else if schemas.dom().contains(envelope.schema@) {
        shard_key(schemas[envelope.schema@].fields@, field, tree)
    } else {
        match field_of(tree, field) {
            Some(JsonView::Text(key)) => segment(Some(key)),
            _ => None,
        }
    }
}

/// A key is never empty, whether or not the schema is registered: an envelope
/// without one activates nothing.
pub proof fn law_routing_key_not_empty(schemas: Map<Seq<char>, SchemaDef>, envelope: Envelope, field: Seq<char>)
    ensures
        routing_key(schemas, envelope, field) matches Some(key) ==> key.len() > 0,
{
    if schemas.dom().contains(envelope.schema@) {
        law_shard_key_not_empty(schemas[envelope.schema@].fields@, field, envelope.payload@.tree());
    }
}

/// Extracts the shard key of an envelope.
pub fn extract_key(registry: &Registry, envelope: &Envelope, field: &str) -> (key: Option<String>)
    ensures
        match key {
            Some(key) => routing_key(registry@.schemas, *envelope, field@) == Some(key@),
            None => routing_key(registry@.schemas, *envelope, field@) is None,
        },
{
    if let Some(key) = envelope.payload.field(field) {
        if !key.as_str().is_empty() {
            return Some(key);
        }
    }
    let payload = envelope.payload_json();
    match registry.schema(&envelope.schema) {
        Some(def) => extract_shard_key(def, field, payload.tree()),
        None => match payload.tree().get(field) {
            Some(value) => match value.as_str() {
                Some(key) => if key.is_empty() {
                    None
                } else {
                    Some(key.to_owned())
                },
                None => None,
            },
            None => None,
        },
    }
}

/// What routing reads of a set.
pub struct SetView {
    /// The set's public path.
    pub public: Seq<char>,
    /// The field carrying the shard key.
    pub key_field: Seq<char>,
    /// The genesis args template.
    pub template: Option<Json>,
    /// Whether the members are projectors.
    pub projectors: bool,
}

/// What routing reads of a partition set.
pub open spec fn partition_view(spec: PartitionSpec) -> SetView {
    SetView {
        public: spec.public@,
        key_field: spec.key_field@,
        template: spec.args_template,
        projectors: false,
    }
}

/// What routing reads of a projector set.
pub open spec fn projector_view(spec: ProjectorSetSpec) -> SetView {
    SetView {
        public: spec.public@,
        key_field: spec.key_field@,
        template: spec.args_template,
        projectors: true,
    }
}

/// The public path of the projector set that owns a path.
pub open spec fn owner(sets: Map<Seq<char>, ProjectorSetSpec>, path: Seq<char>) -> Seq<char> {
    choose|public: Seq<char>| #[trigger] sets.dom().contains(public) && owns(public, path)
}

/// The set a path is addressed through: a partition set's or a projector set's
/// public path, or a path that a projector set derives.
pub open spec fn set_of(registry: RegistryView, path: Seq<char>) -> Option<SetView> {
    if registry.partitions.dom().contains(path) {
        Some(partition_view(registry.partitions[path]))
    } else if registry.projector_sets.dom().contains(path) {
        Some(projector_view(registry.projector_sets[path]))
    } else if owned(registry.projector_sets, path) {
        Some(projector_view(registry.projector_sets[owner(registry.projector_sets, path)]))
    } else {
        None
    }
}

/// What a set-addressed path comes to.
pub enum ResolutionView {
    /// The path is not a set's.
    Plain,
    /// The member is registered.
    Live(Seq<char>),
    /// The member is to be activated.
    Activate {
        /// The member's path.
        path: Seq<char>,
        /// The set's public path.
        public: Seq<char>,
        /// The member's genesis args.
        args: JsonView,
        /// Whether the member is a projector.
        projectors: bool,
    },
    /// The key is missing, or nothing may be activated any more.
    Refused,
}

/// Resolves a path through the set it is addressed through. One key of one set
/// always gives one member path.
pub open spec fn resolved(
    registry: RegistryView,
    envelope: Envelope,
    path: Seq<char>,
    shutting_down: bool,
) -> ResolutionView {
    match set_of(registry, path) {
        None => ResolutionView::Plain,
        Some(set) => match routing_key(registry.schemas, envelope, set.key_field) {
            None => ResolutionView::Refused,
            Some(key) => {
                let member = derived_path(set.public, key);
                if registry.slots.dom().contains(member) {
                    ResolutionView::Live(member)
                } else if shutting_down {
                    ResolutionView::Refused
                } else {
                    ResolutionView::Activate {
                        path: member,
                        public: set.public,
                        args: entity_args_view(set.template, key),
                        projectors: set.projectors,
                    }
                }
            },
        },
    }
}

/// A member to be spawned through its set's factory.
pub struct Activation {
    /// The member's path.
    pub path: ActorPath,
    /// The set's public path.
    pub public: ActorPath,
    /// The member's genesis args.
    pub args: Json,
    /// Whether the member is a projector.
    pub projectors: bool,
}

/// What a set-addressed path comes to.
pub enum Resolution {
    /// The path is not a set's.
    Plain,
    /// The member is registered.
    Live(ActorPath),
    /// The member is to be activated.
    Activate(Activation),
    /// The key is missing, or nothing may be activated any more.
    Refused,
}

impl View for Resolution {
    type V = ResolutionView;

    open spec fn view(&self) -> ResolutionView {
        match *self {
            Resolution::Plain => ResolutionView::Plain,
            Resolution::Live(path) => ResolutionView::Live(path@),
            Resolution::Activate(activation) => ResolutionView::Activate {
                path: activation.path@,
                public: activation.public@,
                args: activation.args@,
                projectors: activation.projectors,
            },
            Resolution::Refused => ResolutionView::Refused,
        }
    }
}

/// Resolves a path through a partition set.
pub fn resolve_partition(
    registry: &Registry,
    envelope: &Envelope,
    path: &ActorPath,
    shutting_down: bool,
) -> (resolution: Resolution)
    requires
        registry.wf(),
    ensures
        resolution@ == resolved(registry@, *envelope, path@, shutting_down),
{
    match registry.partition(path) {
        Some(spec) => match extract_key(registry, envelope, spec.key_field.as_str()) {
            None => Resolution::Refused,
            Some(key) => {
                let member = derive_path(&spec.public, key.as_str());
                if registry.is_registered(&member) {
                    Resolution::Live(member)
                } else if shutting_down {
                    Resolution::Refused
                } else {
                    let args = spec.entity_args(key.as_str());
                    Resolution::Activate(
                        Activation { path: member, public: spec.public.clone(), args, projectors: false },
                    )
                }
            },
        },
        None => resolve_projector_set(registry, envelope, path, shutting_down),
    }
}

/// Resolves a path through a projector set, addressed by its public path or by
/// a path it derives.
pub fn resolve_projector_set(
    registry: &Registry,
    envelope: &Envelope,
    path: &ActorPath,
    shutting_down: bool,
) -> (resolution: Resolution)
    requires
        registry.wf(),
        !registry@.partitions.dom().contains(path@),
    ensures
        resolution@ == resolved(registry@, *envelope, path@, shutting_down),
{
    let spec = match registry.projector_set(path) {
        Some(spec) => spec,
        None => match registry.projector_set_owning(path) {
            Some(spec) => {
                proof {
                    let sets = registry@.projector_sets;
                    assert(sets.dom().contains(spec.public@) && owns(spec.public@, path@));
                    law_one_owner(owner(sets, path@), spec.public@, path@);
                }
                spec
            },
            None => return Resolution::Plain,
        },
    };
    match extract_key(registry, envelope, spec.key_field.as_str()) {
        None => Resolution::Refused,
        Some(key) => {
            let member = derive_path(&spec.public, key.as_str());
            if registry.is_registered(&member) {
                Resolution::Live(member)
            } else if shutting_down {
                Resolution::Refused
            } else {
                let args = spec.entity_args(key.as_str());
                Resolution::Activate(
                    Activation { path: member, public: spec.public.clone(), args, projectors: true },
                )
            }
        },
    }
}

/// What one route is after, once rules have placed it.
#[verifier::ext_equal]
pub struct LegView {
    /// The path the envelope is headed for.
    pub target: Seq<char>,
    /// Whether a rule put an interposer in the primary's place; an interposer
    /// is a destination of its own and is not looked up in the sets.
    pub interposed: bool,
}

/// How far a route has come.
pub enum PhaseView {
    /// Nothing is decided.
    Start,
    /// The copy for an observer is out.
    Placed(LegView),
    /// A member is being activated.
    Activating {
        /// What the route is after.
        leg: LegView,
        /// The member.
        path: Seq<char>,
        /// Whether the first delivery has failed already.
        again: bool,
    },
    /// The envelope is being pushed into an inbox.
    Pushing {
        /// What the route is after.
        leg: LegView,
        /// The destination.
        path: Seq<char>,
        /// The destination's endpoint.
        endpoint: Endpoint,
    },
    /// The envelope is at a front door.
    Delivering {
        /// What the route is after.
        leg: LegView,
        /// The destination.
        path: Seq<char>,
    },
    /// The envelope is at a front door for the last time.
    Retrying(Seq<char>),
    /// The envelope is at the front door of the handler a schema routed to.
    Handling(Seq<char>),
    /// The route has ended.
    Over,
}

/// What is to be done next.
pub enum ActionView {
    /// Deliver a copy to an observer; whether it arrives does not matter.
    Tee {
        /// The observer's endpoint.
        endpoint: Endpoint,
        /// The observer.
        observer: Seq<char>,
    },
    /// Spawn a set's member.
    Activate {
        /// The member's path.
        path: Seq<char>,
        /// The set's public path.
        public: Seq<char>,
        /// The member's genesis args.
        args: JsonView,
        /// Whether the member is a projector.
        projectors: bool,
    },
    /// Push the envelope into the endpoint's inbox.
    Push(Endpoint),
    /// Deliver the envelope through the endpoint's front door.
    Deliver(Endpoint),
    /// The envelope arrived.
    Arrived {
        /// Where it arrived.
        path: Seq<char>,
        /// Whether the send is observed.
        announce: bool,
    },
    /// The envelope is dead-lettered for want of its shard key; for the sender
    /// it is delivered.
    Keyless(Seq<char>),
    /// The envelope goes back to the sender.
    Refuse,
    /// The envelope is dead-lettered, and goes back to the sender: the system
    /// is shutting down.
    Shut,
}

/// Pushes to a path's endpoint, where it has one.
pub open spec fn push_to(registry: RegistryView, leg: LegView, path: Seq<char>) -> (PhaseView, ActionView) {
    match registry.endpoint(path) {
        Some(endpoint) => (PhaseView::Pushing { leg, path, endpoint }, ActionView::Push(endpoint)),
        None => (PhaseView::Over, ActionView::Refuse),
    }
}

/// Delivers to a path's front door for the last time, where it has one.
pub open spec fn redeliver(registry: RegistryView, path: Seq<char>) -> (PhaseView, ActionView) {
    match registry.endpoint(path) {
        Some(endpoint) => (PhaseView::Retrying(path), ActionView::Deliver(endpoint)),
        None => (PhaseView::Over, ActionView::Refuse),
    }
}

/// What a leg's target comes to.
pub open spec fn leg_resolved(
    registry: RegistryView,
    envelope: Envelope,
    leg: LegView,
    shutting_down: bool,
) -> ResolutionView {
    if leg.interposed {
        ResolutionView::Plain
    } else {
        resolved(registry, envelope, leg.target, shutting_down)
    }
}

/// Sets out for a leg's target.
pub open spec fn set_out(
    registry: RegistryView,
    envelope: Envelope,
    leg: LegView,
    shutting_down: bool,
) -> (PhaseView, ActionView) {
    match leg_resolved(registry, envelope, leg, shutting_down) {
        ResolutionView::Plain => push_to(registry, leg, leg.target),
        ResolutionView::Live(path) => push_to(registry, leg, path),
        ResolutionView::Activate { path, public, args, projectors } => (
            PhaseView::Activating { leg, path, again: false },
            ActionView::Activate { path, public, args, projectors },
        ),
        ResolutionView::Refused => (PhaseView::Over, ActionView::Keyless(leg.target)),
    }
}

/// Sets out once more after a closed door: a set's member may have gone away
/// and is activated again.
pub open spec fn set_out_again(
    registry: RegistryView,
    envelope: Envelope,
    leg: LegView,
    path: Seq<char>,
    shutting_down: bool,
) -> (PhaseView, ActionView) {
    match leg_resolved(registry, envelope, leg, shutting_down) {
        ResolutionView::Live(member) => redeliver(registry, member),
        ResolutionView::Activate { path: member, public, args, projectors } => (
            PhaseView::Activating { leg, path: member, again: true },
            ActionView::Activate { path: member, public, args, projectors },
        ),
        _ => redeliver(registry, path),
    }
}

/// Decides where an envelope sets out for.
pub open spec fn started(
    registry: RegistryView,
    envelope: Envelope,
    shutting_down: bool,
) -> (PhaseView, ActionView) {
    if shutting_down {
        (PhaseView::Over, ActionView::Shut)
    } else {
        match envelope.dest {
            Address::Slot(_) => (PhaseView::Over, ActionView::Refuse),
            Address::Schema(schema) => match registry.next_for(schema@) {
                None => (PhaseView::Over, ActionView::Refuse),
                Some(path) => match registry.endpoint(path) {
                    Some(endpoint) => (PhaseView::Handling(path), ActionView::Deliver(endpoint)),
                    None => (PhaseView::Over, ActionView::Refuse),
                },
            },
            Address::Path(path) => {
                let leg = LegView { target: path@, interposed: false };
                match first_match(registry.rules, envelope, path@) {
                    None => set_out(registry, envelope, leg, shutting_down),
                    Some(RuleAction::Inline(observer)) => set_out(
                        registry,
                        envelope,
                        LegView { target: observer@, interposed: true },
                        shutting_down,
                    ),
                    Some(RuleAction::Tee(observer)) => match registry.endpoint(observer@) {
                        Some(endpoint) => (
                            PhaseView::Placed(leg),
                            ActionView::Tee { endpoint, observer: observer@ },
                        ),
                        None => set_out(registry, envelope, leg, shutting_down),
                    },
                }
            },
        }
    }
}

/// The next phase of a route and what is to be done, given whether the last
/// delivery was accepted.
pub open spec fn routed_next(
    phase: PhaseView,
    accepted: bool,
    registry: RegistryView,
    envelope: Envelope,
    shutting_down: bool,
) -> (PhaseView, ActionView) {
    match phase {
        PhaseView::Start => started(registry, envelope, shutting_down),
        PhaseView::Placed(leg) => set_out(registry, envelope, leg, shutting_down),
        PhaseView::Activating { leg, path, again } => if again {
            redeliver(registry, path)
        } else {
            push_to(registry, leg, path)
        },
        PhaseView::Pushing { leg, path, endpoint } => if accepted {
            (PhaseView::Over, ActionView::Arrived { path, announce: true })
        } else {
            (PhaseView::Delivering { leg, path }, ActionView::Deliver(endpoint))
        },
        PhaseView::Delivering { leg, path } => if accepted {
            (PhaseView::Over, ActionView::Arrived { path, announce: true })
        } else {
            set_out_again(registry, envelope, leg, path, shutting_down)
        },
        PhaseView::Retrying(path) => if accepted {
            (PhaseView::Over, ActionView::Arrived { path, announce: false })
        } else {
            (PhaseView::Over, ActionView::Refuse)
        },
        PhaseView::Handling(path) => if accepted {
            (PhaseView::Over, ActionView::Arrived { path, announce: true })
        } else {
            (PhaseView::Over, ActionView::Refuse)
        },
        PhaseView::Over => (PhaseView::Over, ActionView::Refuse),
    }
}

/// What one route is after.
pub struct Leg {
    /// The path the envelope is headed for.
    pub target: ActorPath,
    /// Whether a rule put an interposer in the primary's place.
    pub interposed: bool,
}

impl View for Leg {
    type V = LegView;

    open spec fn view(&self) -> LegView {
        LegView { target: self.target@, interposed: self.interposed }
    }
}

/// How far a route has come.
pub enum RoutePhase {
    /// Nothing is decided.
    Start,
    /// The copy for an observer is out.
    Placed(Leg),
    /// A member is being activated.
    Activating {
        /// What the route is after.
        leg: Leg,
        /// The member.
        path: ActorPath,
        /// Whether the first delivery has failed already.
        again: bool,
    },
    /// The envelope is being pushed into an inbox.
    Pushing {
        /// What the route is after.
        leg: Leg,
        /// The destination.
        path: ActorPath,
        /// The destination's endpoint.
        endpoint: Endpoint,
    },
    /// The envelope is at a front door.
    Delivering {
        /// What the route is after.
        leg: Leg,
        /// The destination.
        path: ActorPath,
    },
    /// The envelope is at a front door for the last time.
    Retrying(ActorPath),
    /// The envelope is at the front door of the handler a schema routed to.
    Handling(ActorPath),
    /// The route has ended.
    Over,
}

impl View for RoutePhase {
    type V = PhaseView;

    open spec fn view(&self) -> PhaseView {
        match *self {
            RoutePhase::Start => PhaseView::Start,
            RoutePhase::Placed(leg) => PhaseView::Placed(leg@),
            RoutePhase::Activating { leg, path, again } => PhaseView::Activating { leg: leg@, path: path@, again },
            RoutePhase::Pushing { leg, path, endpoint } => PhaseView::Pushing { leg: leg@, path: path@, endpoint },
            RoutePhase::Delivering { leg, path } => PhaseView::Delivering { leg: leg@, path: path@ },
            RoutePhase::Retrying(path) => PhaseView::Retrying(path@),
            RoutePhase::Handling(path) => PhaseView::Handling(path@),
            RoutePhase::Over => PhaseView::Over,
        }
    }
}

/// What is to be done next.
pub enum RouteAction {
    /// Deliver a copy to an observer; whether it arrives does not matter.
    Tee {
        /// The observer's endpoint.
        endpoint: Endpoint,
        /// The observer.
        observer: ActorPath,
        /// The copy.
        copy: Envelope,
    },
    /// Spawn a set's member.
    Activate(Activation),
    /// Push the envelope into the endpoint's inbox.
    Push(Endpoint),
    /// Deliver the envelope through the endpoint's front door.
    Deliver(Endpoint),
    /// The envelope arrived.
    Arrived {
        /// Where it arrived.
        path: ActorPath,
        /// Whether the send is observed.
        announce: bool,
    },
    /// Dead-letter the envelope; for the sender it is delivered.
    Keyless {
        /// Where it was headed.
        path: ActorPath,
        /// The record.
        letter: DeadLetter,
    },
    /// Hand the envelope back to the sender.
    Refuse,
    /// Dead-letter the envelope and hand it back to the sender.
    Shut(DeadLetter),
}

impl View for RouteAction {
    type V = ActionView;

    open spec fn view(&self) -> ActionView {
        match *self {
            RouteAction::Tee { endpoint, observer, .. } => ActionView::Tee { endpoint, observer: observer@ },
            RouteAction::Activate(activation) => ActionView::Activate {
                path: activation.path@,
                public: activation.public@,
                args: activation.args@,
                projectors: activation.projectors,
            },
            RouteAction::Push(endpoint) => ActionView::Push(endpoint),
            RouteAction::Deliver(endpoint) => ActionView::Deliver(endpoint),
            RouteAction::Arrived { path, announce } => ActionView::Arrived { path: path@, announce },
            RouteAction::Keyless { path, .. } => ActionView::Keyless(path@),
            RouteAction::Refuse => ActionView::Refuse,
            RouteAction::Shut(_) => ActionView::Shut,
        }
    }
}

impl RouteAction {
    /// Whether a copy or a record that goes with an action is the one for an
    /// envelope.
    pub open spec fn fits(self, envelope: Envelope, before: IdMint, now: u64, after: IdMint) -> bool {
        match self {
            RouteAction::Tee { observer, copy, .. } => tee_copy(envelope, observer, copy, before, now, after),
            RouteAction::Keyless { letter, .. } => letter.records(
                envelope,
                DeadLetterReason::ShardKeyMissing,
                "partition command without its shard key"@,
            ),
            RouteAction::Shut(letter) => letter.records(
                envelope,
                DeadLetterReason::ShuttingDown,
                "graceful shutdown sweep in progress"@,
            ),
            _ => true,
        }
    }
}

/// Pushes to a path's endpoint, where it has one.
fn try_push(registry: &Registry, leg: Leg, path: ActorPath) -> (next: (RoutePhase, RouteAction))
    ensures
        (next.0@, next.1@) == push_to(registry@, leg@, path@),
        next.1 is Push || next.1 is Refuse,
{
    match registry.resolve(&path) {
        Some(endpoint) => (RoutePhase::Pushing { leg, path, endpoint }, RouteAction::Push(endpoint)),
        None => (RoutePhase::Over, RouteAction::Refuse),
    }
}

/// Delivers to a path's front door for the last time, where it has one.
fn try_redeliver(registry: &Registry, path: ActorPath) -> (next: (RoutePhase, RouteAction))
    ensures
        (next.0@, next.1@) == redeliver(registry@, path@),
        next.1 is Deliver || next.1 is Refuse,
{
    match registry.resolve(&path) {
        Some(endpoint) => (RoutePhase::Retrying(path), RouteAction::Deliver(endpoint)),
        None => (RoutePhase::Over, RouteAction::Refuse),
    }
}

/// What a leg's target comes to.
fn resolve_leg(registry: &Registry, envelope: &Envelope, leg: &Leg, shutting_down: bool) -> (resolution: Resolution)
    requires
        registry.wf(),
    ensures
        resolution@ == leg_resolved(registry@, *envelope, leg@, shutting_down),
{
    if leg.interposed {
        Resolution::Plain
    } else {
        resolve_partition(registry, envelope, &leg.target, shutting_down)
    }
}

/// Sets out for a leg's target.
fn begin_leg(registry: &Registry, envelope: &Envelope, leg: Leg, shutting_down: bool) -> (next: (
    RoutePhase,
    RouteAction,
))
    requires
        registry.wf(),
    ensures
        (next.0@, next.1@) == set_out(registry@, *envelope, leg@, shutting_down),
        forall|before: IdMint, now: u64, after: IdMint| #[trigger] next.1.fits(*envelope, before, now, after),
{
    match resolve_leg(registry, envelope, &leg, shutting_down) {
        Resolution::Plain => {
            let path = leg.target.clone();
            try_push(registry, leg, path)
        },
        Resolution::Live(path) => try_push(registry, leg, path),
        Resolution::Activate(activation) => (
            RoutePhase::Activating { leg, path: activation.path.clone(), again: false },
            RouteAction::Activate(activation),
        ),
        Resolution::Refused => {
            let letter = dead_letter(
                envelope,
                DeadLetterReason::ShardKeyMissing,
                "partition command without its shard key",
            );
            (RoutePhase::Over, RouteAction::Keyless { path: leg.target, letter })
        },
    }
}

/// Sets out once more after a closed door.
fn begin_leg_again(
    registry: &Registry,
    envelope: &Envelope,
    leg: Leg,
    path: ActorPath,
    shutting_down: bool,
) -> (next: (RoutePhase, RouteAction))
    requires
        registry.wf(),
    ensures
        (next.0@, next.1@) == set_out_again(registry@, *envelope, leg@, path@, shutting_down),
        next.1 is Deliver || next.1 is Refuse || next.1 is Activate,
{
    match resolve_leg(registry, envelope, &leg, shutting_down) {
        Resolution::Live(member) => try_redeliver(registry, member),
        Resolution::Activate(activation) => (
            RoutePhase::Activating { leg, path: activation.path.clone(), again: true },
            RouteAction::Activate(activation),
        ),
        _ => try_redeliver(registry, path),
    }
}

/// Whether a copy for an observer is made as an envelope sets out.
pub open spec fn copies_out(registry: RegistryView, envelope: Envelope, shutting_down: bool) -> bool {
    &&& !shutting_down
    &&& envelope.dest matches Address::Path(path)
    &&& first_match(registry.rules, envelope, path@) matches Some(RuleAction::Tee(_))
}

/// The mint once an envelope has set out: it minted the copy's cause, or
/// nothing.
pub open spec fn mint_after_start(copied: bool, before: IdMint, now: u64, after: IdMint) -> bool {
    if copied {
        exists|bits: (u64, u64)| #[trigger] minted(before, now, after, bits)
    } else {
        after == before
    }
}

/// Decides where an envelope sets out for.
fn start_route(
    registry: &mut Registry,
    envelope: &Envelope,
    shutting_down: bool,
    mint: &mut IdMint,
    now: Timestamp,
) -> (next: (RoutePhase, RouteAction))
    requires
        old(registry).wf(),
    ensures
        final(registry).wf(),
        (next.0@, next.1@) == started(old(registry)@, *envelope, shutting_down),
        next.1.fits(*envelope, *old(mint), now@, *final(mint)),
        mint_after_start(copies_out(old(registry)@, *envelope, shutting_down), *old(mint), now@, *final(mint)),
        final(registry)@ == after_start(old(registry)@, *envelope, shutting_down),
{
    if shutting_down {
        let letter = dead_letter(
            envelope,
            DeadLetterReason::ShuttingDown,
            "graceful shutdown sweep in progress",
        );
        return (RoutePhase::Over, RouteAction::Shut(letter));
    }
    match &envelope.dest {
        Address::Slot(_) => (RoutePhase::Over, RouteAction::Refuse),
        Address::Schema(schema) => match registry.route_resolved(schema) {
            (Some(path), Some(endpoint)) => (RoutePhase::Handling(path), RouteAction::Deliver(endpoint)),
            _ => (RoutePhase::Over, RouteAction::Refuse),
        },
        Address::Path(path) => match apply_rules(registry.rules(), envelope, path, mint, now) {
            Placement::Direct => begin_leg(
                registry,
                envelope,
                Leg { target: path.clone(), interposed: false },
                shutting_down,
            ),
            Placement::Inline(observer) => begin_leg(
                registry,
                envelope,
                Leg { target: observer, interposed: true },
                shutting_down,
            ),
            Placement::Tee { copy, observer } => {
                let leg = Leg { target: path.clone(), interposed: false };
                match registry.resolve(&observer) {
                    Some(endpoint) => (RoutePhase::Placed(leg), RouteAction::Tee { endpoint, observer, copy }),
                    None => begin_leg(registry, envelope, leg, shutting_down),
                }
            },
        },
    }
}

/// The registry once an envelope has set out: only a schema's rotation moves.
pub open spec fn after_start(registry: RegistryView, envelope: Envelope, shutting_down: bool) -> RegistryView {
    match envelope.dest {
        Address::Schema(schema) => if shutting_down {
            registry
        } else {
            RegistryView { cursor: registry.cursor_for(schema@), ..registry }
        },
        _ => registry,
    }
}

/// Takes a route one step further. `accepted` says how the delivery that was
/// last asked for ended.
pub fn route_step(
    phase: RoutePhase,
    accepted: bool,
    registry: &mut Registry,
    envelope: &Envelope,
    shutting_down: bool,
    mint: &mut IdMint,
    now: Timestamp,
) -> (next: (RoutePhase, RouteAction))
    requires
        old(registry).wf(),
    ensures
        final(registry).wf(),
        (next.0@, next.1@) == routed_next(phase@, accepted, old(registry)@, *envelope, shutting_down),
        next.1.fits(*envelope, *old(mint), now@, *final(mint)),
        mint_after_start(
            phase is Start && copies_out(old(registry)@, *envelope, shutting_down),
            *old(mint),
            now@,
            *final(mint),
        ),
        final(registry)@ == if phase is Start {
            after_start(old(registry)@, *envelope, shutting_down)
        } else {
            old(registry)@
        },
{
    match phase {
        RoutePhase::Start => start_route(registry, envelope, shutting_down, mint, now),
        RoutePhase::Placed(leg) => begin_leg(registry, envelope, leg, shutting_down),
        RoutePhase::Activating { leg, path, again } => if again {
            try_redeliver(registry, path)
        } else {
            try_push(registry, leg, path)
        },
        RoutePhase::Pushing { leg, path, endpoint } => if accepted {
            (RoutePhase::Over, RouteAction::Arrived { path, announce: true })
        } else {
            (RoutePhase::Delivering { leg, path }, RouteAction::Deliver(endpoint))
        },
        RoutePhase::Delivering { leg, path } => if accepted {
            (RoutePhase::Over, RouteAction::Arrived { path, announce: true })
        } else {
            begin_leg_again(registry, envelope, leg, path, shutting_down)
        },
        RoutePhase::Retrying(path) => if accepted {
            (RoutePhase::Over, RouteAction::Arrived { path, announce: false })
        } else {
            (RoutePhase::Over, RouteAction::Refuse)
        },
        RoutePhase::Handling(path) => if accepted {
            (RoutePhase::Over, RouteAction::Arrived { path, announce: true })
        } else {
            (RoutePhase::Over, RouteAction::Refuse)
        },
        RoutePhase::Over => (RoutePhase::Over, RouteAction::Refuse),
    }
}

/// The destination that a finished send is reported with: the schema it was
/// addressed to, or else the path where it arrived.
pub fn reported_dest(envelope: &Envelope, path: ActorPath) -> (dest: Address)
    ensures
        dest == match envelope.dest {
            Address::Schema(schema) => Address::Schema(schema),
            _ => Address::Path(path),
        },
{
    match &envelope.dest {
        Address::Schema(schema) => Address::Schema(schema.clone()),
        _ => Address::Path(path),
    }
}

/// How many steps a route may still take.
pub open spec fn steps_left(phase: PhaseView) -> nat {
    match phase {
        PhaseView::Start => 7,
        PhaseView::Placed(_) => 6,
        PhaseView::Activating { again, .. } => if again {
            2
        } else {
            5
        },
        PhaseView::Pushing { .. } => 4,
        PhaseView::Delivering { .. } => 3,
        PhaseView::Retrying(_) => 1,
        PhaseView::Handling(_) => 1,
        PhaseView::Over => 0,
    }
}

/// Every route ends: each step leaves fewer to take, however deliveries end and
/// whatever the registry holds by then.
pub proof fn law_routes_end(
    phase: PhaseView,
    accepted: bool,
    registry: RegistryView,
    envelope: Envelope,
    shutting_down: bool,
)
    requires
        phase !is Over,
    ensures
        steps_left(routed_next(phase, accepted, registry, envelope, shutting_down).0) < steps_left(phase),
{
}

/// A route that ends says so: where nothing is asked of the host any more, the
/// envelope arrived, was dead-lettered, or goes back to the sender.
pub proof fn law_no_silent_loss(
    phase: PhaseView,
    accepted: bool,
    registry: RegistryView,
    envelope: Envelope,
    shutting_down: bool,
)
    ensures
        routed_next(phase, accepted, registry, envelope, shutting_down).0 is Over <==> {
            let action = routed_next(phase, accepted, registry, envelope, shutting_down).1;
            action is Arrived || action is Keyless || action is Refuse || action is Shut
        },
{
}

/// Once the shutdown sweep runs, nothing sets out: the envelope is
/// dead-lettered and handed back.
pub proof fn law_barrier(registry: RegistryView, envelope: Envelope, accepted: bool)
    ensures
        routed_next(PhaseView::Start, accepted, registry, envelope, true) == (PhaseView::Over, ActionView::Shut),
{
}

/// Two envelopes with the same key reach the same member of a set.
pub proof fn law_same_key_same_member(
    registry: RegistryView,
    set: SetView,
    path: Seq<char>,
    a: Envelope,
    b: Envelope,
    shutting_down: bool,
)
    requires
        set_of(registry, path) == Some(set),
        routing_key(registry.schemas, a, set.key_field) == routing_key(registry.schemas, b, set.key_field),
    ensures
        resolved(registry, a, path, shutting_down) == resolved(registry, b, path, shutting_down),
{
}

/// A rule decides only about what it declares: where every rule declares a
/// sender, a schema or a destination that an envelope does not have, the
/// envelope's route is the one it takes where there are no rules, and no copy of
/// it is made.
pub proof fn law_foreign_rules_do_not_decide(
    registry: RegistryView,
    envelope: Envelope,
    dest: ActorPath,
    accepted: bool,
    shutting_down: bool,
)
    requires
        envelope.dest == Address::Path(dest),
        forall|i: int|
            0 <= i < registry.rules.len() ==> {
                let rule = #[trigger] registry.rules[i];
                ||| rule.source is Some && !(envelope.from is Some && envelope.from->0@ == rule.source->0@)
                ||| rule.schema is Some && rule.schema->0@ != envelope.schema@
                ||| rule.dest is Some && rule.dest->0@ != dest@
            },
    ensures
        routed_next(PhaseView::Start, accepted, registry, envelope, shutting_down) == routed_next(
            PhaseView::Start,
            accepted,
            RegistryView { rules: Seq::empty(), ..registry },
            envelope,
            shutting_down,
        ),
        !copies_out(registry, envelope, shutting_down),
{
    let rules = registry.rules;
    let without = RegistryView { rules: Seq::empty(), ..registry };
    assert forall|j: int| 0 <= j < rules.len() implies !rule_matches(#[trigger] rules[j], envelope, dest@) by {}
    lemma_match_skip(rules, envelope, dest@, rules.len() as int);
    assert(rules.skip(rules.len() as int) =~= Seq::empty());
    let leg = LegView { target: dest@, interposed: false };
    assert(set_out(registry, envelope, leg, shutting_down) == set_out(without, envelope, leg, shutting_down));
}

/// The first rule that declares nothing an envelope lacks decides: an
/// interposer gets the envelope in the primary's place and is no set's member;
/// an observer gets a copy, after which the envelope goes where it goes where
/// there are no rules; and an observer that does not run is passed over.
pub proof fn law_first_rule_decides(
    registry: RegistryView,
    envelope: Envelope,
    dest: ActorPath,
    k: int,
    accepted: bool,
    later: RegistryView,
)
    requires
        envelope.dest == Address::Path(dest),
        0 <= k < registry.rules.len(),
        forall|i: int|
            0 <= i < k ==> {
                let rule = #[trigger] registry.rules[i];
                ||| rule.source is Some && !(envelope.from is Some && envelope.from->0@ == rule.source->0@)
                ||| rule.schema is Some && rule.schema->0@ != envelope.schema@
                ||| rule.dest is Some && rule.dest->0@ != dest@
            },
        registry.rules[k].source matches Some(source) ==> envelope.from is Some && envelope.from->0@ == source@,
        registry.rules[k].schema matches Some(schema) ==> schema@ == envelope.schema@,
        registry.rules[k].dest matches Some(wanted) ==> wanted@ == dest@,
    ensures
        match registry.rules[k].action {
            RuleAction::Inline(observer) => if registry.slots.dom().contains(observer@)
                && registry.slots[observer@].endpoint is Some {
                routed_next(PhaseView::Start, accepted, registry, envelope, false) == (
                    PhaseView::Pushing {
                        leg: LegView { target: observer@, interposed: true },
                        path: observer@,
                        endpoint: registry.slots[observer@].endpoint->0,
                    },
                    ActionView::Push(registry.slots[observer@].endpoint->0),
                )
            } else {
                routed_next(PhaseView::Start, accepted, registry, envelope, false) == (
                    PhaseView::Over,
                    ActionView::Refuse,
                )
            },
            RuleAction::Tee(observer) => if registry.slots.dom().contains(observer@)
                && registry.slots[observer@].endpoint is Some {
                let (phase, action) = routed_next(PhaseView::Start, accepted, registry, envelope, false);
                &&& action == (ActionView::Tee {
                    endpoint: registry.slots[observer@].endpoint->0,
                    observer: observer@,
                })
                &&& copies_out(registry, envelope, false)
                &&& routed_next(phase, accepted, later, envelope, false) == routed_next(
                    PhaseView::Start,
                    accepted,
                    RegistryView { rules: Seq::empty(), ..later },
                    envelope,
                    false,
                )
            } else {
                routed_next(PhaseView::Start, accepted, registry, envelope, false) == routed_next(
                    PhaseView::Start,
                    accepted,
                    RegistryView { rules: Seq::empty(), ..registry },
                    envelope,
                    false,
                )
            },
        },
{
    let rules = registry.rules;
    assert forall|j: int| 0 <= j < k implies !rule_matches(#[trigger] rules[j], envelope, dest@) by {}
    lemma_match_skip(rules, envelope, dest@, k);
    assert(rules.skip(k)[0] == rules[k]);
    assert(first_match(rules, envelope, dest@) == Some(rules[k].action));
    let leg = LegView { target: dest@, interposed: false };
    let without = RegistryView { rules: Seq::empty(), ..registry };
    let later_without = RegistryView { rules: Seq::empty(), ..later };
    assert(set_out(registry, envelope, leg, false) == set_out(without, envelope, leg, false));
    assert(set_out(later, envelope, leg, false) == set_out(later_without, envelope, leg, false));
}

/// An envelope for a plain path goes to the actor at that path and to nobody
/// else: it is pushed to the actor's own endpoint, offered at its door where the
/// push is refused and once more after that, and goes back to the sender where
/// all of that is refused or nobody runs there.
pub proof fn law_plain_route_stays_on_its_path(registry: RegistryView, envelope: Envelope, dest: ActorPath)
    requires
        envelope.dest == Address::Path(dest),
        registry.rules.len() == 0,
        !registry.partitions.dom().contains(dest@),
        !registry.projector_sets.dom().contains(dest@),
        forall|public: Seq<char>| #[trigger] registry.projector_sets.dom().contains(public) ==> !owns(public, dest@),
    ensures
        match registry.endpoint(dest@) {
            None => routed_next(PhaseView::Start, false, registry, envelope, false) == (
                PhaseView::Over,
                ActionView::Refuse,
            ),
            Some(endpoint) => {
                let (first, push) = routed_next(PhaseView::Start, false, registry, envelope, false);
                let (second, offer) = routed_next(first, false, registry, envelope, false);
                let (third, again) = routed_next(second, false, registry, envelope, false);
                &&& push == ActionView::Push(endpoint)
                &&& offer == ActionView::Deliver(endpoint)
                &&& again == ActionView::Deliver(endpoint)
                &&& routed_next(first, true, registry, envelope, false).1 == (ActionView::Arrived {
                    path: dest@,
                    announce: true,
                })
                &&& routed_next(second, true, registry, envelope, false).1 == (ActionView::Arrived {
                    path: dest@,
                    announce: true,
                })
                &&& routed_next(third, true, registry, envelope, false).1 == (ActionView::Arrived {
                    path: dest@,
                    announce: false,
                })
                &&& routed_next(third, false, registry, envelope, false) == (PhaseView::Over, ActionView::Refuse)
            },
        },
{
}

/// An envelope for a set's public path goes to the member of its key: the one
/// that is registered, or else one that is activated with the key and then gets
/// the envelope; and without a key nobody gets it.
pub proof fn law_set_route_reaches_the_member(
    registry: RegistryView,
    envelope: Envelope,
    dest: ActorPath,
    activated: RegistryView,
)
    requires
        envelope.dest == Address::Path(dest),
        registry.rules.len() == 0,
        registry.partitions.dom().contains(dest@) || registry.projector_sets.dom().contains(dest@),
    ensures
        ({
            let is_partition = registry.partitions.dom().contains(dest@);
            let public = if is_partition {
                registry.partitions[dest@].public@
            } else {
                registry.projector_sets[dest@].public@
            };
            let field = if is_partition {
                registry.partitions[dest@].key_field@
            } else {
                registry.projector_sets[dest@].key_field@
            };
            let template = if is_partition {
                registry.partitions[dest@].args_template
            } else {
                registry.projector_sets[dest@].args_template
            };
            let (phase, action) = routed_next(PhaseView::Start, false, registry, envelope, false);
            match routing_key(registry.schemas, envelope, field) {
                None => action == ActionView::Keyless(dest@),
                Some(key) => {
                    let member = public + seq!['/'] + key;
                    if registry.slots.dom().contains(member) {
                        match registry.slots[member].endpoint {
                            Some(endpoint) => {
                                &&& action == ActionView::Push(endpoint)
                                &&& routed_next(phase, true, registry, envelope, false).1 == (ActionView::Arrived {
                                    path: member,
                                    announce: true,
                                })
                            },
                            None => action == ActionView::Refuse,
                        }
                    } else {
                        &&& action == (ActionView::Activate {
                            path: member,
                            public,
                            args: entity_args_view(template, key),
                            projectors: !is_partition,
                        })
                        &&& routed_next(phase, false, activated, envelope, false).1
                            == if activated.slots.dom().contains(member) && activated.slots[member].endpoint is Some {
                            ActionView::Push(activated.slots[member].endpoint->0)
                        } else {
                            ActionView::Refuse
                        }
                    }
                },
            }
        }),
{
}

/// An envelope for a schema goes to the handler whose turn it is, or to the
/// first that no projector set derives where one derives that handler; it is
/// offered once at the handler's door, and goes back to the sender where that is
/// refused or no handler runs.
pub proof fn law_schema_route_takes_turns(registry: RegistryView, envelope: Envelope, schema: SchemaId)
    requires
        envelope.dest == Address::Schema(schema),
        registry.routes.dom().contains(schema@),
        registry.routes[schema@].handlers.len() > 0,
    ensures
        ({
            let handlers = registry.routes[schema@].handlers;
            let turn = handlers[registry.cursor as int % handlers.len() as int];
            let (phase, action) = routed_next(PhaseView::Start, false, registry, envelope, false);
            !owned(registry.projector_sets, turn) ==> if registry.slots.dom().contains(turn)
                && registry.slots[turn].endpoint is Some {
                &&& action == ActionView::Deliver(registry.slots[turn].endpoint->0)
                &&& routed_next(phase, true, registry, envelope, false).1 == (ActionView::Arrived {
                    path: turn,
                    announce: true,
                })
                &&& routed_next(phase, false, registry, envelope, false).1 == ActionView::Refuse
            } else {
                action == ActionView::Refuse
            }
        }),
{
}

/// An envelope arrives only where a delivery of it was accepted, and a refused
/// delivery is never reported as an arrival.
pub proof fn law_arrivals_were_accepted(
    phase: PhaseView,
    accepted: bool,
    registry: RegistryView,
    envelope: Envelope,
    shutting_down: bool,
)
    ensures
        routed_next(phase, accepted, registry, envelope, shutting_down).1 matches ActionView::Arrived { path, .. }
            ==> accepted && match phase {
            PhaseView::Pushing { path: at, .. } => at == path,
            PhaseView::Delivering { path: at, .. } => at == path,
            PhaseView::Retrying(at) => at == path,
            PhaseView::Handling(at) => at == path,
            _ => false,
        },
{
}

/// An observer sees the message: its copy has the message's schema, payload,
/// fact-stamp and trace under a cause of its own, names the sender, is addressed
/// to the observer and asks for no reply.
pub proof fn law_observer_sees_the_message(
    envelope: Envelope,
    observer: ActorPath,
    copy: Envelope,
    before: IdMint,
    now: u64,
    after: IdMint,
)
    requires
        tee_copy(envelope, observer, copy, before, now, after),
    ensures
        copy.schema == envelope.schema,
        copy.payload == envelope.payload,
        copy.recorded_origin == envelope.recorded_origin,
        copy.dest == Address::Path(observer),
        copy.reply_to is None,
        copy.trace.trace_id == envelope.trace.trace_id,
        minted(before, now, after, copy.trace.causality_id@),
        envelope.from matches Some(from) ==> copy.from == Some(from),
        copy.from is Some,
{
}

/// A key is read off the payload: a payload that answers for the key field gives
/// its answer, and one that does not is read by the schema's descriptor, or, where
/// the schema is not registered, only where the field is a string. Two envelopes
/// of one schema and payload have one key.
pub proof fn law_key_is_read_off_the_payload(
    schemas: Map<Seq<char>, SchemaDef>,
    envelope: Envelope,
    other: Envelope,
    field: Seq<char>,
)
    ensures
        envelope.payload@.field_form(field) matches Some(form) ==> form.len() > 0 ==> routing_key(
            schemas,
            envelope,
            field,
        ) == Some(form),
        (envelope.payload@.field_form(field) is None || envelope.payload@.field_form(field)->0.len() == 0) ==> {
            &&& schemas.dom().contains(envelope.schema@) ==> routing_key(schemas, envelope, field) == shard_key(
                schemas[envelope.schema@].fields@,
                field,
                envelope.payload@.tree(),
            )
            &&& !schemas.dom().contains(envelope.schema@) ==> match field_of(envelope.payload@.tree(), field) {
                Some(JsonView::Text(key)) => routing_key(schemas, envelope, field) == if key.len() == 0 {
                    None
                } else {
                    Some(key)
                },
                _ => routing_key(schemas, envelope, field) is None,
            }
        },
        other.schema@ == envelope.schema@ && other.payload@ == envelope.payload@ ==> routing_key(schemas, other, field)
            == routing_key(schemas, envelope, field),
{
}

/// An envelope for a path that a projector set derives goes to the member that
/// the envelope's own key names, through that set.
pub proof fn law_derived_path_resolves_through_its_set(
    registry: RegistryView,
    envelope: Envelope,
    path: Seq<char>,
    public: Seq<char>,
)
    requires
        registry.projector_sets.dom().contains(public),
        owns(public, path),
        !registry.partitions.dom().contains(path),
        !registry.projector_sets.dom().contains(path),
    ensures
        ({
            let set = registry.projector_sets[public];
            match routing_key(registry.schemas, envelope, set.key_field@) {
                None => resolved(registry, envelope, path, false) is Refused,
                Some(key) => {
                    let member = set.public@ + seq!['/'] + key;
                    if registry.slots.dom().contains(member) {
                        resolved(registry, envelope, path, false) == ResolutionView::Live(member)
                    } else {
                        resolved(registry, envelope, path, false) == (ResolutionView::Activate {
                            path: member,
                            public: set.public@,
                            args: entity_args_view(set.args_template, key),
                            projectors: true,
                        })
                    }
                },
            }
        }),
{
    let found = owner(registry.projector_sets, path);
    assert(registry.projector_sets.dom().contains(found) && owns(found, path));
    law_one_owner(found, public, path);
}

/// Nothing is activated once the shutdown sweep runs, and nobody is reached who is
/// not registered already.
pub proof fn law_sweep_activates_nobody(registry: RegistryView, envelope: Envelope, path: Seq<char>)
    ensures
        !(resolved(registry, envelope, path, true) is Activate),
        resolved(registry, envelope, path, true) matches ResolutionView::Live(member) ==> registry.slots.dom().contains(
            member,
        ),
{
}

/// A refused delivery is tried once more, at whoever is there by then: the set's
/// member, activated again where it went away, or else the same path; an
/// interposer is not looked up in the sets. After that the envelope goes back.
pub proof fn law_second_try(
    registry: RegistryView,
    envelope: Envelope,
    leg: LegView,
    path: Seq<char>,
    later: RegistryView,
)
    ensures
        ({
            let (phase, action) = routed_next(
                PhaseView::Delivering { leg, path },
                false,
                registry,
                envelope,
                false,
            );
            let found = if leg.interposed {
                ResolutionView::Plain
            } else {
                resolved(registry, envelope, leg.target, false)
            };
            match found {
                ResolutionView::Activate { path: member, public, args, projectors } => {
                    &&& action == (ActionView::Activate { path: member, public, args, projectors })
                    &&& routed_next(phase, false, later, envelope, false).1
                        == if later.slots.dom().contains(member) && later.slots[member].endpoint is Some {
                        ActionView::Deliver(later.slots[member].endpoint->0)
                    } else {
                        ActionView::Refuse
                    }
                },
                _ => {
                    let at = if found is Live {
                        found->Live_0
                    } else {
                        path
                    };
                    if registry.slots.dom().contains(at) && registry.slots[at].endpoint is Some {
                        &&& action == ActionView::Deliver(registry.slots[at].endpoint->0)
                        &&& routed_next(phase, false, later, envelope, false).1 == ActionView::Refuse
                    } else {
                        action == ActionView::Refuse
                    }
                },
            }
        }),
{
}

/// Setting out changes nothing of the registry but the turn of the schema that is
/// sent to, and nothing at all for a path, for a slot and while the shutdown sweep
/// runs.
pub proof fn law_start_moves_only_the_turn(registry: RegistryView, envelope: Envelope, shutting_down: bool)
    ensures
        after_start(registry, envelope, shutting_down) == (RegistryView {
            cursor: after_start(registry, envelope, shutting_down).cursor,
            ..registry
        }),
        shutting_down || !(envelope.dest is Schema) ==> after_start(registry, envelope, shutting_down) == registry,
        !shutting_down && envelope.dest is Schema ==> after_start(registry, envelope, shutting_down).cursor
            == registry.cursor_for(envelope.dest->Schema_0@),
{
}

/// What a rule decides is the action of one of the rules.
proof fn lemma_match_is_listed(rules: Seq<Rule>, envelope: Envelope, dest: Seq<char>)
    ensures
        first_match(rules, envelope, dest) matches Some(action) ==> exists|k: int|
            0 <= k < rules.len() && (#[trigger] rules[k]).action == action,
    decreases rules.len(),
{
    if rules.len() > 0 && !rule_matches(rules[0], envelope, dest) {
        let rest = rules.drop_first();
        lemma_match_is_listed(rest, envelope, dest);
        if let Some(action) = first_match(rest, envelope, dest) {
            let k = choose|k: int| 0 <= k < rest.len() && (#[trigger] rest[k]).action == action;
            assert(rules[k + 1].action == action);
        }
    }
}

/// Setting out takes an id only where a rule has a message for a path copied out;
/// otherwise the mint stays as it is.
pub proof fn law_only_a_copy_takes_an_id(
    registry: RegistryView,
    envelope: Envelope,
    shutting_down: bool,
    before: IdMint,
    now: u64,
    after: IdMint,
)
    requires
        mint_after_start(copies_out(registry, envelope, shutting_down), before, now, after),
    ensures
        shutting_down || !(envelope.dest is Path) ==> after == before,
        registry.rules.len() == 0 ==> after == before,
        after != before ==> exists|k: int|
            0 <= k < registry.rules.len() && (#[trigger] registry.rules[k]).action is Tee,
{
    if copies_out(registry, envelope, shutting_down) {
        lemma_match_is_listed(registry.rules, envelope, envelope.dest->Path_0@);
    }
}

} // verus!
