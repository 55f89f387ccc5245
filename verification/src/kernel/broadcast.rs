//! Publishing: one copy to every handler of a schema, and one keyed copy to the
//! owning member of every projector set that consumes it.

use vstd::prelude::*;

use crate::actor::ActorPath;
use crate::envelope::Address;
use crate::envelope::Envelope;
use crate::kernel::dead_letter;
use crate::kernel::routing::extract_key;
use crate::kernel::routing::routing_key;
use crate::kernel::DeadLetter;
use crate::kernel::DeadLetterReason;
use crate::pool::derive_path;
use crate::pool::derived_path;
use crate::pool::ProjectorSetSpec;
use crate::registry::lists_public;
use crate::registry::owned;
use crate::registry::owns;
use crate::registry::paths_of;
use crate::registry::Endpoint;
use crate::registry::Registry;
use crate::registry::RegistryView;
use crate::schema::names_of;
use crate::schema::SchemaId;

verus! {

/// The plain targets among a list of handlers: those that are running and that
/// no projector set owns, in order.
pub open spec fn plain_targets(registry: RegistryView, handlers: Seq<Seq<char>>) -> Seq<(Seq<char>, Endpoint)>
    decreases handlers.len(),
{
    if handlers.len() == 0 {
        Seq::empty()
    } else {
        let before = plain_targets(registry, handlers.drop_last());
        let path = handlers.last();
        match registry.endpoint(path) {
            Some(endpoint) => if owned(registry.projector_sets, path) {
                before
            } else {
                before.push((path, endpoint))
            },
            None => before,
        }
    }
}

/// Delivery targets, as paths and endpoints.
pub open spec fn targets_view(targets: Seq<(ActorPath, Endpoint)>) -> Seq<(Seq<char>, Endpoint)> {
    targets.map_values(|target: (ActorPath, Endpoint)| (target.0@, target.1))
}

/// Whether a path is among the targets.
pub open spec fn is_target(targets: Seq<(Seq<char>, Endpoint)>, path: Seq<char>) -> bool {
    exists|i: int| 0 <= i < targets.len() && (#[trigger] targets[i]).0 == path
}

/// The running handlers of a schema that no projector set owns.
pub fn broadcast_targets(registry: &Registry, schema: &SchemaId) -> (targets: Vec<(ActorPath, Endpoint)>)
    requires
        registry.wf(),
    ensures
        targets_view(targets@) == plain_targets(registry@, registry@.handlers(schema@)),
{
    let handlers = registry.handlers_of(schema);
    let ghost names = paths_of(handlers@);
    let mut targets: Vec<(ActorPath, Endpoint)> = Vec::new();
    let mut i: usize = 0;
    assert(names.take(0) =~= Seq::empty());
    assert(targets_view(targets@) =~= Seq::empty());
    while i < handlers.len()
        invariant
            registry.wf(),
            names == paths_of(handlers@),
            i <= handlers.len(),
            targets_view(targets@) == plain_targets(registry@, names.take(i as int)),
        decreases handlers.len() - i,
    {
        let ghost upto = names.take(i + 1);
        let ghost before = targets@;
        assert(upto.drop_last() =~= names.take(i as int));
        assert(upto.last() == handlers@[i as int]@);
        if let Some(endpoint) = registry.resolve(&handlers[i]) {
            if registry.projector_set_owning(&handlers[i]).is_none() {
                targets.push((handlers[i].clone(), endpoint));
                assert(targets_view(targets@) =~= targets_view(before).push((handlers@[i as int]@, endpoint)));
            } else {
                assert(owned(registry@.projector_sets, handlers@[i as int]@));
            }
        }
        i += 1;
    }
    assert(names.take(i as int) =~= names);
    targets
}

/// What a consuming set gets of a broadcast.
pub enum SetCopy {
    /// A copy for the member of this path.
    Keyed(Seq<char>),
    /// Nothing: the fact came from a member, or the member is served already.
    Skipped,
    /// Nothing: the copy has no key, and is dead-lettered.
    Keyless,
}

/// What a consuming set gets of a broadcast. A copy never goes back to its own
/// source, nor out of any projector's journal into another's.
pub open spec fn set_copy(
    registry: RegistryView,
    set: ProjectorSetSpec,
    envelope: Envelope,
    targets: Seq<(Seq<char>, Endpoint)>,
) -> SetCopy {
    match routing_key(registry.schemas, envelope, set.key_field@) {
        None => SetCopy::Keyless,
        Some(key) => {
            let member = derived_path(set.public@, key);
            if envelope.from is Some && (envelope.from->0@ == member || owned(
                registry.projector_sets,
                envelope.from->0@,
            )) {
                SetCopy::Skipped
            } else if is_target(targets, member) {
                SetCopy::Skipped
            } else {
                SetCopy::Keyed(member)
            }
        },
    }
}

/// The member paths that keyed copies go to, in the order of the sets.
pub open spec fn keyed_paths(
    registry: RegistryView,
    sets: Seq<&ProjectorSetSpec>,
    envelope: Envelope,
    targets: Seq<(Seq<char>, Endpoint)>,
) -> Seq<Seq<char>>
    decreases sets.len(),
{
    if sets.len() == 0 {
        Seq::empty()
    } else {
        let before = keyed_paths(registry, sets.drop_last(), envelope, targets);
        match set_copy(registry, *sets.last(), envelope, targets) {
            SetCopy::Keyed(path) => before.push(path),
            _ => before,
        }
    }
}

/// How many sets get nothing for want of a key.
pub open spec fn keyless_count(
    registry: RegistryView,
    sets: Seq<&ProjectorSetSpec>,
    envelope: Envelope,
    targets: Seq<(Seq<char>, Endpoint)>,
) -> nat
    decreases sets.len(),
{
    if sets.len() == 0 {
        0
    } else {
        keyless_count(registry, sets.drop_last(), envelope, targets) + if set_copy(
            registry,
            *sets.last(),
            envelope,
            targets,
        ) is Keyless {
            1nat
        } else {
            0
        }
    }
}

/// Whether copies are the envelope, each readdressed to a path.
pub open spec fn readdressed(copies: Seq<Envelope>, envelope: Envelope, paths: Seq<Seq<char>>) -> bool {
    &&& copies.len() == paths.len()
    &&& forall|i: int|
        0 <= i < copies.len() ==> {
            &&& (#[trigger] copies[i]) == (Envelope { dest: copies[i].dest, ..envelope })
            &&& copies[i].dest is Path
            &&& copies[i].dest->Path_0@ == paths[i]
        }
}

/// Whether letters record one missing key each.
pub open spec fn keyless_letters(letters: Seq<DeadLetter>, envelope: Envelope, n: nat) -> bool {
    &&& letters.len() == n
    &&& forall|i: int|
        0 <= i < n ==> (#[trigger] letters[i]).records(
            envelope,
            DeadLetterReason::ShardKeyMissing,
            "broadcast fact for a projector set arrived without its key"@,
        )
}

/// Whether a path is among the targets.
fn serves(targets: &Vec<(ActorPath, Endpoint)>, path: &ActorPath) -> (r: bool)
    ensures
        r == is_target(targets_view(targets@), path@),
{
    let ghost view = targets_view(targets@);
    let mut i: usize = 0;
    while i < targets.len()
        invariant
            view == targets_view(targets@),
            i <= targets.len(),
            forall|j: int| 0 <= j < i ==> (#[trigger] view[j]).0 != path@,
        decreases targets.len() - i,
    {
        assert(view[i as int].0 == targets@[i as int].0@);
        if targets[i].0.same(path) {
            return true;
        }
        i += 1;
    }
    false
}

/// The keyed copies of a broadcast for a list of consuming sets.
pub fn keyed_copies(
    registry: &Registry,
    sets: &Vec<&ProjectorSetSpec>,
    envelope: &Envelope,
    targets: &Vec<(ActorPath, Endpoint)>,
) -> (keyed: (Vec<Envelope>, Vec<DeadLetter>))
    requires
        registry.wf(),
    ensures
        readdressed(keyed.0@, *envelope, keyed_paths(registry@, sets@, *envelope, targets_view(targets@))),
        keyless_letters(
            keyed.1@,
            *envelope,
            keyless_count(registry@, sets@, *envelope, targets_view(targets@)),
        ),
{
    let ghost view = targets_view(targets@);
    let mut copies: Vec<Envelope> = Vec::new();
    let mut letters: Vec<DeadLetter> = Vec::new();
    let from_member = match &envelope.from {
        Some(from) => registry.projector_set_owning(from).is_some(),
        None => false,
    };
    assert(from_member == (envelope.from is Some && owned(registry@.projector_sets, envelope.from->0@)));
    let mut i: usize = 0;
    assert(sets@.take(0) =~= Seq::empty());
    while i < sets.len()
        invariant
            registry.wf(),
            view == targets_view(targets@),
            from_member == (envelope.from is Some && owned(registry@.projector_sets, envelope.from->0@)),
            i <= sets.len(),
            readdressed(copies@, *envelope, keyed_paths(registry@, sets@.take(i as int), *envelope, view)),
            keyless_letters(
                letters@,
                *envelope,
                keyless_count(registry@, sets@.take(i as int), *envelope, view),
            ),
        decreases sets.len() - i,
    {
        let ghost upto = sets@.take(i + 1);
        let ghost (made, died) = (copies@, letters@);
        assert(upto.drop_last() =~= sets@.take(i as int));
        assert(upto.last() == sets@[i as int]);
        let set: &ProjectorSetSpec = sets[i];
        match extract_key(registry, envelope, set.key_field.as_str()) {
            None => {
                letters.push(
                    dead_letter(
                        envelope,
                        DeadLetterReason::ShardKeyMissing,
                        "broadcast fact for a projector set arrived without its key",
                    ),
                );
            },
            Some(key) => {
                let member = derive_path(&set.public, key.as_str());
                let own_fact = match &envelope.from {
                    Some(from) => from.same(&member),
                    None => false,
                };
                if !own_fact && !from_member && !serves(targets, &member) {
                    copies.push(Envelope { dest: Address::Path(member), ..envelope.clone() });
                }
            },
        }
        i += 1;
        proof {
            let paths = keyed_paths(registry@, upto, *envelope, view);
            assert forall|k: int| 0 <= k < copies@.len() implies {
                &&& (#[trigger] copies@[k]) == (Envelope { dest: copies@[k].dest, ..*envelope })
                &&& copies@[k].dest is Path
                &&& copies@[k].dest->Path_0@ == paths[k]
            } by {
                if k < made.len() {
                    assert(copies@[k] == made[k]);
                }
            }
            assert forall|k: int| 0 <= k < letters@.len() implies (#[trigger] letters@[k]).records(
                *envelope,
                DeadLetterReason::ShardKeyMissing,
                "broadcast fact for a projector set arrived without its key"@,
            ) by {
                if k < died.len() {
                    assert(letters@[k] == died[k]);
                }
            }
        }
    }
    assert(sets@.take(i as int) =~= sets@);
    (copies, letters)
}

/// What a broadcast comes to.
pub struct BroadcastPlan {
    /// The handlers that get the envelope, in registration order.
    pub targets: Vec<(ActorPath, Endpoint)>,
    /// The keyed copies to route; each activates its member on demand.
    pub keyed: Vec<Envelope>,
    /// The copies that died for want of a key.
    pub letters: Vec<DeadLetter>,
}

/// Whether a list holds each projector set that consumes a schema once, and no
/// other.
pub open spec fn consuming(registry: RegistryView, schema: Seq<char>, sets: Seq<&ProjectorSetSpec>) -> bool {
    &&& forall|i: int|
        0 <= i < sets.len() ==> registry.projector_sets.dom().contains((#[trigger] sets[i]).public@)
            && registry.projector_sets[sets[i].public@] == *sets[i] && names_of(sets[i].consumed@).contains(schema)
    &&& forall|i: int, j: int|
        0 <= i < j < sets.len() ==> (#[trigger] sets[i]).public@ != (#[trigger] sets[j]).public@
    &&& forall|public: Seq<char>| #[trigger]
        registry.projector_sets.dom().contains(public) && names_of(
            registry.projector_sets[public].consumed@,
        ).contains(schema) ==> lists_public(sets, public)
}

/// Whether a plan is that of a broadcast, for some order of the consuming sets.
pub open spec fn plans(registry: RegistryView, schema: Seq<char>, envelope: Envelope, plan: BroadcastPlan) -> bool {
    let targets = plain_targets(registry, registry.handlers(schema));
    &&& targets_view(plan.targets@) == targets
    &&& exists|sets: Seq<&ProjectorSetSpec>|
        {
            &&& #[trigger] consuming(registry, schema, sets)
            &&& readdressed(plan.keyed@, envelope, keyed_paths(registry, sets, envelope, targets))
            &&& keyless_letters(plan.letters@, envelope, keyless_count(registry, sets, envelope, targets))
        }
}

/// Plans the broadcast of an envelope under a schema. The route rotation is
/// left alone: publishing never disturbs one-of sends.
pub fn broadcast(registry: &Registry, schema: &SchemaId, envelope: &Envelope) -> (plan: BroadcastPlan)
    requires
        registry.wf(),
    ensures
        plans(registry@, schema@, *envelope, plan),
{
    let targets = broadcast_targets(registry, schema);
    let sets = registry.projector_sets_consuming(schema);
    let (keyed, letters) = keyed_copies(registry, &sets, envelope, &targets);
    assert(consuming(registry@, schema@, sets@));
    BroadcastPlan { targets, keyed, letters }
}

/// Records a keyed copy that did not resolve after its member was activated.
pub fn undelivered_copy(envelope: &Envelope) -> (letter: DeadLetter)
    ensures
        letter.records(
            *envelope,
            DeadLetterReason::Unresolvable,
            "projector copy did not resolve after activation"@,
        ),
{
    dead_letter(envelope, DeadLetterReason::Unresolvable, "projector copy did not resolve after activation")
}

/// A fact that a projector recorded is not folded by another: none of its
/// copies is keyed to a set's member.
pub proof fn law_no_echo(
    registry: RegistryView,
    sets: Seq<&ProjectorSetSpec>,
    envelope: Envelope,
    targets: Seq<(Seq<char>, Endpoint)>,
)
    requires
        envelope.from is Some,
        owned(registry.projector_sets, envelope.from->0@),
    ensures
        keyed_paths(registry, sets, envelope, targets).len() == 0,
    decreases sets.len(),
{
    if sets.len() > 0 {
        law_no_echo(registry, sets.drop_last(), envelope, targets);
    }
}

/// The plain copies of a broadcast never reach a projector-set member: a
/// member's only copies are the keyed ones.
pub proof fn law_members_get_keyed_copies_only(registry: RegistryView, handlers: Seq<Seq<char>>)
    ensures
        forall|i: int|
            0 <= i < plain_targets(registry, handlers).len() ==> !owned(
                registry.projector_sets,
                (#[trigger] plain_targets(registry, handlers)[i]).0,
            ),
    decreases handlers.len(),
{
    if handlers.len() > 0 {
        law_members_get_keyed_copies_only(registry, handlers.drop_last());
        let before = plain_targets(registry, handlers.drop_last());
        let after = plain_targets(registry, handlers);
        assert forall|i: int| 0 <= i < after.len() implies !owned(registry.projector_sets, (#[trigger] after[i]).0) by {
            if i < before.len() {
                assert(after[i] == before[i]);
            }
        }
    }
}

/// Every handler of a schema that runs and that no projector set derives is a
/// target, once for each registration and in registration order, and nobody
/// else is.
pub proof fn law_every_handler_is_a_target(registry: RegistryView, handlers: Seq<Seq<char>>)
    ensures
        plain_targets(registry, handlers) == handlers.filter_map(
            |path: Seq<char>|
                if !registry.slots.dom().contains(path) || registry.slots[path].endpoint is None || (
                exists|public: Seq<char>| #[trigger]
                    registry.projector_sets.dom().contains(public) && owns(public, path)) {
                    None
                } else {
                    Some((path, registry.slots[path].endpoint->0))
                },
        ),
        forall|i: int|
            #![trigger handlers[i]]
            0 <= i < handlers.len() && registry.slots.dom().contains(handlers[i])
                && registry.slots[handlers[i]].endpoint is Some && !owned(registry.projector_sets, handlers[i])
                ==> plain_targets(registry, handlers).contains(
                (handlers[i], registry.slots[handlers[i]].endpoint->0),
            ),
    decreases handlers.len(),
{
    if handlers.len() > 0 {
        let rest = handlers.drop_last();
        law_every_handler_is_a_target(registry, rest);
        let before = plain_targets(registry, rest);
        let after = plain_targets(registry, handlers);
        assert forall|i: int|
            #![trigger handlers[i]]
            0 <= i < handlers.len() && registry.slots.dom().contains(handlers[i])
                && registry.slots[handlers[i]].endpoint is Some && !owned(
                registry.projector_sets,
                handlers[i],
            ) implies after.contains((handlers[i], registry.slots[handlers[i]].endpoint->0)) by {
            let target = (handlers[i], registry.slots[handlers[i]].endpoint->0);
            if i < rest.len() {
                assert(rest[i] == handlers[i]);
                let k = choose|k: int| 0 <= k < before.len() && before[k] == target;
                assert(after[k] == target);
            } else {
                assert(after[after.len() - 1] == target);
            }
        }
    }
}

/// Who is told does not depend on who else is: the targets of two lists of
/// handlers, one after the other, are the targets of each.
pub proof fn law_targets_do_not_interfere(registry: RegistryView, some: Seq<Seq<char>>, more: Seq<Seq<char>>)
    ensures
        plain_targets(registry, some + more) == plain_targets(registry, some) + plain_targets(registry, more),
    decreases more.len(),
{
    if more.len() == 0 {
        assert(some + more =~= some);
        assert(plain_targets(registry, some) + plain_targets(registry, more) =~= plain_targets(registry, some));
    } else {
        law_targets_do_not_interfere(registry, some, more.drop_last());
        assert((some + more).drop_last() =~= some + more.drop_last());
        assert((some + more).last() == more.last());
        assert(plain_targets(registry, some + more) =~= plain_targets(registry, some) + plain_targets(
            registry,
            more,
        ));
    }
}

/// Every consuming set is served by its key: its member gets a copy unless the
/// fact came from that member or from any projector, or the member is a plain
/// target already; and each set whose key the fact lacks is recorded.
pub proof fn law_every_set_is_served(
    registry: RegistryView,
    sets: Seq<&ProjectorSetSpec>,
    envelope: Envelope,
    targets: Seq<(Seq<char>, Endpoint)>,
)
    ensures
        keyed_paths(registry, sets, envelope, targets) == sets.filter_map(
            |set: &ProjectorSetSpec|
                match routing_key(registry.schemas, envelope, set.key_field@) {
                    None => None::<Seq<char>>,
                    Some(key) => {
                        let member = set.public@ + seq!['/'] + key;
                        if envelope.from matches Some(from) && (from@ == member || owned(
                            registry.projector_sets,
                            from@,
                        )) {
                            None
                        } else if exists|i: int| 0 <= i < targets.len() && (#[trigger] targets[i]).0 == member {
                            None
                        } else {
                            Some(member)
                        }
                    },
                },
        ),
        keyless_count(registry, sets, envelope, targets) == sets.filter(
            |set: &ProjectorSetSpec| routing_key(registry.schemas, envelope, set.key_field@) is None,
        ).len(),
    decreases sets.len(),
{
    reveal(Seq::filter);
    if sets.len() > 0 {
        law_every_set_is_served(registry, sets.drop_last(), envelope, targets);
    }
}

/// A broadcast reaches everyone it is for. Each running handler outside the
/// sets is a target; each consuming set's member, by the fact's key, is a target
/// or gets a copy of its own, unless a projector recorded the fact; and without
/// the key the set's loss is recorded.
pub proof fn law_broadcast_reaches_everyone(
    registry: RegistryView,
    schema: Seq<char>,
    envelope: Envelope,
    plan: BroadcastPlan,
    public: Seq<char>,
)
    requires
        plans(registry, schema, envelope, plan),
        registry.projector_sets.dom().contains(public),
        registry.projector_sets[public].public@ == public,
        registry.projector_sets[public].consumed@.map_values(|id: SchemaId| id@).contains(schema),
    ensures
        match routing_key(registry.schemas, envelope, registry.projector_sets[public].key_field@) {
            None => plan.letters@.len() > 0 && plan.letters@[0].records(
                envelope,
                DeadLetterReason::ShardKeyMissing,
                "broadcast fact for a projector set arrived without its key"@,
            ),
            Some(key) => {
                let member = public + seq!['/'] + key;
                ||| envelope.from matches Some(from) && (from@ == member || owned(registry.projector_sets, from@))
                ||| exists|i: int| 0 <= i < plan.targets@.len() && (#[trigger] plan.targets@[i]).0@ == member
                ||| exists|i: int|
                    0 <= i < plan.keyed@.len() && (#[trigger] plan.keyed@[i]).dest is Path
                        && plan.keyed@[i].dest->Path_0@ == member && plan.keyed@[i].payload == envelope.payload
                        && plan.keyed@[i].schema == envelope.schema && plan.keyed@[i].trace == envelope.trace
            },
        },
{
    let targets = plain_targets(registry, registry.handlers(schema));
    let sets = choose|sets: Seq<&ProjectorSetSpec>|
        {
            &&& #[trigger] consuming(registry, schema, sets)
            &&& readdressed(plan.keyed@, envelope, keyed_paths(registry, sets, envelope, targets))
            &&& keyless_letters(plan.letters@, envelope, keyless_count(registry, sets, envelope, targets))
        };
    assert(names_of(registry.projector_sets[public].consumed@) =~= registry.projector_sets[public].consumed@.map_values(
        |id: SchemaId| id@,
    ));
    assert(lists_public(sets, public));
    let s = choose|s: int| 0 <= s < sets.len() && (#[trigger] sets[s]).public@ == public;
    assert(*sets[s] == registry.projector_sets[public]);
    lemma_set_is_served(registry, sets, envelope, targets, s);
    match set_copy(registry, *sets[s], envelope, targets) {
        SetCopy::Keyed(member) => {
            let paths = keyed_paths(registry, sets, envelope, targets);
            let i = choose|i: int| 0 <= i < paths.len() && paths[i] == member;
            assert(plan.keyed@[i].dest->Path_0@ == member);
        },
        SetCopy::Skipped => {
            let key = routing_key(registry.schemas, envelope, sets[s].key_field@)->0;
            let member = public + seq!['/'] + key;
            if is_target(targets, member) {
                let i = choose|i: int| 0 <= i < targets.len() && (#[trigger] targets[i]).0 == member;
                assert(targets_view(plan.targets@)[i].0 == plan.targets@[i].0@);
            }
        },
        SetCopy::Keyless => {},
    }
}

/// What one set gets is among what all get.
proof fn lemma_set_is_served(
    registry: RegistryView,
    sets: Seq<&ProjectorSetSpec>,
    envelope: Envelope,
    targets: Seq<(Seq<char>, Endpoint)>,
    s: int,
)
    requires
        0 <= s < sets.len(),
    ensures
        set_copy(registry, *sets[s], envelope, targets) matches SetCopy::Keyed(member) ==> keyed_paths(
            registry,
            sets,
            envelope,
            targets,
        ).contains(member),
        set_copy(registry, *sets[s], envelope, targets) is Keyless ==> keyless_count(
            registry,
            sets,
            envelope,
            targets,
        ) > 0,
    decreases sets.len(),
{
    let paths = keyed_paths(registry, sets, envelope, targets);
    if s < sets.len() - 1 {
        let rest = sets.drop_last();
        assert(rest[s] == sets[s]);
        lemma_set_is_served(registry, rest, envelope, targets, s);
        let before = keyed_paths(registry, rest, envelope, targets);
        if let SetCopy::Keyed(member) = set_copy(registry, *sets[s], envelope, targets) {
            let i = choose|i: int| 0 <= i < before.len() && before[i] == member;
            assert(paths[i] == member);
        }
    } else if let SetCopy::Keyed(member) = set_copy(registry, *sets[s], envelope, targets) {
        assert(paths[paths.len() - 1] == member);
    }
}

/// The plain targets of a broadcast are the schema's handlers, in registration
/// order and once each, less those that do not run and those that a projector
/// set derives.
pub proof fn law_broadcast_targets(registry: RegistryView, schema: Seq<char>, envelope: Envelope, plan: BroadcastPlan)
    requires
        plans(registry, schema, envelope, plan),
    ensures
        !registry.routes.dom().contains(schema) ==> plan.targets@.len() == 0,
        registry.routes.dom().contains(schema) ==> plan.targets@.map_values(
            |target: (ActorPath, Endpoint)| (target.0@, target.1),
        ) == registry.routes[schema].handlers.filter_map(
            |path: Seq<char>|
                if !registry.slots.dom().contains(path) || registry.slots[path].endpoint is None || (
                exists|public: Seq<char>| #[trigger]
                    registry.projector_sets.dom().contains(public) && owns(public, path)) {
                    None
                } else {
                    Some((path, registry.slots[path].endpoint->0))
                },
        ),
{
    law_every_handler_is_a_target(registry, registry.handlers(schema));
    assert(targets_view(plan.targets@).len() == plan.targets@.len());
}

} // verus!
