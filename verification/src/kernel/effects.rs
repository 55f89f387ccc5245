//! Carrying out what handlers recorded: the emit gate, and what each effect
//! comes to.

use vstd::prelude::*;

use crate::context::Intent;
use crate::context::Outbox;
use crate::envelope::Address;
use crate::envelope::Envelope;
use crate::envelope::Payload;
use crate::envelope::TraceCtx;
use crate::kernel::dead_letter;
use crate::kernel::DeadLetter;
use crate::kernel::DeadLetterReason;
use crate::reply::LeaseId;
use crate::schema::lists;
use crate::schema::names_of;
use crate::schema::SchemaId;

verus! {

/// What the host does for one effect.
pub enum Effect {
    /// Route a message.
    Route(Envelope),
    /// Route a reply to a durable name.
    Answer(Envelope),
    /// Broadcast an envelope.
    Broadcast(Envelope),
    /// Hand a payload to the asker waiting on a reply slot; a slot that is gone
    /// drops it.
    Complete(LeaseId, Payload),
}

/// What a reply comes to: a slot is completed, anything else is routed as an
/// ordinary envelope.
pub open spec fn reply_effect(to: Address, schema: SchemaId, payload: Payload, trace: TraceCtx) -> Effect {
    match to {
        Address::Slot(lease) => Effect::Complete(lease, payload),
        _ => Effect::Answer(
            Envelope { schema, dest: to, from: None, reply_to: None, trace, payload, recorded_origin: None },
        ),
    }
}

/// Resolves one reply.
pub fn resolve_reply(to: Address, schema: SchemaId, payload: Payload, trace: TraceCtx) -> (effect: Effect)
    ensures
        effect == reply_effect(to, schema, payload, trace),
{
    match to {
        Address::Slot(lease) => Effect::Complete(lease, payload),
        other => Effect::Answer(Envelope::raw(schema, other, payload, trace)),
    }
}

/// Records a message that nobody took.
pub fn undelivered_send(envelope: &Envelope) -> (letter: DeadLetter)
    ensures
        letter.records(*envelope, DeadLetterReason::Unresolvable, "destination unresolved"@),
{
    dead_letter(envelope, DeadLetterReason::Unresolvable, "destination unresolved")
}

/// Records a reply that nobody took.
pub fn undelivered_reply(envelope: &Envelope) -> (letter: DeadLetter)
    ensures
        letter.records(*envelope, DeadLetterReason::Unresolvable, "reply destination unresolved"@),
{
    dead_letter(envelope, DeadLetterReason::Unresolvable, "reply destination unresolved")
}

/// What an intent comes to; a stop has no effect of its own.
pub open spec fn effect_of(intent: Intent) -> Option<Effect> {
    match intent {
        Intent::Send(envelope) => Some(Effect::Route(envelope)),
        Intent::Broadcast(envelope) => Some(Effect::Broadcast(envelope)),
        Intent::Reply { to, schema, payload, trace } => Some(reply_effect(to, schema, payload, trace)),
        Intent::StopSelf => None,
    }
}

/// Whether an intent passes the emit gate: it declares itself, or emits
/// nothing.
pub open spec fn passes(emits: Seq<Seq<char>>, intent: Intent) -> bool {
    match intent.emits() {
        Some(schema) => emits.contains(schema),
        None => true,
    }
}

/// The effects of a list of intents: those of the intents that pass the emit gate,
/// in order.
pub open spec fn effects(intents: Seq<Intent>, emits: Seq<Seq<char>>) -> Seq<Effect>
    decreases intents.len(),
{
    if intents.len() == 0 {
        Seq::empty()
    } else {
        let before = effects(intents.drop_last(), emits);
        let intent = intents.last();
        match effect_of(intent) {
            Some(effect) => if passes(emits, intent) {
                before.push(effect)
            } else {
                before
            },
            None => before,
        }
    }
}

/// The envelopes that died at the emit gate: the messages of the intents that do not
/// pass it, in order.
pub open spec fn gated_out(intents: Seq<Intent>, emits: Seq<Seq<char>>) -> Seq<Envelope>
    decreases intents.len(),
{
    if intents.len() == 0 {
        Seq::empty()
    } else {
        let before = gated_out(intents.drop_last(), emits);
        let intent = intents.last();
        if passes(emits, intent) {
            before
        } else {
            match intent {
                Intent::Send(envelope) => before.push(envelope),
                Intent::Broadcast(envelope) => before.push(envelope),
                Intent::Reply { to, schema, payload, trace } => before.push(
                    Envelope { schema, dest: to, from: None, reply_to: None, trace, payload, recorded_origin: None },
                ),
                Intent::StopSelf => before,
            }
        }
    }
}

/// Whether a stop was recorded.
pub open spec fn stops(intents: Seq<Intent>) -> bool {
    exists|i: int| 0 <= i < intents.len() && #[trigger] intents[i] is StopSelf
}

/// Whether letters record the envelopes that died at the emit gate.
pub open spec fn letters_of(letters: Seq<DeadLetter>, envelopes: Seq<Envelope>) -> bool {
    &&& letters.len() == envelopes.len()
    &&& forall|i: int|
        0 <= i < letters.len() ==> (#[trigger] letters[i]).records(
            envelopes[i],
            DeadLetterReason::UndeclaredEmit,
            "undeclared emit (add .emits::<M>() at the spawn site)"@,
        )
}

/// What one message's outbox comes to.
pub struct Flushed {
    /// The effects to carry out, in order.
    pub effects: Vec<Effect>,
    /// The undeclared messages that were dropped.
    pub letters: Vec<DeadLetter>,
    /// Whether the actor asked for its own stop.
    pub stops: bool,
}

/// Flushes one outbox through the emit gate: every outbound message declares
/// itself, and what does not is dead-lettered and never routed.
pub fn flush_outbox(outbox: Outbox, emits: &Vec<SchemaId>) -> (flushed: Flushed)
    ensures
        flushed.effects@ == effects(outbox@, names_of(emits@)),
        letters_of(flushed.letters@, gated_out(outbox@, names_of(emits@))),
        flushed.stops == stops(outbox@),
{
    let mut outbox = outbox;
    let intents = outbox.drain();
    let ghost names = names_of(emits@);
    let ghost all = intents@;
    let mut rest = intents;
    let mut out: Vec<Effect> = Vec::new();
    let mut letters: Vec<DeadLetter> = Vec::new();
    let mut stop = false;
    let n = rest.len();
    let mut i: usize = 0;
    assert(all.take(0) =~= Seq::empty());
    assert(all.skip(0) =~= all);
    while i < n
        invariant
            names == names_of(emits@),
            n == all.len(),
            i <= n,
            rest@ == all.skip(i as int),
            out@ == effects(all.take(i as int), names),
            letters_of(letters@, gated_out(all.take(i as int), names)),
            stop == stops(all.take(i as int)),
        decreases n - i,
    {
        let ghost upto = all.take(i + 1);
        let ghost seen = all.take(i as int);
        let ghost died = letters@;
        proof {
            assert(upto.drop_last() =~= seen);
            assert(upto.last() == all[i as int]);
            assert(rest@[0] == all[i as int]);
            if stops(seen) {
                let k = choose|k: int| 0 <= k < seen.len() && #[trigger] seen[k] is StopSelf;
                assert(upto[k] is StopSelf);
            }
            if stops(upto) {
                let k = choose|k: int| 0 <= k < upto.len() && #[trigger] upto[k] is StopSelf;
                if k < i {
                    assert(seen[k] is StopSelf);
                }
            }
        }
        let intent = rest.remove(0);
        let pass = match intent.emitted_schema() {
            Some(schema) => lists(emits, schema),
            None => true,
        };
        match intent {
            Intent::Send(envelope) => if pass {
                out.push(Effect::Route(envelope));
            } else {
                letters.push(undeclared(&envelope));
            },
            Intent::Broadcast(envelope) => if pass {
                out.push(Effect::Broadcast(envelope));
            } else {
                letters.push(undeclared(&envelope));
            },
            Intent::Reply { to, schema, payload, trace } => if pass {
                out.push(resolve_reply(to, schema, payload, trace));
            } else {
                letters.push(undeclared(&Envelope::raw(schema, to, payload, trace)));
            },
            Intent::StopSelf => {
                assert(upto[i as int] is StopSelf);
                stop = true;
            },
        }
        i += 1;
        proof {
            assert(rest@ =~= all.skip(i as int));
            let envelopes = gated_out(upto, names);
            assert forall|k: int| 0 <= k < letters@.len() implies (#[trigger] letters@[k]).records(
                envelopes[k],
                DeadLetterReason::UndeclaredEmit,
                "undeclared emit (add .emits::<M>() at the spawn site)"@,
            ) by {
                if k < died.len() {
                    assert(letters@[k] == died[k]);
                }
            }
        }
    }
    assert(all.take(i as int) =~= all);
    Flushed { effects: out, letters, stops: stop }
}

/// Dead-letters one message that did not pass the emit gate.
fn undeclared(envelope: &Envelope) -> (letter: DeadLetter)
    ensures
        letter.records(
            *envelope,
            DeadLetterReason::UndeclaredEmit,
            "undeclared emit (add .emits::<M>() at the spawn site)"@,
        ),
{
    dead_letter(
        envelope,
        DeadLetterReason::UndeclaredEmit,
        "undeclared emit (add .emits::<M>() at the spawn site)",
    )
}

/// Nothing undeclared leaves an actor: every routed or broadcast effect is of a
/// declared schema.
pub proof fn law_only_declared_leaves(intents: Seq<Intent>, emits: Seq<Seq<char>>)
    ensures
        forall|i: int|
            0 <= i < effects(intents, emits).len() ==> match #[trigger] effects(intents, emits)[i] {
                Effect::Route(envelope) => emits.contains(envelope.schema@),
                Effect::Answer(envelope) => emits.contains(envelope.schema@),
                Effect::Broadcast(envelope) => emits.contains(envelope.schema@),
                Effect::Complete(..) => true,
            },
    decreases intents.len(),
{
    if intents.len() > 0 {
        law_only_declared_leaves(intents.drop_last(), emits);
        let before = effects(intents.drop_last(), emits);
        assert forall|i: int| 0 <= i < effects(intents, emits).len() implies match #[trigger] effects(
            intents,
            emits,
        )[i] {
            Effect::Route(envelope) => emits.contains(envelope.schema@),
            Effect::Answer(envelope) => emits.contains(envelope.schema@),
            Effect::Broadcast(envelope) => emits.contains(envelope.schema@),
            Effect::Complete(..) => true,
        } by {
            if i < before.len() {
                assert(effects(intents, emits)[i] == before[i]);
            }
        }
    }
}

/// Every recorded message is carried out or dead-lettered, and none both.
pub proof fn law_no_effect_vanishes(intents: Seq<Intent>, emits: Seq<Seq<char>>)
    ensures
        effects(intents, emits).len() + gated_out(intents, emits).len() == messages(intents),
    decreases intents.len(),
{
    if intents.len() > 0 {
        law_no_effect_vanishes(intents.drop_last(), emits);
    }
}

/// How many recorded intents are messages.
pub open spec fn messages(intents: Seq<Intent>) -> nat
    decreases intents.len(),
{
    if intents.len() == 0 {
        0
    } else {
        messages(intents.drop_last()) + if intents.last() is StopSelf {
            0nat
        } else {
            1
        }
    }
}

/// How many outboxes of a batch are flushed: those up to the first that asks
/// for the actor's stop.
pub open spec fn flushed_count(outboxes: Seq<Outbox>) -> nat
    decreases outboxes.len(),
{
    if outboxes.len() == 0 {
        0
    } else if stops(outboxes[0]@) {
        1
    } else {
        1 + flushed_count(outboxes.drop_first())
    }
}

/// The effects of a batch's outboxes, one message after the other.
pub open spec fn batch_effects(outboxes: Seq<Outbox>, emits: Seq<Seq<char>>) -> Seq<Effect>
    decreases outboxes.len(),
{
    if outboxes.len() == 0 {
        Seq::empty()
    } else {
        batch_effects(outboxes.drop_last(), emits) + effects(outboxes.last()@, emits)
    }
}

/// The messages of a batch's outboxes that died at the emit gate.
pub open spec fn batch_gated_out(outboxes: Seq<Outbox>, emits: Seq<Seq<char>>) -> Seq<Envelope>
    decreases outboxes.len(),
{
    if outboxes.len() == 0 {
        Seq::empty()
    } else {
        batch_gated_out(outboxes.drop_last(), emits) + gated_out(outboxes.last()@, emits)
    }
}

/// Whether some message of a batch asked for the actor's stop.
pub open spec fn batch_stops(outboxes: Seq<Outbox>) -> bool {
    exists|i: int| 0 <= i < outboxes.len() && stops((#[trigger] outboxes[i])@)
}

/// Outboxes that ask for no stop do not end the flush.
proof fn lemma_flushed_skip(outboxes: Seq<Outbox>, i: int)
    requires
        0 <= i <= outboxes.len(),
        forall|j: int| 0 <= j < i ==> !stops((#[trigger] outboxes[j])@),
    ensures
        flushed_count(outboxes) == i + flushed_count(outboxes.skip(i)),
    decreases i,
{
    if i == 0 {
        assert(outboxes.skip(0) =~= outboxes);
    } else {
        lemma_flushed_skip(outboxes, i - 1);
        let tail = outboxes.skip(i - 1);
        assert(tail[0] == outboxes[i - 1]);
        assert(tail.drop_first() =~= outboxes.skip(i));
    }
}

/// Whether a flush of a batch's outboxes came to this.
pub open spec fn flushes(flushed: Flushed, outboxes: Seq<Outbox>, emits: Seq<Seq<char>>) -> bool {
    let done = outboxes.take(flushed_count(outboxes) as int);
    &&& flushed.effects@ == batch_effects(done, emits)
    &&& letters_of(flushed.letters@, batch_gated_out(done, emits))
    &&& flushed.stops == batch_stops(outboxes)
}

/// Flushes a batch's outboxes in message order. A stop ends the flush once the
/// outbox that recorded it is flushed.
pub fn flush_batch(outboxes: Vec<Outbox>, emits: &Vec<SchemaId>) -> (flushed: Flushed)
    ensures
        flushes(flushed, outboxes@, names_of(emits@)),
{
    let ghost names = names_of(emits@);
    let ghost all = outboxes@;
    let mut rest = outboxes;
    let n = rest.len();
    let mut out: Vec<Effect> = Vec::new();
    let mut letters: Vec<DeadLetter> = Vec::new();
    let mut stop = false;
    let mut i: usize = 0;
    assert(all.take(0) =~= Seq::empty());
    assert(all.skip(0) =~= all);
    while i < n && !stop
        invariant
            names == names_of(emits@),
            n == all.len(),
            i <= n,
            rest@ == all.skip(i as int),
            out@ == batch_effects(all.take(i as int), names),
            letters_of(letters@, batch_gated_out(all.take(i as int), names)),
            stop ==> i > 0 && stops(all[i - 1]@) && flushed_count(all) == i,
            !stop ==> forall|j: int| 0 <= j < i ==> !stops((#[trigger] all[j])@),
        decreases n - i,
    {
        let ghost upto = all.take(i + 1);
        let ghost died = letters@;
        let ghost done = out@;
        assert(upto.drop_last() =~= all.take(i as int));
        assert(upto.last() == all[i as int]);
        assert(rest@[0] == all[i as int]);
        let outbox = rest.remove(0);
        let flushed = flush_outbox(outbox, emits);
        let mut effects = flushed.effects;
        let mut gated = flushed.letters;
        let ghost gone = gated@;
        out.append(&mut effects);
        letters.append(&mut gated);
        stop = flushed.stops;
        proof {
            lemma_flushed_skip(all, i as int);
            assert(all.skip(i as int)[0] == all[i as int]);
            assert(letters@ == died + gone);
            let before = batch_gated_out(all.take(i as int), names);
            let now = batch_gated_out(upto, names);
            assert forall|k: int| 0 <= k < letters@.len() implies (#[trigger] letters@[k]).records(
                now[k],
                DeadLetterReason::UndeclaredEmit,
                "undeclared emit (add .emits::<M>() at the spawn site)"@,
            ) by {
                if k < died.len() {
                    assert(letters@[k] == died[k]);
                    assert(now[k] == before[k]);
                } else {
                    assert(letters@[k] == gone[k - died.len()]);
                    assert(now[k] == gated_out(all[i as int]@, names)[k - died.len()]);
                }
            }
        }
        i += 1;
        assert(rest@ =~= all.skip(i as int));
    }
    proof {
        if !stop {
            lemma_flushed_skip(all, i as int);
            assert(all.skip(i as int) =~= Seq::empty());
        } else {
            assert(stops(all[i - 1]@));
        }
    }
    Flushed { effects: out, letters, stops: stop }
}

/// What comes of an outbox, intent by intent and in order: a message of a
/// declared schema is routed, broadcast, answered or handed to its asker just as
/// it was recorded, and nothing else happens.
pub proof fn law_each_intent_is_carried_out(intents: Seq<Intent>, emits: Seq<Seq<char>>)
    ensures
        effects(intents, emits) == intents.filter_map(
            |intent: Intent|
                match intent {
                    Intent::Send(envelope) => if emits.contains(envelope.schema@) {
                        Some(Effect::Route(envelope))
                    } else {
                        None
                    },
                    Intent::Broadcast(envelope) => if emits.contains(envelope.schema@) {
                        Some(Effect::Broadcast(envelope))
                    } else {
                        None
                    },
                    Intent::Reply { to, schema, payload, trace } => if !emits.contains(schema@) {
                        None
                    } else if to is Slot {
                        Some(Effect::Complete(to->Slot_0, payload))
                    } else {
                        Some(
                            Effect::Answer(
                                Envelope {
                                    schema,
                                    dest: to,
                                    from: None,
                                    reply_to: None,
                                    trace,
                                    payload,
                                    recorded_origin: None,
                                },
                            ),
                        )
                    },
                    Intent::StopSelf => None,
                },
        ),
    decreases intents.len(),
{
    if intents.len() > 0 {
        law_each_intent_is_carried_out(intents.drop_last(), emits);
    }
}

/// What dies of an outbox, intent by intent and in order: every message whose
/// schema is not declared, as it was recorded, and nothing else.
pub proof fn law_each_undeclared_message_dies(intents: Seq<Intent>, emits: Seq<Seq<char>>)
    ensures
        gated_out(intents, emits) == intents.filter_map(
            |intent: Intent|
                match intent {
                    Intent::Send(envelope) => if emits.contains(envelope.schema@) {
                        None
                    } else {
                        Some(envelope)
                    },
                    Intent::Broadcast(envelope) => if emits.contains(envelope.schema@) {
                        None
                    } else {
                        Some(envelope)
                    },
                    Intent::Reply { to, schema, payload, trace } => if emits.contains(schema@) {
                        None
                    } else {
                        Some(
                            Envelope {
                                schema,
                                dest: to,
                                from: None,
                                reply_to: None,
                                trace,
                                payload,
                                recorded_origin: None,
                            },
                        )
                    },
                    Intent::StopSelf => None,
                },
        ),
    decreases intents.len(),
{
    if intents.len() > 0 {
        law_each_undeclared_message_dies(intents.drop_last(), emits);
    }
}

/// The messages of an outbox are carried out or dead-lettered, each once.
pub proof fn law_messages_settle(intents: Seq<Intent>, emits: Seq<Seq<char>>)
    ensures
        effects(intents, emits).len() + gated_out(intents, emits).len() == intents.filter(
            |intent: Intent| intent !is StopSelf,
        ).len(),
    decreases intents.len(),
{
    reveal(Seq::filter);
    if intents.len() > 0 {
        law_messages_settle(intents.drop_last(), emits);
    }
}

/// The effects and letters of outboxes are those of each in turn.
proof fn lemma_batch_settles(outboxes: Seq<Outbox>, emits: Seq<Seq<char>>)
    ensures
        batch_effects(outboxes, emits) == outboxes.map_values(|outbox: Outbox| effects(outbox@, emits)).flatten(),
        batch_gated_out(outboxes, emits) == outboxes.map_values(
            |outbox: Outbox| gated_out(outbox@, emits),
        ).flatten(),
        batch_effects(outboxes, emits).len() + batch_gated_out(outboxes, emits).len() == outboxes.map_values(
            |outbox: Outbox| outbox@,
        ).flatten().filter(|intent: Intent| intent !is StopSelf).len(),
    decreases outboxes.len(),
{
    let carried = outboxes.map_values(|outbox: Outbox| effects(outbox@, emits));
    let died = outboxes.map_values(|outbox: Outbox| gated_out(outbox@, emits));
    let recorded = outboxes.map_values(|outbox: Outbox| outbox@);
    carried.lemma_flatten_and_flatten_alt_are_equivalent();
    died.lemma_flatten_and_flatten_alt_are_equivalent();
    recorded.lemma_flatten_and_flatten_alt_are_equivalent();
    if outboxes.len() > 0 {
        let rest = outboxes.drop_last();
        let last = outboxes.last()@;
        lemma_batch_settles(rest, emits);
        law_messages_settle(last, emits);
        let before = rest.map_values(|outbox: Outbox| outbox@);
        before.lemma_flatten_and_flatten_alt_are_equivalent();
        rest.map_values(
            |outbox: Outbox| effects(outbox@, emits),
        ).lemma_flatten_and_flatten_alt_are_equivalent();
        rest.map_values(
            |outbox: Outbox| gated_out(outbox@, emits),
        ).lemma_flatten_and_flatten_alt_are_equivalent();
        assert(carried.drop_last() =~= rest.map_values(|outbox: Outbox| effects(outbox@, emits)));
        assert(died.drop_last() =~= rest.map_values(|outbox: Outbox| gated_out(outbox@, emits)));
        assert(recorded.drop_last() =~= before);
        Seq::filter_distributes_over_add(before.flatten(), last, |intent: Intent| intent !is StopSelf);
    } else {
        reveal(Seq::filter);
    }
}

/// A batch is carried out message by message: the effects are those of each
/// outbox in turn up to and with the first that asks for the actor's stop, so
/// are the letters, and each message recorded in those outboxes is either
/// carried out or dead-lettered, once.
pub proof fn law_batch_is_carried_out(
    flushed: Flushed,
    outboxes: Seq<Outbox>,
    emits: Seq<Seq<char>>,
    n: int,
)
    requires
        flushes(flushed, outboxes, emits),
        0 <= n <= outboxes.len(),
        forall|j: int| 0 <= j < n - 1 ==> !(#[trigger] outboxes[j])@.contains(Intent::StopSelf),
        n < outboxes.len() ==> n > 0 && outboxes[n - 1]@.contains(Intent::StopSelf),
    ensures
        flushed.effects@ == outboxes.take(n).map_values(|outbox: Outbox| effects(outbox@, emits)).flatten(),
        flushed.letters@.len() == outboxes.take(n).map_values(
            |outbox: Outbox| gated_out(outbox@, emits),
        ).flatten().len(),
        forall|i: int|
            0 <= i < flushed.letters@.len() ==> (#[trigger] flushed.letters@[i]).records(
                outboxes.take(n).map_values(|outbox: Outbox| gated_out(outbox@, emits)).flatten()[i],
                DeadLetterReason::UndeclaredEmit,
                "undeclared emit (add .emits::<M>() at the spawn site)"@,
            ),
        flushed.effects@.len() + flushed.letters@.len() == outboxes.take(n).map_values(
            |outbox: Outbox| outbox@,
        ).flatten().filter(|intent: Intent| intent !is StopSelf).len(),
        flushed.stops <==> exists|k: int|
            0 <= k < outboxes.len() && (#[trigger] outboxes[k])@.contains(Intent::StopSelf),
{
    assert forall|k: int| 0 <= k < outboxes.len() implies stops((#[trigger] outboxes[k])@) == outboxes[k]@.contains(
        Intent::StopSelf,
    ) by {
        law_stop_is_recorded(outboxes[k]@);
    }
    if n > 0 {
        lemma_flushed_skip(outboxes, n - 1);
        let tail = outboxes.skip(n - 1);
        assert(tail[0] == outboxes[n - 1]);
        if n == outboxes.len() {
            assert(tail.len() == 1);
            assert(flushed_count(tail.drop_first()) == 0);
        } else {
            assert(stops(outboxes[n - 1]@));
        }
        assert(flushed_count(tail) == 1);
    }
    assert(flushed_count(outboxes) == n);
    lemma_batch_settles(outboxes.take(n), emits);
}

/// A stop is asked for exactly where one is recorded.
pub proof fn law_stop_is_recorded(intents: Seq<Intent>)
    ensures
        stops(intents) == intents.contains(Intent::StopSelf),
{
    if stops(intents) {
        let i = choose|i: int| 0 <= i < intents.len() && #[trigger] intents[i] is StopSelf;
        assert(intents[i] == Intent::StopSelf);
    }
}

} // verus!
