//! Declarative supervision: restart policies and budgets as plain data
//! interpreted by the restart engine.
//!
//! Failures inside the budget restart the child after a backoff delay;
//! exhausting the budget stops the child and escalates to the parent.

use std::collections::VecDeque;

use vstd::prelude::*;

use crate::actor::ActorPath;
use crate::actor::StopReason;
use crate::envelope::Address;
use crate::envelope::Envelope;
use crate::envelope::Payload;
use crate::envelope::TraceCtx;
use crate::json::field_of;
use crate::json::law_first_member;
use crate::json::members_view;
use crate::json::object_tree;
use crate::json::text_tree;
use crate::json::Json;
use crate::json::JsonTree;
use crate::json::JsonView;
use crate::schema::SchemaId;

verus! {

/// When a failed child may be restarted.
#[derive(Debug, Clone, Copy, PartialEq, Eq, Structural)]
pub enum RestartPolicy {
    /// Always restart on failure.
    Permanent,
    /// Restart only if the child failed, not on clean stops.
    Transient,
    /// Never restart; a failure escalates immediately.
    Never,
}

impl Default for RestartPolicy {
    fn default() -> (policy: Self)
        ensures
            policy == RestartPolicy::Permanent,
    {
        RestartPolicy::Permanent
    }
}

/// A sliding-window restart budget: at most `max` restarts per window.
#[derive(Debug, Clone, Copy, PartialEq, Eq, Structural)]
pub struct RestartBudget {
    /// The maximum restarts allowed inside the window.
    pub max: u32,
    /// The window the restarts are counted in, in milliseconds.
    pub window_ms: u64,
}

impl RestartBudget {
    /// A budget of `max` restarts per window of `window_ms` milliseconds.
    pub fn per(max: u32, window_ms: u64) -> (budget: Self)
        ensures
            budget == (RestartBudget { max, window_ms }),
    {
        RestartBudget { max, window_ms }
    }
}

impl Default for RestartBudget {
    fn default() -> (budget: Self)
        ensures
            budget == (RestartBudget { max: 5, window_ms: 10_000 }),
    {
        RestartBudget::per(5, 10_000)
    }
}

/// Whether a failure at `t` still counts at `now`: it lies in the future or at
/// most one window back.
pub open spec fn in_window(t: u64, now: u64, window_ms: u64) -> bool {
    now - t <= window_ms
}

/// How many failures still count at `now`.
pub open spec fn windowed(failures: Seq<u64>, now: u64, window_ms: u64) -> nat
    decreases failures.len(),
{
    if failures.len() == 0 {
        0
    } else {
        windowed(failures.drop_last(), now, window_ms) + if in_window(failures.last(), now, window_ms) {
            1nat
        } else {
            0nat
        }
    }
}

/// The sliding-window failure record for one child.
#[derive(Debug)]
pub struct FailureWindow {
    /// Times of recent failures in milliseconds, oldest first.
    failures: VecDeque<u64>,
}

impl View for FailureWindow {
    type V = Seq<u64>;

    closed spec fn view(&self) -> Seq<u64> {
        self.failures@
    }
}

/// How many failures at the front are older than the window, before the first
/// that is not.
pub open spec fn stale_prefix(failures: Seq<u64>, now: u64, window_ms: u64) -> nat
    decreases failures.len(),
{
    if failures.len() == 0 || in_window(failures[0], now, window_ms) {
        0
    } else {
        1 + stale_prefix(failures.drop_first(), now, window_ms)
    }
}

impl FailureWindow {
    /// An empty failure window.
    pub fn new() -> (window: Self)
        ensures
            window@ == Seq::<u64>::empty(),
    {
        FailureWindow { failures: VecDeque::new() }
    }

    /// Records a failure at `now_ms`.
    pub fn record(&mut self, now_ms: u64)
        ensures
            final(self)@ == old(self)@.push(now_ms),
    {
        self.failures.push_back(now_ms);
    }

    /// Whether `budget.max` failures occurred within the window before now.
    pub fn exhausted(&self, now_ms: u64, budget: &RestartBudget) -> (r: bool)
        ensures
            r == (windowed(self@, now_ms, budget.window_ms) >= budget.max),
    {
        self.count(now_ms, budget) as u64 >= budget.max as u64
    }

    /// The count of failures inside the window.
    pub fn count(&self, now_ms: u64, budget: &RestartBudget) -> (n: usize)
        ensures
            n == windowed(self@, now_ms, budget.window_ms),
    {
        let mut n: usize = 0;
        let mut i: usize = 0;
        while i < self.failures.len()
            invariant
                i <= self.failures.len(),
                n <= i,
                n == windowed(self@.take(i as int), now_ms, budget.window_ms),
            decreases self.failures.len() - i,
        {
            let t: u64 = self.failures[i];
            if now_ms <= t || now_ms - t <= budget.window_ms {
                n += 1;
            }
            i += 1;
            assert(self@.take(i as int).drop_last() =~= self@.take(i - 1));
        }
        assert(self@.take(i as int) =~= self@);
        n
    }

    /// Whether no failure is recorded.
    pub fn is_empty(&self) -> (r: bool)
        ensures
            r == (self@.len() == 0),
    {
        self.failures.len() == 0
    }

    /// The total number of recorded failures.
    pub fn len(&self) -> (n: usize)
        ensures
            n == self@.len(),
    {
        self.failures.len()
    }

    /// Drops the failures at the front that are older than the window.
    pub fn prune(&mut self, now_ms: u64, budget: &RestartBudget)
        ensures
            final(self)@ == old(self)@.skip(stale_prefix(old(self)@, now_ms, budget.window_ms) as int),
    {
        let ghost all = self@;
        let ghost mut dropped: int = 0;
        assert(all.skip(0) =~= all);
        while self.failures.len() > 0
            invariant
                0 <= dropped <= all.len(),
                self@ == all.skip(dropped),
                stale_prefix(all, now_ms, budget.window_ms) == dropped + stale_prefix(
                    self@,
                    now_ms,
                    budget.window_ms,
                ),
            ensures
                self@ == all.skip(stale_prefix(all, now_ms, budget.window_ms) as int),
            decreases self.failures.len(),
        {
            let t: u64 = self.failures[0];
            if now_ms > t && now_ms - t > budget.window_ms {
                self.failures.pop_front();
                proof {
                    assert(all.skip(dropped).drop_first() =~= all.skip(dropped + 1));
                    assert(self@ =~= all.skip(dropped + 1));
                    dropped = dropped + 1;
                }
            } else {
                break ;
            }
        }
    }
}

impl Default for FailureWindow {
    fn default() -> (window: Self)
        ensures
            window@ == Seq::<u64>::empty(),
    {
        FailureWindow::new()
    }
}

/// Dropping the first failure takes it out of the count.
proof fn lemma_windowed_first(failures: Seq<u64>, now: u64, window_ms: u64)
    requires
        failures.len() > 0,
    ensures
        windowed(failures, now, window_ms) == windowed(failures.drop_first(), now, window_ms) + if in_window(
            failures[0],
            now,
            window_ms,
        ) {
            1nat
        } else {
            0nat
        },
    decreases failures.len(),
{
    if failures.len() == 1 {
        assert(failures.drop_first() =~= Seq::<u64>::empty());
        assert(failures.drop_last() =~= Seq::<u64>::empty());
    } else {
        lemma_windowed_first(failures.drop_last(), now, window_ms);
        assert(failures.drop_last().drop_first() =~= failures.drop_first().drop_last());
        assert(failures.drop_first().last() == failures.last());
    }
}

/// Pruning drops only failures that no longer count: the windowed count, and
/// with it the verdict on the budget, is the same before and after.
pub proof fn law_prune_keeps_count(failures: Seq<u64>, now: u64, window_ms: u64)
    ensures
        stale_prefix(failures, now, window_ms) <= failures.len(),
        windowed(failures.skip(stale_prefix(failures, now, window_ms) as int), now, window_ms) == windowed(
            failures,
            now,
            window_ms,
        ),
    decreases failures.len(),
{
    if failures.len() == 0 || in_window(failures[0], now, window_ms) {
        assert(failures.skip(0) =~= failures);
    } else {
        law_prune_keeps_count(failures.drop_first(), now, window_ms);
        lemma_windowed_first(failures, now, window_ms);
        let n = stale_prefix(failures.drop_first(), now, window_ms) as int;
        assert(failures.drop_first().skip(n) =~= failures.skip(n + 1));
    }
}

/// Recording a failure now adds exactly one to the count.
pub proof fn law_record_counts(failures: Seq<u64>, now: u64, window_ms: u64)
    ensures
        windowed(failures.push(now), now, window_ms) == windowed(failures, now, window_ms) + 1,
{
    assert(failures.push(now).drop_last() =~= failures);
}

/// The count of failures never grows as time passes: failures age out of the
/// window and none comes back into it.
pub proof fn law_time_forgives(failures: Seq<u64>, now: u64, later: u64, window_ms: u64)
    requires
        now <= later,
    ensures
        windowed(failures, later, window_ms) <= windowed(failures, now, window_ms),
    decreases failures.len(),
{
    if failures.len() > 0 {
        law_time_forgives(failures.drop_last(), now, later, window_ms);
    }
}

/// The control message the engine escalates to a parent, as a document.
pub open spec fn escalation_view(path: Seq<char>, reason: Seq<char>) -> JsonView {
    JsonView::Object(
        seq![("escalated"@, JsonView::Text(path)), ("reason"@, JsonView::Text(reason))],
    )
}

/// The control message the engine escalates to a parent.
pub fn escalation_message(path: &ActorPath, reason: &str) -> (message: Json)
    ensures
        message@ == escalation_view(path@, reason@),
{
    let mut members: Vec<(String, JsonTree)> = Vec::new();
    members.push(("escalated".to_owned(), text_tree(path.as_str())));
    members.push(("reason".to_owned(), text_tree(reason)));
    assert(members_view(members@) =~= escalation_view(path@, reason@)->Object_0);
    Json::of(object_tree(members))
}

/// One supervised actor: when to restart it, and how often. What it is spawned
/// from, and how long to back off, is the host's.
#[derive(Debug)]
pub struct ActorSpec {
    /// The child's path.
    pub path: ActorPath,
    /// The child's parent; `None` where escalations end with the system.
    pub parent: Option<ActorPath>,
    /// When a failed child may be restarted.
    pub restart: RestartPolicy,
    /// The sliding-window restart budget.
    pub budget: RestartBudget,
}

impl ActorSpec {
    /// The control message the engine escalates to the parent.
    pub fn escalation_message(&self, reason: &str) -> (message: Json)
        ensures
            message@ == escalation_view(self.path@, reason@),
    {
        escalation_message(&self.path, reason)
    }
}

/// What supervision decides about a crashed child.
pub enum Verdict {
    /// Restart it after the backoff for this many failures in the window.
    Restart {
        /// The failures in the window, this one among them.
        consecutive: u32,
    },
    /// Stop it and escalate to the parent.
    Escalate {
        /// Why, for the parent.
        reason: &'static str,
        /// Why, as recorded of the child.
        stop_reason: StopReason,
    },
}

/// The failures once one more was recorded and the stale ones were dropped.
pub open spec fn after_failure(failures: Seq<u64>, now: u64, window_ms: u64) -> Seq<u64> {
    failures.push(now).skip(stale_prefix(failures.push(now), now, window_ms) as int)
}

/// Whether the budget has a restart left for a crash now.
pub open spec fn spares(failures: Seq<u64>, now: u64, budget: RestartBudget) -> bool {
    windowed(after_failure(failures, now, budget.window_ms), now, budget.window_ms) < budget.max
}

/// Decides about a crashed child: the policy first, then the budget. The crash
/// is recorded before the budget is looked at.
pub fn supervise_crash(spec: &ActorSpec, window: &mut FailureWindow, now_ms: u64) -> (verdict: Verdict)
    ensures
        match spec.restart {
            RestartPolicy::Never => {
                &&& verdict is Escalate
                &&& verdict->reason@ == "policy Never (crashed)"@
                &&& verdict->stop_reason == StopReason::Crashed
                &&& final(window)@ == old(window)@
            },
            _ => {
                let failures = after_failure(old(window)@, now_ms, spec.budget.window_ms);
                let count = windowed(failures, now_ms, spec.budget.window_ms);
                &&& final(window)@ == failures
                &&& if spares(old(window)@, now_ms, spec.budget) {
                    verdict == (Verdict::Restart { consecutive: count as u32 })
                } else {
                    &&& verdict is Escalate
                    &&& verdict->reason@ == "restart budget exhausted"@
                    &&& verdict->stop_reason == StopReason::Escalated
                }
            },
        },
{
    match spec.restart {
        RestartPolicy::Never => Verdict::Escalate {
            reason: "policy Never (crashed)",
            stop_reason: StopReason::Crashed,
        },
        _ => {
            window.record(now_ms);
            window.prune(now_ms, &spec.budget);
            if window.exhausted(now_ms, &spec.budget) {
                return Verdict::Escalate {
                    reason: "restart budget exhausted",
                    stop_reason: StopReason::Escalated,
                };
            }
            Verdict::Restart { consecutive: window.count(now_ms, &spec.budget) as u32 }
        },
    }
}

/// How a child is restarted.
#[derive(Debug, Clone, Copy, PartialEq, Eq, Structural)]
pub enum RestartMode {
    /// Rebuild it from its journal behind the same path; its mail is kept.
    Replay,
    /// Free its path and spawn it afresh.
    Respawn,
}

/// How a child is restarted: one with journaled state recovers, any other
/// starts over.
pub fn restart_mode(has_state: bool) -> (mode: RestartMode)
    ensures
        mode == if has_state {
            RestartMode::Replay
        } else {
            RestartMode::Respawn
        },
{
    if has_state {
        RestartMode::Replay
    } else {
        RestartMode::Respawn
    }
}

/// The envelope a parent is told of an escalation in; none where there is no
/// parent.
pub fn escalation(spec: &ActorSpec, reason: &str, trace: TraceCtx) -> (envelope: Option<Envelope>)
    ensures
        match spec.parent {
            Some(parent) => {
                &&& envelope is Some
                &&& envelope->0.schema@ == "Escalated"@
                &&& envelope->0.dest == Address::Path(parent)
                &&& envelope->0.trace == trace
                &&& envelope->0.payload@ is Json
                &&& envelope->0.payload@.tree() == escalation_view(spec.path@, reason@)
                &&& envelope->0.from is None && envelope->0.reply_to is None && envelope->0.recorded_origin is None
            },
            None => envelope is None,
        },
{
    match &spec.parent {
        Some(parent) => Some(
            Envelope::raw(
                SchemaId::new("Escalated"),
                Address::Path(parent.clone()),
                Payload::json_view(spec.escalation_message(reason)),
                trace,
            ),
        ),
        None => None,
    }
}

/// The crash being decided on counts against the budget exactly once, and
/// dropping stale failures changes nothing about the verdict.
pub proof fn law_crash_counts_once(failures: Seq<u64>, now: u64, window_ms: u64)
    ensures
        windowed(after_failure(failures, now, window_ms), now, window_ms) == windowed(failures, now, window_ms) + 1,
{
    law_record_counts(failures, now, window_ms);
    law_prune_keeps_count(failures.push(now), now, window_ms);
}

/// The window after a history of crashes, each decided on in turn.
pub open spec fn crash_window(crashes: Seq<u64>, window_ms: u64) -> Seq<u64>
    decreases crashes.len(),
{
    if crashes.len() == 0 {
        Seq::empty()
    } else {
        after_failure(crash_window(crashes.drop_last(), window_ms), crashes.last(), window_ms)
    }
}

/// Whether crash `k` of a history is answered with a restart.
pub open spec fn is_restarted(crashes: Seq<u64>, budget: RestartBudget, k: int) -> bool {
    spares(crash_window(crashes.take(k), budget.window_ms), crashes[k], budget)
}

/// How many of the crashes from `i` up to `j` are answered with a restart.
pub open spec fn restarts_between(crashes: Seq<u64>, budget: RestartBudget, i: int, j: int) -> nat
    decreases j - i,
{
    if j <= i {
        0
    } else {
        restarts_between(crashes, budget, i, j - 1) + if is_restarted(crashes, budget, j - 1) {
            1nat
        } else {
            0nat
        }
    }
}

/// What pruning drops at one time does not count at any later time either.
proof fn lemma_prune_keeps_later_count(failures: Seq<u64>, now: u64, later: u64, window_ms: u64)
    requires
        now <= later,
    ensures
        windowed(failures.skip(stale_prefix(failures, now, window_ms) as int), later, window_ms) == windowed(
            failures,
            later,
            window_ms,
        ),
    decreases failures.len(),
{
    if failures.len() == 0 || in_window(failures[0], now, window_ms) {
        assert(failures.skip(0) =~= failures);
    } else {
        lemma_prune_keeps_later_count(failures.drop_first(), now, later, window_ms);
        lemma_windowed_first(failures, later, window_ms);
        law_prune_keeps_count(failures.drop_first(), now, window_ms);
        let n = stale_prefix(failures.drop_first(), now, window_ms) as int;
        assert(failures.drop_first().skip(n) =~= failures.skip(n + 1));
    }
}

/// The window counts what the history of crashes counts.
proof fn lemma_window_counts_crashes(crashes: Seq<u64>, now: u64, window_ms: u64)
    requires
        forall|k: int| 0 <= k < crashes.len() ==> #[trigger] crashes[k] <= now,
    ensures
        windowed(crash_window(crashes, window_ms), now, window_ms) == windowed(crashes, now, window_ms),
    decreases crashes.len(),
{
    if crashes.len() > 0 {
        let rest = crashes.drop_last();
        let last = crashes.last();
        assert forall|k: int| 0 <= k < rest.len() implies #[trigger] rest[k] <= now by {
            assert(rest[k] == crashes[k]);
        }
        assert(crashes[crashes.len() - 1] == last);
        lemma_window_counts_crashes(rest, now, window_ms);
        let failures = crash_window(rest, window_ms);
        lemma_prune_keeps_later_count(failures.push(last), last, now, window_ms);
        assert(failures.push(last).drop_last() =~= failures);
    }
}

/// Crashes that all lie in the window all count.
proof fn lemma_recent_crashes_count(crashes: Seq<u64>, now: u64, window_ms: u64, i: int)
    requires
        0 <= i <= crashes.len(),
        forall|k: int| i <= k < crashes.len() ==> in_window(#[trigger] crashes[k], now, window_ms),
    ensures
        windowed(crashes, now, window_ms) >= crashes.len() - i,
    decreases crashes.len(),
{
    if i < crashes.len() {
        let rest = crashes.drop_last();
        assert forall|k: int| i <= k < rest.len() implies in_window(#[trigger] rest[k], now, window_ms) by {
            assert(rest[k] == crashes[k]);
        }
        assert(crashes[crashes.len() - 1] == crashes.last());
        lemma_recent_crashes_count(rest, now, window_ms, i);
    }
}

/// No more crashes are answered with a restart than there are.
proof fn lemma_restarts_within(crashes: Seq<u64>, budget: RestartBudget, i: int, j: int)
    requires
        i <= j,
    ensures
        restarts_between(crashes, budget, i, j) <= j - i,
    decreases j - i,
{
    if i < j {
        lemma_restarts_within(crashes, budget, i, j - 1);
    }
}

/// The budget holds over any history of crashes under a clock that does not go
/// back: the restarts within one window of time number at most `max`, and
/// fewer where `max` is above zero, for the crash that reaches it escalates.
pub proof fn law_restarts_keep_the_budget(crashes: Seq<u64>, budget: RestartBudget, i: int, j: int)
    requires
        forall|a: int, b: int| 0 <= a <= b < crashes.len() ==> #[trigger] crashes[a] <= #[trigger] crashes[b],
        0 <= i <= j <= crashes.len(),
        i < j ==> crashes[j - 1] - crashes[i] <= budget.window_ms,
    ensures
        restarts_between(crashes, budget, i, j) <= budget.max,
        budget.max > 0 ==> restarts_between(crashes, budget, i, j) < budget.max,
    decreases j - i,
{
    if i < j {
        let now = crashes[j - 1];
        if is_restarted(crashes, budget, j - 1) {
            let seen = crashes.take(j);
            assert(seen.drop_last() =~= crashes.take(j - 1));
            assert forall|k: int| 0 <= k < seen.len() implies #[trigger] seen[k] <= now by {
                assert(seen[k] == crashes[k]);
            }
            assert forall|k: int| i <= k < seen.len() implies in_window(
                #[trigger] seen[k],
                now,
                budget.window_ms,
            ) by {
                assert(seen[k] == crashes[k] && crashes[i] <= crashes[k]);
            }
            lemma_window_counts_crashes(seen, now, budget.window_ms);
            lemma_recent_crashes_count(seen, now, budget.window_ms, i);
            lemma_restarts_within(crashes, budget, i, j);
        } else {
            law_restarts_keep_the_budget(crashes, budget, i, j - 1);
        }
    }
}

/// What counts against the budget: every failure that is no more than one window
/// old.
pub proof fn law_window_counts_recent_failures(failures: Seq<u64>, now: u64, window_ms: u64)
    ensures
        windowed(failures, now, window_ms) == failures.filter(|t: u64| t + window_ms >= now).len(),
    decreases failures.len(),
{
    reveal(Seq::filter);
    if failures.len() > 0 {
        law_window_counts_recent_failures(failures.drop_last(), now, window_ms);
    }
}

/// What a crash leaves on record: the crash itself, last, and behind which
/// failures were dropped only from the front and only where they are too old.
pub proof fn law_crash_is_on_record(failures: Seq<u64>, now: u64, window_ms: u64)
    ensures
        after_failure(failures, now, window_ms).len() > 0,
        after_failure(failures, now, window_ms).last() == now,
        exists|k: int|
            0 <= k <= failures.len() && after_failure(failures, now, window_ms) == #[trigger] failures.skip(k).push(now)
                && forall|i: int| 0 <= i < k ==> (#[trigger] failures[i]) + window_ms < now,
{
    let all = failures.push(now);
    let k = stale_prefix(all, now, window_ms) as int;
    lemma_stale_prefix(all, now, window_ms);
    if k > failures.len() {
        assert(all[failures.len() as int] == now);
        assert(!in_window(all[failures.len() as int], now, window_ms));
    }
    assert forall|i: int| 0 <= i < k implies (#[trigger] failures[i]) + window_ms < now by {
        assert(all[i] == failures[i]);
        assert(!in_window(all[i], now, window_ms));
    }
    assert(after_failure(failures, now, window_ms) =~= failures.skip(k).push(now));
}

/// Stale failures at the front are stale, and no more of them than there are.
proof fn lemma_stale_prefix(failures: Seq<u64>, now: u64, window_ms: u64)
    ensures
        stale_prefix(failures, now, window_ms) <= failures.len(),
        forall|i: int|
            0 <= i < stale_prefix(failures, now, window_ms) ==> !in_window(#[trigger] failures[i], now, window_ms),
    decreases failures.len(),
{
    if failures.len() > 0 && !in_window(failures[0], now, window_ms) {
        let rest = failures.drop_first();
        lemma_stale_prefix(rest, now, window_ms);
        assert forall|i: int| 0 <= i < stale_prefix(failures, now, window_ms) implies !in_window(
            #[trigger] failures[i],
            now,
            window_ms,
        ) by {
            if i > 0 {
                assert(rest[i - 1] == failures[i]);
            }
        }
    }
}

/// A crash is answered with a restart exactly while, with it, fewer failures than
/// the budget allows lie within the window.
pub proof fn law_budget_decides(failures: Seq<u64>, now: u64, budget: RestartBudget)
    ensures
        spares(failures, now, budget) <==> failures.filter(|t: u64| t + budget.window_ms >= now).len() + 1 < budget.max,
{
    law_window_counts_recent_failures(failures, now, budget.window_ms);
    law_crash_counts_once(failures, now, budget.window_ms);
}

/// An escalation names the child and the reason.
pub proof fn law_escalation_names_the_child(path: Seq<char>, reason: Seq<char>)
    ensures
        field_of(escalation_view(path, reason), "escalated"@) == Some(JsonView::Text(path)),
        field_of(escalation_view(path, reason), "reason"@) == Some(JsonView::Text(reason)),
{
    let members = escalation_view(path, reason)->Object_0;
    reveal_strlit("escalated");
    reveal_strlit("reason");
    assert("escalated"@.len() != "reason"@.len());
    law_first_member(members, 0);
    law_first_member(members, 1);
}

} // verus!
