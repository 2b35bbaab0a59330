//! The retry engine's mathematical model.
//!
//! A run of a policy is modelled over a sequence of attempt outcomes: the
//! spec functions here say how many attempts a policy makes on a given
//! outcome sequence, which outcome it surfaces, and which waits it performs
//! in between. The executable loop is proved against this model, and the
//! laws at the bottom state the engine's guarantees over it.

use vstd::prelude::*;

verus! {

/// Delay after one failed attempt: the current delay scaled by the growth
/// magnitude, which is given in thousandths (1250 means a factor of 1.25).
/// The product is truncated to whole nanoseconds and saturates at `u64::MAX`.
pub open spec fn grown_nanos(nanos: u64, growth_per_mille: u32) -> u64 {
    let scaled = (nanos as int) * (growth_per_mille as int) / 1000;
    if scaled > u64::MAX as int {
        u64::MAX
    } else {
        scaled as u64
    }
}

/// Computes `grown_nanos`.
pub fn grow_nanos(nanos: u64, growth_per_mille: u32) -> (r: u64)
    ensures
        r == grown_nanos(nanos, growth_per_mille),
{
    proof {
        assert((nanos as int) * (growth_per_mille as int) <= (u64::MAX as int) * (u32::MAX as int))
            by (nonlinear_arith)
            requires
                nanos <= u64::MAX,
                growth_per_mille <= u32::MAX,
        ;
    }
    let wide: u128 = (nanos as u128) * (growth_per_mille as u128) / 1000;
    if wide > u64::MAX as u128 {
        u64::MAX
    } else {
        wide as u64
    }
}

/// Whether a failure at the 0-based attempt index `iteration` exhausts the
/// attempt budget, so that the engine surfaces the failure instead of
/// retrying. With no cap the budget is never exhausted.
pub open spec fn stops_after(max_tries: Option<usize>, iteration: int) -> bool {
    match max_tries {
        Some(n) => iteration + 1 >= n,
        None => false,
    }
}

/// Computes `stops_after`: whether a failure at the 0-based attempt index
/// `iteration` is the last one the budget admits.
pub fn exhausted_after(max_tries: Option<usize>, iteration: usize) -> (b: bool)
    ensures
        b == stops_after(max_tries, iteration as int),
{
    match max_tries {
        Some(n) => n == 0 || iteration >= n - 1,
        None => false,
    }
}

/// Whether a failure at the very next attempt already exhausts the budget.
pub open spec fn stop_now(max_tries: Option<usize>) -> bool {
    stops_after(max_tries, 0)
}

/// The attempt budget that remains after one failed attempt that did not
/// exhaust it.
pub open spec fn tick(max_tries: Option<usize>) -> Option<usize> {
    match max_tries {
        Some(n) => Some((n - 1) as usize),
        None => None,
    }
}

/// How many attempts a policy with budget `max_tries` makes when the
/// attempts produce the given outcomes in order: it stops at the first
/// success or at the failure that exhausts the budget, whichever comes
/// first within the sequence.
pub open spec fn invocations<T, E>(max_tries: Option<usize>, outcomes: Seq<Result<T, E>>) -> nat
    decreases outcomes.len(),
{
    if outcomes.len() == 0 {
        0
    } else if outcomes[0] is Ok || stop_now(max_tries) {
        1
    } else {
        1 + invocations(tick(max_tries), outcomes.drop_first())
    }
}

/// Whether a policy with budget `max_tries` stops within the given outcome
/// sequence at all: it does as soon as one outcome is a success or the
/// budget runs out.
pub open spec fn halts<T, E>(max_tries: Option<usize>, outcomes: Seq<Result<T, E>>) -> bool
    decreases outcomes.len(),
{
    if outcomes.len() == 0 {
        false
    } else if outcomes[0] is Ok || stop_now(max_tries) {
        true
    } else {
        halts(tick(max_tries), outcomes.drop_first())
    }
}

/// The result a policy with budget `max_tries` surfaces on the given
/// outcome sequence: the first success, or the failure on which the budget
/// ran out, passed through unchanged.
pub open spec fn outcome_of<T, E>(max_tries: Option<usize>, outcomes: Seq<Result<T, E>>) -> Result<
    T,
    E,
>
    decreases outcomes.len(),
{
    if outcomes.len() == 0 {
        arbitrary()
    } else if outcomes[0] is Ok || stop_now(max_tries) {
        outcomes[0]
    } else {
        outcome_of(tick(max_tries), outcomes.drop_first())
    }
}

/// The waits, in order, that a policy performs between the given attempt
/// outcomes: after each failure that neither succeeds nor exhausts the
/// budget, the engine waits for the current delay, if one is set, and grows
/// it for the next round.
pub open spec fn waits<T, E>(
    max_tries: Option<usize>,
    delay: Option<u64>,
    growth_per_mille: u32,
    outcomes: Seq<Result<T, E>>,
) -> Seq<u64>
    decreases outcomes.len(),
{
    if outcomes.len() == 0 {
        Seq::empty()
    } else if outcomes[0] is Ok || stop_now(max_tries) {
        Seq::empty()
    } else {
        match delay {
            Some(d) => seq![d] + waits(
                tick(max_tries),
                Some(grown_nanos(d, growth_per_mille)),
                growth_per_mille,
                outcomes.drop_first(),
            ),
            None => waits(tick(max_tries), None, growth_per_mille, outcomes.drop_first()),
        }
    }
}

/// The wait before the `k + 1`-th retry of a policy whose first wait is
/// `base`: the base delay grown `k` times.
pub open spec fn nth_wait(base: u64, growth_per_mille: u32, k: nat) -> u64
    decreases k,
{
    if k == 0 {
        base
    } else {
        grown_nanos(nth_wait(base, growth_per_mille, (k - 1) as nat), growth_per_mille)
    }
}

/// One complete run of the engine over the operation `func`, as the
/// executable loop observes it: `outs` are the outcomes the operation
/// produced, in order; every one is a possible output of `func`; the policy
/// stops exactly at the end of `outs`; and `r` is the surfaced result.
pub open spec fn run_trace<F, T, E>(
    func: F,
    max_tries: Option<usize>,
    outs: Seq<Result<T, E>>,
    r: Result<T, E>,
) -> bool where F: Fn() -> Result<T, E> {
    &&& 1 <= outs.len()
    &&& forall|i: int| 0 <= i < outs.len() ==> call_ensures(func, (), #[trigger] outs[i])
    &&& invocations(max_tries, outs) == outs.len()
    &&& halts(max_tries, outs)
    &&& r == outcome_of(max_tries, outs)
}

/// A sequence of outcomes whose every element but the last is a failure
/// that leaves budget, and whose last element is a success or exhausts the
/// budget, is exactly one halting run: the policy makes one attempt per
/// outcome and surfaces the last one.
pub proof fn lemma_run_characterization<T, E>(max_tries: Option<usize>, outs: Seq<Result<T, E>>)
    requires
        1 <= outs.len(),
        forall|i: int| 0 <= i < outs.len() - 1 ==> (#[trigger] outs[i]) is Err,
        forall|i: int| 0 <= i < outs.len() - 1 ==> !stops_after(max_tries, i),
        outs.last() is Ok || stops_after(max_tries, outs.len() - 1),
    ensures
        invocations(max_tries, outs) == outs.len(),
        halts(max_tries, outs),
        outcome_of(max_tries, outs) == outs.last(),
    decreases outs.len(),
{
    if outs.len() == 1 {
        assert(outs[0] is Ok || stop_now(max_tries));
    } else {
        assert(outs[0] is Err);
        assert(!stop_now(max_tries));
        let rest = outs.drop_first();
        assert forall|i: int| 0 <= i < rest.len() - 1 implies (#[trigger] rest[i]) is Err by {
            assert(rest[i] == outs[i + 1]);
        }
        assert forall|i: int| 0 <= i < rest.len() - 1 implies !stops_after(tick(max_tries), i) by {
            assert(!stops_after(max_tries, i + 1));
        }
        assert(rest.last() == outs.last());
        if !(outs.last() is Ok) {
            assert(stops_after(max_tries, outs.len() - 1));
            assert(stops_after(tick(max_tries), rest.len() - 1));
        }
        lemma_run_characterization(tick(max_tries), rest);
    }
}

/// Law: a policy capped at `n` tries whose first `n` outcomes are failures
/// makes exactly `n` attempts and surfaces the `n`-th failure unchanged.
pub proof fn lemma_failures_exhaust_budget<T, E>(n: usize, outcomes: Seq<Result<T, E>>)
    requires
        1 <= n <= outcomes.len(),
        forall|i: int| 0 <= i < n ==> (#[trigger] outcomes[i]) is Err,
    ensures
        invocations(Some(n), outcomes) == n,
        halts(Some(n), outcomes),
        outcome_of(Some(n), outcomes) == outcomes[n - 1],
    decreases n,
{
    if n == 1 {
        assert(stop_now(Some(n)));
    } else {
        let rest = outcomes.drop_first();
        assert forall|i: int| 0 <= i < n - 1 implies (#[trigger] rest[i]) is Err by {
            assert(rest[i] == outcomes[i + 1]);
        }
        lemma_failures_exhaust_budget((n - 1) as usize, rest);
        assert(rest[n - 2] == outcomes[n - 1]);
    }
}

/// Law: a policy whose budget admits at least `k` tries, run over outcomes
/// that fail `k - 1` times and then succeed, makes exactly `k` attempts and
/// surfaces that success; no further attempt occurs.
pub proof fn lemma_first_success<T, E>(
    max_tries: Option<usize>,
    k: int,
    outcomes: Seq<Result<T, E>>,
)
    requires
        1 <= k <= outcomes.len(),
        outcomes[k - 1] is Ok,
        forall|i: int| 0 <= i < k - 1 ==> (#[trigger] outcomes[i]) is Err,
        max_tries matches Some(n) ==> k <= n,
    ensures
        invocations(max_tries, outcomes) == k,
        halts(max_tries, outcomes),
        outcome_of(max_tries, outcomes) == outcomes[k - 1],
    decreases k,
{
    if k == 1 {
        assert(outcomes[0] is Ok);
    } else {
        assert(outcomes[0] is Err);
        assert(!stop_now(max_tries));
        let rest = outcomes.drop_first();
        assert forall|i: int| 0 <= i < k - 2 implies (#[trigger] rest[i]) is Err by {
            assert(rest[i] == outcomes[i + 1]);
        }
        assert(rest[k - 2] == outcomes[k - 1]);
        lemma_first_success(tick(max_tries), k - 1, rest);
    }
}

/// Law: an uncapped policy run over outcomes that eventually succeed halts
/// at the first success, after exactly as many attempts as it took to
/// reach it.
pub proof fn lemma_eventual_success_unbounded<T, E>(k: int, outcomes: Seq<Result<T, E>>)
    requires
        1 <= k <= outcomes.len(),
        outcomes[k - 1] is Ok,
        forall|i: int| 0 <= i < k - 1 ==> (#[trigger] outcomes[i]) is Err,
    ensures
        invocations(None, outcomes) == k,
        halts(None, outcomes),
        outcome_of(None, outcomes) == outcomes[k - 1],
{
    lemma_first_success(None, k, outcomes);
}

proof fn lemma_nth_wait_shift(base: u64, growth_per_mille: u32, k: nat)
    ensures
        nth_wait(grown_nanos(base, growth_per_mille), growth_per_mille, k) == nth_wait(
            base,
            growth_per_mille,
            k + 1,
        ),
    decreases k,
{
    let grown = grown_nanos(base, growth_per_mille);
    if k == 0 {
        assert(nth_wait(base, growth_per_mille, 1) == grown_nanos(
            nth_wait(base, growth_per_mille, 0),
            growth_per_mille,
        ));
    } else {
        lemma_nth_wait_shift(base, growth_per_mille, (k - 1) as nat);
        assert(nth_wait(grown, growth_per_mille, k) == grown_nanos(
            nth_wait(grown, growth_per_mille, (k - 1) as nat),
            growth_per_mille,
        ));
        assert(nth_wait(base, growth_per_mille, k + 1) == grown_nanos(
            nth_wait(base, growth_per_mille, k),
            growth_per_mille,
        ));
    }
}

/// Law: a policy capped at `n >= 2` tries, with a base delay and outcomes
/// that fail `n` times, waits exactly `n - 1` times, and the `k`-th wait is
/// the base delay grown `k` times.
pub proof fn lemma_wait_schedule<T, E>(
    n: usize,
    base: u64,
    growth_per_mille: u32,
    outcomes: Seq<Result<T, E>>,
)
    requires
        2 <= n <= outcomes.len(),
        forall|i: int| 0 <= i < n ==> (#[trigger] outcomes[i]) is Err,
    ensures
        waits(Some(n), Some(base), growth_per_mille, outcomes).len() == n - 1,
        forall|k: int|
            0 <= k < n - 1 ==> waits(Some(n), Some(base), growth_per_mille, outcomes)[k]
                == nth_wait(base, growth_per_mille, k as nat),
    decreases n,
{
    let rest = outcomes.drop_first();
    let grown = grown_nanos(base, growth_per_mille);
    let whole = waits(Some(n), Some(base), growth_per_mille, outcomes);
    assert(!stop_now(Some(n)));
    assert(whole == seq![base] + waits(Some((n - 1) as usize), Some(grown), growth_per_mille, rest));
    assert forall|i: int| 0 <= i < n - 1 implies (#[trigger] rest[i]) is Err by {
        assert(rest[i] == outcomes[i + 1]);
    }
    if n == 2 {
        assert(stop_now(Some((n - 1) as usize)));
        assert(waits(Some((n - 1) as usize), Some(grown), growth_per_mille, rest).len() == 0);
        assert(whole[0] == base);
    } else {
        lemma_wait_schedule((n - 1) as usize, grown, growth_per_mille, rest);
        let tail = waits(Some((n - 1) as usize), Some(grown), growth_per_mille, rest);
        assert forall|k: int|
            0 <= k < n - 1 implies whole[k] == nth_wait(base, growth_per_mille, k as nat) by {
            if k == 0 {
                assert(whole[0] == base);
            } else {
                assert(whole[k] == tail[k - 1]);
                assert(tail[k - 1] == nth_wait(grown, growth_per_mille, (k - 1) as nat));
                lemma_nth_wait_shift(base, growth_per_mille, (k - 1) as nat);
            }
        }
    }
}

/// Law: with no base delay, a policy performs no wait at all, whatever its
/// budget, growth magnitude and outcomes.
pub proof fn lemma_no_delay_no_waits<T, E>(
    max_tries: Option<usize>,
    growth_per_mille: u32,
    outcomes: Seq<Result<T, E>>,
)
    ensures
        waits(max_tries, None, growth_per_mille, outcomes).len() == 0,
    decreases outcomes.len(),
{
    if outcomes.len() > 0 && !(outcomes[0] is Ok) && !stop_now(max_tries) {
        lemma_no_delay_no_waits(tick(max_tries), growth_per_mille, outcomes.drop_first());
    }
}

/// Law: for a growth magnitude of at least 1000 (a factor of at least one),
/// growing a delay never shrinks it.
pub proof fn lemma_growth_monotonic(nanos: u64, growth_per_mille: u32)
    requires
        growth_per_mille >= 1000,
    ensures
        grown_nanos(nanos, growth_per_mille) >= nanos,
{
    assert((nanos as int) * (growth_per_mille as int) / 1000 >= nanos as int) by (nonlinear_arith)
        requires
            growth_per_mille >= 1000,
            nanos >= 0,
    ;
}

proof fn lemma_halting_failures<T, E>(n: usize, outcomes: Seq<Result<T, E>>)
    requires
        n >= 1,
        halts(Some(n), outcomes),
        forall|i: int| 0 <= i < outcomes.len() ==> (#[trigger] outcomes[i]) is Err,
    ensures
        outcomes.len() >= n,
        invocations(Some(n), outcomes) == n,
        outcome_of(Some(n), outcomes) == outcomes[n - 1],
    decreases outcomes.len(),
{
    if n == 1 {
        assert(stop_now(Some(n)));
    } else {
        assert(!stop_now(Some(n)));
        let rest = outcomes.drop_first();
        assert forall|i: int| 0 <= i < rest.len() implies (#[trigger] rest[i]) is Err by {
            assert(rest[i] == outcomes[i + 1]);
        }
        lemma_halting_failures((n - 1) as usize, rest);
        assert(rest[n - 2] == outcomes[n - 1]);
    }
}

/// Law: a run of an operation that can only fail, under a cap of `n` tries,
/// records exactly `n` outcomes and surfaces the last failure unchanged.
/// This carries the engine's exhaustion guarantee to any run whose
/// operation's postcondition rules out success.
pub proof fn lemma_trace_of_always_failing<F, T, E>(
    func: F,
    n: usize,
    outs: Seq<Result<T, E>>,
    r: Result<T, E>,
) where F: Fn() -> Result<T, E>
    requires
        n >= 1,
        run_trace(func, Some(n), outs, r),
        forall|y: Result<T, E>| #[trigger] call_ensures(func, (), y) ==> y is Err,
    ensures
        outs.len() == n,
        r is Err,
        r == outs[n - 1],
{
    assert forall|i: int| 0 <= i < outs.len() implies (#[trigger] outs[i]) is Err by {
        assert(call_ensures(func, (), outs[i]));
    }
    lemma_halting_failures(n, outs);
}

} // verus!
