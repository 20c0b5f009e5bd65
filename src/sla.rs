//! The SLA rule: a service that stays down incurs a violation at every
//! `threshold`-th consecutive down.
use vstd::prelude::*;

verus! {

/// The number of downs (`false`) after the last up (`true`) of a history
/// in order of time; the whole history when it has no up.
pub open spec fn down_streak(history: Seq<bool>) -> nat
    decreases history.len(),
{
    if history.len() == 0 {
        0
    } else if history.last() {
        0
    } else {
        down_streak(history.drop_last()) + 1
    }
}

/// Whether a down streak of length `n` incurs a violation.
pub open spec fn violation_fires(n: nat, threshold: nat) -> bool {
    n > 0 && n % threshold == 0
}

/// Whether a down streak of length `streak` incurs a violation.
pub fn sla_violation(streak: u64, threshold: u32) -> (r: bool)
    requires
        threshold > 0,
    ensures
        r == violation_fires(streak as nat, threshold as nat),
{
    streak > 0 && streak % (threshold as u64) == 0
}

/// The length of the current down streak of a history.
pub fn current_down_streak(history: &Vec<bool>) -> (r: u64)
    ensures
        r == down_streak(history@),
{
    let mut n: u64 = 0;
    let mut i: usize = 0;
    while i < history.len()
        invariant
            i <= history@.len(),
            n == down_streak(history@.take(i as int)),
            n <= i,
        decreases history@.len() - i,
    {
        assert(history@.take(i as int + 1).drop_last() =~= history@.take(i as int));
        if history[i] {
            n = 0;
        } else {
            n = n + 1;
        }
        i = i + 1;
    }
    assert(history@.take(history@.len() as int) =~= history@);
    n
}

/// Whether the last observation of a history incurs a violation.
pub fn check_sla_violation(history: &Vec<bool>, threshold: u32) -> (r: bool)
    requires
        threshold > 0,
    ensures
        r == violation_fires(down_streak(history@), threshold as nat),
{
    sla_violation(current_down_streak(history), threshold)
}

/// The rule repeats: within a streak, a violation fires at length `n`
/// exactly when it fires at length `n + threshold`, and the first one
/// fires at length `threshold`.
pub proof fn lemma_sla_periodic(n: nat, threshold: nat)
    requires
        threshold > 0,
    ensures
        n > 0 ==> (violation_fires(n, threshold) <==> violation_fires(n + threshold, threshold)),
        0 < n < threshold ==> !violation_fires(n, threshold),
        violation_fires(threshold, threshold),
{
    vstd::arithmetic::div_mod::lemma_mod_add_multiples_vanish(n as int, threshold as int);
    if n < threshold {
        vstd::arithmetic::div_mod::lemma_small_mod(n, threshold);
    }
    vstd::arithmetic::div_mod::lemma_mod_self_0(threshold as int);
}

/// An up ends the streak; a down extends it by one.
pub proof fn lemma_streak_step(history: Seq<bool>, up: bool)
    ensures
        down_streak(history.push(up)) == if up {
            0
        } else {
            down_streak(history) + 1
        },
{
    assert(history.push(up).drop_last() =~= history);
}

} // verus!
