//! Population maintenance: how many agents to create or remove in one tick so
//! that the live count approaches the target gradually instead of at once.

use vstd::prelude::*;

verus! {

/// What the controller asks for in one tick.
#[derive(Clone, Copy, Debug, PartialEq, Eq, Structural)]
pub enum PopulationAction {
    /// Create this many agents.
    Spawn(usize),
    /// Remove this many live agents; which ones is left to the caller.
    Despawn(usize),
    /// Leave the population as it is.
    Hold,
}

/// The number of agents moved in one tick across a gap of `gap` agents:
/// a tenth of the gap, rounded up.
pub open spec fn batch_size(gap: nat) -> nat {
    (gap + 9) / 10
}

/// The action the controller takes for a live count and a target.
///
/// While no zone exists the whole step is skipped: the controller holds,
/// whether the population is below its target or above it.
pub open spec fn planned_action(live: usize, target: usize, zone_present: bool) -> PopulationAction {
    if !zone_present || live == target {
        PopulationAction::Hold
    } else if live < target {
        PopulationAction::Spawn(batch_size((target - live) as nat) as usize)
    } else {
        PopulationAction::Despawn(batch_size((live - target) as nat) as usize)
    }
}

/// The live count once `action` has been carried out in full.
pub open spec fn applied(live: usize, action: PopulationAction) -> int {
    match action {
        PopulationAction::Spawn(n) => live + n,
        PopulationAction::Despawn(n) => live - n,
        PopulationAction::Hold => live as int,
    }
}

/// The live count after one tick in which a zone exists and the planned
/// action is carried out in full.
pub open spec fn tick(live: usize, target: usize) -> usize {
    applied(live, planned_action(live, target, true)) as usize
}

/// The live count after `ticks` such ticks.
pub open spec fn live_after(live: usize, target: usize, ticks: nat) -> usize
    decreases ticks,
{
    if ticks == 0 {
        live
    } else {
        live_after(tick(live, target), target, (ticks - 1) as nat)
    }
}

/// The distance between a live count and its target.
pub open spec fn gap(live: usize, target: usize) -> nat {
    if live <= target {
        (target - live) as nat
    } else {
        (live - target) as nat
    }
}

/// The number of binary digits of `n`: how often it can be halved before it
/// reaches zero.
pub open spec fn bit_length(n: nat) -> nat
    decreases n,
{
    if n == 0 {
        0
    } else {
        1 + bit_length(n / 2)
    }
}

/// A tenth of `gap`, rounded up.
pub fn batch(gap: usize) -> (n: usize)
    ensures
        n == batch_size(gap as nat),
        gap > 0 ==> 1 <= n <= gap,
{
    if gap % 10 == 0 {
        gap / 10
    } else {
        gap / 10 + 1
    }
}

/// Decides this tick's population change from the live count, the target and
/// whether a zone exists. Without a zone the tick changes nothing.
pub fn maintain_boid_population(live: usize, target: usize, zone_present: bool) -> (action:
    PopulationAction)
    ensures
        action == planned_action(live, target, zone_present),
        action matches PopulationAction::Spawn(n) ==> 1 <= n && live + n <= target,
        action matches PopulationAction::Despawn(n) ==> 1 <= n && target <= live - n,
        action is Hold <==> live == target || !zone_present,
{
    if !zone_present || live == target {
        PopulationAction::Hold
    } else if live < target {
        PopulationAction::Spawn(batch(target - live))
    } else {
        PopulationAction::Despawn(batch(live - target))
    }
}

/// One tick moves the live count strictly toward the target and never past it.
pub proof fn lemma_tick_never_overshoots(live: usize, target: usize)
    ensures
        live < target ==> live < tick(live, target) <= target,
        live > target ==> target <= tick(live, target) < live,
        live == target ==> tick(live, target) == target,
        gap(tick(live, target), target) == gap(live, target) - batch_size(gap(live, target)),
{
}

/// However many ticks pass, the live count stays between where it started and
/// the target, and the remaining gap never grows.
pub proof fn lemma_never_overshoots(live: usize, target: usize, ticks: nat)
    ensures
        live <= target ==> live <= live_after(live, target, ticks) <= target,
        live >= target ==> target <= live_after(live, target, ticks) <= live,
        gap(live_after(live, target, ticks), target) <= gap(live, target),
    decreases ticks,
{
    if ticks > 0 {
        lemma_tick_never_overshoots(live, target);
        lemma_never_overshoots(tick(live, target), target, (ticks - 1) as nat);
    }
}

/// A population that has reached its target stays there.
pub proof fn lemma_settled_stays(target: usize, ticks: nat)
    ensures
        live_after(target, target, ticks) == target,
    decreases ticks,
{
    if ticks > 0 {
        lemma_settled_stays(target, (ticks - 1) as nat);
    }
}

proof fn lemma_live_after_split(live: usize, target: usize, a: nat, b: nat)
    ensures
        live_after(live, target, a + b) == live_after(live_after(live, target, a), target, b),
    decreases a,
{
    if a > 0 {
        lemma_live_after_split(tick(live, target), target, (a - 1) as nat, b);
    }
}

proof fn lemma_seven_ticks_halve(live: usize, target: usize)
    ensures
        2 * gap(live_after(live, target, 7), target) <= gap(live, target),
{
    reveal_with_fuel(live_after, 8);
    let l1 = tick(live, target);
    let l2 = tick(l1, target);
    let l3 = tick(l2, target);
    let l4 = tick(l3, target);
    let l5 = tick(l4, target);
    let l6 = tick(l5, target);
    let l7 = tick(l6, target);
    lemma_tick_never_overshoots(live, target);
    lemma_tick_never_overshoots(l1, target);
    lemma_tick_never_overshoots(l2, target);
    lemma_tick_never_overshoots(l3, target);
    lemma_tick_never_overshoots(l4, target);
    lemma_tick_never_overshoots(l5, target);
    lemma_tick_never_overshoots(l6, target);
    assert(live_after(live, target, 7) == l7);
    assert(10 * gap(l1, target) <= 9 * gap(live, target));
    assert(10 * gap(l2, target) <= 9 * gap(l1, target));
    assert(10 * gap(l3, target) <= 9 * gap(l2, target));
    assert(10 * gap(l4, target) <= 9 * gap(l3, target));
    assert(10 * gap(l5, target) <= 9 * gap(l4, target));
    assert(10 * gap(l6, target) <= 9 * gap(l5, target));
    assert(10 * gap(l7, target) <= 9 * gap(l6, target));
}

/// The population reaches its target exactly, within seven ticks for every
/// binary digit of the initial gap, and then stays there.
pub proof fn lemma_population_converges(live: usize, target: usize, ticks: nat)
    requires
        ticks >= 7 * bit_length(gap(live, target)),
    ensures
        live_after(live, target, ticks) == target,
    decreases gap(live, target),
{
    let g = gap(live, target);
    if g == 0 {
        lemma_settled_stays(target, ticks);
    } else {
        let mid = live_after(live, target, 7);
        lemma_seven_ticks_halve(live, target);
        lemma_bit_length_monotone(gap(mid, target), g / 2);
        lemma_live_after_split(live, target, 7, (ticks - 7) as nat);
        lemma_population_converges(mid, target, (ticks - 7) as nat);
    }
}

proof fn lemma_bit_length_monotone(a: nat, b: nat)
    requires
        a <= b,
    ensures
        bit_length(a) <= bit_length(b),
    decreases b,
{
    if a > 0 {
        lemma_bit_length_monotone(a / 2, b / 2);
    }
}

} // verus!
