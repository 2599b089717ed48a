//! The discrete decisions of the flocking update: which candidates an agent
//! considers at all, what it makes of each one, and which blends it applies
//! to its facing, in which order. The geometry behind the tests and the
//! blending itself work on real numbers and lie with the caller.

use vstd::prelude::*;

verus! {

/// What an agent makes of one candidate.
#[derive(Clone, Copy, Debug, PartialEq, Eq, Structural)]
pub enum Sighting {
    /// Not visible: the candidate contributes nothing.
    Unseen,
    /// Visible, at a comfortable distance: it contributes its facing and its
    /// position.
    Seen,
    /// Visible and too close: it also contributes a push away from it.
    Crowding,
}

/// One blend of an agent's facing toward a target angle.
#[derive(Clone, Copy, Debug, PartialEq, Eq, Structural)]
pub enum Signal {
    /// Toward the average facing of the visible neighbours.
    Alignment,
    /// Toward the centroid of the visible neighbours.
    Cohesion,
    /// Away from the neighbours that crowd the agent.
    Separation,
}

/// The candidate an index entry stands for, unless the entry names no agent
/// or names the asking agent itself.
pub open spec fn other_than(own: u64) -> spec_fn(Option<u64>) -> Option<u64> {
    |entry: Option<u64>|
        match entry {
            Some(id) if id != own => Some(id),
            _ => None,
        }
}

/// The rule of visibility. A candidate at the agent's own position has no
/// direction and is never seen. Otherwise it is seen when it lies inside the
/// vision cone and inside the vision radius, and it crowds the agent when it
/// is seen and lies inside the crowding radius as well.
pub open spec fn sighting_of(coincident: bool, in_cone: bool, in_range: bool, in_crowd: bool)
    -> Sighting {
    if coincident || !in_cone || !in_range {
        Sighting::Unseen
    } else if in_crowd {
        Sighting::Crowding
    } else {
        Sighting::Seen
    }
}

/// The blends applied to an agent's facing, in the order of application,
/// for `visible` visible neighbours of which `crowding` crowd it.
///
/// With no visible neighbour nothing is applied and the facing stays as it
/// is. Otherwise alignment comes first and cohesion second; separation comes
/// last, and only where at least one neighbour crowds the agent.
pub open spec fn blend_order(visible: nat, crowding: nat) -> Seq<Signal> {
    if visible == 0 {
        Seq::empty()
    } else if crowding == 0 {
        seq![Signal::Alignment, Signal::Cohesion]
    } else {
        seq![Signal::Alignment, Signal::Cohesion, Signal::Separation]
    }
}

/// The blends applied where the direction of a target may be missing: the
/// order of `blend_order`, without cohesion when the centroid of the visible
/// neighbours lies on the agent itself. Such a centroid has no direction
/// from the agent, so there is nothing to turn toward.
pub open spec fn steering_order(visible: nat, crowding: nat, centroid_coincident: bool) -> Seq<
    Signal,
> {
    if visible == 0 {
        Seq::empty()
    } else {
        seq![Signal::Alignment] + (if centroid_coincident {
            Seq::empty()
        } else {
            seq![Signal::Cohesion]
        }) + (if crowding == 0 {
            Seq::empty()
        } else {
            seq![Signal::Separation]
        })
    }
}

/// How many of the candidates an agent has looked at are visible, and how
/// many of those crowd it.
#[derive(Clone, Copy, Debug, PartialEq, Eq, Structural)]
pub struct Tally {
    pub visible: usize,
    pub crowding: usize,
}

/// The number of visible candidates among `sightings`: those seen at a
/// comfortable distance and those that crowd.
pub open spec fn visible_count(sightings: Seq<Sighting>) -> nat {
    sightings.filter(|s: Sighting| s != Sighting::Unseen).len()
}

/// The number of crowding candidates among `sightings`.
pub open spec fn crowding_count(sightings: Seq<Sighting>) -> nat {
    sightings.filter(|s: Sighting| s == Sighting::Crowding).len()
}

/// The agents among the entries of a neighbour query that are not the asking
/// agent `own`, in the order of the entries.
pub fn other_candidates(found: &Vec<Option<u64>>, own: u64) -> (others: Vec<u64>)
    ensures
        others@ == found@.filter_map(other_than(own)),
{
    let mut others: Vec<u64> = Vec::new();
    let mut i: usize = 0;
    while i < found.len()
        invariant
            i <= found.len(),
            others@ == found@.take(i as int).filter_map(other_than(own)),
        decreases found.len() - i,
    {
        proof {
            found@.lemma_filter_map_take_succ(other_than(own), i as int);
        }
        match found[i] {
            Some(id) => {
                if id != own {
                    others.push(id);
                }
            },
            None => {},
        }
        i += 1;
    }
    assert(found@.take(found.len() as int) =~= found@);
    others
}

/// Classifies one candidate from the outcome of the four geometric tests.
pub fn classify(coincident: bool, in_cone: bool, in_range: bool, in_crowd: bool) -> (sighting:
    Sighting)
    ensures
        sighting == sighting_of(coincident, in_cone, in_range, in_crowd),
{
    if coincident || !in_cone || !in_range {
        Sighting::Unseen
    } else if in_crowd {
        Sighting::Crowding
    } else {
        Sighting::Seen
    }
}

/// Counts the visible and the crowding candidates among `sightings`.
pub fn tally(sightings: &Vec<Sighting>) -> (counts: Tally)
    ensures
        counts.visible == visible_count(sightings@),
        counts.crowding == crowding_count(sightings@),
        counts.crowding <= counts.visible <= sightings@.len(),
{
    let ghost is_visible = |s: Sighting| s != Sighting::Unseen;
    let ghost is_crowding = |s: Sighting| s == Sighting::Crowding;
    let mut counts = Tally { visible: 0, crowding: 0 };
    let mut i: usize = 0;
    assert(sightings@.take(0).filter(is_visible) =~= Seq::empty()
        && sightings@.take(0).filter(is_crowding) =~= Seq::empty()) by {
        reveal(Seq::filter);
    }
    while i < sightings.len()
        invariant
            i <= sightings.len(),
            is_visible == |s: Sighting| s != Sighting::Unseen,
            is_crowding == |s: Sighting| s == Sighting::Crowding,
            counts.visible == sightings@.take(i as int).filter(is_visible).len(),
            counts.crowding == sightings@.take(i as int).filter(is_crowding).len(),
            counts.crowding <= counts.visible <= i,
        decreases sightings.len() - i,
    {
        proof {
            assert(sightings@.take(i + 1) =~= sightings@.take(i as int).push(sightings@[i as int]));
            sightings@.take(i as int).lemma_filter_push(sightings@[i as int], is_visible);
            sightings@.take(i as int).lemma_filter_push(sightings@[i as int], is_crowding);
        }
        match sightings[i] {
            Sighting::Unseen => {},
            Sighting::Seen => {
                counts.visible += 1;
            },
            Sighting::Crowding => {
                counts.visible += 1;
                counts.crowding += 1;
            },
        }
        i += 1;
    }
    assert(sightings@.take(sightings.len() as int) =~= sightings@);
    counts
}

/// The blends to apply to an agent's facing this tick, first to last.
pub fn blend_plan(visible: usize, crowding: usize) -> (plan: Vec<Signal>)
    ensures
        plan@ == blend_order(visible as nat, crowding as nat),
{
    let mut plan: Vec<Signal> = Vec::new();
    if visible > 0 {
        plan.push(Signal::Alignment);
        plan.push(Signal::Cohesion);
        if crowding > 0 {
            plan.push(Signal::Separation);
        }
    }
    assert(plan@ =~= blend_order(visible as nat, crowding as nat));
    plan
}

/// The blends to apply to an agent's facing this tick, first to last, given
/// whether the centroid of its visible neighbours coincides with its own
/// position.
pub fn steering_plan(visible: usize, crowding: usize, centroid_coincident: bool) -> (plan: Vec<
    Signal,
>)
    ensures
        plan@ == steering_order(visible as nat, crowding as nat, centroid_coincident),
{
    let mut plan: Vec<Signal> = Vec::new();
    if visible > 0 {
        plan.push(Signal::Alignment);
        if !centroid_coincident {
            plan.push(Signal::Cohesion);
        }
        if crowding > 0 {
            plan.push(Signal::Separation);
        }
    }
    assert(plan@ =~= steering_order(visible as nat, crowding as nat, centroid_coincident));
    plan
}

/// An agent that sees no neighbour applies no blend: its facing after the
/// tick is its facing before it.
pub proof fn lemma_isolated_agent_keeps_facing(sightings: Seq<Sighting>)
    requires
        forall|i: int| 0 <= i < sightings.len() ==> sightings[i] == Sighting::Unseen,
    ensures
        blend_order(visible_count(sightings), crowding_count(sightings)) == Seq::<Signal>::empty(),
{
    let is_visible = |s: Sighting| s != Sighting::Unseen;
    let kept = sightings.filter(is_visible);
    if kept.len() > 0 {
        sightings.lemma_filter_pred(is_visible, 0);
        sightings.lemma_filter_contains_rev(is_visible, kept[0]);
    }
}

/// Separation is never applied without alignment and cohesion before it, and
/// whatever is applied starts with alignment followed by cohesion.
pub proof fn lemma_blend_order_fixed(visible: nat, crowding: nat)
    ensures
        blend_order(visible, crowding).len() == 0 <==> visible == 0,
        visible > 0 ==> blend_order(visible, crowding)[0] == Signal::Alignment && blend_order(
            visible,
            crowding,
        )[1] == Signal::Cohesion,
        blend_order(visible, crowding).contains(Signal::Separation) <==> visible > 0 && crowding
            > 0,
{
    let order = blend_order(visible, crowding);
    if visible > 0 && crowding > 0 {
        assert(order[2] == Signal::Separation);
    }
}

/// Where the centroid has a direction the steering order is the blend order;
/// where it has none, it is the blend order with cohesion left out.
pub proof fn lemma_steering_order(visible: nat, crowding: nat, centroid_coincident: bool)
    ensures
        !centroid_coincident ==> steering_order(visible, crowding, centroid_coincident)
            == blend_order(visible, crowding),
        centroid_coincident ==> steering_order(visible, crowding, centroid_coincident)
            == blend_order(visible, crowding).remove_value(Signal::Cohesion),
        centroid_coincident ==> !steering_order(visible, crowding, centroid_coincident).contains(
            Signal::Cohesion,
        ),
{
    let order = blend_order(visible, crowding);
    let steered = steering_order(visible, crowding, centroid_coincident);
    if !centroid_coincident {
        assert(steered =~= order);
    } else if visible > 0 {
        order.index_of_first_ensures(Signal::Cohesion);
        assert(order[1] == Signal::Cohesion);
        assert(order.index_of_first(Signal::Cohesion) == Some(1int));
        assert(steered =~= order.remove(1));
    } else {
        order.index_of_first_ensures(Signal::Cohesion);
    }
}

/// An agent amid neighbours that balance each other only aligns: with every
/// neighbour seen at a comfortable distance and their centroid on the agent
/// itself, the one blend applied is alignment.
pub proof fn lemma_balanced_neighbours_only_align(sightings: Seq<Sighting>)
    requires
        sightings.len() > 0,
        forall|i: int| 0 <= i < sightings.len() ==> sightings[i] == Sighting::Seen,
    ensures
        steering_order(visible_count(sightings), crowding_count(sightings), true)
            == seq![Signal::Alignment],
{
    let is_visible = |s: Sighting| s != Sighting::Unseen;
    let is_crowding = |s: Sighting| s == Sighting::Crowding;
    sightings.lemma_filter_contains(is_visible, 0);
    let crowders = sightings.filter(is_crowding);
    if crowders.len() > 0 {
        sightings.lemma_filter_pred(is_crowding, 0);
        sightings.lemma_filter_contains_rev(is_crowding, crowders[0]);
    }
    assert(steering_order(visible_count(sightings), crowding_count(sightings), true)
        =~= seq![Signal::Alignment]);
}

} // verus!
