//! What holds of the grid across several operations: which cells a query
//! draws from, and which sequences of insertions and removals leave every
//! query's answer as it was.

use vstd::prelude::*;
use vstd::multiset::Multiset;
use vstd::seq_lib::{lemma_multiset_commutative, to_multiset_build};
use crate::grid_cell::{
    cell_insert, cell_remove, first_free, first_holding, is_full, lemma_first_free,
    lemma_first_holding, occupants,
};
use crate::proximity_grid::{block, Cells, ProximityGrid};

verus! {

/// The identities a slot contributes: one, or none.
pub open spec fn slot_bag(slot: Option<u64>) -> Multiset<u64> {
    match slot {
        Some(id) => Multiset::singleton(id),
        None => Multiset::empty(),
    }
}

/// The identities a cell holds, each as often as it is held, without regard
/// to the slots they sit in.
pub open spec fn occupant_bag(slots: Seq<Option<u64>>) -> Multiset<u64> {
    occupants(slots).to_multiset()
}

proof fn lemma_occupants_push(slots: Seq<Option<u64>>, slot: Option<u64>)
    ensures
        occupant_bag(slots.push(slot)) == occupant_bag(slots).add(slot_bag(slot)),
{
    broadcast use vstd::multiset::group_multiset_axioms;

    let longer = slots.push(slot);
    assert(longer.drop_last() =~= slots);
    assert(longer.last() == slot);
    match slot {
        Some(id) => {
            assert(occupants(longer) =~= occupants(slots).push(id));
            to_multiset_build(occupants(slots), id);
        },
        None => {},
    }
}

/// Overwriting one slot takes out what the slot held and puts in what it
/// holds now.
pub proof fn lemma_occupants_update(slots: Seq<Option<u64>>, k: int, slot: Option<u64>)
    requires
        0 <= k < slots.len(),
    ensures
        occupant_bag(slots.update(k, slot)).add(slot_bag(slots[k])) == occupant_bag(slots).add(
            slot_bag(slot),
        ),
    decreases slots.len(),
{
    broadcast use vstd::multiset::group_multiset_axioms;

    let shorter = slots.drop_last();
    let changed = slots.update(k, slot);
    assert(slots =~= shorter.push(slots.last()));
    lemma_occupants_push(shorter, slots.last());
    if k == slots.len() - 1 {
        assert(changed =~= shorter.push(slot));
        lemma_occupants_push(shorter, slot);
    } else {
        assert(changed =~= shorter.update(k, slot).push(slots.last()));
        lemma_occupants_push(shorter.update(k, slot), slots.last());
        lemma_occupants_update(shorter, k, slot);
    }
    assert forall|v: u64|
        occupant_bag(changed).add(slot_bag(slots[k])).count(v) == occupant_bag(slots).add(
            slot_bag(slot),
        ).count(v) by {
        if k != slots.len() - 1 {
            assert(occupant_bag(shorter.update(k, slot)).add(slot_bag(shorter[k])).count(v)
                == occupant_bag(shorter).add(slot_bag(slot)).count(v));
        }
    }
    assert(occupant_bag(changed).add(slot_bag(slots[k])) =~= occupant_bag(slots).add(
        slot_bag(slot),
    ));
}

/// A cell holds an identity among its occupants exactly when one of its
/// slots holds it.
pub proof fn lemma_occupants_contains(slots: Seq<Option<u64>>, id: u64)
    ensures
        occupants(slots).contains(id) <==> slots.contains(Some(id)),
    decreases slots.len(),
{
    if slots.len() > 0 {
        let shorter = slots.drop_last();
        lemma_occupants_contains(shorter, id);
        assert(slots =~= shorter.push(slots.last()));
        if slots.contains(Some(id)) {
            let i = choose|i: int| 0 <= i < slots.len() && slots[i] == Some(id);
            if i < slots.len() - 1 {
                assert(shorter[i] == Some(id));
                let j = choose|j: int|
                    0 <= j < occupants(shorter).len() && occupants(shorter)[j] == id;
                assert(occupants(slots)[j] == id);
            } else {
                assert(occupants(slots).last() == id);
            }
        }
        if occupants(slots).contains(id) {
            let j = choose|j: int| 0 <= j < occupants(slots).len() && occupants(slots)[j] == id;
            if j < occupants(shorter).len() {
                assert(occupants(shorter)[j] == id);
                let i = choose|i: int| 0 <= i < shorter.len() && shorter[i] == Some(id);
                assert(slots[i] == Some(id));
            } else {
                assert(slots[slots.len() - 1] == Some(id));
            }
        }
    }
}

/// Inserting an identity into a cell with an empty slot and then removing it
/// leaves the cell holding what it held.
pub proof fn lemma_cell_insert_then_remove(slots: Seq<Option<u64>>, id: u64)
    requires
        !is_full(slots),
    ensures
        occupant_bag(cell_remove(cell_insert(slots, id), id)) == occupant_bag(slots),
        !slots.contains(Some(id)) ==> cell_remove(cell_insert(slots, id), id) == slots,
{
    broadcast use vstd::multiset::group_multiset_axioms;

    lemma_first_free(slots);
    let i = first_free(slots).unwrap();
    let filled = cell_insert(slots, id);
    lemma_occupants_update(slots, i, Some(id));
    lemma_first_holding(filled, id);
    assert(filled[i] == Some(id));
    let j = first_holding(filled, id).unwrap();
    let emptied = cell_remove(filled, id);
    lemma_occupants_update(filled, j, None);
    assert forall|v: u64| occupant_bag(emptied).count(v) == occupant_bag(slots).count(v) by {
        assert(occupant_bag(emptied).add(slot_bag(filled[j])).count(v) == occupant_bag(
            filled,
        ).add(slot_bag(None)).count(v));
        assert(occupant_bag(filled).add(slot_bag(slots[i])).count(v) == occupant_bag(slots).add(
            slot_bag(Some(id)),
        ).count(v));
    }
    assert(occupant_bag(emptied) =~= occupant_bag(slots));
    if !slots.contains(Some(id)) {
        if j != i {
            assert(slots[j] == Some(id));
        }
        assert(emptied =~= slots);
    }
}

/// Removing an identity that a cell holds and inserting it again leaves the
/// cell holding what it held.
pub proof fn lemma_cell_remove_then_insert(slots: Seq<Option<u64>>, id: u64)
    requires
        slots.contains(Some(id)),
    ensures
        !is_full(cell_remove(slots, id)),
        occupant_bag(cell_insert(cell_remove(slots, id), id)) == occupant_bag(slots),
{
    broadcast use vstd::multiset::group_multiset_axioms;

    lemma_first_holding(slots, id);
    let j = first_holding(slots, id).unwrap();
    let emptied = cell_remove(slots, id);
    lemma_occupants_update(slots, j, None);
    assert(emptied[j] is None);
    lemma_first_free(emptied);
    let i = first_free(emptied).unwrap();
    lemma_occupants_update(emptied, i, Some(id));
    let refilled = cell_insert(emptied, id);
    assert forall|v: u64| occupant_bag(refilled).count(v) == occupant_bag(slots).count(v) by {
        assert(occupant_bag(refilled).add(slot_bag(emptied[i])).count(v) == occupant_bag(
            emptied,
        ).add(slot_bag(Some(id))).count(v));
        assert(occupant_bag(emptied).add(slot_bag(slots[j])).count(v) == occupant_bag(slots).add(
            slot_bag(None),
        ).count(v));
    }
    assert(occupant_bag(refilled) =~= occupant_bag(slots));
}

/// Inserting into a cell adds one copy of the identity where a slot is
/// empty, and touches no other identity.
pub proof fn lemma_cell_insert_count(slots: Seq<Option<u64>>, id: u64, other: u64)
    ensures
        occupant_bag(cell_insert(slots, id)).count(other) == occupant_bag(slots).count(other) + (
        if other == id && !is_full(slots) {
            1int
        } else {
            0int
        }),
{
    broadcast use vstd::multiset::group_multiset_axioms;

    lemma_first_free(slots);
    if let Some(i) = first_free(slots) {
        lemma_occupants_update(slots, i, Some(id));
        assert(occupant_bag(cell_insert(slots, id)).add(slot_bag(slots[i])).count(other)
            == occupant_bag(slots).add(slot_bag(Some(id))).count(other));
    }
}

/// Removing from a cell takes out one copy of the identity where the cell
/// holds one, and touches no other identity.
pub proof fn lemma_cell_remove_count(slots: Seq<Option<u64>>, id: u64, other: u64)
    ensures
        occupant_bag(cell_remove(slots, id)).count(other) == occupant_bag(slots).count(other) - (
        if other == id && slots.contains(Some(id)) {
            1int
        } else {
            0int
        }),
        slots.contains(Some(id)) <==> occupant_bag(slots).count(id) > 0,
{
    broadcast use vstd::multiset::group_multiset_axioms;
    broadcast use vstd::seq_lib::to_multiset_contains;

    lemma_first_holding(slots, id);
    lemma_occupants_contains(slots, id);
    if let Some(j) = first_holding(slots, id) {
        lemma_occupants_update(slots, j, None);
        assert(occupant_bag(cell_remove(slots, id)).add(slot_bag(slots[j])).count(other)
            == occupant_bag(slots).add(slot_bag(None)).count(other));
    }
}

/// Whether `c` lies in the three by three block centred on `(x, y)`.
pub open spec fn adjacent(x: int, y: int, c: (int, int)) -> bool {
    x - 1 <= c.0 <= x + 1 && y - 1 <= c.1 <= y + 1
}

proof fn lemma_flatten_contains(parts: Seq<Seq<u64>>, id: u64)
    ensures
        parts.flatten().contains(id) <==> exists|i: int|
            0 <= i < parts.len() && (#[trigger] parts[i]).contains(id),
    decreases parts.len(),
{
    if parts.len() == 0 {
        assert(parts.flatten() =~= Seq::empty());
    } else {
        let front = parts.drop_last();
        let back = parts.last();
        assert(parts =~= front.push(back));
        front.lemma_flatten_push(back);
        lemma_flatten_contains(front, id);
        let whole = parts.flatten();
        assert(whole =~= front.flatten() + back);
        if whole.contains(id) {
            let j = choose|j: int| 0 <= j < whole.len() && whole[j] == id;
            if j < front.flatten().len() {
                assert(front.flatten()[j] == id);
                let i = choose|i: int| 0 <= i < front.len() && (#[trigger] front[i]).contains(id);
                assert(parts[i].contains(id));
            } else {
                assert(back[j - front.flatten().len()] == id);
                assert(parts[parts.len() - 1].contains(id));
            }
        }
        if exists|i: int| 0 <= i < parts.len() && (#[trigger] parts[i]).contains(id) {
            let i = choose|i: int| 0 <= i < parts.len() && (#[trigger] parts[i]).contains(id);
            if i < front.len() {
                assert(front[i].contains(id));
                let j = choose|j: int| 0 <= j < front.flatten().len() && front.flatten()[j] == id;
                assert(whole[j] == id);
            } else {
                let j = choose|j: int| 0 <= j < back.len() && back[j] == id;
                assert(whole[front.flatten().len() + j] == id);
            }
        }
    }
}

proof fn lemma_flatten_bags(a: Seq<Seq<u64>>, b: Seq<Seq<u64>>)
    requires
        a.len() == b.len(),
        forall|i: int| 0 <= i < a.len() ==> (#[trigger] a[i]).to_multiset() == b[i].to_multiset(),
    ensures
        a.flatten().to_multiset() == b.flatten().to_multiset(),
    decreases a.len(),
{
    if a.len() == 0 {
        assert(a.flatten() =~= b.flatten());
    } else {
        assert(a =~= a.drop_last().push(a.last()));
        assert(b =~= b.drop_last().push(b.last()));
        a.drop_last().lemma_flatten_push(a.last());
        b.drop_last().lemma_flatten_push(b.last());
        assert forall|i: int| 0 <= i < a.drop_last().len() implies (#[trigger] a.drop_last()[i]).to_multiset()
            == b.drop_last()[i].to_multiset() by {
            assert(a[i].to_multiset() == b[i].to_multiset());
        }
        lemma_flatten_bags(a.drop_last(), b.drop_last());
        lemma_multiset_commutative(a.drop_last().flatten(), a.last());
        lemma_multiset_commutative(b.drop_last().flatten(), b.last());
        assert(a[a.len() - 1].to_multiset() == b[a.len() - 1].to_multiset());
    }
}

impl<const WIDTH: usize, const HEIGHT: usize, Marker> ProximityGrid<WIDTH, HEIGHT, Marker> {
    /// Two grids are query-equivalent when every query returns the same
    /// identities from both, each as often, in whatever order.
    pub open spec fn query_equivalent(a: Cells, b: Cells) -> bool {
        forall|x: int, y: int|
            #![trigger Self::candidates(a, x, y)]
            #![trigger Self::candidates(b, x, y)]
            Self::candidates(a, x, y).to_multiset() == Self::candidates(b, x, y).to_multiset()
    }

    /// The neighbourhood of `(x, y)` consists of exactly the cells of the
    /// grid that are adjacent to `(x, y)` or `(x, y)` itself.
    pub proof fn lemma_neighborhood_contains(x: int, y: int, c: (int, int))
        ensures
            Self::neighborhood(x, y).contains(c) <==> Self::in_bounds(c.0, c.1) && adjacent(x, y, c),
    {
        let inside = |c: (int, int)| Self::in_bounds(c.0, c.1);
        let around = block(x, y);
        if Self::neighborhood(x, y).contains(c) {
            let i = choose|i: int|
                0 <= i < around.filter(inside).len() && around.filter(inside)[i] == c;
            around.lemma_filter_pred(inside, i);
            around.lemma_filter_contains_rev(inside, c);
            let k = choose|k: int| 0 <= k < around.len() && around[k] == c;
            assert(adjacent(x, y, c));
        }
        if Self::in_bounds(c.0, c.1) && adjacent(x, y, c) {
            let k = (c.0 - x + 1) * 3 + (c.1 - y + 1);
            assert(around[k] == c);
            around.lemma_filter_contains(inside, k);
        }
    }

    /// Soundness of a query: every identity returned sits in a cell of the
    /// grid inside the three by three block around the queried cell. Nothing
    /// comes from a cell that is not adjacent.
    pub proof fn lemma_candidates_sound(cells: Cells, x: int, y: int, id: u64)
        requires
            Self::candidates(cells, x, y).contains(id),
        ensures
            exists|c: (int, int)|
                Self::in_bounds(c.0, c.1) && adjacent(x, y, c) && (#[trigger] cells[c]).contains(
                    Some(id),
                ),
    {
        let around = Self::neighborhood(x, y);
        let parts = around.map_values(|c: (int, int)| occupants(cells[c]));
        lemma_flatten_contains(parts, id);
        let i = choose|i: int| 0 <= i < parts.len() && (#[trigger] parts[i]).contains(id);
        let c = around[i];
        assert(around.contains(c));
        Self::lemma_neighborhood_contains(x, y, c);
        lemma_occupants_contains(cells[c], id);
        assert(cells[c].contains(Some(id)));
    }

    /// Completeness of a query at cell granularity: every identity held by
    /// a cell of the grid inside the block around the queried cell is
    /// returned. In particular a query at an agent's own cell returns the
    /// agent itself.
    pub proof fn lemma_candidates_complete(cells: Cells, x: int, y: int, c: (int, int), id: u64)
        requires
            Self::in_bounds(c.0, c.1),
            adjacent(x, y, c),
            cells[c].contains(Some(id)),
        ensures
            Self::candidates(cells, x, y).contains(id),
    {
        let around = Self::neighborhood(x, y);
        let parts = around.map_values(|c: (int, int)| occupants(cells[c]));
        Self::lemma_neighborhood_contains(x, y, c);
        let i = choose|i: int| 0 <= i < around.len() && around[i] == c;
        lemma_occupants_contains(cells[c], id);
        assert(parts[i].contains(id));
        lemma_flatten_contains(parts, id);
    }

    /// Grids whose cells hold the same identities, each as often, answer
    /// every query alike, wherever in a cell an identity sits.
    pub proof fn lemma_same_occupants_same_answers(a: Cells, b: Cells)
        requires
            forall|c: (int, int)|
                Self::in_bounds(c.0, c.1) ==> occupant_bag(#[trigger] a[c]) == occupant_bag(b[c]),
        ensures
            Self::query_equivalent(a, b),
    {
        assert forall|x: int, y: int|
            #![trigger Self::candidates(a, x, y)]
            #![trigger Self::candidates(b, x, y)]
            Self::candidates(a, x, y).to_multiset() == Self::candidates(b, x, y).to_multiset() by {
            let around = Self::neighborhood(x, y);
            let in_a = around.map_values(|c: (int, int)| occupants(a[c]));
            let in_b = around.map_values(|c: (int, int)| occupants(b[c]));
            assert forall|i: int| 0 <= i < in_a.len() implies (#[trigger] in_a[i]).to_multiset()
                == in_b[i].to_multiset() by {
                assert(around.contains(around[i]));
                Self::lemma_neighborhood_contains(x, y, around[i]);
                assert(occupant_bag(a[around[i]]) == occupant_bag(b[around[i]]));
            }
            lemma_flatten_bags(in_a, in_b);
        }
    }

    /// Round trip: after an insertion that succeeded, removing the same
    /// identity at the same cell leaves a grid that answers every query as
    /// the grid did before the insertion. Where the cell did not hold the
    /// identity already, the grid is the very same again.
    pub proof fn lemma_insert_then_remove(cells: Cells, id: u64, x: int, y: int)
        requires
            Self::in_bounds(x, y),
            !is_full(cells[(x, y)]),
        ensures
            Self::query_equivalent(
                Self::removed(Self::inserted(cells, id, x, y), id, x, y),
                cells,
            ),
            cells.dom().contains((x, y)) && !cells[(x, y)].contains(Some(id)) ==> Self::removed(
                Self::inserted(cells, id, x, y),
                id,
                x,
                y,
            ) == cells,
    {
        let after = Self::removed(Self::inserted(cells, id, x, y), id, x, y);
        lemma_cell_insert_then_remove(cells[(x, y)], id);
        Self::lemma_same_occupants_same_answers(after, cells);
        if cells.dom().contains((x, y)) && !cells[(x, y)].contains(Some(id)) {
            assert(after =~= cells);
        }
    }

    /// Re-homing within one cell: removing an identity from the cell that
    /// holds it and inserting it there again succeeds and leaves a grid that
    /// answers every query as before.
    pub proof fn lemma_remove_then_insert(cells: Cells, id: u64, x: int, y: int)
        requires
            Self::in_bounds(x, y),
            cells[(x, y)].contains(Some(id)),
        ensures
            !is_full(Self::removed(cells, id, x, y)[(x, y)]),
            Self::query_equivalent(
                Self::inserted(Self::removed(cells, id, x, y), id, x, y),
                cells,
            ),
    {
        let after = Self::inserted(Self::removed(cells, id, x, y), id, x, y);
        lemma_cell_remove_then_insert(cells[(x, y)], id);
        Self::lemma_same_occupants_same_answers(after, cells);
    }

    /// How often the cell at `c` holds `id`.
    pub open spec fn copies(cells: Cells, id: u64, c: (int, int)) -> nat {
        occupant_bag(cells[c]).count(id)
    }

    /// Whether `id` sits once in the cell that `record` names, and in no
    /// other cell of the grid; with no record, whether it sits in none.
    pub open spec fn at_home(cells: Cells, id: u64, record: Option<(usize, usize)>) -> bool {
        forall|c: (int, int)|
            Self::in_bounds(c.0, c.1) ==> #[trigger] Self::copies(cells, id, c) == (if Self::recorded_at(
                record,
                c.0,
                c.1,
            ) {
                1nat
            } else {
                0nat
            })
    }

    /// An agent recorded nowhere enters the grid once: after an insertion
    /// that succeeded it sits in the cell inserted into and in no other.
    pub proof fn lemma_insert_gives_one_home(cells: Cells, id: u64, x: usize, y: usize)
        requires
            Self::at_home(cells, id, None),
            Self::in_bounds(x as int, y as int),
            !is_full(cells[(x as int, y as int)]),
        ensures
            Self::at_home(Self::inserted(cells, id, x as int, y as int), id, Some((x, y))),
    {
        let after = Self::inserted(cells, id, x as int, y as int);
        assert forall|c: (int, int)| Self::in_bounds(c.0, c.1) implies #[trigger] Self::copies(
            after,
            id,
            c,
        ) == (if Self::recorded_at(Some((x, y)), c.0, c.1) {
            1nat
        } else {
            0nat
        }) by {
            assert(Self::copies(cells, id, c) == 0);
            lemma_cell_insert_count(cells[(x as int, y as int)], id, id);
        }
    }

    /// An agent that sits where its record says leaves the grid when it is
    /// removed there.
    pub proof fn lemma_remove_leaves_no_home(cells: Cells, id: u64, x: usize, y: usize)
        requires
            Self::at_home(cells, id, Some((x, y))),
        ensures
            Self::at_home(Self::removed(cells, id, x as int, y as int), id, None),
    {
        let after = Self::removed(cells, id, x as int, y as int);
        assert forall|c: (int, int)| Self::in_bounds(c.0, c.1) implies #[trigger] Self::copies(
            after,
            id,
            c,
        ) == 0nat by {
            assert(Self::copies(cells, id, c) == (if Self::recorded_at(Some((x, y)), c.0, c.1) {
                1nat
            } else {
                0nat
            }));
            lemma_cell_remove_count(cells[(x as int, y as int)], id, id);
        }
    }

    /// One cell at a time: an agent that sits exactly where its record says
    /// sits, after a move that succeeded, exactly in the cell moved to. The
    /// other agents stay where they were.
    pub proof fn lemma_move_keeps_one_home(
        cells: Cells,
        id: u64,
        record: Option<(usize, usize)>,
        x: usize,
        y: usize,
    )
        requires
            Self::at_home(cells, id, record),
            Self::in_bounds(x as int, y as int),
            Self::recorded_at(record, x as int, y as int) || !is_full(cells[(x as int, y as int)]),
        ensures
            Self::at_home(Self::moved(cells, id, record, x as int, y as int), id, Some((x, y))),
            forall|other: u64, c: (int, int)|
                other != id && Self::in_bounds(c.0, c.1) ==> #[trigger] Self::copies(
                    Self::moved(cells, id, record, x as int, y as int),
                    other,
                    c,
                ) == Self::copies(cells, other, c),
    {
        let after = Self::moved(cells, id, record, x as int, y as int);
        let dest = (x as int, y as int);
        assert forall|other: u64, c: (int, int)| Self::in_bounds(c.0, c.1) implies #[trigger] Self::copies(
            after,
            other,
            c,
        ) == (if other != id {
            Self::copies(cells, other, c)
        } else if c == dest {
            1nat
        } else {
            0nat
        }) by {
            assert(Self::copies(cells, id, c) == (if Self::recorded_at(record, c.0, c.1) {
                1nat
            } else {
                0nat
            }));
            assert(Self::copies(cells, id, dest) == (if Self::recorded_at(record, dest.0, dest.1) {
                1nat
            } else {
                0nat
            }));
            if !Self::recorded_at(record, x as int, y as int) {
                let entered = Self::inserted(cells, id, x as int, y as int);
                lemma_cell_insert_count(cells[dest], id, other);
                match record {
                    Some(old) => {
                        let left = (old.0 as int, old.1 as int);
                        lemma_cell_remove_count(entered[left], id, other);
                        lemma_cell_remove_count(entered[left], id, id);
                        if Self::in_bounds(left.0, left.1) {
                            assert(Self::copies(cells, id, left) == 1);
                            lemma_cell_remove_count(cells[left], id, id);
                        }
                    },
                    None => {},
                }
            }
        }
    }
}

} // verus!
