//! One bucket of the grid: a fixed number of slots, each empty or holding the
//! identity of one agent.

use vstd::prelude::*;

verus! {

/// The first empty slot, if there is one.
pub open spec fn first_free(slots: Seq<Option<u64>>) -> Option<int> {
    slots.index_of_first(None)
}

/// The first slot that holds `id`, if there is one.
pub open spec fn first_holding(slots: Seq<Option<u64>>, id: u64) -> Option<int> {
    slots.index_of_first(Some(id))
}

/// Whether every slot is taken.
pub open spec fn is_full(slots: Seq<Option<u64>>) -> bool {
    forall|i: int| 0 <= i < slots.len() ==> (#[trigger] slots[i]) is Some
}

/// The identities held, in slot order.
pub open spec fn occupants(slots: Seq<Option<u64>>) -> Seq<u64> {
    slots.filter_map(|slot: Option<u64>| slot)
}

/// The slots after `id` has been put into the first empty one; unchanged when
/// all are taken.
pub open spec fn cell_insert(slots: Seq<Option<u64>>, id: u64) -> Seq<Option<u64>> {
    match first_free(slots) {
        Some(i) => slots.update(i, Some(id)),
        None => slots,
    }
}

/// The slots after the first one holding `id` has been emptied; unchanged
/// when none holds it.
pub open spec fn cell_remove(slots: Seq<Option<u64>>, id: u64) -> Seq<Option<u64>> {
    match first_holding(slots, id) {
        Some(i) => slots.update(i, None),
        None => slots,
    }
}

/// What `first_free` returns: the least index of an empty slot, and `None`
/// exactly for a full cell.
pub proof fn lemma_first_free(slots: Seq<Option<u64>>)
    ensures
        match first_free(slots) {
            Some(i) => {
                &&& 0 <= i < slots.len()
                &&& slots[i] is None
                &&& forall|j: int| 0 <= j < i ==> (#[trigger] slots[j]) is Some
                &&& !is_full(slots)
            },
            None => is_full(slots),
        },
{
    slots.index_of_first_ensures(None);
    match first_free(slots) {
        Some(i) => {
            assert forall|j: int| 0 <= j < i implies (#[trigger] slots[j]) is Some by {
                assert(slots[j] != None::<u64>);
            }
        },
        None => {
            assert forall|j: int| 0 <= j < slots.len() implies (#[trigger] slots[j]) is Some by {
                if slots[j] is None {
                    assert(slots[j] == None::<u64>);
                    assert(slots.contains(None));
                }
            }
        },
    }
}

/// What `first_holding` returns: the least index of a slot holding `id`, and
/// `None` exactly when no slot holds it.
pub proof fn lemma_first_holding(slots: Seq<Option<u64>>, id: u64)
    ensures
        match first_holding(slots, id) {
            Some(i) => {
                &&& 0 <= i < slots.len()
                &&& slots[i] == Some(id)
                &&& forall|j: int| 0 <= j < i ==> (#[trigger] slots[j]) != Some(id)
                &&& slots.contains(Some(id))
            },
            None => !slots.contains(Some(id)),
        },
{
    slots.index_of_first_ensures(Some(id));
}

/// A fixed-capacity bucket of agent identities.
#[derive(Clone, Copy)]
pub struct ProximityGridCell<const SLOT_COUNT: usize> {
    slots: [Option<u64>; SLOT_COUNT],
}

impl<const SLOT_COUNT: usize> View for ProximityGridCell<SLOT_COUNT> {
    type V = Seq<Option<u64>>;

    closed spec fn view(&self) -> Seq<Option<u64>> {
        self.slots@
    }
}

impl<const SLOT_COUNT: usize> Default for ProximityGridCell<SLOT_COUNT> {
    /// A cell with every slot empty.
    fn default() -> (cell: Self)
        ensures
            cell@ == Seq::new(SLOT_COUNT as nat, |i: int| None::<u64>),
    {
        let cell = ProximityGridCell { slots: [None; SLOT_COUNT] };
        assert(cell@ =~= Seq::new(SLOT_COUNT as nat, |i: int| None::<u64>));
        cell
    }
}

impl<const SLOT_COUNT: usize> ProximityGridCell<SLOT_COUNT> {
    /// Every cell has exactly `SLOT_COUNT` slots.
    pub proof fn lemma_capacity(&self)
        ensures
            self@.len() == SLOT_COUNT,
    {
    }

    /// Puts `item` into the first empty slot and returns that slot's index;
    /// returns `None`, changing nothing, when every slot is taken.
    pub fn try_insert(&mut self, item: u64) -> (slot: Option<usize>)
        ensures
            final(self)@ == cell_insert(old(self)@, item),
            match slot {
                Some(i) => first_free(old(self)@) == Some(i as int),
                None => first_free(old(self)@) is None,
            },
            slot is None <==> is_full(old(self)@),
    {
        let mut index: usize = 0;
        while index < SLOT_COUNT
            invariant
                index <= SLOT_COUNT,
                *self == *old(self),
                forall|j: int| 0 <= j < index ==> (#[trigger] self@[j]) is Some,
            decreases SLOT_COUNT - index,
        {
            if self.slots[index].is_none() {
                proof {
                    lemma_first_free(self@);
                }
                self.slots[index] = Some(item);
                return Some(index);
            }
            index += 1;
        }
        proof {
            lemma_first_free(self@);
        }
        None
    }

    /// Empties the first slot that holds `item`; returns whether there was one.
    pub fn try_remove(&mut self, item: u64) -> (removed: bool)
        ensures
            final(self)@ == cell_remove(old(self)@, item),
            removed <==> old(self)@.contains(Some(item)),
    {
        let mut index: usize = 0;
        while index < SLOT_COUNT
            invariant
                index <= SLOT_COUNT,
                *self == *old(self),
                forall|j: int| 0 <= j < index ==> (#[trigger] self@[j]) != Some(item),
            decreases SLOT_COUNT - index,
        {
            let held = self.slots[index];
            if held == Some(item) {
                proof {
                    lemma_first_holding(self@, item);
                }
                self.slots[index] = None;
                return true;
            }
            index += 1;
        }
        proof {
            lemma_first_holding(self@, item);
        }
        false
    }

    /// The number of slots taken.
    pub fn count(&self) -> (n: usize)
        ensures
            n == occupants(self@).len(),
            n <= SLOT_COUNT,
    {
        let mut n: usize = 0;
        let mut index: usize = 0;
        while index < SLOT_COUNT
            invariant
                index <= SLOT_COUNT,
                n == occupants(self@.take(index as int)).len(),
                n <= index,
            decreases SLOT_COUNT - index,
        {
            proof {
                self@.lemma_filter_map_take_succ(|slot: Option<u64>| slot, index as int);
            }
            if self.slots[index].is_some() {
                n += 1;
            }
            index += 1;
        }
        assert(self@.take(SLOT_COUNT as int) =~= self@);
        n
    }

    /// Appends the identities held, in slot order, to `out`.
    pub fn append_occupants(&self, out: &mut Vec<u64>)
        ensures
            final(out)@ == old(out)@ + occupants(self@),
    {
        let mut index: usize = 0;
        while index < SLOT_COUNT
            invariant
                index <= SLOT_COUNT,
                out@ == old(out)@ + occupants(self@.take(index as int)),
            decreases SLOT_COUNT - index,
        {
            proof {
                self@.lemma_filter_map_take_succ(|slot: Option<u64>| slot, index as int);
            }
            let held = self.slots[index];
            match held {
                Some(id) => {
                    out.push(id);
                },
                None => {},
            }
            index += 1;
        }
        assert(self@.take(SLOT_COUNT as int) =~= self@);
    }
}

} // verus!
