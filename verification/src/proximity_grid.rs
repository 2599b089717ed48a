//! The grid realisation of the spatial index: a fixed `WIDTH` by `HEIGHT`
//! array of cells, each a bounded bucket of agent identities.

use vstd::prelude::*;
use crate::grid_cell::{
    cell_insert, cell_remove, is_full, lemma_first_free, lemma_first_holding, occupants,
    ProximityGridCell,
};

verus! {

/// The number of slots in each cell of a grid.
pub const CELL_CAPACITY: usize = 10;

/// Why an insertion did not take place.
#[derive(Clone, Copy, Debug, PartialEq, Eq, Structural)]
pub enum GridError {
    /// The coordinates name no cell of the grid.
    OutOfBounds,
    /// Every slot of the cell is taken.
    CapacityExceeded,
}

/// Where an agent currently sits in the grid, if anywhere.
#[derive(Clone, Copy, Debug)]
pub struct ProximityGridStatus {
    pub inserted_at: Option<(usize, usize)>,
}

/// The contents of a grid: the slots of each cell, by the cell's coordinates.
pub type Cells = Map<(int, int), Seq<Option<u64>>>;

/// The three by three block of coordinates centred on `(x, y)`, column by
/// column: the first coordinate varies slowest.
pub open spec fn block(x: int, y: int) -> Seq<(int, int)> {
    Seq::new(9, |k: int| (x - 1 + k / 3, y - 1 + k % 3))
}

/// Machine coordinates read as mathematical ones.
pub open spec fn as_coordinates(cells: Seq<(usize, usize)>) -> Seq<(int, int)> {
    cells.map_values(|c: (usize, usize)| (c.0 as int, c.1 as int))
}

/// `value + step - 1` where that lies in `0..limit`.
fn shifted(value: usize, step: usize, limit: usize) -> (moved: Option<usize>)
    requires
        step <= 2,
    ensures
        match moved {
            Some(m) => m == value + step - 1 && m < limit,
            None => !(0 <= value + step - 1 < limit),
        },
{
    if step == 0 {
        if value > 0 && value - 1 < limit {
            Some(value - 1)
        } else {
            None
        }
    } else if value < limit && limit - value > step - 1 {
        Some(value + (step - 1))
    } else {
        None
    }
}

/// A bounded spatial index over `WIDTH * HEIGHT` cells.
///
/// `Marker` takes no part in what the grid does: it tells apart grids of one
/// size that index different populations.
pub struct ProximityGrid<const WIDTH: usize, const HEIGHT: usize, Marker = ()> {
    grid: Vec<ProximityGridCell<CELL_CAPACITY>>,
    _marker: std::marker::PhantomData<Marker>,
}

impl<const WIDTH: usize, const HEIGHT: usize, Marker> View for ProximityGrid<
    WIDTH,
    HEIGHT,
    Marker,
> {
    type V = Cells;

    closed spec fn view(&self) -> Cells {
        Map::new(
            |c: (int, int)| Self::in_bounds(c.0, c.1),
            |c: (int, int)| self.grid@[c.0 + c.1 * WIDTH]@,
        )
    }
}

impl<const WIDTH: usize, const HEIGHT: usize, Marker> ProximityGrid<WIDTH, HEIGHT, Marker> {
    /// Whether `(x, y)` names a cell of the grid.
    pub open spec fn in_bounds(x: int, y: int) -> bool {
        0 <= x < WIDTH && 0 <= y < HEIGHT
    }

    /// The representation invariant: one cell for each pair of coordinates.
    /// Every grid that `new` returns has it, and every method keeps it.
    pub closed spec fn wf(&self) -> bool {
        self.grid@.len() == WIDTH * HEIGHT
    }

    /// The shape of a grid's contents: one entry for each cell of the grid,
    /// each of `CELL_CAPACITY` slots.
    pub proof fn lemma_shape(&self)
        requires
            self.wf(),
        ensures
            forall|c: (int, int)| #[trigger] self@.dom().contains(c) <==> Self::in_bounds(c.0, c.1),
            forall|c: (int, int)|
                self@.dom().contains(c) ==> (#[trigger] self@[c]).len() == CELL_CAPACITY,
    {
        assert forall|c: (int, int)| self@.dom().contains(c) implies (#[trigger] self@[c]).len()
            == CELL_CAPACITY by {
            Self::lemma_index_in_range(c.0, c.1);
            self.grid@[c.0 + c.1 * WIDTH].lemma_capacity();
        }
    }

    /// The contents after `id` has been inserted at `(x, y)`.
    pub open spec fn inserted(cells: Cells, id: u64, x: int, y: int) -> Cells {
        if Self::in_bounds(x, y) {
            cells.insert((x, y), cell_insert(cells[(x, y)], id))
        } else {
            cells
        }
    }

    /// The contents after `id` has been removed at `(x, y)`.
    pub open spec fn removed(cells: Cells, id: u64, x: int, y: int) -> Cells {
        if Self::in_bounds(x, y) {
            cells.insert((x, y), cell_remove(cells[(x, y)], id))
        } else {
            cells
        }
    }

    /// The contents of a grid whose cells are all empty.
    pub open spec fn empty() -> Cells {
        Map::new(
            |c: (int, int)| Self::in_bounds(c.0, c.1),
            |c: (int, int)| Seq::new(CELL_CAPACITY as nat, |i: int| None::<u64>),
        )
    }

    /// A grid whose cells are all empty.
    pub fn new() -> (grid: Self)
        requires
            WIDTH * HEIGHT <= usize::MAX,
        ensures
            grid.wf(),
            grid@ == Self::empty(),
    {
        let total: usize = WIDTH * HEIGHT;
        let mut cells: Vec<ProximityGridCell<CELL_CAPACITY>> = Vec::new();
        let mut index: usize = 0;
        while index < total
            invariant
                index <= total,
                cells@.len() == index,
                forall|i: int|
                    0 <= i < index ==> (#[trigger] cells@[i])@ == Seq::new(
                        CELL_CAPACITY as nat,
                        |i: int| None::<u64>,
                    ),
            decreases total - index,
        {
            cells.push(ProximityGridCell::default());
            index += 1;
        }
        let grid = ProximityGrid { grid: cells, _marker: std::marker::PhantomData };
        proof {
            assert forall|c: (int, int)| #[trigger] grid@.dom().contains(c) implies grid@[c]
                == Self::empty()[c] by {
                Self::lemma_index_in_range(c.0, c.1);
            }
            assert(grid@ =~= Self::empty());
        }
        grid
    }

    proof fn lemma_index_in_range(x: int, y: int)
        requires
            Self::in_bounds(x, y),
        ensures
            0 <= x + y * WIDTH < WIDTH * HEIGHT,
    {
        assert(0 <= y * WIDTH) by (nonlinear_arith)
            requires
                0 <= y,
                0 <= WIDTH,
        ;
        assert(x + y * WIDTH < WIDTH * HEIGHT) by (nonlinear_arith)
            requires
                0 <= x < WIDTH,
                0 <= y < HEIGHT,
        ;
    }

    fn get_index_from_cell_coordinates(&self, cell_x: usize, cell_y: usize) -> (index: Option<
        usize,
    >)
        requires
            self.wf(),
        ensures
            match index {
                Some(i) => Self::in_bounds(cell_x as int, cell_y as int) && i == cell_x + cell_y
                    * WIDTH && i < self.grid@.len(),
                None => !Self::in_bounds(cell_x as int, cell_y as int),
            },
    {
        if cell_x < WIDTH && cell_y < HEIGHT {
            proof {
                assert(self.grid.len() == WIDTH * HEIGHT);
                Self::lemma_index_in_range(cell_x as int, cell_y as int);
                assert(0 <= cell_y * WIDTH) by (nonlinear_arith)
                    requires
                        0 <= cell_y,
                        0 <= WIDTH,
                ;
            }
            Some(cell_x + cell_y * WIDTH)
        } else {
            None
        }
    }

    /// Distinct cells lie at distinct places of the row-major array.
    proof fn lemma_index_injective(x: int, y: int, a: int, b: int)
        requires
            Self::in_bounds(x, y),
            Self::in_bounds(a, b),
            x + y * WIDTH == a + b * WIDTH,
        ensures
            x == a,
            y == b,
    {
        assert(y == b) by (nonlinear_arith)
            requires
                0 <= x < WIDTH,
                0 <= a < WIDTH,
                x + y * WIDTH == a + b * WIDTH,
        ;
    }

    /// Inserts `item` into the cell at `(cell_x, cell_y)` and returns the
    /// cell's coordinates. Coordinates outside the grid and a cell with no
    /// empty slot are reported, and the grid is then left as it was.
    pub fn try_insert(&mut self, item: u64, cell_x: usize, cell_y: usize) -> (outcome: Result<
        (usize, usize),
        GridError,
    >)
        requires
            old(self).wf(),
        ensures
            final(self).wf(),
            final(self)@ == Self::inserted(old(self)@, item, cell_x as int, cell_y as int),
            match outcome {
                Ok(at) => {
                    &&& at == (cell_x, cell_y)
                    &&& Self::in_bounds(cell_x as int, cell_y as int)
                    &&& !is_full(old(self)@[(cell_x as int, cell_y as int)])
                },
                Err(GridError::OutOfBounds) => !Self::in_bounds(cell_x as int, cell_y as int),
                Err(GridError::CapacityExceeded) => {
                    &&& Self::in_bounds(cell_x as int, cell_y as int)
                    &&& is_full(old(self)@[(cell_x as int, cell_y as int)])
                },
            },
            outcome is Err ==> final(self)@ == old(self)@,
    {
        match self.get_index_from_cell_coordinates(cell_x, cell_y) {
            None => Err(GridError::OutOfBounds),
            Some(index) => {
                let slot = self.grid[index].try_insert(item);
                proof {
                    Self::lemma_cell_replaced(*old(self), *self, cell_x as int, cell_y as int);
                    lemma_first_free(old(self)@[(cell_x as int, cell_y as int)]);
                    if slot is None {
                        assert(self@ =~= old(self)@);
                    }
                }
                match slot {
                    Some(_) => Ok((cell_x, cell_y)),
                    None => Err(GridError::CapacityExceeded),
                }
            },
        }
    }

    /// Replacing one cell of the array changes the contents at that cell's
    /// coordinates and nowhere else.
    proof fn lemma_cell_replaced(before: Self, after: Self, x: int, y: int)
        requires
            Self::in_bounds(x, y),
            before.grid@.len() == WIDTH * HEIGHT,
            after.grid@.len() == WIDTH * HEIGHT,
            forall|i: int|
                0 <= i < WIDTH * HEIGHT && i != x + y * WIDTH ==> after.grid@[i]
                    == before.grid@[i],
        ensures
            after@ == before@.insert((x, y), after.grid@[x + y * WIDTH]@),
            before@[(x, y)] == before.grid@[x + y * WIDTH]@,
    {
        assert forall|c: (int, int)| Self::in_bounds(c.0, c.1) && c != (x, y) implies after.grid@[c.0
            + c.1 * WIDTH] == before.grid@[c.0 + c.1 * WIDTH] by {
            Self::lemma_index_in_range(c.0, c.1);
            if c.0 + c.1 * WIDTH == x + y * WIDTH {
                Self::lemma_index_injective(x, y, c.0, c.1);
            }
        }
        assert(after@ =~= before@.insert((x, y), after.grid@[x + y * WIDTH]@));
    }

    /// Removes `item` from the cell at `(cell_x, cell_y)`. Returns whether it
    /// was there: `false` means the agent was already absent from that cell,
    /// or that the coordinates name no cell.
    pub fn try_remove(&mut self, item: u64, cell_x: usize, cell_y: usize) -> (removed: bool)
        requires
            old(self).wf(),
        ensures
            final(self).wf(),
            final(self)@ == Self::removed(old(self)@, item, cell_x as int, cell_y as int),
            removed <==> Self::in_bounds(cell_x as int, cell_y as int) && old(self)@[(
                cell_x as int,
                cell_y as int,
            )].contains(Some(item)),
            !removed ==> final(self)@ == old(self)@,
    {
        match self.get_index_from_cell_coordinates(cell_x, cell_y) {
            Some(index) => {
                let removed = self.grid[index].try_remove(item);
                proof {
                    Self::lemma_cell_replaced(*old(self), *self, cell_x as int, cell_y as int);
                    lemma_first_holding(old(self)@[(cell_x as int, cell_y as int)], item);
                    if !removed {
                        assert(self@ =~= old(self)@);
                    }
                }
                removed
            },
            None => false,
        }
    }

    /// The cells of the grid among the three by three block centred on
    /// `(x, y)`, in the block's order. At an edge the block is clipped: it
    /// never wraps to the opposite edge.
    pub open spec fn neighborhood(x: int, y: int) -> Seq<(int, int)> {
        block(x, y).filter(|c: (int, int)| Self::in_bounds(c.0, c.1))
    }

    /// The coordinates of the cell at `(cell_x, cell_y)` and of the cells
    /// around it, the cell itself included.
    pub fn get_neighboring_cell_coordinates(&self, cell_x: usize, cell_y: usize) -> (coordinates:
        Vec<(usize, usize)>)
        ensures
            as_coordinates(coordinates@) == Self::neighborhood(cell_x as int, cell_y as int),
    {
        let mut coordinates: Vec<(usize, usize)> = Vec::new();
        let ghost inside = |c: (int, int)| Self::in_bounds(c.0, c.1);
        let ghost around = block(cell_x as int, cell_y as int);
        let mut k: usize = 0;
        assert(around.take(0).filter(inside) =~= Seq::empty()) by {
            reveal(Seq::filter);
        }
        assert(as_coordinates(coordinates@) =~= Seq::empty());
        while k < 9
            invariant
                k <= 9,
                inside == |c: (int, int)| Self::in_bounds(c.0, c.1),
                around == block(cell_x as int, cell_y as int),
                as_coordinates(coordinates@) == around.take(k as int).filter(inside),
            decreases 9 - k,
        {
            let column = shifted(cell_x, k / 3, WIDTH);
            let row = shifted(cell_y, k % 3, HEIGHT);
            proof {
                assert(around.take(k + 1) =~= around.take(k as int).push(around[k as int]));
                around.take(k as int).lemma_filter_push(around[k as int], inside);
            }
            match (column, row) {
                (Some(x), Some(y)) => {
                    let ghost before = coordinates@;
                    coordinates.push((x, y));
                    assert(as_coordinates(coordinates@) =~= as_coordinates(before).push(
                        (x as int, y as int),
                    ));
                },
                _ => {},
            }
            k += 1;
        }
        assert(around.take(9) =~= around);
        coordinates
    }

    /// The identities a query at `(x, y)` returns: the occupants of every
    /// cell of the neighbourhood, cell by cell in the neighbourhood's order
    /// and within a cell in slot order.
    pub open spec fn candidates(cells: Cells, x: int, y: int) -> Seq<u64> {
        Self::neighborhood(x, y).map_values(|c: (int, int)| occupants(cells[c])).flatten()
    }

    /// Every occupant of the cell at `(cell_x, cell_y)` and of the cells
    /// around it. No distance is tested: the result is the candidates at cell
    /// granularity, and the caller applies the exact visibility test.
    pub fn get_neighbors_from_cell_coordinates(&self, cell_x: usize, cell_y: usize) -> (neighbors:
        Vec<u64>)
        requires
            self.wf(),
        ensures
            neighbors@ == Self::candidates(self@, cell_x as int, cell_y as int),
    {
        let coordinates = self.get_neighboring_cell_coordinates(cell_x, cell_y);
        let ghost around = Self::neighborhood(cell_x as int, cell_y as int);
        let ghost held = |c: (int, int)| occupants(self@[c]);
        let mut neighbors: Vec<u64> = Vec::new();
        let mut i: usize = 0;
        assert(around.take(0).map_values(held) =~= Seq::empty());
        while i < coordinates.len()
            invariant
                self.wf(),
                i <= coordinates.len(),
                around == Self::neighborhood(cell_x as int, cell_y as int),
                as_coordinates(coordinates@) == around,
                held == |c: (int, int)| occupants(self@[c]),
                neighbors@ == around.take(i as int).map_values(held).flatten(),
            decreases coordinates.len() - i,
        {
            let (x, y) = coordinates[i];
            proof {
                assert(around[i as int] == (x as int, y as int));
                block(cell_x as int, cell_y as int).lemma_filter_pred(
                    |c: (int, int)| Self::in_bounds(c.0, c.1),
                    i as int,
                );
                assert(around.take(i + 1).map_values(held) =~= around.take(i as int).map_values(
                    held,
                ).push(held(around[i as int])));
                around.take(i as int).map_values(held).lemma_flatten_push(held(around[i as int]));
            }
            match self.get_index_from_cell_coordinates(x, y) {
                Some(index) => {
                    self.grid[index].append_occupants(&mut neighbors);
                },
                None => {},
            }
            i += 1;
        }
        assert(around.take(coordinates.len() as int) =~= around);
        neighbors
    }

    /// The number of occupants of each cell, row by row: entry `y` of the
    /// result holds the counts of the cells `(0, y)` to `(WIDTH - 1, y)`.
    pub fn cell_counts(&self) -> (rows: Vec<Vec<usize>>)
        requires
            self.wf(),
        ensures
            rows@.len() == HEIGHT,
            forall|y: int| 0 <= y < HEIGHT ==> (#[trigger] rows@[y])@.len() == WIDTH,
            forall|x: int, y: int|
                Self::in_bounds(x, y) ==> (#[trigger] rows@[y]@[x]) == occupants(
                    self@[(x, y)],
                ).len(),
    {
        let mut rows: Vec<Vec<usize>> = Vec::new();
        let mut y: usize = 0;
        while y < HEIGHT
            invariant
                self.wf(),
                y <= HEIGHT,
                rows@.len() == y,
                forall|b: int| 0 <= b < y ==> (#[trigger] rows@[b])@.len() == WIDTH,
                forall|a: int, b: int|
                    0 <= a < WIDTH && 0 <= b < y ==> (#[trigger] rows@[b]@[a]) == occupants(
                        self@[(a, b)],
                    ).len(),
            decreases HEIGHT - y,
        {
            let mut row: Vec<usize> = Vec::new();
            let mut x: usize = 0;
            while x < WIDTH
                invariant
                    self.wf(),
                    y < HEIGHT,
                    x <= WIDTH,
                    row@.len() == x,
                    forall|a: int|
                        0 <= a < x ==> (#[trigger] row@[a]) == occupants(
                            self@[(a, y as int)],
                        ).len(),
                decreases WIDTH - x,
            {
                match self.get_index_from_cell_coordinates(x, y) {
                    Some(index) => {
                        row.push(self.grid[index].count());
                    },
                    None => {},
                }
                x += 1;
            }
            rows.push(row);
            y += 1;
        }
        rows
    }

    /// The contents after `id`, last recorded at `from`, has been re-homed to
    /// `(x, y)`. Nothing changes where `(x, y)` names no cell, where the
    /// agent is recorded there already, or where that cell has no empty
    /// slot. Otherwise the agent enters the cell at `(x, y)` and leaves the
    /// one it was recorded at.
    pub open spec fn moved(cells: Cells, id: u64, from: Option<(usize, usize)>, x: int, y: int)
        -> Cells {
        if !Self::in_bounds(x, y) || Self::recorded_at(from, x, y) || is_full(cells[(x, y)]) {
            cells
        } else {
            match from {
                Some(old) => Self::removed(
                    Self::inserted(cells, id, x, y),
                    id,
                    old.0 as int,
                    old.1 as int,
                ),
                None => Self::inserted(cells, id, x, y),
            }
        }
    }

    /// Whether `from` records the cell at `(x, y)`.
    pub open spec fn recorded_at(from: Option<(usize, usize)>, x: int, y: int) -> bool {
        from matches Some(old) && old.0 == x && old.1 == y
    }

    /// Re-homes `item` to the cell at `(cell_x, cell_y)`, given the record of
    /// where it was inserted, and returns the new record. On an error the
    /// grid is left as it was, and the old record still stands.
    pub fn try_move(
        &mut self,
        item: u64,
        status: ProximityGridStatus,
        cell_x: usize,
        cell_y: usize,
    ) -> (outcome: Result<ProximityGridStatus, GridError>)
        requires
            old(self).wf(),
        ensures
            final(self).wf(),
            final(self)@ == Self::moved(
                old(self)@,
                item,
                status.inserted_at,
                cell_x as int,
                cell_y as int,
            ),
            match outcome {
                Ok(record) => {
                    &&& record.inserted_at == Some((cell_x, cell_y))
                    &&& Self::in_bounds(cell_x as int, cell_y as int)
                    &&& Self::recorded_at(status.inserted_at, cell_x as int, cell_y as int)
                        || !is_full(old(self)@[(cell_x as int, cell_y as int)])
                },
                Err(GridError::OutOfBounds) => !Self::in_bounds(cell_x as int, cell_y as int),
                Err(GridError::CapacityExceeded) => {
                    &&& Self::in_bounds(cell_x as int, cell_y as int)
                    &&& !Self::recorded_at(status.inserted_at, cell_x as int, cell_y as int)
                    &&& is_full(old(self)@[(cell_x as int, cell_y as int)])
                },
            },
    {
        if !(cell_x < WIDTH && cell_y < HEIGHT) {
            return Err(GridError::OutOfBounds);
        }
        match status.inserted_at {
            Some(old) => {
                if old.0 == cell_x && old.1 == cell_y {
                    return Ok(status);
                }
                match self.try_insert(item, cell_x, cell_y) {
                    Ok(at) => {
                        self.try_remove(item, old.0, old.1);
                        Ok(ProximityGridStatus { inserted_at: Some(at) })
                    },
                    Err(error) => Err(error),
                }
            },
            None => {
                match self.try_insert(item, cell_x, cell_y) {
                    Ok(at) => Ok(ProximityGridStatus { inserted_at: Some(at) }),
                    Err(error) => Err(error),
                }
            },
        }
    }
}

} // verus!
