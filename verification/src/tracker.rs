//! The expanding boundary of a search, for an observer to draw.

use crate::route::{move_dx, move_dy};
use std::collections::HashSet;
use vstd::std_specs::hash::spec_hash_keys_iter;
use vstd::std_specs::iter::IteratorSpec;
use vstd::prelude::*;

verus! {

broadcast use vstd::std_specs::hash::group_hash_axioms;

/// The number of cells a grid may have along either side.
pub const MAX_SIDE: u64 = 0x1_0000_0000;

/// The key under which the cell in column `x` and row `y` is kept.
pub open spec fn key_of(x: int, y: int) -> int {
    y * 0x1_0000_0000 + x
}

/// The column of the cell kept under `key`.
pub open spec fn key_x(key: int) -> int {
    key % 0x1_0000_0000
}

/// The row of the cell kept under `key`.
pub open spec fn key_y(key: int) -> int {
    key / 0x1_0000_0000
}

/// Whether the neighbour of `(x, y)` by move `k` is explored or lies off
/// the grid.
pub open spec fn neighbour_settled(
    explored: Set<u64>,
    width: int,
    height: int,
    x: int,
    y: int,
    k: int,
) -> bool {
    let nx = x + move_dx(k);
    let ny = y + move_dy(k);
    (0 <= nx < width && 0 <= ny < height) ==> explored.contains(key_of(nx, ny) as u64)
}

/// Whether every neighbour of `(x, y)` on the grid is explored.
#[verifier::opaque]
pub open spec fn enclosed(explored: Set<u64>, width: int, height: int, x: int, y: int) -> bool {
    &&& neighbour_settled(explored, width, height, x, y, 0)
    &&& neighbour_settled(explored, width, height, x, y, 1)
    &&& neighbour_settled(explored, width, height, x, y, 2)
    &&& neighbour_settled(explored, width, height, x, y, 3)
    &&& neighbour_settled(explored, width, height, x, y, 4)
    &&& neighbour_settled(explored, width, height, x, y, 5)
    &&& neighbour_settled(explored, width, height, x, y, 6)
    &&& neighbour_settled(explored, width, height, x, y, 7)
}

/// One, in the millionths in which the growth of the batch size is given.
pub const GROWTH_UNIT: u64 = 1000000;

/// The largest growth of the batch size: sixteenfold.
pub const MAX_GROWTH: u64 = 16000000;

/// A growth held between one and sixteen, in millionths.
pub open spec fn held_growth(growth: int) -> int {
    if growth < GROWTH_UNIT {
        GROWTH_UNIT as int
    } else if growth > MAX_GROWTH {
        MAX_GROWTH as int
    } else {
        growth
    }
}

/// Whether the two sets of a tracker are in order: every explored cell lies
/// on the grid, and the frontier holds exactly the explored cells that are
/// not enclosed.
#[verifier::opaque]
pub open spec fn in_order(explored: Set<u64>, frontier: Set<u64>, width: int, height: int) -> bool {
    &&& forall|key: u64|
        #[trigger] explored.contains(key) ==> key_x(key as int) < width && key_y(key as int)
            < height
    &&& forall|key: u64| #[trigger]
        frontier.contains(key) <==> (explored.contains(key) && !enclosed(
            explored,
            width,
            height,
            key_x(key as int),
            key_y(key as int),
        ))
}

/// Whether the frontier is right but for cells next to `(x, y)`: `(x, y)`
/// is explored, every explored cell lies on the grid, the frontier holds
/// explored cells only and misses none that is not enclosed, and it holds
/// an enclosed cell only at `(x, y)` or next to it.
#[verifier::opaque]
pub open spec fn stale(
    explored: Set<u64>,
    frontier: Set<u64>,
    width: int,
    height: int,
    x: int,
    y: int,
) -> bool {
    &&& explored.contains(key_of(x, y) as u64)
    &&& forall|key: u64|
        #[trigger] explored.contains(key) ==> key_x(key as int) < width && key_y(key as int)
            < height
    &&& forall|key: u64| #[trigger] frontier.contains(key) ==> explored.contains(key)
    &&& forall|key: u64|
        explored.contains(key) && !enclosed(
            explored,
            width,
            height,
            key_x(key as int),
            key_y(key as int),
        ) ==> #[trigger] frontier.contains(key)
    &&& forall|key: u64|
        #[trigger] frontier.contains(key) && enclosed(
            explored,
            width,
            height,
            key_x(key as int),
            key_y(key as int),
        ) ==> (-1 <= key_x(key as int) - x <= 1 && -1 <= key_y(key as int) - y <= 1)
}

/// Whether `cells` lists the cells of `frontier`, each once, as (column,
/// row).
pub open spec fn lists_frontier(cells: Seq<(usize, usize)>, frontier: Set<u64>) -> bool {
    &&& cells.len() == frontier.len()
    &&& forall|i: int|
        0 <= i < cells.len() ==> frontier.contains(
            key_of((#[trigger] cells[i]).0 as int, cells[i].1 as int) as u64,
        )
    &&& forall|key: u64|
        frontier.contains(key) ==> exists|i: int|
            0 <= i < cells.len() && (#[trigger] cells[i]).0 == key_x(key as int) && cells[i].1
                == key_y(key as int)
}

/// Whether a batch is due after one more visit: whether the visits since
/// the last batch, the new one counted, have reached the batch size.
pub open spec fn batch_due(counter: int, base: int, growth: int) -> bool {
    counter + 1 >= batch_size(base, growth) || counter >= usize::MAX
}

/// The number of visits that make a batch: `base` times the growth, the
/// product rounded down, or the largest number there is where that is
/// less. The growth is 2 to the power of the decimal logarithm of the number
/// of visits less 2.5, given in millionths and held between one and
/// sixteen.
pub open spec fn batch_size(base: int, growth: int) -> int {
    if (base * held_growth(growth)) / (GROWTH_UNIT as int) <= usize::MAX {
        (base * held_growth(growth)) / (GROWTH_UNIT as int)
    } else {
        usize::MAX as int
    }
}

/// The visits of a search and the boundary of what it has explored.
pub struct ExplorationTracker {
    /// Whether anybody watches; a tracker that is not enabled records
    /// nothing.
    pub enabled: bool,
    /// The cells visited so far.
    pub explored: HashSet<u64>,
    /// The visited cells with a neighbour on the grid that is not visited.
    pub frontier: HashSet<u64>,
    /// The visits since the last batch.
    pub batch_counter: usize,
    /// All visits.
    pub total_explored: usize,
    /// The batch size before it grows.
    pub base_batch_size: usize,
    pub width: usize,
    pub height: usize,
}

impl ExplorationTracker {
    /// The grid is not too large for the keys, every explored cell lies on
    /// it, and the frontier holds exactly the explored cells that are not
    /// enclosed.
    pub open spec fn wf(&self) -> bool {
        &&& self.width <= MAX_SIDE
        &&& self.height <= MAX_SIDE
        &&& in_order(self.explored@, self.frontier@, self.width as int, self.height as int)
    }

    /// Whether the frontier is right but for cells next to `(x, y)`.
    pub open spec fn stale_near(&self, x: int, y: int) -> bool {
        &&& self.width <= MAX_SIDE
        &&& self.height <= MAX_SIDE
        &&& 0 <= x < self.width
        &&& 0 <= y < self.height
        &&& stale(self.explored@, self.frontier@, self.width as int, self.height as int, x, y)
    }

    /// A tracker that has seen nothing.
    pub fn new(enabled: bool, batch_size: usize, width: usize, height: usize) -> (tracker:
        ExplorationTracker)
        requires
            width <= MAX_SIDE,
            height <= MAX_SIDE,
        ensures
            tracker.wf(),
            tracker.enabled == enabled,
            tracker.base_batch_size == batch_size,
            tracker.width == width,
            tracker.height == height,
            tracker.explored@ == Set::<u64>::empty(),
            tracker.frontier@ == Set::<u64>::empty(),
            tracker.batch_counter == 0,
            tracker.total_explored == 0,
    {
        proof {
            reveal(in_order);
        }
        ExplorationTracker {
            enabled,
            explored: HashSet::new(),
            frontier: HashSet::new(),
            batch_counter: 0,
            total_explored: 0,
            base_batch_size: batch_size,
            width,
            height,
        }
    }

    /// The number of visits that make the next batch, for a growth given
    /// in millionths: the base size times the growth held between one and
    /// sixteen, rounded down.
    pub fn current_batch_size(&self, growth: u64) -> (size: usize)
        ensures
            size == batch_size(self.base_batch_size as int, growth as int),
            size < usize::MAX ==> self.base_batch_size <= size <= 16 * self.base_batch_size,
    {
        let held: u128 = if growth < GROWTH_UNIT {
            GROWTH_UNIT as u128
        } else if growth > MAX_GROWTH {
            MAX_GROWTH as u128
        } else {
            growth as u128
        };
        let base: u128 = self.base_batch_size as u128;
        assert(base * held <= 0xffff_ffff_ffff_ffff * 16000000) by (nonlinear_arith)
            requires
                0 <= base <= 0xffff_ffff_ffff_ffff,
                0 <= held <= 16000000,
        ;
        assert(base * 1000000 <= base * held <= base * 16000000) by (nonlinear_arith)
            requires
                0 <= base,
                1000000 <= held <= 16000000,
        ;
        let size: u128 = (base * held) / (GROWTH_UNIT as u128);
        if size > usize::MAX as u128 {
            usize::MAX
        } else {
            size as usize
        }
    }

    /// The key of a cell of the grid.
    fn key(x: usize, y: usize) -> (key: u64)
        requires
            x < MAX_SIDE,
            y < MAX_SIDE,
        ensures
            key == key_of(x as int, y as int),
            key_x(key as int) == x,
            key_y(key as int) == y,
    {
        (y as u64) * 0x1_0000_0000 + (x as u64)
    }

    /// Tests whether every neighbour of `(x, y)` on the grid is explored.
    fn is_enclosed(&self, x: usize, y: usize) -> (yes: bool)
        requires
            self.width <= MAX_SIDE,
            self.height <= MAX_SIDE,
            x < self.width,
            y < self.height,
        ensures
            yes == enclosed(self.explored@, self.width as int, self.height as int, x as int, y as int),
    {
        proof {
            reveal(enclosed);
        }
        let mut k: u8 = 0;
        while k < 8
            invariant
                k <= 8,
                self.width <= MAX_SIDE,
                self.height <= MAX_SIDE,
                x < self.width,
                y < self.height,
                forall|j: int|
                    0 <= j < k ==> neighbour_settled(
                        self.explored@,
                        self.width as int,
                        self.height as int,
                        x as int,
                        y as int,
                        j,
                    ),
            decreases 8 - k,
        {
            let dx: i8 = if k == 1 || k == 4 || k == 5 {
                1
            } else if k == 3 || k == 6 || k == 7 {
                -1
            } else {
                0
            };
            let dy: i8 = if k == 0 || k == 4 || k == 7 {
                1
            } else if k == 2 || k == 5 || k == 6 {
                -1
            } else {
                0
            };
            if !(dx == -1 && x == 0) && !(dy == -1 && y == 0) {
                let nx: usize = if dx == 1 {
                    x + 1
                } else if dx == -1 {
                    x - 1
                } else {
                    x
                };
                let ny: usize = if dy == 1 {
                    y + 1
                } else if dy == -1 {
                    y - 1
                } else {
                    y
                };
                if nx < self.width && ny < self.height {
                    let key: u64 = Self::key(nx, ny);
                    if !self.explored.contains(&key) {
                        proof {
                            reveal(enclosed);
                        }
                        assert(!neighbour_settled(
                            self.explored@,
                            self.width as int,
                            self.height as int,
                            x as int,
                            y as int,
                            k as int,
                        ));
                        return false;
                    }
                }
            }
            k += 1;
        }
        proof {
            reveal(enclosed);
        }
        true
    }

    /// Takes `(x, y)` and its neighbours off the frontier where they have
    /// become enclosed.
    pub fn update_frontier_around(&mut self, x: usize, y: usize)
        requires
            old(self).stale_near(x as int, y as int),
        ensures
            final(self).wf(),
            final(self).explored@ == old(self).explored@,
            final(self).enabled == old(self).enabled,
            final(self).batch_counter == old(self).batch_counter,
            final(self).total_explored == old(self).total_explored,
            final(self).base_batch_size == old(self).base_batch_size,
            final(self).width == old(self).width,
            final(self).height == old(self).height,
    {
        let ghost before = self.frontier@;
        let own: u64 = Self::key(x, y);
        if self.is_enclosed(x, y) {
            self.frontier.remove(&own);
        }
        let mut k: u8 = 0;
        while k < 8
            invariant
                k <= 8,
                old(self).stale_near(x as int, y as int),
                self.explored@ == old(self).explored@,
                self.enabled == old(self).enabled,
                self.batch_counter == old(self).batch_counter,
                self.total_explored == old(self).total_explored,
                self.base_batch_size == old(self).base_batch_size,
                self.width == old(self).width,
                self.height == old(self).height,
                before == old(self).frontier@,
                forall|key: u64| #[trigger] self.frontier@.contains(key) ==> before.contains(key),
                forall|key: u64|
                    #[trigger] before.contains(key) && !self.frontier@.contains(key) ==> enclosed(
                        self.explored@,
                        self.width as int,
                        self.height as int,
                        key_x(key as int),
                        key_y(key as int),
                    ),
                enclosed(self.explored@, self.width as int, self.height as int, x as int, y as int)
                    ==> !self.frontier@.contains(key_of(x as int, y as int) as u64),
                forall|j: int|
                    #![trigger move_dx(j)]
                    0 <= j < k && 0 <= x + move_dx(j) < self.width && 0 <= y + move_dy(j)
                        < self.height && enclosed(
                        self.explored@,
                        self.width as int,
                        self.height as int,
                        x + move_dx(j),
                        y + move_dy(j),
                    ) ==> !self.frontier@.contains(key_of(x + move_dx(j), y + move_dy(j)) as u64),
            decreases 8 - k,
        {
            let dx: i8 = if k == 1 || k == 4 || k == 5 {
                1
            } else if k == 3 || k == 6 || k == 7 {
                -1
            } else {
                0
            };
            let dy: i8 = if k == 0 || k == 4 || k == 7 {
                1
            } else if k == 2 || k == 5 || k == 6 {
                -1
            } else {
                0
            };
            if !(dx == -1 && x == 0) && !(dy == -1 && y == 0) {
                let nx: usize = if dx == 1 {
                    x + 1
                } else if dx == -1 {
                    x - 1
                } else {
                    x
                };
                let ny: usize = if dy == 1 {
                    y + 1
                } else if dy == -1 {
                    y - 1
                } else {
                    y
                };
                if nx < self.width && ny < self.height {
                    let key: u64 = Self::key(nx, ny);
                    if self.frontier.contains(&key) && self.is_enclosed(nx, ny) {
                        self.frontier.remove(&key);
                    }
                }
            }
            k += 1;
        }
        proof {
            reveal(stale);
            reveal(in_order);
            assert forall|key: u64| #[trigger] self.frontier@.contains(key) implies !enclosed(
                self.explored@,
                self.width as int,
                self.height as int,
                key_x(key as int),
                key_y(key as int),
            ) by {
                let cx = key_x(key as int);
                let cy = key_y(key as int);
                if enclosed(self.explored@, self.width as int, self.height as int, cx, cy) {
                    assert(before.contains(key));
                    assert(self.explored@.contains(key));
                    assert(key == key_of(cx, cy));
                    if !(cx == x && cy == y) {
                        lemma_neighbour_is_move(x as int, y as int, cx, cy);
                        let j = choose|j: int|
                            0 <= j < 8 && cx == x + #[trigger] move_dx(j) && cy == y + move_dy(j);
                        assert(!self.frontier@.contains(
                            key_of(x + move_dx(j), y + move_dy(j)) as u64,
                        ));
                    }
                }
            }
            assert forall|key: u64|
                self.explored@.contains(key) && !enclosed(
                    self.explored@,
                    self.width as int,
                    self.height as int,
                    key_x(key as int),
                    key_y(key as int),
                ) implies #[trigger] self.frontier@.contains(key) by {
                assert(before.contains(key));
            }
        }
    }

    /// Records a visit of the cell in column `x` and row `y`. Returns the
    /// frontier when the visits since the last batch have reached the batch
    /// size and the frontier is not empty. `growth` is the growth of the
    /// batch size at the number of visits that this one brings, in
    /// millionths.
    pub fn add_node(&mut self, x: usize, y: usize, growth: u64) -> (batch: Option<
        Vec<(usize, usize)>,
    >)
        requires
            old(self).wf(),
            x < old(self).width,
            y < old(self).height,
        ensures
            final(self).wf(),
            final(self).enabled == old(self).enabled,
            final(self).base_batch_size == old(self).base_batch_size,
            final(self).width == old(self).width,
            final(self).height == old(self).height,
            !old(self).enabled ==> batch is None && final(self).explored@ == old(self).explored@
                && final(self).frontier@ == old(self).frontier@ && final(self).batch_counter
                == old(self).batch_counter && final(self).total_explored == old(
                self,
            ).total_explored,
            old(self).enabled ==> final(self).explored@ == old(self).explored@.insert(
                key_of(x as int, y as int) as u64,
            ),
            old(self).enabled ==> final(self).total_explored == if old(self).total_explored
                < usize::MAX {
                old(self).total_explored + 1
            } else {
                usize::MAX as int
            },
            old(self).enabled ==> final(self).batch_counter == if batch_due(
                old(self).batch_counter as int,
                final(self).base_batch_size as int,
                growth as int,
            ) {
                0
            } else {
                old(self).batch_counter + 1
            },
            batch is Some <==> old(self).enabled && batch_due(
                old(self).batch_counter as int,
                final(self).base_batch_size as int,
                growth as int,
            ) && final(self).frontier@.len() > 0,
            batch is Some ==> lists_frontier(batch->0@, final(self).frontier@),
    {
        if !self.enabled {
            return None;
        }
        self.record(x, y);
        if self.batch_counter < usize::MAX {
            self.batch_counter += 1;
        }
        if self.batch_counter >= self.current_batch_size(growth) {
            let cells = self.flush();
            self.batch_counter = 0;
            if cells.len() > 0 {
                return Some(cells);
            }
        }
        None
    }

    /// Enters a visit in both sets and puts the frontier in order.
    fn record(&mut self, x: usize, y: usize)
        requires
            old(self).wf(),
            x < old(self).width,
            y < old(self).height,
        ensures
            final(self).wf(),
            final(self).explored@ == old(self).explored@.insert(key_of(x as int, y as int) as u64),
            final(self).total_explored == if old(self).total_explored < usize::MAX {
                old(self).total_explored + 1
            } else {
                usize::MAX as int
            },
            final(self).enabled == old(self).enabled,
            final(self).batch_counter == old(self).batch_counter,
            final(self).base_batch_size == old(self).base_batch_size,
            final(self).width == old(self).width,
            final(self).height == old(self).height,
    {
        let own: u64 = Self::key(x, y);
        let ghost before = self.explored@;
        let ghost boundary = self.frontier@;
        self.explored.insert(own);
        if self.total_explored < usize::MAX {
            self.total_explored += 1;
        }
        self.frontier.insert(own);
        proof {
            lemma_visit_goes_stale(
                before,
                boundary,
                self.width as int,
                self.height as int,
                x as int,
                y as int,
            );
        }
        self.update_frontier_around(x, y);
    }

    /// The cells of the frontier, in no particular order.
    pub fn flush(&self) -> (batch: Vec<(usize, usize)>)
        ensures
            lists_frontier(batch@, self.frontier@),
    {
        let mut batch: Vec<(usize, usize)> = Vec::new();
        proof {
            let keys = IteratorSpec::remaining(&spec_hash_keys_iter(&self.frontier));
            assert forall|j: int| 0 <= j < keys.len() implies self.frontier@.contains(
                *#[trigger] keys[j],
            ) by {
                assert(keys.unref()[j] == *keys[j]);
                assert(keys.unref().to_set().contains(*keys[j]));
            }
            assert forall|key: u64| self.frontier@.contains(key) implies exists|j: int|
                0 <= j < keys.len() && *#[trigger] keys[j] == key by {
                assert(keys.unref().to_set().contains(key));
                let j = choose|j: int| 0 <= j < keys.unref().len() && keys.unref()[j] == key;
                assert(*keys[j] == key);
            }
        }
        for key in iter: self.frontier.iter()
            invariant
                iter.seq().unref().to_set() == self.frontier@,
                iter.seq().len() == self.frontier@.len(),
                forall|j: int|
                    0 <= j < iter.seq().len() ==> self.frontier@.contains(*#[trigger] iter.seq()[j]),
                forall|key: u64|
                    self.frontier@.contains(key) ==> exists|j: int|
                        0 <= j < iter.seq().len() && *#[trigger] iter.seq()[j] == key,
                batch@.len() == iter.index(),
                forall|i: int|
                    #![trigger batch@[i]]
                    #![trigger iter.seq()[i]]
                    0 <= i < batch@.len() ==> batch@[i].0 == key_x(*iter.seq()[i] as int)
                        && batch@[i].1 == key_y(*iter.seq()[i] as int),
        {
            let x: usize = (*key % 0x1_0000_0000) as usize;
            let y: usize = (*key / 0x1_0000_0000) as usize;
            batch.push((x, y));
        }
        batch
    }
}

/// A cell next to `(x, y)` is reached from it by one of the eight moves.
pub proof fn lemma_neighbour_is_move(x: int, y: int, cx: int, cy: int)
    requires
        -1 <= cx - x <= 1,
        -1 <= cy - y <= 1,
        !(cx == x && cy == y),
    ensures
        exists|j: int| 0 <= j < 8 && cx == x + #[trigger] move_dx(j) && cy == y + move_dy(j),
{
    let j: int = if cx == x {
        if cy == y + 1 {
            0
        } else {
            2
        }
    } else if cx == x + 1 {
        if cy == y {
            1
        } else if cy == y + 1 {
            4
        } else {
            5
        }
    } else {
        if cy == y {
            3
        } else if cy == y + 1 {
            7
        } else {
            6
        }
    };
    assert(cx == x + move_dx(j) && cy == y + move_dy(j));
}

/// A neighbour that a visit of `(x, y)` settles is `(x, y)` itself.
pub proof fn lemma_settled_by_visit(
    explored: Set<u64>,
    width: int,
    height: int,
    x: int,
    y: int,
    cx: int,
    cy: int,
    k: int,
)
    requires
        0 <= width <= MAX_SIDE,
        0 <= height <= MAX_SIDE,
        0 <= x < width,
        0 <= y < height,
        0 <= k < 8,
        !neighbour_settled(explored, width, height, cx, cy, k),
        neighbour_settled(explored.insert(key_of(x, y) as u64), width, height, cx, cy, k),
    ensures
        cx + move_dx(k) == x,
        cy + move_dy(k) == y,
{
}

/// After a visit of `(x, y)` is entered in both sets of a tracker that was
/// in order, the frontier is right but for cells next to `(x, y)`.
pub proof fn lemma_visit_goes_stale(
    explored: Set<u64>,
    frontier: Set<u64>,
    width: int,
    height: int,
    x: int,
    y: int,
)
    requires
        0 <= width <= MAX_SIDE,
        0 <= height <= MAX_SIDE,
        0 <= x < width,
        0 <= y < height,
        in_order(explored, frontier, width, height),
    ensures
        stale(
            explored.insert(key_of(x, y) as u64),
            frontier.insert(key_of(x, y) as u64),
            width,
            height,
            x,
            y,
        ),
{
    reveal(in_order);
    reveal(stale);
    let own = key_of(x, y) as u64;
    let after = explored.insert(own);
    assert forall|key: u64|
        #[trigger] frontier.insert(own).contains(key) && enclosed(
            after,
            width,
            height,
            key_x(key as int),
            key_y(key as int),
        ) implies (-1 <= key_x(key as int) - x <= 1 && -1 <= key_y(key as int) - y <= 1) by {
        let cx = key_x(key as int);
        let cy = key_y(key as int);
        if key != own {
            assert(frontier.contains(key));
            assert(!enclosed(explored, width, height, cx, cy));
            lemma_enclosed_by_visit(explored, width, height, x, y, cx, cy);
        }
    }
    assert forall|key: u64|
        after.contains(key) && !enclosed(
            after,
            width,
            height,
            key_x(key as int),
            key_y(key as int),
        ) implies #[trigger] frontier.insert(own).contains(key) by {
        let cx = key_x(key as int);
        let cy = key_y(key as int);
        if key != own {
            assert(explored.contains(key));
            if enclosed(explored, width, height, cx, cy) {
                lemma_enclosed_grows(explored, width, height, x, y, cx, cy);
            }
        }
    }
}

/// A cell that a visit of `(x, y)` encloses lies next to `(x, y)`.
pub proof fn lemma_enclosed_by_visit(
    explored: Set<u64>,
    width: int,
    height: int,
    x: int,
    y: int,
    cx: int,
    cy: int,
)
    requires
        0 <= width <= MAX_SIDE,
        0 <= height <= MAX_SIDE,
        0 <= x < width,
        0 <= y < height,
        !enclosed(explored, width, height, cx, cy),
        enclosed(explored.insert(key_of(x, y) as u64), width, height, cx, cy),
    ensures
        -1 <= cx - x <= 1,
        -1 <= cy - y <= 1,
{
    reveal(enclosed);
    if !neighbour_settled(explored, width, height, cx, cy, 0) {
        lemma_settled_by_visit(explored, width, height, x, y, cx, cy, 0);
    } else if !neighbour_settled(explored, width, height, cx, cy, 1) {
        lemma_settled_by_visit(explored, width, height, x, y, cx, cy, 1);
    } else if !neighbour_settled(explored, width, height, cx, cy, 2) {
        lemma_settled_by_visit(explored, width, height, x, y, cx, cy, 2);
    } else if !neighbour_settled(explored, width, height, cx, cy, 3) {
        lemma_settled_by_visit(explored, width, height, x, y, cx, cy, 3);
    } else if !neighbour_settled(explored, width, height, cx, cy, 4) {
        lemma_settled_by_visit(explored, width, height, x, y, cx, cy, 4);
    } else if !neighbour_settled(explored, width, height, cx, cy, 5) {
        lemma_settled_by_visit(explored, width, height, x, y, cx, cy, 5);
    } else if !neighbour_settled(explored, width, height, cx, cy, 6) {
        lemma_settled_by_visit(explored, width, height, x, y, cx, cy, 6);
    } else {
        lemma_settled_by_visit(explored, width, height, x, y, cx, cy, 7);
    }
}

/// A cell that was enclosed stays enclosed when another cell is visited.
pub proof fn lemma_enclosed_grows(
    explored: Set<u64>,
    width: int,
    height: int,
    x: int,
    y: int,
    cx: int,
    cy: int,
)
    requires
        enclosed(explored, width, height, cx, cy),
    ensures
        enclosed(explored.insert(key_of(x, y) as u64), width, height, cx, cy),
{
    reveal(enclosed);
}

/// The batch size is at least the base size and at most sixteen times the
/// base size, and it does not fall as the growth rises.
pub proof fn lemma_batch_size_bounds(base: int, growth: int, later: int)
    requires
        0 <= base,
        growth <= later,
    ensures
        base <= usize::MAX ==> base <= batch_size(base, growth),
        batch_size(base, growth) <= 16 * base,
        batch_size(base, growth) <= batch_size(base, later),
        batch_size(base, 1000000) == if base <= usize::MAX {
            base
        } else {
            usize::MAX as int
        },
{
    let held = held_growth(growth);
    let held_later = held_growth(later);
    assert(base * 1000000 <= base * held <= base * held_later <= base * 16000000)
        by (nonlinear_arith)
        requires
            0 <= base,
            1000000 <= held <= held_later <= 16000000,
    ;
    assert((base * 1000000) / 1000000 == base && (base * 16000000) / 1000000 == 16 * base) by {
        assert(base * 16000000 == (16 * base) * 1000000) by (nonlinear_arith);
        vstd::arithmetic::div_mod::lemma_div_multiples_vanish(base, 1000000);
        vstd::arithmetic::div_mod::lemma_div_multiples_vanish(16 * base, 1000000);
    }
    vstd::arithmetic::div_mod::lemma_div_is_ordered(base * 1000000, base * held, 1000000);
    vstd::arithmetic::div_mod::lemma_div_is_ordered(base * held, base * held_later, 1000000);
    vstd::arithmetic::div_mod::lemma_div_is_ordered(base * held_later, base * 16000000, 1000000);
}

} // verus!
