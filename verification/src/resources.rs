//! The position pool: the coarse cells not occupied by any consumable or wall.
use vstd::prelude::*;

use crate::components::Position;
use crate::random::random_index;
use crate::seqs::{lemma_push_contains, lemma_push_no_duplicates, lemma_swap_remove_contains};

verus! {

/// All coarse cells of a `width` by `height` grid.
pub open spec fn all_cells(width: int, height: int) -> Set<Position> {
    Set::new(|p: Position| 0 <= p.x < width && 0 <= p.y < height)
}

/// Does this vector of cells hold the given cell?
pub fn vec_contains(cells: &Vec<Position>, position: &Position) -> (present: bool)
    ensures
        present <==> cells@.contains(*position),
{
    let n = cells.len();
    let mut i: usize = 0;
    while i < n
        invariant
            n == cells@.len(),
            i <= n,
            forall|k: int| 0 <= k < i ==> cells@[k] != *position,
        decreases n - i,
    {
        if cells[i] == *position {
            return true;
        }
        i = i + 1;
    }
    false
}

/// Tracks the currently unoccupied coarse cells of the grid.  Cells are drawn
/// uniformly without replacement by removing a random index, which replaces
/// the shuffle-then-pop scheme such a pool is often built on.
pub struct FreePositions {
    pub positions: Vec<Position>,
    pub width: i32,
    pub height: i32,
}

impl FreePositions {
    /// The pool as a sequence of cells.
    pub open spec fn view(self) -> Seq<Position> {
        self.positions@
    }

    /// The pool as a set of cells.
    pub open spec fn cells(self) -> Set<Position> {
        self@.to_set()
    }

    /// Well-formedness: no cell twice, every cell on the grid, and grid
    /// dimensions whose product fits the machine.
    pub open spec fn inv(self) -> bool {
        &&& self@.no_duplicates()
        &&& (forall|p: Position|
            #[trigger] self@.contains(p) ==> 0 <= p.x < self.width && 0 <= p.y < self.height)
        &&& 0 <= self.width
        &&& 0 <= self.height
        &&& self.width * self.height <= usize::MAX
    }

    /// Populates every coarse cell of the grid, each exactly once.
    pub fn new(width: i32, height: i32) -> (pool: Self)
        requires
            0 <= width,
            0 <= height,
            width * height <= usize::MAX,
        ensures
            pool.inv(),
            pool.width == width,
            pool.height == height,
            pool.cells() == all_cells(width as int, height as int),
            pool@.len() == width * height,
    {
        let positions = Self::new_positions(width, height);
        let pool = Self { positions, width, height };
        proof {
            assert(pool.cells() =~= all_cells(width as int, height as int));
        }
        pool
    }

    /// One entry for each cell of the grid, column by column.
    fn new_positions(width: i32, height: i32) -> (positions: Vec<Position>)
        requires
            0 <= width,
            0 <= height,
            width * height <= usize::MAX,
        ensures
            positions@.no_duplicates(),
            forall|p: Position|
                #[trigger] positions@.contains(p) <==> (0 <= p.x < width && 0 <= p.y < height),
            positions@.len() == width * height,
    {
        let mut positions: Vec<Position> = Vec::new();
        let mut x: i32 = 0;
        while x < width
            invariant
                0 <= x <= width,
                0 <= height,
                width * height <= usize::MAX,
                positions@.len() == x * height,
                positions@.no_duplicates(),
                forall|p: Position|
                    #[trigger] positions@.contains(p) <==> (0 <= p.x < x && 0 <= p.y < height),
            decreases width - x,
        {
            let mut y: i32 = 0;
            while y < height
                invariant
                    0 <= x < width,
                    0 <= y <= height,
                    width * height <= usize::MAX,
                    positions@.len() == x * height + y,
                    positions@.no_duplicates(),
                    forall|p: Position|
                        #[trigger] positions@.contains(p) <==> ((0 <= p.x < x && 0 <= p.y < height)
                            || (p.x == x && 0 <= p.y < y)),
                decreases height - y,
            {
                let cell = Position { x, y };
                let ghost pre = positions@;
                proof {
                    assert(!pre.contains(cell));
                    assert((x + 1) * height <= width * height) by (nonlinear_arith)
                        requires
                            0 <= height && x + 1 <= width,
                    ;
                    assert(x * height + y + 1 <= (x + 1) * height) by (nonlinear_arith)
                        requires
                            y + 1 <= height,
                    ;
                    lemma_push_no_duplicates(pre, cell);
                }
                positions.push(cell);
                proof {
                    assert forall|p: Position| #[trigger]
                        positions@.contains(p) <==> ((0 <= p.x < x && 0 <= p.y < height) || (p.x
                            == x && 0 <= p.y < y + 1)) by {
                        lemma_push_contains(pre, cell, p);
                    }
                }
                y = y + 1;
            }
            proof {
                assert((x + 1) * height == x * height + height) by (nonlinear_arith);
            }
            x = x + 1;
        }
        positions
    }

    /// Does the pool hold this cell?
    pub fn contains_pos(&self, position: &Position) -> (present: bool)
        ensures
            present <==> self.cells().contains(*position),
    {
        vec_contains(&self.positions, position)
    }

    /// Removes and returns one uniformly random cell; `None` signals an
    /// exhausted pool and means the requested placement is skipped.
    pub fn draw(&mut self) -> (drawn: Option<Position>)
        requires
            old(self).inv(),
        ensures
            final(self).inv(),
            final(self).width == old(self).width,
            final(self).height == old(self).height,
            match drawn {
                None => old(self)@.len() == 0 && *final(self) == *old(self),
                Some(p) => {
                    &&& old(self).cells().contains(p)
                    &&& final(self).cells() == old(self).cells().remove(p)
                    &&& final(self)@.len() == old(self)@.len() - 1
                },
            },
    {
        let n = self.positions.len();
        if n == 0 {
            return None;
        }
        let i = random_index(n);
        let p = self.positions.swap_remove(i);
        proof {
            lemma_swap_remove_contains(old(self)@, i as int);
            assert(self.cells() =~= old(self).cells().remove(p));
            assert forall|q: Position| #[trigger] self@.contains(q) implies 0 <= q.x < self.width
                && 0 <= q.y < self.height by {
            assert(old(self)@.contains(q));
            }
        }
        Some(p)
    }

    /// Removes a specific cell if present; a no-op when the cell is absent.
    pub fn remove(&mut self, position: &Position) -> (removed: bool)
        requires
            old(self).inv(),
        ensures
            final(self).inv(),
            final(self).width == old(self).width,
            final(self).height == old(self).height,
            final(self).cells() == old(self).cells().remove(*position),
            removed <==> old(self).cells().contains(*position),
            final(self)@.len() == if removed {
                old(self)@.len() - 1
            } else {
                old(self)@.len() as int
            },
    {
        let n = self.positions.len();
        let mut i: usize = 0;
        while i < n
            invariant
                old(self).inv(),
                n == self@.len(),
                i <= n,
                *self == *old(self),
                forall|k: int| 0 <= k < i ==> self@[k] != *position,
            decreases n - i,
        {
            if self.positions[i] == *position {
                let p = self.positions.swap_remove(i);
                proof {
                    lemma_swap_remove_contains(old(self)@, i as int);
                    assert(self.cells() =~= old(self).cells().remove(*position));
                    assert forall|q: Position| #[trigger] self@.contains(q) implies 0 <= q.x
                        < self.width && 0 <= q.y < self.height by {
                        assert(old(self)@.contains(q));
                    }
                }
                return true;
            }
            i = i + 1;
        }
        proof {
            assert(!old(self).cells().contains(*position));
            assert(self.cells() =~= old(self).cells().remove(*position));
        }
        false
    }

    /// Removes each of the given cells.
    pub fn remove_all(&mut self, positions: &Vec<Position>) -> (removed_count: usize)
        requires
            old(self).inv(),
        ensures
            final(self).inv(),
            final(self).width == old(self).width,
            final(self).height == old(self).height,
            final(self).cells() == old(self).cells().difference(positions@.to_set()),
            final(self)@.len() == old(self)@.len() - removed_count,
            removed_count <= positions@.len(),
    {
        let n = positions.len();
        let mut removed_count: usize = 0;
        let mut j: usize = 0;
        while j < n
            invariant
                old(self).inv(),
                self.inv(),
                self.width == old(self).width,
                self.height == old(self).height,
                n == positions@.len(),
                j <= n,
                removed_count <= j,
                self@.len() == old(self)@.len() - removed_count,
                forall|q: Position|
                    #[trigger] self.cells().contains(q) <==> (old(self).cells().contains(q)
                        && !positions@.take(j as int).contains(q)),
            decreases n - j,
        {
            let ghost pre = self.cells();
            let did = self.remove(&positions[j]);
            proof {
                assert(positions@.take(j + 1) =~= positions@.take(j as int).push(positions@[
                    j as int]));
                assert forall|q: Position| #[trigger]
                    self.cells().contains(q) <==> (old(self).cells().contains(q)
                        && !positions@.take(j + 1).contains(q)) by {
                    lemma_push_contains(positions@.take(j as int), positions@[j as int], q);
                    assert(self.cells() == pre.remove(positions@[j as int]));
                }
            }
            if did {
                removed_count = removed_count + 1;
            }
            j = j + 1;
        }
        proof {
            assert(positions@.take(n as int) =~= positions@);
            assert(self.cells() =~= old(self).cells().difference(positions@.to_set()));
        }
        removed_count
    }

    /// Returns a cell to the pool once it became free again; a no-op if the
    /// pool already holds it.
    pub fn release(&mut self, position: Position) -> (added: bool)
        requires
            old(self).inv(),
            0 <= position.x < old(self).width,
            0 <= position.y < old(self).height,
        ensures
            final(self).inv(),
            final(self).width == old(self).width,
            final(self).height == old(self).height,
            final(self).cells() == old(self).cells().insert(position),
            added <==> !old(self).cells().contains(position),
            final(self)@.len() == if added {
                old(self)@.len() + 1
            } else {
                old(self)@.len() + 0
            },
    {
        if self.contains_pos(&position) {
            proof {
                assert(self.cells() =~= old(self).cells().insert(position));
            }
            return false;
        }
        let ghost pre = self@;
        proof {
            lemma_push_no_duplicates(pre, position);
        }
        self.positions.push(position);
        proof {
            assert forall|q: Position| #[trigger]
                self@.contains(q) <==> (pre.contains(q) || q == position) by {
                lemma_push_contains(pre, position, q);
            }
            assert(self.cells() =~= old(self).cells().insert(position));
        }
        true
    }

    /// Reinitializes to the full grid, as at round start.
    pub fn reset(&mut self)
        requires
            old(self).inv(),
        ensures
            final(self).inv(),
            final(self).width == old(self).width,
            final(self).height == old(self).height,
            final(self).cells() == all_cells(old(self).width as int, old(self).height as int),
            final(self)@.len() == old(self).width * old(self).height,
    {
        self.positions = Self::new_positions(self.width, self.height);
        proof {
            assert(self.cells() =~= all_cells(self.width as int, self.height as int));
        }
    }

    /// A copy of the pool with the given cells left out: the candidate cells
    /// for a spawn, which must never land on the excluded cells.
    pub fn candidates(&self, excluded: &Vec<Position>) -> (cand: Self)
        requires
            self.inv(),
        ensures
            cand.inv(),
            cand.width == self.width,
            cand.height == self.height,
            cand.cells() == self.cells().difference(excluded@.to_set()),
    {
        let n = self.positions.len();
        let mut kept: Vec<Position> = Vec::new();
        let mut i: usize = 0;
        while i < n
            invariant
                self.inv(),
                n == self@.len(),
                i <= n,
                kept@.no_duplicates(),
                forall|q: Position|
                    #[trigger] kept@.contains(q) <==> (self@.take(i as int).contains(q)
                        && !excluded@.contains(q)),
            decreases n - i,
        {
            let p = self.positions[i];
            let hit = vec_contains(excluded, &p);
            let ghost pre = kept@;
            proof {
                assert(self@.take(i + 1) =~= self@.take(i as int).push(self@[i as int]));
                if !hit {
                    assert(!pre.contains(p)) by {
                        if pre.contains(p) {
                            assert(self@.take(i as int).contains(p));
                            let k = choose|k: int|
                                0 <= k < i && #[trigger] self@.take(i as int)[k] == p;
                            assert(self@[k] == self@[i as int]);
                        }
                    }
                    lemma_push_no_duplicates(pre, p);
                }
            }
            if !hit {
                kept.push(p);
            }
            proof {
                assert forall|q: Position| #[trigger]
                    kept@.contains(q) <==> (self@.take(i + 1).contains(q) && !excluded@.contains(
                    q)) by {
                    lemma_push_contains(self@.take(i as int), self@[i as int], q);
                    if !hit {
                        lemma_push_contains(pre, p, q);
                    }
                }
            }
            i = i + 1;
        }
        let cand = Self { positions: kept, width: self.width, height: self.height };
        proof {
            assert(self@.take(n as int) =~= self@);
            assert forall|q: Position| #[trigger] cand@.contains(q) implies 0 <= q.x < cand.width
                && 0 <= q.y < cand.height by {
                assert(self@.contains(q));
            }
            assert(cand.cells() =~= self.cells().difference(excluded@.to_set()));
        }
        cand
    }

    /// Number of free cells.
    pub fn len(&self) -> (n: usize)
        ensures
            n == self@.len(),
    {
        self.positions.len()
    }
}

} // verus!
