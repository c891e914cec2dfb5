//! Boolean grids: the occupancy grid and the selection-region grid.
//!
//! A grid stores its cells row-major by x: cell (x, y) lives at index
//! `x * size_y + y`. Sizes are capped so that all index arithmetic stays far
//! from any machine limit.

use vstd::prelude::*;

use crate::rng;

verus! {

/// Number of `true` cells in a sequence.
pub open spec fn count_true(s: Seq<bool>) -> int
    decreases s.len(),
{
    if s.len() == 0 {
        0
    } else {
        count_true(s.drop_last()) + if s.last() {
            1int
        } else {
            0int
        }
    }
}

/// Updating one cell moves the count by the difference of the two values.
pub proof fn lemma_count_true_update(s: Seq<bool>, i: int, v: bool)
    requires
        0 <= i < s.len(),
    ensures
        count_true(s.update(i, v)) == count_true(s) - (if s[i] {
            1int
        } else {
            0int
        }) + (if v {
            1int
        } else {
            0int
        }),
    decreases s.len(),
{
    let t = s.update(i, v);
    if i == s.len() - 1 {
        assert(t.drop_last() =~= s.drop_last());
    } else {
        assert(t.drop_last() =~= s.drop_last().update(i, v));
        lemma_count_true_update(s.drop_last(), i, v);
    }
}

pub proof fn lemma_count_true_all_true(s: Seq<bool>)
    requires
        forall|i: int| 0 <= i < s.len() ==> s[i],
    ensures
        count_true(s) == s.len(),
    decreases s.len(),
{
    if s.len() > 0 {
        lemma_count_true_all_true(s.drop_last());
    }
}

pub proof fn lemma_count_true_none(s: Seq<bool>)
    requires
        forall|i: int| 0 <= i < s.len() ==> !s[i],
    ensures
        count_true(s) == 0,
    decreases s.len(),
{
    if s.len() > 0 {
        lemma_count_true_none(s.drop_last());
    }
}

/// The cell index reached `t` steps after `start`, wrapping at `n`.
pub open spec fn wrap_at(start: int, t: int, n: int) -> int {
    if start + t < n {
        start + t
    } else {
        start + t - n
    }
}

/// A boolean grid of cells.
pub struct Grid {
    pub size_x: i32,
    pub size_y: i32,
    pub cells: Vec<bool>,
}

impl Grid {
    pub open spec fn wf(self) -> bool {
        &&& 1 <= self.size_x <= 4096
        &&& 1 <= self.size_y <= 4096
        &&& self.cells@.len() == self.size_x * self.size_y
    }

    pub open spec fn in_range(self, x: int, y: int) -> bool {
        0 <= x < self.size_x && 0 <= y < self.size_y
    }

    pub open spec fn idx(self, x: int, y: int) -> int {
        x * self.size_y + y
    }

    pub open spec fn cell(self, x: int, y: int) -> bool {
        self.cells@[self.idx(x, y)]
    }

    pub open spec fn set_count(self) -> int {
        count_true(self.cells@)
    }

    pub open spec fn same_shape(self, other: Grid) -> bool {
        self.size_x == other.size_x && self.size_y == other.size_y
    }

    /// A fresh grid with every cell clear.
    pub fn new(size_x: i32, size_y: i32) -> (r: Grid)
        requires
            1 <= size_x <= 4096,
            1 <= size_y <= 4096,
        ensures
            r.wf(),
            r.size_x == size_x,
            r.size_y == size_y,
            forall|x: int, y: int| r.in_range(x, y) ==> !r.cell(x, y),
            r.set_count() == 0,
    {
        proof {
            assert(size_x * size_y <= 4096 * 4096) by (nonlinear_arith)
                requires
                    1 <= size_x <= 4096,
                    1 <= size_y <= 4096,
            ;
        }
        let n = (size_x as usize) * (size_y as usize);
        let cells = vec![false; n];
        let r = Grid { size_x, size_y, cells };
        proof {
            lemma_count_true_none(r.cells@);
            assert forall|x: int, y: int| r.in_range(x, y) implies !r.cell(x, y) by {
                lemma_idx_bounds(r, x, y);
            }
        }
        r
    }

    /// Reads one cell.
    pub fn get(&self, x: i32, y: i32) -> (b: bool)
        requires
            self.wf(),
            self.in_range(x as int, y as int),
        ensures
            b == self.cell(x as int, y as int),
    {
        proof {
            lemma_idx_bounds(*self, x as int, y as int);
            assert((self.size_x as int) * (self.size_y as int) <= 4096 * 4096)
                by (nonlinear_arith)
                requires
                    1 <= self.size_x as int <= 4096,
                    1 <= self.size_y as int <= 4096,
            ;
        }
        let i = (x as usize) * (self.size_y as usize) + (y as usize);
        self.cells[i]
    }

    /// Writes one cell; every other cell is kept.
    pub fn set(&mut self, x: i32, y: i32, v: bool)
        requires
            old(self).wf(),
            old(self).in_range(x as int, y as int),
        ensures
            final(self).wf(),
            final(self).same_shape(*old(self)),
            final(self).cells@ == old(self).cells@.update(old(self).idx(x as int, y as int), v),
            final(self).cell(x as int, y as int) == v,
            forall|x2: int, y2: int|
                old(self).in_range(x2, y2) && !(x2 == x as int && y2 == y as int) ==> final(self).cell(x2, y2) == old(self).cell(x2, y2),
            final(self).set_count() == old(self).set_count() - (if old(self).cell(
                x as int,
                y as int,
            ) {
                1int
            } else {
                0int
            }) + (if v {
                1int
            } else {
                0int
            }),
    {
        proof {
            lemma_idx_bounds(*self, x as int, y as int);
            assert((self.size_x as int) * (self.size_y as int) <= 4096 * 4096)
                by (nonlinear_arith)
                requires
                    1 <= self.size_x as int <= 4096,
                    1 <= self.size_y as int <= 4096,
            ;
        }
        let i = (x as usize) * (self.size_y as usize) + (y as usize);
        self.cells.set(i, v);
        proof {
            lemma_count_true_update(old(self).cells@, old(self).idx(x as int, y as int), v);
            assert forall|x2: int, y2: int|
                old(self).in_range(x2, y2) && !(x2 == x as int && y2 == y as int) implies final(self).cell(x2, y2) == old(self).cell(x2, y2) by {
                lemma_idx_bounds(*old(self), x2, y2);
                if old(self).idx(x2, y2) == old(self).idx(x as int, y as int) {
                    lemma_idx_injective(*old(self), x2, y2, x as int, y as int);
                }
            }
        }
    }

    /// Clears every cell.
    pub fn clear(&mut self)
        requires
            old(self).wf(),
        ensures
            final(self).wf(),
            final(self).same_shape(*old(self)),
            forall|x: int, y: int| final(self).in_range(x, y) ==> !final(self).cell(x, y),
            final(self).set_count() == 0,
    {
        proof {
            assert(self.size_x * self.size_y <= 4096 * 4096) by (nonlinear_arith)
                requires
                    1 <= self.size_x <= 4096,
                    1 <= self.size_y <= 4096,
            ;
        }
        let n = (self.size_x as usize) * (self.size_y as usize);
        self.cells = vec![false; n];
        proof {
            lemma_count_true_none(self.cells@);
            assert forall|x: int, y: int| final(self).in_range(x, y) implies !final(self).cell(
                x,
                y,
            ) by {
                lemma_idx_bounds(*self, x, y);
            }
        }
    }

    /// How many cells are set.
    pub fn count_set(&self) -> (c: usize)
        requires
            self.wf(),
        ensures
            c as int == self.set_count(),
    {
        let mut c: usize = 0;
        let mut i: usize = 0;
        let n = self.cells.len();
        while i < n
            invariant
                i <= n,
                n == self.cells@.len(),
                c <= i,
                c as int == count_true(self.cells@.take(i as int)),
            decreases n - i,
        {
            proof {
                assert(self.cells@.take(i + 1).drop_last() =~= self.cells@.take(i as int));
            }
            if self.cells[i] {
                c = c + 1;
            }
            i = i + 1;
        }
        proof {
            assert(self.cells@.take(n as int) =~= self.cells@);
        }
        c
    }

    /// Claims a free cell: scanning from a random start, finds a clear cell,
    /// marks it, and returns its coordinates.
    pub fn claim_free(&mut self) -> (p: (i32, i32))
        requires
            old(self).wf(),
            old(self).set_count() < old(self).size_x * old(self).size_y,
        ensures
            final(self).wf(),
            final(self).same_shape(*old(self)),
            final(self).in_range(p.0 as int, p.1 as int),
            !old(self).cell(p.0 as int, p.1 as int),
            final(self).cells@ == old(self).cells@.update(
                old(self).idx(p.0 as int, p.1 as int),
                true,
            ),
            final(self).cell(p.0 as int, p.1 as int),
            forall|x2: int, y2: int|
                old(self).in_range(x2, y2) && !(x2 == p.0 as int && y2 == p.1 as int) ==> final(self).cell(x2, y2) == old(self).cell(x2, y2),
            final(self).set_count() == old(self).set_count() + 1,
    {
        proof {
            assert(self.size_x * self.size_y <= 4096 * 4096 && self.size_x * self.size_y >= 1)
                by (nonlinear_arith)
                requires
                    1 <= self.size_x <= 4096,
                    1 <= self.size_y <= 4096,
            ;
        }
        let n = self.cells.len();
        let start = rng::rand_below(n);
        let mut i: usize = 0;
        while i < n
            invariant
                *self == *old(self),
                self.wf(),
                n == self.cells@.len(),
                n <= 4096 * 4096,
                start < n,
                i <= n,
                forall|t: int| 0 <= t < i ==> self.cells@[#[trigger] wrap_at(start as int, t, n as int)],
            decreases n - i,
        {
            let k = if start + i >= n {
                start + i - n
            } else {
                start + i
            };
            proof {
                assert(k as int == wrap_at(start as int, i as int, n as int));
            }
            if !self.cells[k] {
                let sy = self.size_y as usize;
                let x = k / sy;
                let y = k % sy;
                proof {
                    vstd::arithmetic::div_mod::lemma_fundamental_div_mod(k as int, sy as int);
                    assert((k as int) / (sy as int) < self.size_x as int) by (nonlinear_arith)
                        requires
                            sy as int == self.size_y as int,
                            1 <= self.size_y as int,
                            0 <= k as int,
                            (k as int) < (self.size_x as int) * (self.size_y as int),
                    ;
                    assert(k as int == (sy as int) * ((k as int) / (sy as int)) + (k as int)
                        % (sy as int));
                    assert((sy as int) * (x as int) == (x as int) * (sy as int))
                        by (nonlinear_arith);
                    assert(self.idx(x as int, y as int) == k);
                }
                self.cells.set(k, true);
                proof {
                    lemma_count_true_update(old(self).cells@, k as int, true);
                    assert forall|x2: int, y2: int|
                        old(self).in_range(x2, y2) && !(x2 == x as int && y2 == y as int) implies
                        final(self).cell(x2, y2) == old(self).cell(x2, y2) by {
                        lemma_idx_bounds(*old(self), x2, y2);
                        if old(self).idx(x2, y2) == k as int {
                            lemma_idx_injective(*old(self), x2, y2, x as int, y as int);
                        }
                    }
                }
                return (x as i32, y as i32);
            }
            i = i + 1;
        }
        proof {
            assert forall|j: int| 0 <= j < n implies self.cells@[j] by {
                let t = if j >= start {
                    j - start
                } else {
                    j + n - start
                };
                assert(self.cells@[wrap_at(start as int, t, n as int)]);
                assert(wrap_at(start as int, t, n as int) == j);
            }
            lemma_count_true_all_true(self.cells@);
            assert(false);
        }
        vstd::pervasive::unreached()
    }
}

/// The linear index of an in-range cell lies inside the cell vector.
pub proof fn lemma_idx_bounds(g: Grid, x: int, y: int)
    requires
        g.wf(),
        g.in_range(x, y),
    ensures
        0 <= g.idx(x, y) < g.size_x * g.size_y,
{
    assert(0 <= x * g.size_y + y < g.size_x * g.size_y) by (nonlinear_arith)
        requires
            0 <= x < g.size_x,
            0 <= y < g.size_y,
            1 <= g.size_y,
    ;
}

/// Two different in-range cells have different linear indices.
pub proof fn lemma_idx_injective(g: Grid, x1: int, y1: int, x2: int, y2: int)
    requires
        g.wf(),
        g.in_range(x1, y1),
        g.in_range(x2, y2),
        g.idx(x1, y1) == g.idx(x2, y2),
    ensures
        x1 == x2,
        y1 == y2,
{
    assert(x1 == x2 && y1 == y2) by (nonlinear_arith)
        requires
            0 <= y1 < g.size_y,
            0 <= y2 < g.size_y,
            x1 * g.size_y + y1 == x2 * g.size_y + y2,
    ;
}

} // verus!
