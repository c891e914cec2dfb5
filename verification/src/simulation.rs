//! The world and the simulation engine: occupancy and selection grids, the
//! tick counter, and the population lifecycle.
//!
//! A generation runs as `ticks` of `simulation_step`, then `apply_selection`
//! marks every agent outside the selection region dead, and `repopulate`
//! breeds the survivors' genomes into a full new pool and resets every agent
//! in place on a fresh free cell. The cycle repeats indefinitely; the caller
//! decides when to stop.
//!
//! Floating-point network evaluation lives with the embedding runtime: after
//! each `simulation_step` it walks the agents in index order (so that an
//! agent evaluated later observes grid changes already made by earlier
//! agents in the same tick), reads the integer sensor readings, evaluates
//! the wired layers, and commits action effects through `apply_action`.

use vstd::prelude::*;

use crate::genome::{
    bit_diff, index_permutation, lemma_order_permutation, random_genome, random_order, Gene,
};
use crate::grid::Grid;
use crate::neuron::{a_move, a_resp, a_turn, move_target_x, move_target_y, ActionKind};
use crate::rng;
use crate::wyrm::{
    gene_near_parents, same_but_dir, same_but_position, same_but_responsiveness,
    same_wyrm_but_age, Wyrm, RESP_INIT,
};

verus! {

/// The world state shared by all agents.
///
/// The oscillator itself is a cosine wave over the tick phase
/// `tick % osc_period`; being floating point, its value is computed by the
/// embedding runtime from `osc_phase`. The mutation rate is kept in parts
/// per thousand.
pub struct SimulationState {
    pub size_x: i32,
    pub size_y: i32,
    /// Ticks per generation.
    pub max_age: i32,
    pub osc_period: i32,
    pub mutation_permille: u32,
    pub tick: i32,
    pub world: Grid,
    pub selection_area: Grid,
}

impl SimulationState {
    pub open spec fn wf(self) -> bool {
        &&& self.world.wf()
        &&& self.selection_area.wf()
        &&& self.world.size_x == self.size_x
        &&& self.world.size_y == self.size_y
        &&& self.selection_area.size_x == self.size_x
        &&& self.selection_area.size_y == self.size_y
        &&& 1 <= self.osc_period
        &&& 1 <= self.max_age
        &&& 0 <= self.tick
        &&& self.mutation_permille <= 1000
    }

    /// Everything but the two grids is kept.
    pub open spec fn same_scalars(self, other: SimulationState) -> bool {
        &&& other.size_x == self.size_x
        &&& other.size_y == self.size_y
        &&& other.max_age == self.max_age
        &&& other.osc_period == self.osc_period
        &&& other.mutation_permille == self.mutation_permille
        &&& other.tick == self.tick
    }

    /// The oscillator phase: how far into its period the current tick lies.
    /// The oscillator value itself is `0.5 + 0.5 * cos(2 * pi * phase / period)`.
    pub fn osc_phase(&self) -> (p: i32)
        requires
            self.wf(),
        ensures
            p == self.tick as int % self.osc_period as int,
            0 <= p < self.osc_period,
    {
        self.tick % self.osc_period
    }
}

/// Everything of an agent but its dead flag is kept.
pub open spec fn same_wyrm_but_dead(a: Wyrm, b: Wyrm) -> bool {
    &&& b.state.x == a.state.x
    &&& b.state.y == a.state.y
    &&& b.state.dir == a.state.dir
    &&& b.state.age == a.state.age
    &&& b.state.max_dist == a.state.max_dist
    &&& b.state.genome@ == a.state.genome@
    &&& b.state.responsiveness == a.state.responsiveness
    &&& b.inner_layer@ == a.inner_layer@
    &&& b.action_layer@ == a.action_layer@
}

/// How one selection pass transforms the agents: every agent whose cell
/// lies outside the selection region is marked dead, everything else is
/// kept.
pub open spec fn selection_rel(pre: Seq<Wyrm>, post: Seq<Wyrm>, sel: Grid) -> bool {
    &&& post.len() == pre.len()
    &&& forall|i: int| 0 <= i < pre.len() ==> same_wyrm_but_dead(#[trigger] pre[i], post[i])
    &&& forall|i: int|
        0 <= i < pre.len() ==> (#[trigger] post[i]).state.dead == (pre[i].state.dead
            || !sel.cell(pre[i].state.x as int, pre[i].state.y as int))
}

/// How many agents sit on a selection-region cell.
pub open spec fn count_inside(ws: Seq<Wyrm>, sel: Grid) -> int
    decreases ws.len(),
{
    if ws.len() == 0 {
        0
    } else {
        count_inside(ws.drop_last(), sel) + if sel.cell(
            ws.last().state.x as int,
            ws.last().state.y as int,
        ) {
            1int
        } else {
            0int
        }
    }
}

proof fn lemma_count_inside_pointwise(a: Seq<Wyrm>, b: Seq<Wyrm>, sel: Grid)
    requires
        a.len() == b.len(),
        forall|i: int|
            0 <= i < a.len() ==> (#[trigger] a[i]).state.x == b[i].state.x && a[i].state.y
                == b[i].state.y,
    ensures
        count_inside(a, sel) == count_inside(b, sel),
    decreases a.len(),
{
    if a.len() > 0 {
        lemma_count_inside_pointwise(a.drop_last(), b.drop_last(), sel);
    }
}

/// Applying selection twice in succession, with no step in between, leaves
/// exactly the dead set the first application produced, and both passes
/// see the same number of agents inside the region: selection is
/// idempotent.
pub proof fn lemma_selection_idempotent(pre: Seq<Wyrm>, mid: Seq<Wyrm>, post: Seq<Wyrm>, sel: Grid)
    requires
        selection_rel(pre, mid, sel),
        selection_rel(mid, post, sel),
    ensures
        forall|i: int|
            0 <= i < mid.len() ==> (#[trigger] post[i]).state.dead == mid[i].state.dead,
        count_inside(mid, sel) == count_inside(pre, sel),
{
    lemma_count_inside_pointwise(mid, pre, sel);
}

/// Whether a gene is at most three bit flips away from a gene of some
/// still-alive agent.
pub open spec fn from_survivors(g: Gene, ws: Seq<Wyrm>) -> bool {
    exists|s: int, j: int|
        0 <= s < ws.len() && !ws[s].state.dead && 0 <= j < ws[s].state.genome@.len() && bit_diff(
            g,
            ws[s].state.genome@[j],
        ) <= 3
}

/// Whether the index sequence holds the value `k`.
pub open spec fn holds_index(s: Seq<usize>, k: int) -> bool {
    exists|u: int| 0 <= u < s.len() && (#[trigger] s[u]) as int == k
}

/// Whether `s` is the roster of surviving agent slots: every entry names a
/// still-alive agent, the entries are strictly increasing, and every
/// still-alive slot appears.
pub open spec fn survivor_roster(s: Seq<usize>, ws: Seq<Wyrm>) -> bool {
    &&& forall|u: int|
        0 <= u < s.len() ==> (#[trigger] s[u]) < ws.len() && !ws[s[u] as int].state.dead
    &&& forall|u1: int, u2: int|
        #![trigger s[u1], s[u2]]
        0 <= u1 < u2 < s.len() ==> s[u1] < s[u2]
    &&& forall|k: int| 0 <= k < ws.len() && !(#[trigger] ws[k]).state.dead ==> holds_index(s, k)
}

/// `sj` is the surviving slot that follows `si` in cyclic slot order: both
/// are alive and every slot strictly between them, wrapping past the end,
/// is dead. With a single survivor the next survivor is the survivor
/// itself.
pub open spec fn cyclic_next_survivor(ws: Seq<Wyrm>, si: int, sj: int) -> bool {
    &&& 0 <= si < ws.len()
    &&& 0 <= sj < ws.len()
    &&& !ws[si].state.dead
    &&& !ws[sj].state.dead
    &&& if si < sj {
        forall|k: int| si < k < sj ==> (#[trigger] ws[k]).state.dead
    } else {
        (forall|k: int| si < k < ws.len() ==> (#[trigger] ws[k]).state.dead) && (forall|k: int|
            0 <= k < sj ==> (#[trigger] ws[k]).state.dead)
    }
}

/// The genome was bred from the agent pair (si, sj): it has the first
/// parent's genome length and every gene is within three bit flips of a
/// gene of one of the two parents.
pub open spec fn bred_from_pair(g: Seq<Gene>, ws: Seq<Wyrm>, si: int, sj: int) -> bool {
    &&& g.len() == ws[si].state.genome@.len()
    &&& forall|q: int|
        0 <= q < g.len() ==> gene_near_parents(
            #[trigger] g[q],
            ws[si].state.genome@,
            ws[sj].state.genome@,
        )
}

/// The genome was bred from some consecutive survivor pair: a survivor and
/// the next survivor in cyclic slot order.
pub open spec fn bred_from_consecutive_pair(g: Seq<Gene>, ws: Seq<Wyrm>) -> bool {
    exists|si: int, sj: int|
        cyclic_next_survivor(ws, si, sj) && #[trigger] bred_from_pair(g, ws, si, sj)
}

/// The pool entry at flat block position `p` is bred from the survivor at
/// roster position `ord[p / cc]` and its cyclically next survivor, where
/// `cc` children fill each survivor's block.
pub open spec fn block_entry_ok(
    pool: Seq<Vec<Gene>>,
    ws: Seq<Wyrm>,
    roster: Seq<usize>,
    ord: Seq<int>,
    cc: int,
    p: int,
) -> bool {
    let a = ord[p / cc];
    let b = if a + 1 == roster.len() as int {
        0int
    } else {
        a + 1
    };
    bred_from_pair(pool[p]@, ws, roster[a] as int, roster[b] as int)
}

/// The pool entry at position `base + t` is a top-up child bred from the
/// survivor at roster position `ord[t]` and its cyclically next survivor.
pub open spec fn topup_entry_ok(
    pool: Seq<Vec<Gene>>,
    ws: Seq<Wyrm>,
    roster: Seq<usize>,
    ord: Seq<int>,
    base: int,
    t: int,
) -> bool {
    let a = ord[t];
    let b = if a + 1 == roster.len() as int {
        0int
    } else {
        a + 1
    };
    bred_from_pair(pool[base + t]@, ws, roster[a] as int, roster[b] as int)
}

/// The pool realizes the breeding distribution: with the roster of `s`
/// survivors out of `n` agent slots, a permutation `ord1` of the roster
/// positions heads `n / s` consecutive children per survivor, each bred
/// with the cyclically next survivor, and the first `n % s` positions of a
/// second permutation `ord2` supply one top-up child each by the same
/// pairing rule.
pub open spec fn pool_distribution(
    pool: Seq<Vec<Gene>>,
    ws: Seq<Wyrm>,
    roster: Seq<usize>,
    ord1: Seq<int>,
    ord2: Seq<int>,
) -> bool {
    let n = ws.len() as int;
    let s = roster.len() as int;
    let cc = n / s;
    &&& survivor_roster(roster, ws)
    &&& 1 <= s <= n
    &&& index_permutation(ord1, s)
    &&& index_permutation(ord2, s)
    &&& pool.len() == n
    &&& forall|p: int| 0 <= p < s * cc ==> #[trigger] block_entry_ok(pool, ws, roster, ord1, cc, p)
    &&& forall|t: int|
        0 <= t < n % s ==> #[trigger] topup_entry_ok(pool, ws, roster, ord2, s * cc, t)
}

/// In a survivor roster, entry `a` and the cyclically next entry `b` name
/// an agent and the next surviving agent in cyclic slot order.
proof fn lemma_roster_cyclic_next(s: Seq<usize>, ws: Seq<Wyrm>, a: int, b: int)
    requires
        survivor_roster(s, ws),
        1 <= s.len(),
        0 <= a < s.len(),
        b == if a + 1 == s.len() {
            0int
        } else {
            a + 1
        },
    ensures
        cyclic_next_survivor(ws, s[a] as int, s[b] as int),
{
    let si = s[a] as int;
    let sj = s[b] as int;
    if a + 1 < s.len() {
        assert(si < sj);
        assert forall|k: int| si < k < sj implies (#[trigger] ws[k]).state.dead by {
            if !ws[k].state.dead {
                assert(holds_index(s, k));
                let u = choose|u: int| 0 <= u < s.len() && (#[trigger] s[u]) as int == k;
                if u < a {
                    assert(s[u] < s[a]);
                } else if a < u && u != b {
                    assert(s[b] < s[u]);
                }
                assert(false);
            }
        }
    } else {
        if b < a {
            assert(s[b] < s[a]);
        }
        assert(sj <= si);
        assert forall|k: int| si < k < ws.len() implies (#[trigger] ws[k]).state.dead by {
            if !ws[k].state.dead {
                assert(holds_index(s, k));
                let u = choose|u: int| 0 <= u < s.len() && (#[trigger] s[u]) as int == k;
                if u < a {
                    assert(s[u] < s[a]);
                }
                assert(false);
            }
        }
        assert forall|k: int| 0 <= k < sj implies (#[trigger] ws[k]).state.dead by {
            if !ws[k].state.dead {
                assert(holds_index(s, k));
                let u = choose|u: int| 0 <= u < s.len() && (#[trigger] s[u]) as int == k;
                if u > b {
                    assert(s[b] < s[u]);
                }
                assert(false);
            }
        }
    }
}

/// Whether a selection rectangle lies with its origin on the grid and has
/// sides below 30 cells.
pub open spec fn rect_in_grid(rc: (int, int, int, int), sx: int, sy: int) -> bool {
    0 <= rc.0 < sx && 0 <= rc.1 < sy && 0 <= rc.2 < 30 && 0 <= rc.3 < 30
}

/// Whether (x, y) lies inside the rectangle (origin, then sides).
pub open spec fn in_rect(rc: (int, int, int, int), x: int, y: int) -> bool {
    rc.0 <= x < rc.0 + rc.2 && rc.1 <= y < rc.1 + rc.3
}

/// Whether (x, y) lies inside one of the rectangles.
pub open spec fn covered_by(rects: Seq<(int, int, int, int)>, x: int, y: int) -> bool {
    exists|i: int| 0 <= i < rects.len() && in_rect(#[trigger] rects[i], x, y)
}

/// The grid's set cells are exactly the union of the ten given rectangles,
/// clipped to the grid; whatever the grid held before is gone.
pub open spec fn selection_of_rects(rects: Seq<(int, int, int, int)>, g: Grid) -> bool {
    &&& rects.len() == 10
    &&& forall|i: int|
        0 <= i < rects.len() ==> rect_in_grid(#[trigger] rects[i], g.size_x as int, g.size_y as int)
    &&& forall|x: int, y: int|
        g.in_range(x, y) ==> (#[trigger] g.cell(x, y) <==> covered_by(rects, x, y))
}

proof fn lemma_covered_push(rects: Seq<(int, int, int, int)>, rc: (int, int, int, int), x: int, y: int)
    ensures
        covered_by(rects.push(rc), x, y) <==> (covered_by(rects, x, y) || in_rect(rc, x, y)),
{
    let full = rects.push(rc);
    if covered_by(rects, x, y) {
        let i = choose|i: int| 0 <= i < rects.len() && in_rect(#[trigger] rects[i], x, y);
        assert(full[i] == rects[i]);
        assert(in_rect(full[i], x, y));
    }
    if in_rect(rc, x, y) {
        assert(full[rects.len() as int] == rc);
        assert(in_rect(full[rects.len() as int], x, y));
    }
    if covered_by(full, x, y) {
        let i = choose|i: int| 0 <= i < full.len() && in_rect(#[trigger] full[i], x, y);
        if i < rects.len() {
            assert(in_rect(rects[i], x, y));
        } else {
            assert(full[i] == rc);
        }
    }
}

/// The simulation: the shared world state and the fixed agent set.
pub struct Simulation {
    pub state: SimulationState,
    pub wyrmas: Vec<Wyrm>,
}

impl Simulation {
    /// The genome length shared by every agent.
    pub open spec fn genome_len_spec(self) -> int {
        self.wyrmas@[0].state.genome@.len() as int
    }

    pub open spec fn wf(self) -> bool {
        &&& self.state.wf()
        &&& 1 <= self.wyrmas@.len()
        &&& self.wyrmas@.len() <= self.state.size_x * self.state.size_y
        &&& forall|i: int| 0 <= i < self.wyrmas@.len() ==> (#[trigger] self.wyrmas@[i]).wf()
        &&& forall|i: int|
            0 <= i < self.wyrmas@.len() ==> (#[trigger] self.wyrmas@[i]).state.genome@.len()
                == self.genome_len_spec()
        &&& forall|i: int|
            0 <= i < self.wyrmas@.len() ==> (#[trigger] self.wyrmas@[i]).inner_layer@.len()
                == self.wyrmas@[0].inner_layer@.len()
        &&& forall|i: int|
            0 <= i < self.wyrmas@.len() ==> self.state.world.in_range(
                (#[trigger] self.wyrmas@[i]).state.x as int,
                self.wyrmas@[i].state.y as int,
            )
        &&& forall|i: int|
            0 <= i < self.wyrmas@.len() ==> (#[trigger] self.wyrmas@[i]).state.age
                <= self.state.tick
    }

    /// How many agents there are; constant across generations.
    pub fn population(&self) -> (n: usize)
        ensures
            n == self.wyrmas@.len(),
    {
        self.wyrmas.len()
    }

    /// A fresh simulation: every agent placed on its own random free cell
    /// with a random genome, and a random selection region laid out.
    pub fn new(
        size_x: i32,
        size_y: i32,
        osc_period: i32,
        num_inner_neurons: usize,
        max_age: i32,
        max_dist: i32,
        genome_len: usize,
        population: usize,
        mutation_permille: u32,
    ) -> (s: Simulation)
        requires
            1 <= size_x <= 4096,
            1 <= size_y <= 4096,
            1 <= osc_period,
            1 <= max_age,
            1 <= num_inner_neurons <= 1000000,
            1 <= max_dist <= 4096,
            1 <= population,
            population <= size_x * size_y,
            mutation_permille <= 1000,
        ensures
            s.wf(),
            s.state.tick == 0,
            s.state.size_x == size_x,
            s.state.size_y == size_y,
            s.state.max_age == max_age,
            s.state.osc_period == osc_period,
            s.state.mutation_permille == mutation_permille,
            s.wyrmas@.len() == population,
            exists|rects: Seq<(int, int, int, int)>|
                selection_of_rects(rects, s.state.selection_area),
            forall|i: int|
                0 <= i < population ==> !(#[trigger] s.wyrmas@[i]).state.dead
                    && s.wyrmas@[i].state.age == 0 && s.wyrmas@[i].state.responsiveness
                    == RESP_INIT && s.wyrmas@[i].state.max_dist == max_dist
                    && s.wyrmas@[i].state.genome@.len() == genome_len
                    && s.wyrmas@[i].inner_layer@.len() == num_inner_neurons,
            forall|i: int, j: int|
                0 <= i < j < population ==> !((#[trigger] s.wyrmas@[i]).state.x == (
                #[trigger] s.wyrmas@[j]).state.x && s.wyrmas@[i].state.y == s.wyrmas@[j].state.y),
            forall|x: int, y: int|
                s.state.world.in_range(x, y) ==> (s.state.world.cell(x, y) <==> exists|i: int|
                    0 <= i < population && (#[trigger] s.wyrmas@[i]).state.x == x
                        && s.wyrmas@[i].state.y == y),
    {
        let world = Grid::new(size_x, size_y);
        let selection_area = Grid::new(size_x, size_y);
        let mut state = SimulationState {
            size_x,
            size_y,
            max_age,
            osc_period,
            mutation_permille,
            tick: 0,
            world,
            selection_area,
        };
        let mut wyrmas: Vec<Wyrm> = Vec::new();
        let mut i: usize = 0;
        while i < population
            invariant
                i <= population,
                1 <= population,
                population <= size_x * size_y,
                wyrmas@.len() == i,
                state.wf(),
                state.size_x == size_x,
                state.size_y == size_y,
                state.max_age == max_age,
                state.osc_period == osc_period,
                state.mutation_permille == mutation_permille,
                state.tick == 0,
                1 <= num_inner_neurons <= 1000000,
                1 <= max_dist <= 4096,
                state.world.set_count() == i,
                forall|t: int|
                    0 <= t < i ==> (#[trigger] wyrmas@[t]).wf() && !wyrmas@[t].state.dead
                        && wyrmas@[t].state.age == 0 && wyrmas@[t].state.responsiveness
                        == RESP_INIT && wyrmas@[t].state.genome@.len() == genome_len
                        && wyrmas@[t].inner_layer@.len() == num_inner_neurons
                        && wyrmas@[t].state.max_dist == max_dist,
                forall|t: int|
                    0 <= t < i ==> state.world.in_range(
                        (#[trigger] wyrmas@[t]).state.x as int,
                        wyrmas@[t].state.y as int,
                    ),
                forall|t1: int, t2: int|
                    0 <= t1 < t2 < i ==> !((#[trigger] wyrmas@[t1]).state.x == (
                    #[trigger] wyrmas@[t2]).state.x && wyrmas@[t1].state.y == wyrmas@[t2].state.y),
                forall|t: int|
                    0 <= t < i ==> state.world.cell(
                        (#[trigger] wyrmas@[t]).state.x as int,
                        wyrmas@[t].state.y as int,
                    ),
                forall|x: int, y: int|
                    state.world.in_range(x, y) ==> (state.world.cell(x, y) <==> exists|t: int|
                        0 <= t < i && (#[trigger] wyrmas@[t]).state.x == x && wyrmas@[t].state.y
                            == y),
            decreases population - i,
        {
            let ghost pre_world = state.world;
            let ghost pre_wyrmas = wyrmas@;
            let (x, y) = state.world.claim_free();
            let genome = random_genome(genome_len);
            let w = Wyrm::new(x, y, num_inner_neurons, max_dist, genome);
            wyrmas.push(w);
            proof {
                assert(wyrmas@[i as int] == w);
                assert forall|x2: int, y2: int| state.world.in_range(x2, y2) implies (
                state.world.cell(x2, y2) <==> exists|t: int|
                    0 <= t < i + 1 && (#[trigger] wyrmas@[t]).state.x == x2 && wyrmas@[t].state.y
                        == y2) by {
                    if x2 == x as int && y2 == y as int {
                        assert(state.world.cell(x2, y2));
                        assert(wyrmas@[i as int].state.x == x2 && wyrmas@[i as int].state.y == y2);
                    } else {
                        assert(state.world.cell(x2, y2) == pre_world.cell(x2, y2));
                        if state.world.cell(x2, y2) {
                            let t = choose|t: int|
                                0 <= t < i && (#[trigger] pre_wyrmas[t]).state.x == x2
                                    && pre_wyrmas[t].state.y == y2;
                            assert(wyrmas@[t].state.x == x2 && wyrmas@[t].state.y == y2);
                        }
                        if exists|t: int|
                            0 <= t < i + 1 && (#[trigger] wyrmas@[t]).state.x == x2
                                && wyrmas@[t].state.y == y2 {
                            let t = choose|t: int|
                                0 <= t < i + 1 && (#[trigger] wyrmas@[t]).state.x == x2
                                    && wyrmas@[t].state.y == y2;
                            assert(t < i);
                            assert(pre_wyrmas[t].state.x == x2 && pre_wyrmas[t].state.y == y2);
                            assert(pre_world.cell(x2, y2));
                        }
                    }
                }
                assert forall|t: int| 0 <= t < i implies !((#[trigger] wyrmas@[t]).state.x == x
                    && wyrmas@[t].state.y == y) by {
                    assert(pre_world.cell(
                        pre_wyrmas[t].state.x as int,
                        pre_wyrmas[t].state.y as int,
                    ));
                    assert(!pre_world.cell(x as int, y as int));
                }
            }
            i = i + 1;
        }
        let mut s = Simulation { state, wyrmas };
        s.create_selection_area();
        s
    }

    /// Lays out a fresh random selection region: the old region is cleared
    /// and ten random rectangles (up to 30 cells a side) are drawn, clipped
    /// to the grid. Nothing else of the simulation changes.
    pub fn create_selection_area(&mut self)
        requires
            old(self).wf(),
        ensures
            final(self).wf(),
            final(self).wyrmas == old(self).wyrmas,
            final(self).state.world == old(self).state.world,
            final(self).state.same_scalars(old(self).state),
            exists|rects: Seq<(int, int, int, int)>|
                selection_of_rects(rects, final(self).state.selection_area),
    {
        self.state.selection_area.clear();
        let ghost mut rects: Seq<(int, int, int, int)> = Seq::empty();
        let mut r: usize = 0;
        while r < 10
            invariant
                r <= 10,
                self.wf(),
                self.wyrmas == old(self).wyrmas,
                self.state.world == old(self).state.world,
                self.state.same_scalars(old(self).state),
                rects.len() == r,
                forall|i: int|
                    0 <= i < rects.len() ==> rect_in_grid(
                        #[trigger] rects[i],
                        self.state.size_x as int,
                        self.state.size_y as int,
                    ),
                forall|x2: int, y2: int|
                    self.state.selection_area.in_range(x2, y2) ==> (
                    #[trigger] self.state.selection_area.cell(x2, y2) <==> covered_by(
                        rects,
                        x2,
                        y2,
                    )),
            decreases 10 - r,
        {
            let sx = rng::rand_below(self.state.size_x as usize) as i32;
            let sy = rng::rand_below(self.state.size_y as usize) as i32;
            let wd = rng::rand_below(30) as i32;
            let ht = rng::rand_below(30) as i32;
            let ghost cur = (sx as int, sy as int, wd as int, ht as int);
            let mut x = sx;
            while x < sx + wd
                invariant
                    self.wf(),
                    self.wyrmas == old(self).wyrmas,
                    self.state.world == old(self).state.world,
                    self.state.same_scalars(old(self).state),
                    0 <= sx < self.state.size_x,
                    sx <= x,
                    x <= sx + wd,
                    0 <= sy < self.state.size_y,
                    0 <= wd < 30,
                    0 <= ht < 30,
                    cur == (sx as int, sy as int, wd as int, ht as int),
                    forall|x2: int, y2: int|
                        self.state.selection_area.in_range(x2, y2) ==> (
                        #[trigger] self.state.selection_area.cell(x2, y2) <==> covered_by(
                            rects,
                            x2,
                            y2,
                        ) || (in_rect(cur, x2, y2) && x2 < x)),
                decreases sx + wd - x,
            {
                if x < self.state.size_x {
                    let mut y = sy;
                    while y < sy + ht
                        invariant
                            self.wf(),
                            self.wyrmas == old(self).wyrmas,
                            self.state.world == old(self).state.world,
                            self.state.same_scalars(old(self).state),
                            0 <= sx,
                            sx <= x < self.state.size_x,
                            x < sx + wd,
                            0 <= sy < self.state.size_y,
                            sy <= y,
                            y <= sy + ht,
                            0 <= ht < 30,
                            cur == (sx as int, sy as int, wd as int, ht as int),
                            forall|x2: int, y2: int|
                                self.state.selection_area.in_range(x2, y2) ==> (
                                #[trigger] self.state.selection_area.cell(x2, y2) <==> covered_by(
                                    rects,
                                    x2,
                                    y2,
                                ) || (in_rect(cur, x2, y2) && x2 < x) || (in_rect(cur, x2, y2)
                                    && x2 == x && y2 < y)),
                        decreases sy + ht - y,
                    {
                        if y < self.state.size_y {
                            self.state.selection_area.set(x, y, true);
                        }
                        y = y + 1;
                    }
                }
                x = x + 1;
            }
            proof {
                assert forall|x2: int, y2: int|
                    self.state.selection_area.in_range(x2, y2) implies (
                #[trigger] self.state.selection_area.cell(x2, y2) <==> covered_by(
                    rects.push(cur),
                    x2,
                    y2,
                )) by {
                    lemma_covered_push(rects, cur, x2, y2);
                }
                rects = rects.push(cur);
            }
            r = r + 1;
        }
        proof {
            assert(selection_of_rects(rects, self.state.selection_area));
        }
    }

    /// External selection-policy hook: writes one selection-region cell.
    pub fn set_selection_cell(&mut self, x: i32, y: i32, v: bool)
        requires
            old(self).wf(),
            old(self).state.selection_area.in_range(x as int, y as int),
        ensures
            final(self).wf(),
            final(self).wyrmas == old(self).wyrmas,
            final(self).state.world == old(self).state.world,
            final(self).state.same_scalars(old(self).state),
            final(self).state.selection_area.cell(x as int, y as int) == v,
            forall|x2: int, y2: int|
                old(self).state.selection_area.in_range(x2, y2) && !(x2 == x as int && y2
                    == y as int) ==> final(self).state.selection_area.cell(x2, y2) == old(self).state.selection_area.cell(x2, y2),
    {
        self.state.selection_area.set(x, y, v);
    }

    /// Claims a random free cell of the occupancy grid, marking it.
    pub fn pick_free_cell(&mut self) -> (p: (i32, i32))
        requires
            old(self).wf(),
            old(self).state.world.set_count() < old(self).state.size_x as int * old(self).state.size_y as int,
        ensures
            final(self).wf(),
            final(self).wyrmas == old(self).wyrmas,
            final(self).state.same_scalars(old(self).state),
            final(self).state.selection_area == old(self).state.selection_area,
            final(self).state.world.in_range(p.0 as int, p.1 as int),
            !old(self).state.world.cell(p.0 as int, p.1 as int),
            final(self).state.world.cell(p.0 as int, p.1 as int),
            final(self).state.world.set_count() == old(self).state.world.set_count() + 1,
            forall|x2: int, y2: int|
                old(self).state.world.in_range(x2, y2) && !(x2 == p.0 as int && y2 == p.1 as int)
                    ==> final(self).state.world.cell(x2, y2) == old(self).state.world.cell(x2, y2),
    {
        self.state.world.claim_free()
    }

    /// Advances the clock one tick: the tick counter and every agent's age
    /// go up by one. The embedding runtime then evaluates each agent's
    /// network in index order and commits effects through `apply_action`.
    /// Returns the new tick value.
    pub fn simulation_step(&mut self) -> (t: i32)
        requires
            old(self).wf(),
            old(self).state.tick < i32::MAX,
        ensures
            final(self).wf(),
            final(self).state.tick == old(self).state.tick + 1,
            t == final(self).state.tick,
            final(self).state.world == old(self).state.world,
            final(self).state.selection_area == old(self).state.selection_area,
            final(self).state.size_x == old(self).state.size_x,
            final(self).state.size_y == old(self).state.size_y,
            final(self).state.max_age == old(self).state.max_age,
            final(self).state.osc_period == old(self).state.osc_period,
            final(self).state.mutation_permille == old(self).state.mutation_permille,
            final(self).wyrmas@.len() == old(self).wyrmas@.len(),
            forall|i: int|
                0 <= i < old(self).wyrmas@.len() ==> same_wyrm_but_age(
                    #[trigger] old(self).wyrmas@[i],
                    final(self).wyrmas@[i],
                ) && final(self).wyrmas@[i].state.age == old(self).wyrmas@[i].state.age + 1,
    {
        self.state.tick = self.state.tick + 1;
        let n = self.wyrmas.len();
        let mut i: usize = 0;
        while i < n
            invariant
                i <= n,
                n == self.wyrmas@.len(),
                n == old(self).wyrmas@.len(),
                self.state.tick == old(self).state.tick + 1,
                self.state.world == old(self).state.world,
                self.state.selection_area == old(self).state.selection_area,
                self.state.size_x == old(self).state.size_x,
                self.state.size_y == old(self).state.size_y,
                self.state.max_age == old(self).state.max_age,
                self.state.osc_period == old(self).state.osc_period,
                self.state.mutation_permille == old(self).state.mutation_permille,
                old(self).wf(),
                self.state.wf(),
                forall|t: int|
                    0 <= t < i ==> same_wyrm_but_age(
                        #[trigger] old(self).wyrmas@[t],
                        self.wyrmas@[t],
                    ) && self.wyrmas@[t].state.age == old(self).wyrmas@[t].state.age + 1,
                forall|t: int| i <= t < n ==> self.wyrmas@[t] == old(self).wyrmas@[t],
            decreases n - i,
        {
            proof {
                assert(old(self).wyrmas@[i as int].wf());
            }
            let w = &mut self.wyrmas[i];
            w.simulation_step();
            i = i + 1;
        }
        proof {
            assert forall|t: int| 0 <= t < self.wyrmas@.len() implies (
            #[trigger] self.wyrmas@[t]).wf() && self.wyrmas@[t].state.genome@.len()
                == self.genome_len_spec() && self.wyrmas@[t].inner_layer@.len()
                == self.wyrmas@[0].inner_layer@.len() && self.state.world.in_range(
                self.wyrmas@[t].state.x as int,
                self.wyrmas@[t].state.y as int,
            ) && self.wyrmas@[t].state.age <= self.state.tick by {
                assert(old(self).wyrmas@[t].wf());
                assert(old(self).wyrmas@[0].wf());
            }
        }
        self.state.tick
    }

    /// Marks every agent whose cell lies outside the selection region dead,
    /// and returns how many agents sit inside the region.
    pub fn apply_selection(&mut self) -> (survivors: usize)
        requires
            old(self).wf(),
        ensures
            final(self).wf(),
            final(self).state == old(self).state,
            selection_rel(old(self).wyrmas@, final(self).wyrmas@, old(self).state.selection_area),
            survivors as int == count_inside(old(self).wyrmas@, old(self).state.selection_area),
    {
        let n = self.wyrmas.len();
        let mut died: usize = 0;
        let mut i: usize = 0;
        while i < n
            invariant
                i <= n,
                died <= i,
                n == self.wyrmas@.len(),
                n == old(self).wyrmas@.len(),
                self.state == old(self).state,
                old(self).wf(),
                self.state.wf(),
                died as int == i - count_inside(
                    old(self).wyrmas@.take(i as int),
                    old(self).state.selection_area,
                ),
                forall|t: int|
                    0 <= t < i ==> same_wyrm_but_dead(
                        #[trigger] old(self).wyrmas@[t],
                        self.wyrmas@[t],
                    ) && self.wyrmas@[t].state.dead == (old(self).wyrmas@[t].state.dead
                        || !old(self).state.selection_area.cell(
                        old(self).wyrmas@[t].state.x as int,
                        old(self).wyrmas@[t].state.y as int,
                    )),
                forall|t: int| i <= t < n ==> self.wyrmas@[t] == old(self).wyrmas@[t],
            decreases n - i,
        {
            proof {
                assert(old(self).wyrmas@.take(i + 1).drop_last() =~= old(self).wyrmas@.take(
                    i as int,
                ));
                assert(old(self).wyrmas@[i as int].wf());
                lemma_count_inside_bounds(
                    old(self).wyrmas@.take(i as int),
                    old(self).state.selection_area,
                );
            }
            let x = self.wyrmas[i].state.x;
            let y = self.wyrmas[i].state.y;
            let inside = self.state.selection_area.get(x, y);
            if !inside {
                died = died + 1;
                let w = &mut self.wyrmas[i];
                w.state.dead = true;
            }
            i = i + 1;
        }
        proof {
            assert(old(self).wyrmas@.take(n as int) =~= old(self).wyrmas@);
            lemma_count_inside_bounds(old(self).wyrmas@, old(self).state.selection_area);
            assert forall|t: int| 0 <= t < self.wyrmas@.len() implies (
            #[trigger] self.wyrmas@[t]).wf() && self.wyrmas@[t].state.genome@.len()
                == self.genome_len_spec() && self.wyrmas@[t].inner_layer@.len()
                == self.wyrmas@[0].inner_layer@.len() && self.state.world.in_range(
                self.wyrmas@[t].state.x as int,
                self.wyrmas@[t].state.y as int,
            ) && self.wyrmas@[t].state.age <= self.state.tick by {
                assert(old(self).wyrmas@[t].wf());
                assert(old(self).wyrmas@[0].wf());
            }
        }
        n - died
    }

    /// The first agent that is still alive, if any.
    pub fn get_survivor(&self) -> (r: Option<&Wyrm>)
        ensures
            match r {
                Some(w) => exists|i: int|
                    0 <= i < self.wyrmas@.len() && !(#[trigger] self.wyrmas@[i]).state.dead && *w
                        == self.wyrmas@[i] && forall|j: int|
                        0 <= j < i ==> (#[trigger] self.wyrmas@[j]).state.dead,
                None => forall|i: int|
                    0 <= i < self.wyrmas@.len() ==> (#[trigger] self.wyrmas@[i]).state.dead,
            },
    {
        let n = self.wyrmas.len();
        let mut i: usize = 0;
        while i < n
            invariant
                i <= n,
                n == self.wyrmas@.len(),
                forall|t: int| 0 <= t < i ==> (#[trigger] self.wyrmas@[t]).state.dead,
            decreases n - i,
        {
            if !self.wyrmas[i].state.dead {
                return Some(&self.wyrmas[i]);
            }
            i = i + 1;
        }
        None
    }

    /// Breeds the survivors into a full new genome pool, one genome per
    /// agent slot. If nobody survived, the pool is entirely fresh random
    /// genomes and no breeding occurs. Otherwise each survivor, in a random
    /// order, is paired with the next survivor in cyclic order and bred
    /// `population / survivors` times; a second random order supplies the
    /// remaining `population % survivors` children by the same pairing
    /// rule. Every gene of every bred genome is at most three bit flips
    /// from a gene of a surviving agent.
    pub fn breed_survivors(&self) -> (pool: Vec<Vec<Gene>>)
        requires
            self.wf(),
        ensures
            pool@.len() == self.wyrmas@.len(),
            forall|p: int|
                0 <= p < pool@.len() ==> (#[trigger] pool@[p])@.len() == self.genome_len_spec(),
            (exists|i: int| 0 <= i < self.wyrmas@.len() && !(#[trigger] self.wyrmas@[i]).state.dead)
                ==> forall|p: int, q: int|
                0 <= p < pool@.len() && 0 <= q < pool@[p]@.len() ==> from_survivors(
                    #[trigger] pool@[p]@[q],
                    self.wyrmas@,
                ),
            (exists|i: int| 0 <= i < self.wyrmas@.len() && !(#[trigger] self.wyrmas@[i]).state.dead)
                ==> forall|p: int|
                0 <= p < pool@.len() ==> bred_from_consecutive_pair(
                    (#[trigger] pool@[p])@,
                    self.wyrmas@,
                ),
            (exists|i: int| 0 <= i < self.wyrmas@.len() && !(#[trigger] self.wyrmas@[i]).state.dead)
                ==> exists|roster: Seq<usize>, ord1: Seq<int>, ord2: Seq<int>|
                pool_distribution(pool@, self.wyrmas@, roster, ord1, ord2),
    {
        let n = self.wyrmas.len();
        let glen = self.wyrmas[0].state.genome.len();
        let mut survivors: Vec<usize> = Vec::new();
        let mut i: usize = 0;
        while i < n
            invariant
                i <= n,
                n == self.wyrmas@.len(),
                self.wf(),
                glen as int == self.genome_len_spec(),
                survivors@.len() <= i,
                forall|t: int|
                    0 <= t < survivors@.len() ==> (#[trigger] survivors@[t]) < i
                        && !self.wyrmas@[survivors@[t] as int].state.dead,
                forall|u1: int, u2: int|
                    #![trigger survivors@[u1], survivors@[u2]]
                    0 <= u1 < u2 < survivors@.len() ==> survivors@[u1] < survivors@[u2],
                forall|k: int|
                    0 <= k < i && !(#[trigger] self.wyrmas@[k]).state.dead ==> holds_index(
                        survivors@,
                        k,
                    ),
                survivors@.len() == 0 ==> forall|t: int|
                    0 <= t < i ==> (#[trigger] self.wyrmas@[t]).state.dead,
            decreases n - i,
        {
            let ghost pre = survivors@;
            if !self.wyrmas[i].state.dead {
                survivors.push(i);
                proof {
                    assert(survivors@[pre.len() as int] == i);
                    assert forall|k: int|
                        0 <= k < i + 1 && !(#[trigger] self.wyrmas@[k]).state.dead implies
                        holds_index(survivors@, k) by {
                        if k < i {
                            let u = choose|u: int|
                                0 <= u < pre.len() && (#[trigger] pre[u]) as int == k;
                            assert((survivors@[u]) as int == k);
                        } else {
                            assert((survivors@[pre.len() as int]) as int == k);
                        }
                    }
                }
            }
            i = i + 1;
        }
        proof {
            assert(survivors@.len() > 0 ==> survivor_roster(survivors@, self.wyrmas@));
        }
        let mut pool: Vec<Vec<Gene>> = Vec::new();
        if survivors.len() == 0 {
            while pool.len() < n
                invariant
                    pool@.len() <= n,
                    glen as int == self.genome_len_spec(),
                    forall|p: int| 0 <= p < pool@.len() ==> (#[trigger] pool@[p])@.len() == glen,
                decreases n - pool.len(),
            {
                pool.push(random_genome(glen));
            }
            return pool;
        }
        let s_len = survivors.len();
        let child_count = n / s_len;
        let order = random_order(s_len);
        let ghost p1 = order@.map_values(|u: usize| u as int);
        proof {
            lemma_order_permutation(order@, s_len as int);
            vstd::arithmetic::div_mod::lemma_fundamental_div_mod(n as int, s_len as int);
            vstd::arithmetic::div_mod::lemma_mod_bound(n as int, s_len as int);
            assert(child_count as int >= 1) by (nonlinear_arith)
                requires
                    n as int == s_len as int * (child_count as int) + n as int % s_len as int,
                    0 <= n as int % s_len as int,
                    (n as int % s_len as int) < s_len as int,
                    1 <= s_len as int,
                    s_len as int <= n as int,
            ;
        }
        let mut t: usize = 0;
        while t < s_len
            invariant
                t <= s_len,
                n == self.wyrmas@.len(),
                self.wf(),
                glen as int == self.genome_len_spec(),
                s_len == survivors@.len(),
                1 <= s_len <= n,
                child_count == n as int / s_len as int,
                order@.len() == s_len,
                forall|t2: int| 0 <= t2 < s_len ==> #[trigger] order@[t2] < s_len,
                survivor_roster(survivors@, self.wyrmas@),
                p1 == order@.map_values(|u: usize| u as int),
                index_permutation(p1, s_len as int),
                1 <= child_count,
                pool@.len() == t * child_count,
                forall|p: int| 0 <= p < pool@.len() ==> (#[trigger] pool@[p])@.len() == glen,
                forall|p: int, q: int|
                    0 <= p < pool@.len() && 0 <= q < pool@[p]@.len() ==> from_survivors(
                        #[trigger] pool@[p]@[q],
                        self.wyrmas@,
                    ),
                forall|p: int|
                    0 <= p < pool@.len() ==> bred_from_consecutive_pair(
                        (#[trigger] pool@[p])@,
                        self.wyrmas@,
                    ),
                forall|p: int|
                    0 <= p < pool@.len() ==> #[trigger] block_entry_ok(
                        pool@,
                        self.wyrmas@,
                        survivors@,
                        p1,
                        child_count as int,
                        p,
                    ),
            decreases s_len - t,
        {
            let a_pos = order[t];
            let b_pos = if a_pos + 1 >= s_len {
                a_pos + 1 - s_len
            } else {
                a_pos + 1
            };
            let si = survivors[a_pos];
            let sj = survivors[b_pos];
            proof {
                lemma_roster_cyclic_next(survivors@, self.wyrmas@, a_pos as int, b_pos as int);
            }
            let mut c: usize = 0;
            while c < child_count
                invariant
                    c <= child_count,
                    n == self.wyrmas@.len(),
                    self.wf(),
                    glen as int == self.genome_len_spec(),
                    si < n,
                    sj < n,
                    !self.wyrmas@[si as int].state.dead,
                    !self.wyrmas@[sj as int].state.dead,
                    t < s_len,
                    s_len == survivors@.len(),
                    child_count == n as int / s_len as int,
                    1 <= child_count,
                    cyclic_next_survivor(self.wyrmas@, si as int, sj as int),
                    p1 == order@.map_values(|u: usize| u as int),
                    order@.len() == s_len,
                    a_pos == order@[t as int],
                    a_pos < s_len,
                    si == survivors@[a_pos as int],
                    sj == survivors@[b_pos as int],
                    b_pos as int == (if a_pos as int + 1 == s_len as int {
                        0int
                    } else {
                        a_pos as int + 1
                    }),
                    pool@.len() == t * child_count + c,
                    forall|p: int| 0 <= p < pool@.len() ==> (#[trigger] pool@[p])@.len() == glen,
                    forall|p: int, q: int|
                        0 <= p < pool@.len() && 0 <= q < pool@[p]@.len() ==> from_survivors(
                            #[trigger] pool@[p]@[q],
                            self.wyrmas@,
                        ),
                    forall|p: int|
                        0 <= p < pool@.len() ==> bred_from_consecutive_pair(
                            (#[trigger] pool@[p])@,
                            self.wyrmas@,
                        ),
                    forall|p: int|
                        0 <= p < pool@.len() ==> #[trigger] block_entry_ok(
                            pool@,
                            self.wyrmas@,
                            survivors@,
                            p1,
                            child_count as int,
                            p,
                        ),
                decreases child_count - c,
            {
                let child = self.wyrmas[si].breed(&self.wyrmas[sj], self.state.mutation_permille);
                let ghost pre_pool = pool@;
                proof {
                    lemma_child_from_survivors(
                        child@,
                        self.wyrmas@,
                        si as int,
                        sj as int,
                    );
                    assert(bred_from_pair(child@, self.wyrmas@, si as int, sj as int));
                    assert(bred_from_consecutive_pair(child@, self.wyrmas@));
                }
                pool.push(child);
                proof {
                    let cc = child_count as int;
                    let p0 = pre_pool.len() as int;
                    vstd::arithmetic::div_mod::lemma_fundamental_div_mod_converse(
                        p0,
                        cc,
                        t as int,
                        c as int,
                    );
                    assert(p1[t as int] == a_pos as int);
                    assert(block_entry_ok(pool@, self.wyrmas@, survivors@, p1, cc, p0));
                    assert forall|p: int| 0 <= p < pool@.len() implies #[trigger] block_entry_ok(
                        pool@,
                        self.wyrmas@,
                        survivors@,
                        p1,
                        cc,
                        p,
                    ) by {
                        if p < p0 {
                            assert(pool@[p] == pre_pool[p]);
                            assert(block_entry_ok(pre_pool, self.wyrmas@, survivors@, p1, cc, p));
                        }
                    }
                }
                c = c + 1;
            }
            proof {
                assert((t + 1) * child_count == t * child_count + child_count)
                    by (nonlinear_arith);
            }
            t = t + 1;
        }
        proof {
            vstd::arithmetic::div_mod::lemma_fundamental_div_mod(n as int, s_len as int);
            vstd::arithmetic::div_mod::lemma_mod_bound(n as int, s_len as int);
            assert(s_len as int * child_count as int + n as int % s_len as int == n as int);
        }
        let rem = n % s_len;
        let order2 = random_order(s_len);
        let ghost p2 = order2@.map_values(|u: usize| u as int);
        proof {
            lemma_order_permutation(order2@, s_len as int);
        }
        let mut t2: usize = 0;
        while t2 < rem
            invariant
                t2 <= rem,
                n == self.wyrmas@.len(),
                self.wf(),
                glen as int == self.genome_len_spec(),
                s_len == survivors@.len(),
                1 <= s_len <= n,
                rem == n as int % s_len as int,
                rem < s_len,
                order2@.len() == s_len,
                forall|t3: int| 0 <= t3 < s_len ==> #[trigger] order2@[t3] < s_len,
                survivor_roster(survivors@, self.wyrmas@),
                p1 == order@.map_values(|u: usize| u as int),
                p2 == order2@.map_values(|u: usize| u as int),
                index_permutation(p1, s_len as int),
                index_permutation(p2, s_len as int),
                child_count == n as int / s_len as int,
                s_len as int * child_count as int == n - rem,
                pool@.len() == n - rem + t2,
                forall|p: int| 0 <= p < pool@.len() ==> (#[trigger] pool@[p])@.len() == glen,
                forall|p: int, q: int|
                    0 <= p < pool@.len() && 0 <= q < pool@[p]@.len() ==> from_survivors(
                        #[trigger] pool@[p]@[q],
                        self.wyrmas@,
                    ),
                forall|p: int|
                    0 <= p < pool@.len() ==> bred_from_consecutive_pair(
                        (#[trigger] pool@[p])@,
                        self.wyrmas@,
                    ),
                forall|p: int|
                    0 <= p < n - rem ==> #[trigger] block_entry_ok(
                        pool@,
                        self.wyrmas@,
                        survivors@,
                        p1,
                        child_count as int,
                        p,
                    ),
                forall|t3: int|
                    0 <= t3 < t2 ==> #[trigger] topup_entry_ok(
                        pool@,
                        self.wyrmas@,
                        survivors@,
                        p2,
                        n - rem,
                        t3,
                    ),
            decreases rem - t2,
        {
            let a_pos = order2[t2];
            let b_pos = if a_pos + 1 >= s_len {
                a_pos + 1 - s_len
            } else {
                a_pos + 1
            };
            let si = survivors[a_pos];
            let sj = survivors[b_pos];
            proof {
                lemma_roster_cyclic_next(survivors@, self.wyrmas@, a_pos as int, b_pos as int);
            }
            let child = self.wyrmas[si].breed(&self.wyrmas[sj], self.state.mutation_permille);
            let ghost pre_pool = pool@;
            proof {
                lemma_child_from_survivors(child@, self.wyrmas@, si as int, sj as int);
                assert(bred_from_pair(child@, self.wyrmas@, si as int, sj as int));
                assert(bred_from_consecutive_pair(child@, self.wyrmas@));
            }
            pool.push(child);
            proof {
                let cc = child_count as int;
                let base = n - rem;
                assert(p2[t2 as int] == a_pos as int);
                assert(pool@[base + t2 as int] == child);
                assert(topup_entry_ok(pool@, self.wyrmas@, survivors@, p2, base, t2 as int));
                assert forall|p: int| 0 <= p < base implies #[trigger] block_entry_ok(
                    pool@,
                    self.wyrmas@,
                    survivors@,
                    p1,
                    cc,
                    p,
                ) by {
                    assert(pool@[p] == pre_pool[p]);
                    assert(block_entry_ok(pre_pool, self.wyrmas@, survivors@, p1, cc, p));
                }
                assert forall|t3: int| 0 <= t3 < t2 + 1 implies #[trigger] topup_entry_ok(
                    pool@,
                    self.wyrmas@,
                    survivors@,
                    p2,
                    base,
                    t3,
                ) by {
                    if t3 < t2 {
                        assert(pool@[base + t3] == pre_pool[base + t3]);
                        assert(topup_entry_ok(pre_pool, self.wyrmas@, survivors@, p2, base, t3));
                    }
                }
            }
            t2 = t2 + 1;
        }
        proof {
            assert(s_len as int * (n as int / s_len as int) == n - rem);
            assert(pool_distribution(pool@, self.wyrmas@, survivors@, p1, p2));
        }
        pool
    }

    /// Starts the next generation: breeds the survivors' genomes into a
    /// full pool, clears the occupancy grid, resets every agent in place on
    /// a fresh free cell with a genome popped from the pool, and resets the
    /// tick counter to zero. Afterwards every agent is alive on its own
    /// distinct cell and the occupancy grid marks exactly the agents'
    /// cells.
    pub fn repopulate(&mut self)
        requires
            old(self).wf(),
        ensures
            final(self).wf(),
            final(self).state.tick == 0,
            final(self).state.selection_area == old(self).state.selection_area,
            final(self).state.size_x == old(self).state.size_x,
            final(self).state.size_y == old(self).state.size_y,
            final(self).state.max_age == old(self).state.max_age,
            final(self).state.osc_period == old(self).state.osc_period,
            final(self).state.mutation_permille == old(self).state.mutation_permille,
            final(self).wyrmas@.len() == old(self).wyrmas@.len(),
            final(self).genome_len_spec() == old(self).genome_len_spec(),
            (exists|i: int|
                0 <= i < old(self).wyrmas@.len() && !(#[trigger] old(self).wyrmas@[i]).state.dead) ==> forall|i: int, q: int|
                0 <= i < final(self).wyrmas@.len() && 0 <= q < final(self).wyrmas@[i].state.genome@.len() ==> from_survivors(
                    #[trigger] final(self).wyrmas@[i].state.genome@[q],
                    old(self).wyrmas@,
                ),
            forall|i: int|
                0 <= i < final(self).wyrmas@.len() ==> !(#[trigger] final(self).wyrmas@[i]).state.dead && final(self).wyrmas@[i].state.age == 0 && final(self).wyrmas@[i].state.responsiveness == RESP_INIT,
            forall|i: int, j: int|
                0 <= i < j < final(self).wyrmas@.len() ==> !((#[trigger] final(self).wyrmas@[i]).state.x == (#[trigger] final(self).wyrmas@[j]).state.x && final(self).wyrmas@[i].state.y == final(self).wyrmas@[j].state.y),
            forall|x: int, y: int|
                final(self).state.world.in_range(x, y) ==> (final(self).state.world.cell(x, y)
                    <==> exists|i: int|
                    0 <= i < final(self).wyrmas@.len() && (#[trigger] final(self).wyrmas@[i]).state.x == x && final(self).wyrmas@[i].state.y == y),
    {
        let mut new_genomes = self.breed_survivors();
        let ghost had_survivor = exists|i: int|
            0 <= i < old(self).wyrmas@.len() && !(#[trigger] old(self).wyrmas@[i]).state.dead;
        self.state.world.clear();
        let n = self.wyrmas.len();
        let mut i: usize = 0;
        while i < n
            invariant
                i <= n,
                n == self.wyrmas@.len(),
                n == old(self).wyrmas@.len(),
                old(self).wf(),
                self.state.wf(),
                self.state.size_x == old(self).state.size_x,
                self.state.size_y == old(self).state.size_y,
                self.state.max_age == old(self).state.max_age,
                self.state.osc_period == old(self).state.osc_period,
                self.state.mutation_permille == old(self).state.mutation_permille,
                self.state.tick == old(self).state.tick,
                self.state.selection_area == old(self).state.selection_area,
                n <= self.state.size_x * self.state.size_y,
                new_genomes@.len() == n - i,
                forall|p: int|
                    0 <= p < new_genomes@.len() ==> (#[trigger] new_genomes@[p])@.len() == old(self).genome_len_spec(),
                had_survivor == (exists|t: int|
                    0 <= t < old(self).wyrmas@.len() && !(#[trigger] old(self).wyrmas@[t]).state.dead),
                had_survivor ==> forall|p: int, q: int|
                    0 <= p < new_genomes@.len() && 0 <= q < new_genomes@[p]@.len()
                        ==> from_survivors(#[trigger] new_genomes@[p]@[q], old(self).wyrmas@),
                had_survivor ==> forall|t: int, q: int|
                    0 <= t < i && 0 <= q < self.wyrmas@[t].state.genome@.len()
                        ==> from_survivors(
                        #[trigger] self.wyrmas@[t].state.genome@[q],
                        old(self).wyrmas@,
                    ),
                self.state.world.set_count() == i,
                forall|t: int|
                    0 <= t < i ==> (#[trigger] self.wyrmas@[t]).wf() && !self.wyrmas@[t].state.dead
                        && self.wyrmas@[t].state.age == 0 && self.wyrmas@[t].state.responsiveness
                        == RESP_INIT && self.wyrmas@[t].state.genome@.len() == old(self).genome_len_spec() && self.wyrmas@[t].inner_layer@.len() == old(self).wyrmas@[t].inner_layer@.len(),
                forall|t: int|
                    0 <= t < i ==> self.state.world.in_range(
                        (#[trigger] self.wyrmas@[t]).state.x as int,
                        self.wyrmas@[t].state.y as int,
                    ),
                forall|t: int| i <= t < n ==> self.wyrmas@[t] == old(self).wyrmas@[t],
                forall|t1: int, t2: int|
                    0 <= t1 < t2 < i ==> !((#[trigger] self.wyrmas@[t1]).state.x == (
                    #[trigger] self.wyrmas@[t2]).state.x && self.wyrmas@[t1].state.y
                        == self.wyrmas@[t2].state.y),
                forall|t: int|
                    0 <= t < i ==> self.state.world.cell(
                        (#[trigger] self.wyrmas@[t]).state.x as int,
                        self.wyrmas@[t].state.y as int,
                    ),
                forall|x: int, y: int|
                    self.state.world.in_range(x, y) ==> (self.state.world.cell(x, y) <==> exists|t: int|
                        0 <= t < i && (#[trigger] self.wyrmas@[t]).state.x == x
                            && self.wyrmas@[t].state.y == y),
            decreases n - i,
        {
            let ghost pre_world = self.state.world;
            let ghost pre_wyrmas = self.wyrmas@;
            let (x, y) = self.state.world.claim_free();
            let g = new_genomes.pop().unwrap();
            let w = &mut self.wyrmas[i];
            w.reset(g, x, y);
            proof {
                assert(self.wyrmas@[i as int].state.x == x && self.wyrmas@[i as int].state.y == y);
                assert forall|t: int| 0 <= t < i implies self.wyrmas@[t] == pre_wyrmas[t] by {}
                assert forall|x2: int, y2: int| self.state.world.in_range(x2, y2) implies (
                self.state.world.cell(x2, y2) <==> exists|t: int|
                    0 <= t < i + 1 && (#[trigger] self.wyrmas@[t]).state.x == x2
                        && self.wyrmas@[t].state.y == y2) by {
                    if x2 == x as int && y2 == y as int {
                        assert(self.state.world.cell(x2, y2));
                        assert(self.wyrmas@[i as int].state.x == x2 && self.wyrmas@[i as int].state.y
                            == y2);
                    } else {
                        assert(self.state.world.cell(x2, y2) == pre_world.cell(x2, y2));
                        if self.state.world.cell(x2, y2) {
                            let t = choose|t: int|
                                0 <= t < i && (#[trigger] pre_wyrmas[t]).state.x == x2
                                    && pre_wyrmas[t].state.y == y2;
                            assert(self.wyrmas@[t].state.x == x2 && self.wyrmas@[t].state.y == y2);
                        }
                        if exists|t: int|
                            0 <= t < i + 1 && (#[trigger] self.wyrmas@[t]).state.x == x2
                                && self.wyrmas@[t].state.y == y2 {
                            let t = choose|t: int|
                                0 <= t < i + 1 && (#[trigger] self.wyrmas@[t]).state.x == x2
                                    && self.wyrmas@[t].state.y == y2;
                            assert(t < i);
                            assert(pre_wyrmas[t].state.x == x2 && pre_wyrmas[t].state.y == y2);
                            assert(pre_world.cell(x2, y2));
                        }
                    }
                }
                assert forall|t: int| 0 <= t < i implies !((#[trigger] self.wyrmas@[t]).state.x
                    == x && self.wyrmas@[t].state.y == y) by {
                    assert(pre_world.cell(
                        pre_wyrmas[t].state.x as int,
                        pre_wyrmas[t].state.y as int,
                    ));
                    assert(!pre_world.cell(x as int, y as int));
                }
            }
            i = i + 1;
        }
        self.state.tick = 0;
    }

    /// Commits one action effect for agent `i`, as decided by the embedding
    /// runtime from the agent's action-neuron potentials: `sign` is the
    /// direction the action committed with.
    pub fn apply_action(&mut self, i: usize, kind: ActionKind, sign: i32)
        requires
            old(self).wf(),
            i < old(self).wyrmas@.len(),
            sign == 1 || sign == -1,
            i64::MIN < old(self).wyrmas@[i as int].state.responsiveness < i64::MAX,
        ensures
            final(self).wf(),
            final(self).wyrmas@.len() == old(self).wyrmas@.len(),
            forall|j: int|
                0 <= j < old(self).wyrmas@.len() && j != i ==> final(self).wyrmas@[j] == old(self).wyrmas@[j],
            final(self).wyrmas@[i as int].inner_layer@ == old(self).wyrmas@[i as int].inner_layer@,
            final(self).wyrmas@[i as int].action_layer@ == old(self).wyrmas@[i as int].action_layer@,
            final(self).state.selection_area == old(self).state.selection_area,
            final(self).state.same_scalars(old(self).state),
            match kind {
                ActionKind::Responsiveness => {
                    &&& final(self).state == old(self).state
                    &&& same_but_responsiveness(
                        old(self).wyrmas@[i as int].state,
                        final(self).wyrmas@[i as int].state,
                    )
                    &&& final(self).wyrmas@[i as int].state.responsiveness == old(self).wyrmas@[i as int].state.responsiveness + sign
                },
                ActionKind::MoveForward => {
                    &&& same_but_position(
                        old(self).wyrmas@[i as int].state,
                        final(self).wyrmas@[i as int].state,
                    )
                    &&& final(self).wyrmas@[i as int].state.x as int == move_target_x(
                        old(self).wyrmas@[i as int].state,
                        old(self).state,
                        sign as int,
                    )
                    &&& final(self).wyrmas@[i as int].state.y as int == move_target_y(
                        old(self).wyrmas@[i as int].state,
                        old(self).state,
                        sign as int,
                    )
                    &&& final(self).state.world.cells@ == old(self).state.world.cells@.update(
                        old(self).state.world.idx(
                            old(self).wyrmas@[i as int].state.x as int,
                            old(self).wyrmas@[i as int].state.y as int,
                        ),
                        false,
                    ).update(
                        old(self).state.world.idx(
                            final(self).wyrmas@[i as int].state.x as int,
                            final(self).wyrmas@[i as int].state.y as int,
                        ),
                        true,
                    )
                },
                ActionKind::Turn => {
                    &&& final(self).state == old(self).state
                    &&& same_but_dir(
                        old(self).wyrmas@[i as int].state,
                        final(self).wyrmas@[i as int].state,
                    )
                    &&& final(self).wyrmas@[i as int].state.dir as int == (old(self).wyrmas@[i as int].state.dir + sign + 8) % 8
                },
            },
    {
        proof {
            assert(old(self).wyrmas@[i as int].wf());
        }
        let w = &mut self.wyrmas[i];
        match kind {
            ActionKind::Responsiveness => {
                a_resp(&mut w.state, sign);
            },
            ActionKind::MoveForward => {
                a_move(&mut w.state, &mut self.state, sign);
            },
            ActionKind::Turn => {
                a_turn(&mut w.state, sign);
            },
        }
    }
}

proof fn lemma_count_inside_bounds(ws: Seq<Wyrm>, sel: Grid)
    ensures
        0 <= count_inside(ws, sel) <= ws.len(),
    decreases ws.len(),
{
    if ws.len() > 0 {
        lemma_count_inside_bounds(ws.drop_last(), sel);
    }
}

/// A genome bred from two still-alive parents holds only genes within
/// three bit flips of a surviving agent's gene.
proof fn lemma_child_from_survivors(child: Seq<Gene>, ws: Seq<Wyrm>, si: int, sj: int)
    requires
        0 <= si < ws.len(),
        0 <= sj < ws.len(),
        !ws[si].state.dead,
        !ws[sj].state.dead,
        forall|q: int|
            0 <= q < child.len() ==> crate::wyrm::gene_near_parents(
                #[trigger] child[q],
                ws[si].state.genome@,
                ws[sj].state.genome@,
            ),
    ensures
        forall|q: int| 0 <= q < child.len() ==> from_survivors(#[trigger] child[q], ws),
{
    assert forall|q: int| 0 <= q < child.len() implies from_survivors(
        #[trigger] child[q],
        ws,
    ) by {
        let a = ws[si].state.genome@;
        let b = ws[sj].state.genome@;
        let j = choose|j: int|
            (0 <= j < a.len() && bit_diff(child[q], a[j]) <= 3) || (0 <= j < b.len() && bit_diff(
                child[q],
                b[j],
            ) <= 3);
        if 0 <= j < a.len() && bit_diff(child[q], a[j]) <= 3 {
            assert(from_survivors(child[q], ws));
        } else {
            assert(from_survivors(child[q], ws));
        }
    }
}

} // verus!
