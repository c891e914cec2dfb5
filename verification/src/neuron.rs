//! Neurons, and the sensor and action repertoire.
//!
//! A neuron keeps its ordered list of weighted input links; potentials are
//! floating point and are computed by the embedding runtime, which reads the
//! wiring, evaluates the layers, and commits action effects back through the
//! action functions here.
//!
//! The discrete parts of the ten sensor kinds are implemented here as exact
//! integer readings (counts and distances); the runtime normalizes them. The
//! neighborhood formula set used throughout: "around" readings cover the
//! full ring of eight neighbors (or the 3-by-3 block for the selection
//! count), occupancy searches start one step away from the agent's own cell
//! (which is always occupied by the agent itself), and selection searches
//! start at the agent's own cell.

use vstd::prelude::*;

use crate::dir::{dir_dx, dir_dy, step_dx, step_dy};
use crate::grid::Grid;
use crate::simulation::SimulationState;
use crate::wyrm::{same_but_dir, same_but_position, same_but_responsiveness, WyrmState};

verus! {

/// How many sensor kinds there are.
pub const NUM_SENSORS: usize = 10;

/// How many action kinds there are.
pub const NUM_ACTIONS: usize = 3;

/// A weighted input link of a neuron.
#[derive(Clone, Copy)]
pub struct Link {
    /// Fixed-point weight in units of 1/8192.
    pub weight: i32,
    /// Whether the source is an inner neuron (otherwise a sensor).
    pub src_inner: bool,
    /// Index of the source neuron within its layer.
    pub src: usize,
}

/// A neuron: its ordered list of input links.
pub struct Neuron {
    pub inputs: Vec<Link>,
}

impl Neuron {
    pub fn new() -> (n: Neuron)
        ensures
            n.inputs@ == Seq::<Link>::empty(),
    {
        Neuron { inputs: Vec::new() }
    }

    /// Appends one weighted link referencing a source neuron.
    pub fn add_input(&mut self, weight: i32, src_inner: bool, src: usize)
        ensures
            final(self).inputs@ == old(self).inputs@.push(Link { weight, src_inner, src }),
    {
        self.inputs.push(Link { weight, src_inner, src });
    }

    /// Discards all input links, keeping the allocation for rewiring.
    pub fn reset(&mut self)
        ensures
            final(self).inputs@ == Seq::<Link>::empty(),
    {
        self.inputs.clear();
        proof {
            assert(self.inputs@ =~= Seq::<Link>::empty());
        }
    }
}

/// The closed set of sensor kinds, in their fixed layer order.
#[derive(Clone, Copy)]
pub enum SensorKind {
    /// Age, normalized by the runtime over the generation length.
    Age,
    /// A uniform random value, drawn by the runtime.
    Random,
    /// Occupied fraction of the eight neighboring cells.
    PopulationDensity,
    /// Distance to the nearest occupied cell over the compass directions.
    NearestDistance,
    /// Compass direction to that nearest occupied cell.
    NearestDirection,
    /// Distance to the nearest occupied cell straight ahead.
    ForwardDistance,
    /// The global oscillator value.
    Oscillator,
    /// Count of selection-region cells straight ahead.
    SelectionForward,
    /// Count of selection-region cells in the 3-by-3 neighborhood.
    SelectionAround,
    /// Distance to the nearest selection-region cell straight ahead.
    SelectionDistance,
}

/// The closed set of action kinds, in their fixed layer order.
#[derive(Clone, Copy)]
pub enum ActionKind {
    /// Nudge responsiveness by 0.05 in the committed direction.
    Responsiveness,
    /// Move one cell along (or against) the facing, clamped to the grid.
    MoveForward,
    /// Rotate the facing one step through the cyclic compass order.
    Turn,
}

/// The sensor kind at a sensor-layer slot (kinds repeat cyclically).
pub open spec fn sensor_kind_of(i: int) -> SensorKind {
    let k = i % 10;
    if k == 0 {
        SensorKind::Age
    } else if k == 1 {
        SensorKind::Random
    } else if k == 2 {
        SensorKind::PopulationDensity
    } else if k == 3 {
        SensorKind::NearestDistance
    } else if k == 4 {
        SensorKind::NearestDirection
    } else if k == 5 {
        SensorKind::ForwardDistance
    } else if k == 6 {
        SensorKind::Oscillator
    } else if k == 7 {
        SensorKind::SelectionForward
    } else if k == 8 {
        SensorKind::SelectionAround
    } else {
        SensorKind::SelectionDistance
    }
}

/// The action kind at an action-layer slot.
pub open spec fn action_kind_of(i: int) -> ActionKind {
    let k = i % 3;
    if k == 0 {
        ActionKind::Responsiveness
    } else if k == 1 {
        ActionKind::MoveForward
    } else {
        ActionKind::Turn
    }
}

/// The sensor kind bound to a sensor-layer slot.
pub fn sensor_kind(i: usize) -> (r: SensorKind)
    ensures
        r == sensor_kind_of(i as int),
{
    let k = i % 10;
    if k == 0 {
        SensorKind::Age
    } else if k == 1 {
        SensorKind::Random
    } else if k == 2 {
        SensorKind::PopulationDensity
    } else if k == 3 {
        SensorKind::NearestDistance
    } else if k == 4 {
        SensorKind::NearestDirection
    } else if k == 5 {
        SensorKind::ForwardDistance
    } else if k == 6 {
        SensorKind::Oscillator
    } else if k == 7 {
        SensorKind::SelectionForward
    } else if k == 8 {
        SensorKind::SelectionAround
    } else {
        SensorKind::SelectionDistance
    }
}

/// The action kind bound to an action-layer slot.
pub fn action_kind(i: usize) -> (r: ActionKind)
    ensures
        r == action_kind_of(i as int),
{
    let k = i % 3;
    if k == 0 {
        ActionKind::Responsiveness
    } else if k == 1 {
        ActionKind::MoveForward
    } else {
        ActionKind::Turn
    }
}

/// 1 if the cell at the given offset is inside the grid and set, else 0.
pub open spec fn probe_at(g: Grid, x: int, y: int, dx: int, dy: int) -> int {
    if g.in_range(x + dx, y + dy) && g.cell(x + dx, y + dy) {
        1
    } else {
        0
    }
}

/// Number of set cells among the eight neighbors of (x, y).
pub open spec fn spec_ring_count(g: Grid, x: int, y: int) -> int {
    probe_at(g, x, y, -1, -1) + probe_at(g, x, y, -1, 0) + probe_at(g, x, y, -1, 1) + probe_at(
        g,
        x,
        y,
        0,
        -1,
    ) + probe_at(g, x, y, 0, 1) + probe_at(g, x, y, 1, -1) + probe_at(g, x, y, 1, 0) + probe_at(
        g,
        x,
        y,
        1,
        1,
    )
}

/// Number of set cells in the 3-by-3 block centered on (x, y).
pub open spec fn spec_block_count(g: Grid, x: int, y: int) -> int {
    spec_ring_count(g, x, y) + probe_at(g, x, y, 0, 0)
}

/// Reads one offset cell, counting it as 0 when outside the grid.
fn probe(g: &Grid, x: i32, y: i32, dx: i32, dy: i32) -> (c: u32)
    requires
        g.wf(),
        g.in_range(x as int, y as int),
        -1 <= dx <= 1,
        -1 <= dy <= 1,
    ensures
        c as int == probe_at(*g, x as int, y as int, dx as int, dy as int),
        c <= 1,
{
    let cx = x + dx;
    let cy = y + dy;
    if cx >= 0 && cx < g.size_x && cy >= 0 && cy < g.size_y {
        if g.get(cx, cy) {
            1
        } else {
            0
        }
    } else {
        0
    }
}

/// Sensor reading: how many of the eight neighboring cells are occupied.
/// The runtime divides by 8 for the population-density sensor.
pub fn occupied_neighbors(s: &SimulationState, x: i32, y: i32) -> (c: u32)
    requires
        s.wf(),
        s.world.in_range(x as int, y as int),
    ensures
        c as int == spec_ring_count(s.world, x as int, y as int),
        c <= 8,
{
    let g = &s.world;
    probe(g, x, y, -1, -1) + probe(g, x, y, -1, 0) + probe(g, x, y, -1, 1) + probe(g, x, y, 0, -1)
        + probe(g, x, y, 0, 1) + probe(g, x, y, 1, -1) + probe(g, x, y, 1, 0) + probe(
        g,
        x,
        y,
        1,
        1,
    )
}

/// Sensor reading: how many cells of the 3-by-3 neighborhood lie in the
/// selection region. The runtime divides by 9.
pub fn selection_neighbors(s: &SimulationState, x: i32, y: i32) -> (c: u32)
    requires
        s.wf(),
        s.selection_area.in_range(x as int, y as int),
    ensures
        c as int == spec_block_count(s.selection_area, x as int, y as int),
        c <= 9,
{
    let g = &s.selection_area;
    probe(g, x, y, -1, -1) + probe(g, x, y, -1, 0) + probe(g, x, y, -1, 1) + probe(g, x, y, 0, -1)
        + probe(g, x, y, 0, 1) + probe(g, x, y, 1, -1) + probe(g, x, y, 1, 0) + probe(
        g,
        x,
        y,
        1,
        1,
    ) + probe(g, x, y, 0, 0)
}

/// Whether the cell `t` steps from (x, y) along direction `d` is inside the
/// grid and set.
pub open spec fn toward(g: Grid, x: int, y: int, d: int, t: int) -> bool {
    g.in_range(x + t * dir_dx(d), y + t * dir_dy(d)) && g.cell(
        x + t * dir_dx(d),
        y + t * dir_dy(d),
    )
}

/// Once a straight path from an in-range cell has left the grid, it never
/// re-enters.
pub proof fn lemma_path_stays_out(g: Grid, x: int, y: int, d: int, t0: int, t2: int)
    requires
        g.wf(),
        g.in_range(x, y),
        1 <= t0 <= t2,
        !g.in_range(x + t0 * dir_dx(d), y + t0 * dir_dy(d)),
    ensures
        !g.in_range(x + t2 * dir_dx(d), y + t2 * dir_dy(d)),
{
    let dx = dir_dx(d);
    let dy = dir_dy(d);
    assert(-1 <= dx <= 1 && -1 <= dy <= 1);
    if x + t0 * dx < 0 {
        assert(dx == -1) by (nonlinear_arith)
            requires
                0 <= x,
                1 <= t0,
                -1 <= dx <= 1,
                x + t0 * dx < 0,
        ;
        assert(x + t2 * dx <= x + t0 * dx) by (nonlinear_arith)
            requires
                t0 <= t2,
                dx <= 0,
        ;
    } else if x + t0 * dx >= g.size_x {
        assert(dx == 1) by (nonlinear_arith)
            requires
                x < g.size_x,
                1 <= t0,
                -1 <= dx <= 1,
                x + t0 * dx >= g.size_x,
        ;
        assert(x + t2 * dx >= x + t0 * dx) by (nonlinear_arith)
            requires
                t0 <= t2,
                dx >= 0,
        ;
    } else if y + t0 * dy < 0 {
        assert(dy == -1) by (nonlinear_arith)
            requires
                0 <= y,
                1 <= t0,
                -1 <= dy <= 1,
                y + t0 * dy < 0,
        ;
        assert(y + t2 * dy <= y + t0 * dy) by (nonlinear_arith)
            requires
                t0 <= t2,
                dy <= 0,
        ;
    } else if y + t0 * dy >= g.size_y {
        assert(dy == 1) by (nonlinear_arith)
            requires
                y < g.size_y,
                1 <= t0,
                -1 <= dy <= 1,
                y + t0 * dy >= g.size_y,
        ;
        assert(y + t2 * dy >= y + t0 * dy) by (nonlinear_arith)
            requires
                t0 <= t2,
                dy >= 0,
        ;
    } else {
        assert(false);
    }
}

/// The smallest step count in `t_start..=max_dist` whose cell along
/// direction `d` is inside the grid and set, if any.
pub fn first_set_toward(g: &Grid, x: i32, y: i32, d: usize, t_start: i32, max_dist: i32) -> (r:
    Option<i32>)
    requires
        g.wf(),
        g.in_range(x as int, y as int),
        d < 8,
        t_start == 0 || t_start == 1,
        1 <= max_dist <= 4096,
    ensures
        match r {
            Some(t) => {
                &&& t_start <= t <= max_dist
                &&& toward(*g, x as int, y as int, d as int, t as int)
                &&& forall|t2: int|
                    t_start <= t2 < t ==> !toward(*g, x as int, y as int, d as int, t2)
            },
            None => forall|t2: int|
                t_start <= t2 <= max_dist ==> !toward(*g, x as int, y as int, d as int, t2),
        },
{
    let sdx = step_dx(d);
    let sdy = step_dy(d);
    let mut t = t_start;
    while t <= max_dist
        invariant
            g.wf(),
            g.in_range(x as int, y as int),
            d < 8,
            t_start <= t <= max_dist + 1,
            1 <= max_dist <= 4096,
            t_start == 0 || t_start == 1,
            sdx as int == dir_dx(d as int),
            sdy as int == dir_dy(d as int),
            -1 <= sdx <= 1,
            -1 <= sdy <= 1,
            forall|t2: int| t_start <= t2 < t ==> !toward(*g, x as int, y as int, d as int, t2),
        decreases max_dist - t + 1,
    {
        proof {
            assert(-t <= t * sdx <= t && -t <= t * sdy <= t) by (nonlinear_arith)
                requires
                    0 <= t,
                    -1 <= sdx <= 1,
                    -1 <= sdy <= 1,
            ;
        }
        let cx = x + t * sdx;
        let cy = y + t * sdy;
        if cx < 0 || cx >= g.size_x || cy < 0 || cy >= g.size_y {
            proof {
                assert(t >= 1);
                assert forall|t2: int| t <= t2 <= max_dist implies !toward(
                    *g,
                    x as int,
                    y as int,
                    d as int,
                    t2,
                ) by {
                    lemma_path_stays_out(*g, x as int, y as int, d as int, t as int, t2);
                }
            }
            return None;
        }
        if g.get(cx, cy) {
            return Some(t);
        }
        t = t + 1;
    }
    None
}

/// How many set cells lie on the straight path from (x, y) along
/// direction `d`, from step `t` up to `tmax`, stopping at the first cell
/// outside the grid.
pub open spec fn count_set_toward(g: Grid, x: int, y: int, d: int, t: int, tmax: int) -> int
    decreases tmax - t + 1,
{
    if t > tmax || !g.in_range(x + t * dir_dx(d), y + t * dir_dy(d)) {
        0
    } else {
        (if g.cell(x + t * dir_dx(d), y + t * dir_dy(d)) {
            1int
        } else {
            0int
        }) + count_set_toward(g, x, y, d, t + 1, tmax)
    }
}

/// Sensor reading: how many selection-region (or occupied) cells lie
/// straight ahead, from the agent's own cell up to `max_dist` steps or the
/// grid border. The runtime divides by `max_dist`.
pub fn count_set_forward(g: &Grid, x: i32, y: i32, d: usize, max_dist: i32) -> (c: u32)
    requires
        g.wf(),
        g.in_range(x as int, y as int),
        d < 8,
        1 <= max_dist <= 4096,
    ensures
        c as int == count_set_toward(*g, x as int, y as int, d as int, 0, max_dist as int),
        c <= max_dist + 1,
{
    let sdx = step_dx(d);
    let sdy = step_dy(d);
    let mut c: u32 = 0;
    let mut t: i32 = 0;
    while t <= max_dist
        invariant
            g.wf(),
            g.in_range(x as int, y as int),
            d < 8,
            0 <= t <= max_dist + 1,
            1 <= max_dist <= 4096,
            c <= t,
            sdx as int == dir_dx(d as int),
            sdy as int == dir_dy(d as int),
            -1 <= sdx <= 1,
            -1 <= sdy <= 1,
            count_set_toward(*g, x as int, y as int, d as int, 0, max_dist as int) == c
                + count_set_toward(*g, x as int, y as int, d as int, t as int, max_dist as int),
        decreases max_dist - t + 1,
    {
        proof {
            assert(-t <= t * sdx <= t && -t <= t * sdy <= t) by (nonlinear_arith)
                requires
                    0 <= t,
                    -1 <= sdx <= 1,
                    -1 <= sdy <= 1,
            ;
        }
        let cx = x + t * sdx;
        let cy = y + t * sdy;
        if cx < 0 || cx >= g.size_x || cy < 0 || cy >= g.size_y {
            return c;
        }
        if g.get(cx, cy) {
            c = c + 1;
        }
        t = t + 1;
    }
    c
}

/// Sensor reading: the nearest occupied cell over all eight compass
/// directions, searched ring by ring from one step out to `max_dist`.
/// Returns the direction index and distance of the first hit in
/// (distance, direction) order, or nothing if no ring holds one.
pub fn find_nearest(w: &WyrmState, s: &SimulationState) -> (r: Option<(usize, i32)>)
    requires
        w.wf(),
        s.wf(),
        s.world.in_range(w.x as int, w.y as int),
    ensures
        match r {
            Some(p) => {
                &&& p.0 < 8
                &&& 1 <= p.1 <= w.max_dist
                &&& toward(s.world, w.x as int, w.y as int, p.0 as int, p.1 as int)
                &&& forall|t2: int, d2: int|
                    1 <= t2 <= w.max_dist && 0 <= d2 < 8 && (t2 < p.1 || (t2 == p.1 && d2
                        < p.0)) ==> !toward(s.world, w.x as int, w.y as int, d2, t2)
            },
            None => forall|t2: int, d2: int|
                1 <= t2 <= w.max_dist && 0 <= d2 < 8 ==> !toward(
                    s.world,
                    w.x as int,
                    w.y as int,
                    d2,
                    t2,
                ),
        },
{
    let x = w.x;
    let y = w.y;
    let mut t: i32 = 1;
    while t <= w.max_dist
        invariant
            w.wf(),
            s.wf(),
            s.world.in_range(x as int, y as int),
            x == w.x,
            y == w.y,
            1 <= t <= w.max_dist + 1,
            forall|t2: int, d2: int|
                1 <= t2 < t && 0 <= d2 < 8 ==> !toward(s.world, x as int, y as int, d2, t2),
        decreases w.max_dist - t + 1,
    {
        let mut d: usize = 0;
        while d < 8
            invariant
                w.wf(),
                s.wf(),
                s.world.in_range(x as int, y as int),
                x == w.x,
                y == w.y,
                1 <= t <= w.max_dist,
                d <= 8,
                forall|t2: int, d2: int|
                    1 <= t2 < t && 0 <= d2 < 8 ==> !toward(s.world, x as int, y as int, d2, t2),
                forall|d2: int|
                    0 <= d2 < d ==> !toward(s.world, x as int, y as int, d2, t as int),
            decreases 8 - d,
        {
            let sdx = step_dx(d);
            let sdy = step_dy(d);
            proof {
                assert(-t <= t * sdx <= t && -t <= t * sdy <= t) by (nonlinear_arith)
                    requires
                        0 <= t,
                        -1 <= sdx <= 1,
                        -1 <= sdy <= 1,
                ;
            }
            let cx = x + t * sdx;
            let cy = y + t * sdy;
            if cx >= 0 && cx < s.size_x && cy >= 0 && cy < s.size_y {
                if s.world.get(cx, cy) {
                    return Some((d, t));
                }
            }
            d = d + 1;
        }
        t = t + 1;
    }
    None
}

/// A value clamped to an inclusive range.
pub open spec fn clamp_int(v: int, lo: int, hi: int) -> int {
    if v < lo {
        lo
    } else if v > hi {
        hi
    } else {
        v
    }
}

/// Where a committed move lands on the x axis.
pub open spec fn move_target_x(w: WyrmState, s: SimulationState, sign: int) -> int {
    clamp_int(w.x + dir_dx(w.dir as int) * sign, 0, s.size_x - 1)
}

/// Where a committed move lands on the y axis.
pub open spec fn move_target_y(w: WyrmState, s: SimulationState, sign: int) -> int {
    clamp_int(w.y + dir_dy(w.dir as int) * sign, 0, s.size_y - 1)
}

/// Action effect: nudge responsiveness by one twentieth (0.05) in the
/// committed direction.
pub fn a_resp(w: &mut WyrmState, sign: i32)
    requires
        sign == 1 || sign == -1,
        i64::MIN < old(w).responsiveness < i64::MAX,
    ensures
        same_but_responsiveness(*old(w), *final(w)),
        final(w).responsiveness == old(w).responsiveness + sign,
{
    if sign == 1 {
        w.responsiveness = w.responsiveness + 1;
    } else {
        w.responsiveness = w.responsiveness - 1;
    }
}

/// Action effect: move one cell along the facing (or against it, when the
/// committed sign is negative), clamped to the grid bounds. The old
/// occupancy cell is cleared and the target cell set in one step, so the
/// agent's cell is marked afterwards even when the clamped target equals
/// the origin.
pub fn a_move(w: &mut WyrmState, s: &mut SimulationState, sign: i32)
    requires
        sign == 1 || sign == -1,
        old(w).wf(),
        old(s).wf(),
        old(s).world.in_range(old(w).x as int, old(w).y as int),
    ensures
        final(s).wf(),
        same_but_position(*old(w), *final(w)),
        final(w).x as int == move_target_x(*old(w), *old(s), sign as int),
        final(w).y as int == move_target_y(*old(w), *old(s), sign as int),
        final(s).world.in_range(final(w).x as int, final(w).y as int),
        final(s).world.cells@ == old(s).world.cells@.update(
            old(s).world.idx(old(w).x as int, old(w).y as int),
            false,
        ).update(old(s).world.idx(final(w).x as int, final(w).y as int), true),
        final(s).world.cell(final(w).x as int, final(w).y as int),
        (final(w).x != old(w).x || final(w).y != old(w).y) ==> !final(s).world.cell(
            old(w).x as int,
            old(w).y as int,
        ),
        forall|x2: int, y2: int|
            old(s).world.in_range(x2, y2) && !(x2 == old(w).x as int && y2 == old(w).y as int) && !(
            x2 == final(w).x as int && y2 == final(w).y as int) ==> final(s).world.cell(x2, y2)
                == old(s).world.cell(x2, y2),
        final(s).world.same_shape(old(s).world),
        final(s).selection_area == old(s).selection_area,
        final(s).size_x == old(s).size_x,
        final(s).size_y == old(s).size_y,
        final(s).max_age == old(s).max_age,
        final(s).osc_period == old(s).osc_period,
        final(s).mutation_permille == old(s).mutation_permille,
        final(s).tick == old(s).tick,
{
    let sdx = step_dx(w.dir);
    let sdy = step_dy(w.dir);
    let ddx = if sign == 1 {
        sdx
    } else {
        0 - sdx
    };
    let ddy = if sign == 1 {
        sdy
    } else {
        0 - sdy
    };
    proof {
        let dd = dir_dx(w.dir as int);
        let de = dir_dy(w.dir as int);
        if sign == 1 {
            assert(dd * 1 == dd && de * 1 == de) by (nonlinear_arith);
        } else {
            assert(dd * -1 == -dd && de * -1 == -de) by (nonlinear_arith);
        }
    }
    let mut nx = w.x + ddx;
    let mut ny = w.y + ddy;
    if nx < 0 {
        nx = 0;
    }
    if ny < 0 {
        ny = 0;
    }
    if nx >= s.size_x {
        nx = s.size_x - 1;
    }
    if ny >= s.size_y {
        ny = s.size_y - 1;
    }
    s.world.set(w.x, w.y, false);
    s.world.set(nx, ny, true);
    w.x = nx;
    w.y = ny;
}

/// Action effect: rotate the facing by one step through the cyclic compass
/// order, wrapping around.
pub fn a_turn(w: &mut WyrmState, sign: i32)
    requires
        sign == 1 || sign == -1,
        old(w).wf(),
    ensures
        same_but_dir(*old(w), *final(w)),
        final(w).dir < 8,
        final(w).dir as int == (old(w).dir + sign + 8) % 8,
{
    if sign == 1 {
        w.dir = if w.dir >= 7 {
            0
        } else {
            w.dir + 1
        };
    } else {
        w.dir = if w.dir == 0 {
            7
        } else {
            w.dir - 1
        };
    }
}

} // verus!
