//! Agents ("wyrmas"): position, facing, age, responsiveness, genome, and the
//! wired neural network layers.
//!
//! The network is an arena: each agent owns a sensor layer (implicit, no
//! stored data), an inner layer, and an action layer, and every link names
//! its source by layer and index. Wiring resolves each gene's source into a
//! sensor-or-inner neuron and its sink into an inner-or-action neuron, ids
//! reduced modulo the layer length, and drops any link whose source and sink
//! would be the same neuron.

use vstd::prelude::*;

use crate::genome::{
    bit_diff, bred_by, gene_from_parents, index_permutation, lemma_bit_diff_zero, mix_genome,
    mixed_by, sink_id, sink_is_inner, src_id, src_is_inner, weight_scaled, Gene,
};
use crate::neuron::{Link, Neuron};
use crate::rng;

verus! {

/// Initial responsiveness, in fixed-point twentieths: 20 stands for 1.0.
pub const RESP_INIT: i64 = 20;

/// The plain state of one agent. Responsiveness is kept in fixed-point
/// twentieths: the real scalar is `responsiveness / 20.0`, and one committed
/// responsiveness action moves it by one twentieth (0.05).
pub struct WyrmState {
    pub dead: bool,
    pub x: i32,
    pub y: i32,
    /// Facing: an index into the cyclic compass order E, NE, N, NW, W, SW, S, SE.
    pub dir: usize,
    pub age: i32,
    pub max_dist: i32,
    pub genome: Vec<Gene>,
    pub responsiveness: i64,
}

impl WyrmState {
    pub open spec fn wf(self) -> bool {
        &&& self.dir < 8
        &&& 1 <= self.max_dist <= 4096
        &&& 0 <= self.age
    }
}

/// Everything of an agent's state but its position is kept.
pub open spec fn same_but_position(a: WyrmState, b: WyrmState) -> bool {
    &&& b.dead == a.dead
    &&& b.dir == a.dir
    &&& b.age == a.age
    &&& b.max_dist == a.max_dist
    &&& b.genome == a.genome
    &&& b.responsiveness == a.responsiveness
}

/// Everything of an agent's state but its facing is kept.
pub open spec fn same_but_dir(a: WyrmState, b: WyrmState) -> bool {
    &&& b.dead == a.dead
    &&& b.x == a.x
    &&& b.y == a.y
    &&& b.age == a.age
    &&& b.max_dist == a.max_dist
    &&& b.genome == a.genome
    &&& b.responsiveness == a.responsiveness
}

/// Everything of an agent's state but its responsiveness is kept.
pub open spec fn same_but_responsiveness(a: WyrmState, b: WyrmState) -> bool {
    &&& b.dead == a.dead
    &&& b.x == a.x
    &&& b.y == a.y
    &&& b.dir == a.dir
    &&& b.age == a.age
    &&& b.max_dist == a.max_dist
    &&& b.genome == a.genome
}

/// The inner-layer or sensor-layer index a gene's source resolves to.
pub open spec fn src_index(g: Gene, n_inner: int) -> int {
    if src_is_inner(g) {
        src_id(g) % n_inner
    } else {
        src_id(g) % 10
    }
}

/// The inner-layer or action-layer index a gene's sink resolves to.
pub open spec fn sink_index(g: Gene, n_inner: int) -> int {
    if sink_is_inner(g) {
        sink_id(g) % n_inner
    } else {
        sink_id(g) % 3
    }
}

/// Whether a gene would link an inner neuron to itself.
pub open spec fn is_self_loop(g: Gene, n_inner: int) -> bool {
    src_is_inner(g) && sink_is_inner(g) && src_index(g, n_inner) == sink_index(g, n_inner)
}

/// The link a gene creates on its sink's input list.
pub open spec fn link_of(g: Gene, n_inner: int) -> Link {
    Link {
        weight: weight_scaled(g) as i32,
        src_inner: src_is_inner(g),
        src: src_index(g, n_inner) as usize,
    }
}

/// The input list of inner neuron `k` after wiring a genome, in genome
/// order: one link per gene whose sink resolves to `k`, self-loops dropped.
pub open spec fn inner_links(genome: Seq<Gene>, k: int, n_inner: int) -> Seq<Link>
    decreases genome.len(),
{
    if genome.len() == 0 {
        Seq::empty()
    } else {
        let rest = inner_links(genome.drop_last(), k, n_inner);
        let g = genome.last();
        if sink_is_inner(g) && sink_index(g, n_inner) == k && !is_self_loop(g, n_inner) {
            rest.push(link_of(g, n_inner))
        } else {
            rest
        }
    }
}

/// The input list of action neuron `k` after wiring a genome, in genome
/// order. An action neuron can never be its own source, so nothing is
/// dropped here.
pub open spec fn action_links(genome: Seq<Gene>, k: int, n_inner: int) -> Seq<Link>
    decreases genome.len(),
{
    if genome.len() == 0 {
        Seq::empty()
    } else {
        let rest = action_links(genome.drop_last(), k, n_inner);
        let g = genome.last();
        if !sink_is_inner(g) && sink_index(g, n_inner) == k {
            rest.push(link_of(g, n_inner))
        } else {
            rest
        }
    }
}

/// After wiring any genome, no inner neuron lists itself as an input
/// source: every gene that would resolve source and sink to the same inner
/// neuron is dropped.
pub proof fn lemma_no_self_loops(genome: Seq<Gene>, k: int, n_inner: int)
    requires
        1 <= n_inner <= 1000000,
        0 <= k < n_inner,
    ensures
        forall|j: int|
            0 <= j < inner_links(genome, k, n_inner).len() ==> !((#[trigger] inner_links(
                genome,
                k,
                n_inner,
            )[j]).src_inner && inner_links(genome, k, n_inner)[j].src == k),
    decreases genome.len(),
{
    if genome.len() > 0 {
        lemma_no_self_loops(genome.drop_last(), k, n_inner);
        let g = genome.last();
        let rest = inner_links(genome.drop_last(), k, n_inner);
        let cur = inner_links(genome, k, n_inner);
        assert forall|j: int| 0 <= j < cur.len() implies !((#[trigger] cur[j]).src_inner
            && cur[j].src == k) by {
            if j < rest.len() {
                assert(cur[j] == rest[j]);
                assert(!(rest[j].src_inner && rest[j].src == k));
            } else {
                assert(sink_is_inner(g) && sink_index(g, n_inner) == k && !is_self_loop(
                    g,
                    n_inner,
                ));
                assert(cur[j] == link_of(g, n_inner));
                if src_is_inner(g) {
                    vstd::arithmetic::div_mod::lemma_mod_bound(src_id(g), n_inner);
                    assert(0 <= src_index(g, n_inner) < n_inner);
                    assert(src_index(g, n_inner) != k);
                    assert(cur[j].src != k);
                }
            }
        }
    }
}

/// One wired connection of an agent's network, for export to an external
/// graph renderer: source and sink named by layer and index, and the
/// fixed-point weight.
#[derive(Clone, Copy)]
pub struct Edge {
    /// Whether the source is an inner neuron (otherwise a sensor).
    pub src_inner: bool,
    pub src: usize,
    /// Whether the sink is an inner neuron (otherwise an action neuron).
    pub sink_inner: bool,
    pub sink: usize,
    /// Fixed-point weight in units of 1/8192.
    pub weight: i32,
}

/// The edges contributed by one neuron's input list.
pub open spec fn edges_of_neuron(n: Neuron, sink_inner: bool, k: int) -> Seq<Edge> {
    n.inputs@.map_values(
        |l: Link|
            Edge {
                src_inner: l.src_inner,
                src: l.src,
                sink_inner,
                sink: k as usize,
                weight: l.weight,
            },
    )
}

/// The edges contributed by the first `upto` neurons of a layer.
pub open spec fn edges_of_layer(layer: Seq<Neuron>, sink_inner: bool, upto: int) -> Seq<Edge>
    decreases upto,
{
    if upto <= 0 {
        Seq::empty()
    } else {
        edges_of_layer(layer, sink_inner, upto - 1) + edges_of_neuron(
            layer[upto - 1],
            sink_inner,
            upto - 1,
        )
    }
}

/// One agent: its plain state and its wired network layers. The sensor
/// layer holds no data of its own (sensor neurons have no inputs), so only
/// the inner and action layers are stored.
pub struct Wyrm {
    pub state: WyrmState,
    pub inner_layer: Vec<Neuron>,
    pub action_layer: Vec<Neuron>,
}

impl Wyrm {
    pub open spec fn wf(self) -> bool {
        &&& self.state.wf()
        &&& 1 <= self.inner_layer@.len() <= 1000000
        &&& self.action_layer@.len() == 3
    }

    /// The input lists of every neuron match what wiring the agent's genome
    /// prescribes.
    pub open spec fn wired(self) -> bool {
        &&& forall|k: int|
            0 <= k < self.inner_layer@.len() ==> (#[trigger] self.inner_layer@[k]).inputs@
                == inner_links(self.state.genome@, k, self.inner_layer@.len() as int)
        &&& forall|k: int|
            0 <= k < self.action_layer@.len() ==> (#[trigger] self.action_layer@[k]).inputs@
                == action_links(self.state.genome@, k, self.inner_layer@.len() as int)
    }

    /// No neuron lists itself as an input source. Only the inner layer
    /// needs saying: link sources are sensors or inner neurons, never
    /// action neurons, so a sink in the action layer can never be its own
    /// source.
    pub open spec fn no_self_inputs(self) -> bool {
        forall|k: int, j: int|
            0 <= k < self.inner_layer@.len() && 0 <= j < self.inner_layer@[k].inputs@.len() ==> !((
            #[trigger] self.inner_layer@[k].inputs@[j]).src_inner && self.inner_layer@[k].inputs@[j].src
                == k)
    }

    /// A fresh agent at the given cell, with the given genome wired in and a
    /// random facing.
    pub fn new(x: i32, y: i32, num_inner: usize, max_dist: i32, genome: Vec<Gene>) -> (w: Wyrm)
        requires
            1 <= num_inner <= 1000000,
            1 <= max_dist <= 4096,
        ensures
            w.wf(),
            w.wired(),
            w.no_self_inputs(),
            !w.state.dead,
            w.state.x == x,
            w.state.y == y,
            w.state.age == 0,
            w.state.max_dist == max_dist,
            w.state.responsiveness == RESP_INIT,
            w.state.genome == genome,
            w.inner_layer@.len() == num_inner,
    {
        let dir = rng::rand_below(8);
        let mut inner_layer: Vec<Neuron> = Vec::new();
        let mut k: usize = 0;
        while k < num_inner
            invariant
                k <= num_inner,
                inner_layer@.len() == k,
                forall|j: int|
                    0 <= j < k ==> (#[trigger] inner_layer@[j]).inputs@ == Seq::<Link>::empty(),
            decreases num_inner - k,
        {
            inner_layer.push(Neuron::new());
            k = k + 1;
        }
        let mut action_layer: Vec<Neuron> = Vec::new();
        let mut k2: usize = 0;
        while k2 < 3
            invariant
                k2 <= 3,
                action_layer@.len() == k2,
                forall|j: int|
                    0 <= j < k2 ==> (#[trigger] action_layer@[j]).inputs@ == Seq::<Link>::empty(),
            decreases 3 - k2,
        {
            action_layer.push(Neuron::new());
            k2 = k2 + 1;
        }
        let mut w = Wyrm {
            state: WyrmState {
                dead: false,
                x,
                y,
                dir,
                age: 0,
                max_dist,
                genome,
                responsiveness: RESP_INIT,
            },
            inner_layer,
            action_layer,
        };
        w.wire_neurons();
        w
    }

    /// Resets the agent in place for a new generation: new genome, new
    /// cell, fresh random facing, age and responsiveness reinitialized, and
    /// the network rewired. The neuron storage is reused.
    pub fn reset(&mut self, genome: Vec<Gene>, x: i32, y: i32)
        requires
            old(self).wf(),
        ensures
            final(self).wf(),
            final(self).wired(),
            final(self).no_self_inputs(),
            !final(self).state.dead,
            final(self).state.x == x,
            final(self).state.y == y,
            final(self).state.age == 0,
            final(self).state.max_dist == old(self).state.max_dist,
            final(self).state.responsiveness == RESP_INIT,
            final(self).state.genome == genome,
            final(self).inner_layer@.len() == old(self).inner_layer@.len(),
    {
        self.state.x = x;
        self.state.y = y;
        self.state.dead = false;
        self.state.age = 0;
        self.state.responsiveness = RESP_INIT;
        self.state.dir = rng::rand_below(8);
        self.state.genome = genome;
        self.wire_neurons();
    }

    /// Rewires the network from the agent's genome: discards every input
    /// link of the inner and action layers, then appends one link per gene,
    /// source and sink resolved by type bit and id modulo the layer length,
    /// dropping any link whose source and sink are the same neuron.
    pub fn wire_neurons(&mut self)
        requires
            old(self).wf(),
        ensures
            final(self).wf(),
            final(self).wired(),
            final(self).no_self_inputs(),
            final(self).state == old(self).state,
            final(self).inner_layer@.len() == old(self).inner_layer@.len(),
            final(self).action_layer@.len() == old(self).action_layer@.len(),
    {
        let n_inner = self.inner_layer.len();
        let mut k: usize = 0;
        while k < n_inner
            invariant
                old(self).wf(),
                k <= n_inner,
                n_inner == self.inner_layer@.len(),
                self.state == old(self).state,
                self.action_layer == old(self).action_layer,
                forall|j: int|
                    0 <= j < k ==> (#[trigger] self.inner_layer@[j]).inputs@
                        == Seq::<Link>::empty(),
            decreases n_inner - k,
        {
            let n = &mut self.inner_layer[k];
            n.reset();
            k = k + 1;
        }
        let mut k2: usize = 0;
        while k2 < 3
            invariant
                old(self).wf(),
                k2 <= 3,
                n_inner == self.inner_layer@.len(),
                self.action_layer@.len() == 3,
                self.state == old(self).state,
                forall|j: int|
                    0 <= j < n_inner ==> (#[trigger] self.inner_layer@[j]).inputs@
                        == Seq::<Link>::empty(),
                forall|j: int|
                    0 <= j < k2 ==> (#[trigger] self.action_layer@[j]).inputs@
                        == Seq::<Link>::empty(),
            decreases 3 - k2,
        {
            let n = &mut self.action_layer[k2];
            n.reset();
            k2 = k2 + 1;
        }
        let glen = self.state.genome.len();
        let ghost genome = self.state.genome@;
        let mut i: usize = 0;
        while i < glen
            invariant
                old(self).wf(),
                i <= glen,
                n_inner == self.inner_layer@.len(),
                1 <= n_inner <= 1000000,
                self.action_layer@.len() == 3,
                self.state == old(self).state,
                genome == self.state.genome@,
                glen == genome.len(),
                forall|k3: int|
                    0 <= k3 < n_inner ==> (#[trigger] self.inner_layer@[k3]).inputs@
                        == inner_links(genome.take(i as int), k3, n_inner as int),
                forall|k3: int|
                    0 <= k3 < 3 ==> (#[trigger] self.action_layer@[k3]).inputs@ == action_links(
                        genome.take(i as int),
                        k3,
                        n_inner as int,
                    ),
            decreases glen - i,
        {
            let g = self.state.genome[i];
            let (s_inner, s_id) = g.get_src();
            let src = if s_inner {
                s_id % n_inner
            } else {
                s_id % 10
            };
            let (t_inner, t_id) = g.get_sink();
            let sink = if t_inner {
                t_id % n_inner
            } else {
                t_id % 3
            };
            let self_loop = s_inner && t_inner && src == sink;
            let wscaled = g.get_weight_scaled();
            proof {
                assert(src as int == src_index(g, n_inner as int));
                assert(sink as int == sink_index(g, n_inner as int));
                assert(self_loop == is_self_loop(g, n_inner as int));
                assert(genome.take(i + 1).drop_last() =~= genome.take(i as int));
                assert(genome.take(i + 1).last() == g);
            }
            if !self_loop {
                if t_inner {
                    let n = &mut self.inner_layer[sink];
                    n.add_input(wscaled, s_inner, src);
                } else {
                    let n = &mut self.action_layer[sink];
                    n.add_input(wscaled, s_inner, src);
                }
            }
            i = i + 1;
        }
        proof {
            assert(genome.take(glen as int) =~= genome);
            assert forall|k3: int, j: int|
                0 <= k3 < self.inner_layer@.len() && 0 <= j
                    < self.inner_layer@[k3].inputs@.len() implies !((
            #[trigger] self.inner_layer@[k3].inputs@[j]).src_inner
                && self.inner_layer@[k3].inputs@[j].src == k3) by {
                lemma_no_self_loops(genome, k3, n_inner as int);
            }
        }
    }

    /// Advances the agent's own state one tick: its age goes up by one.
    /// The three network passes for the tick are evaluated by the embedding
    /// runtime, which reads the sensor functions and commits effects back
    /// through the action functions.
    pub fn simulation_step(&mut self)
        requires
            old(self).wf(),
            old(self).state.age < i32::MAX,
        ensures
            final(self).wf(),
            same_wyrm_but_age(*old(self), *final(self)),
            final(self).state.age == old(self).state.age + 1,
    {
        self.state.age = self.state.age + 1;
    }

    /// Breeds with a partner: one child genome made by crossing the two
    /// genomes, then, independently for each gene, mutated with probability
    /// `mutation_permille / 1000`. Every gene of the child is at most three
    /// bit flips away from a gene of one of the parents.
    pub fn breed(&self, partner: &Wyrm, mutation_permille: u32) -> (r: Vec<Gene>)
        requires
            self.state.genome@.len() == partner.state.genome@.len(),
        ensures
            r@.len() == self.state.genome@.len(),
            forall|i: int|
                0 <= i < r@.len() ==> gene_near_parents(
                    #[trigger] r@[i],
                    self.state.genome@,
                    partner.state.genome@,
                ),
            exists|p: Seq<int>| bred_by(r@, self.state.genome@, partner.state.genome@, p),
    {
        let ghost a = self.state.genome@;
        let ghost b = partner.state.genome@;
        let mut genome = mix_genome(&self.state.genome, &partner.state.genome);
        let ghost p = choose|p: Seq<int>| mixed_by(genome@, a, b, p);
        proof {
            assert(mixed_by(genome@, a, b, p));
        }
        let len = genome.len();
        let mut i: usize = 0;
        while i < len
            invariant
                i <= len,
                genome@.len() == len,
                a == self.state.genome@,
                b == partner.state.genome@,
                index_permutation(p, len as int),
                forall|t: int| 0 <= t < i ==> gene_near_parents(#[trigger] genome@[t], a, b),
                forall|t: int| i <= t < len ==> gene_from_parents(#[trigger] genome@[t], a, b),
                forall|t: int|
                    0 <= t < i ==> bit_diff(
                        #[trigger] genome@[t],
                        if t % 2 == 0 {
                            a[p[t]]
                        } else {
                            b[p[t]]
                        },
                    ) <= 3,
                forall|t: int|
                    i <= t < len ==> #[trigger] genome@[t] == (if t % 2 == 0 {
                        a[p[t]]
                    } else {
                        b[p[t]]
                    }),
            decreases len - i,
        {
            let coin = rng::rand_below(1000);
            let ghost before = genome@[i as int];
            proof {
                let j = choose|j: int|
                    (0 <= j < a.len() && before == a[j]) || (0 <= j < b.len() && before == b[j]);
                lemma_bit_diff_zero(before);
            }
            if (coin as u32) < mutation_permille {
                let mut g = genome[i];
                g.mutate();
                genome.set(i, g);
                proof {
                    let j = choose|j: int|
                        (0 <= j < a.len() && before == a[j]) || (0 <= j < b.len() && before
                            == b[j]);
                    assert(bit_diff(g, before) <= 3 ==> gene_near_parents(g, a, b));
                    assert(bit_diff(before, g) == bit_diff(g, before)) by {
                        lemma_bit_diff_symmetric(before, g);
                    }
                }
            }
            i = i + 1;
        }
        proof {
            assert(bred_by(genome@, a, b, p));
        }
        genome
    }

    /// The wired network as a list of edges, one per link, inner-layer
    /// sinks first, each layer in neuron order and each input list in
    /// genome order. This is the read-only enumeration an external graph
    /// renderer consumes.
    pub fn dump_genome(&self) -> (r: Vec<Edge>)
        ensures
            r@ == edges_of_layer(self.inner_layer@, true, self.inner_layer@.len() as int)
                + edges_of_layer(self.action_layer@, false, self.action_layer@.len() as int),
    {
        let mut r: Vec<Edge> = Vec::new();
        let n_inner = self.inner_layer.len();
        let mut k: usize = 0;
        while k < n_inner
            invariant
                k <= n_inner,
                n_inner == self.inner_layer@.len(),
                r@ == edges_of_layer(self.inner_layer@, true, k as int),
            decreases n_inner - k,
        {
            let n = &self.inner_layer[k];
            let m = n.inputs.len();
            let mut j: usize = 0;
            while j < m
                invariant
                    j <= m,
                    k < n_inner,
                    n_inner == self.inner_layer@.len(),
                    n == self.inner_layer@[k as int],
                    m == n.inputs@.len(),
                    r@ == edges_of_layer(self.inner_layer@, true, k as int) + n.inputs@.take(
                        j as int,
                    ).map_values(
                        |l: Link|
                            Edge {
                                src_inner: l.src_inner,
                                src: l.src,
                                sink_inner: true,
                                sink: k,
                                weight: l.weight,
                            },
                    ),
                decreases m - j,
            {
                let l = n.inputs[j];
                r.push(
                    Edge {
                        src_inner: l.src_inner,
                        src: l.src,
                        sink_inner: true,
                        sink: k,
                        weight: l.weight,
                    },
                );
                proof {
                    let f = |l2: Link|
                        Edge {
                            src_inner: l2.src_inner,
                            src: l2.src,
                            sink_inner: true,
                            sink: k,
                            weight: l2.weight,
                        };
                    assert(n.inputs@.take(j + 1).map_values(f) =~= n.inputs@.take(
                        j as int,
                    ).map_values(f).push(f(l)));
                }
                j = j + 1;
            }
            proof {
                assert(n.inputs@.take(m as int) =~= n.inputs@);
                assert(edges_of_layer(self.inner_layer@, true, k + 1) == edges_of_layer(
                    self.inner_layer@,
                    true,
                    k as int,
                ) + edges_of_neuron(self.inner_layer@[k as int], true, k as int));
            }
            k = k + 1;
        }
        let ghost inner_edges = edges_of_layer(self.inner_layer@, true, n_inner as int);
        let mut k2: usize = 0;
        while k2 < self.action_layer.len()
            invariant
                k2 <= self.action_layer@.len(),
                n_inner == self.inner_layer@.len(),
                inner_edges == edges_of_layer(self.inner_layer@, true, n_inner as int),
                r@ == inner_edges + edges_of_layer(self.action_layer@, false, k2 as int),
            decreases self.action_layer@.len() - k2,
        {
            let n = &self.action_layer[k2];
            let m = n.inputs.len();
            let mut j: usize = 0;
            while j < m
                invariant
                    j <= m,
                    k2 < self.action_layer@.len(),
                    n == self.action_layer@[k2 as int],
                    m == n.inputs@.len(),
                    inner_edges == edges_of_layer(
                        self.inner_layer@,
                        true,
                        self.inner_layer@.len() as int,
                    ),
                    r@ == inner_edges + edges_of_layer(self.action_layer@, false, k2 as int)
                        + n.inputs@.take(j as int).map_values(
                        |l: Link|
                            Edge {
                                src_inner: l.src_inner,
                                src: l.src,
                                sink_inner: false,
                                sink: k2,
                                weight: l.weight,
                            },
                    ),
                decreases m - j,
            {
                let l = n.inputs[j];
                r.push(
                    Edge {
                        src_inner: l.src_inner,
                        src: l.src,
                        sink_inner: false,
                        sink: k2,
                        weight: l.weight,
                    },
                );
                proof {
                    let f = |l2: Link|
                        Edge {
                            src_inner: l2.src_inner,
                            src: l2.src,
                            sink_inner: false,
                            sink: k2,
                            weight: l2.weight,
                        };
                    assert(n.inputs@.take(j + 1).map_values(f) =~= n.inputs@.take(
                        j as int,
                    ).map_values(f).push(f(l)));
                    assert((inner_edges + edges_of_layer(self.action_layer@, false, k2 as int)
                        + n.inputs@.take(j + 1).map_values(f)) =~= (inner_edges + edges_of_layer(
                        self.action_layer@,
                        false,
                        k2 as int,
                    ) + n.inputs@.take(j as int).map_values(f)).push(f(l)));
                }
                j = j + 1;
            }
            proof {
                assert(n.inputs@.take(m as int) =~= n.inputs@);
                assert(edges_of_layer(self.action_layer@, false, k2 + 1) == edges_of_layer(
                    self.action_layer@,
                    false,
                    k2 as int,
                ) + edges_of_neuron(self.action_layer@[k2 as int], false, k2 as int));
                assert((inner_edges + edges_of_layer(self.action_layer@, false, k2 + 1)) =~= (
                inner_edges + edges_of_layer(self.action_layer@, false, k2 as int)
                    + edges_of_neuron(self.action_layer@[k2 as int], false, k2 as int)));
            }
            k2 = k2 + 1;
        }
        r
    }
}

/// Everything of an agent but its age is kept.
pub open spec fn same_wyrm_but_age(a: Wyrm, b: Wyrm) -> bool {
    &&& b.state.dead == a.state.dead
    &&& b.state.x == a.state.x
    &&& b.state.y == a.state.y
    &&& b.state.dir == a.state.dir
    &&& b.state.max_dist == a.state.max_dist
    &&& b.state.genome@ == a.state.genome@
    &&& b.state.responsiveness == a.state.responsiveness
    &&& b.inner_layer@ == a.inner_layer@
    &&& b.action_layer@ == a.action_layer@
}

/// Whether a gene is at most three bit flips away from a gene of one of two
/// parent genomes.
pub open spec fn gene_near_parents(g: Gene, a: Seq<Gene>, b: Seq<Gene>) -> bool {
    exists|j: int|
        (0 <= j < a.len() && bit_diff(g, a[j]) <= 3) || (0 <= j < b.len() && bit_diff(g, b[j])
            <= 3)
}

/// Bit difference is symmetric.
pub proof fn lemma_bit_diff_symmetric(a: Gene, b: Gene)
    ensures
        bit_diff(a, b) == bit_diff(b, a),
{
    let x = a.0;
    let y = b.0;
    assert(x ^ y == y ^ x) by (bit_vector);
}

} // verus!
