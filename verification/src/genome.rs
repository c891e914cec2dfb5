//! Genes and genomes.
//!
//! A gene is one 32-bit packed descriptor of a network connection. Layout,
//! from the high bit down: source-is-inner (1 bit), source id (7 bits),
//! sink-is-inner (1 bit), sink id (7 bits), weight (16 bits). Every bit
//! pattern is a valid gene: ids are later reduced modulo the target layer's
//! length, and the weight field maps linearly onto the fixed-point range
//! `(-32768, 32768]`, which stands for the real interval `(-4.0, 4.0]`
//! once divided by 8192.

use vstd::prelude::*;

use crate::rng;

verus! {

/// One gene: a bit-packed descriptor of one network connection.
#[derive(Clone, Copy)]
pub struct Gene(pub u32);

/// Whether the gene's source is an inner neuron (otherwise a sensor).
pub open spec fn src_is_inner(g: Gene) -> bool {
    g.0 >> 31 & 1 == 1
}

/// The gene's raw source id, before reduction modulo a layer length.
pub open spec fn src_id(g: Gene) -> int {
    (g.0 >> 24 & 127) as int
}

/// Whether the gene's sink is an inner neuron (otherwise an action neuron).
pub open spec fn sink_is_inner(g: Gene) -> bool {
    g.0 >> 23 & 1 == 1
}

/// The gene's raw sink id, before reduction modulo a layer length.
pub open spec fn sink_id(g: Gene) -> int {
    (g.0 >> 16 & 127) as int
}

/// The gene's connection weight in fixed-point units of 1/8192; the real
/// weight is this value divided by 8192.0.
pub open spec fn weight_scaled(g: Gene) -> int {
    (g.0 & 65535) - 32767
}

/// Number of set bits in a 32-bit value.
pub open spec fn pop32(x: u32) -> nat
    decreases x,
{
    if x == 0 {
        0
    } else {
        (x % 2) as nat + pop32(x / 2)
    }
}

/// Number of bit positions at which two genes differ.
pub open spec fn bit_diff(a: Gene, b: Gene) -> nat {
    pop32(a.0 ^ b.0)
}

/// A single bit has one set bit.
pub proof fn lemma_pop32_single(i: u32)
    requires
        i < 32,
    ensures
        pop32(1u32 << i) == 1,
    decreases i,
{
    if i == 0 {
        assert(1u32 << i == 1) by (bit_vector)
            requires
                i == 0,
        ;
        reveal_with_fuel(pop32, 3);
    } else {
        let j = (i - 1) as u32;
        assert((1u32 << i) != 0 && (1u32 << i) % 2 == 0 && (1u32 << i) / 2 == 1u32 << j)
            by (bit_vector)
            requires
                0 < i < 32,
                j == i - 1,
        ;
        lemma_pop32_single(j);
        assert(pop32(1u32 << i) == 0 + pop32(1u32 << j));
    }
}

/// Set bits add up over a disjoint union.
pub proof fn lemma_pop32_or_disjoint(a: u32, b: u32)
    requires
        a & b == 0,
    ensures
        pop32(a | b) == pop32(a) + pop32(b),
    decreases a + b,
{
    if a == 0 {
        assert(a | b == b) by (bit_vector)
            requires
                a == 0,
        ;
    } else if b == 0 {
        assert(a | b == a) by (bit_vector)
            requires
                b == 0,
        ;
    } else {
        assert((a | b) != 0 && (a | b) % 2 == a % 2 + b % 2 && (a | b) / 2 == (a / 2) | (b / 2)
            && (a / 2) & (b / 2) == 0 && a / 2 + b / 2 < a + b) by (bit_vector)
            requires
                a & b == 0,
                a != 0,
                b != 0,
        ;
        lemma_pop32_or_disjoint(a / 2, b / 2);
        assert(pop32(a) == (a % 2) as nat + pop32(a / 2));
        assert(pop32(b) == (b % 2) as nat + pop32(b / 2));
        assert(pop32(a | b) == ((a | b) % 2) as nat + pop32((a | b) / 2));
    }
}

/// A gene differs from itself at no bit position.
pub proof fn lemma_bit_diff_zero(g: Gene)
    ensures
        bit_diff(g, g) == 0,
{
    let x = g.0;
    assert(x ^ x == 0) by (bit_vector);
}

/// Every gene's weight lies in the fixed-point range standing for
/// `(-4.0, 4.0]`: strictly above -32768 (that is, above -4.0) and at most
/// 32768 (exactly 4.0).
pub proof fn lemma_weight_scaled_range(g: Gene)
    ensures
        -32767 <= weight_scaled(g) <= 32768,
{
    let x = g.0;
    assert(x & 65535 <= 65535) by (bit_vector);
}

impl Gene {
    /// Decodes the source field: (is-inner, raw id below 128).
    pub fn get_src(&self) -> (r: (bool, usize))
        ensures
            r.0 == src_is_inner(*self),
            r.1 as int == src_id(*self),
            r.1 < 128,
    {
        let x = self.0;
        proof {
            assert(x >> 24 & 127 < 128) by (bit_vector);
        }
        (x >> 31 & 1 == 1, (x >> 24 & 127) as usize)
    }

    /// Decodes the sink field: (is-inner, raw id below 128).
    pub fn get_sink(&self) -> (r: (bool, usize))
        ensures
            r.0 == sink_is_inner(*self),
            r.1 as int == sink_id(*self),
            r.1 < 128,
    {
        let x = self.0;
        proof {
            assert(x >> 16 & 127 < 128) by (bit_vector);
        }
        (x >> 23 & 1 == 1, (x >> 16 & 127) as usize)
    }

    /// Decodes the weight field in fixed-point units of 1/8192; dividing by
    /// 8192.0 yields the real weight, which always lies in `(-4.0, 4.0]`.
    pub fn get_weight_scaled(&self) -> (w: i32)
        ensures
            w as int == weight_scaled(*self),
            -32767 <= w <= 32768,
    {
        let x = self.0;
        proof {
            assert(x & 65535 <= 65535) by (bit_vector);
        }
        (x & 65535) as i32 - 32767
    }

    /// Flips between one and three randomly chosen, distinct bit positions,
    /// so the result always differs from the input at one to three positions.
    pub fn mutate(&mut self)
        ensures
            1 <= bit_diff(*old(self), *final(self)) <= 3,
    {
        let extra = rng::rand_below(3);  // flip 1 + extra bits
        let p1 = rng::rand_below(32) as u32;
        proof {
            lemma_pop32_single(p1);
        }
        let mask: u32;
        if extra == 0 {
            mask = 1u32 << p1;
        } else {
            let mut p2 = rng::rand_below(31) as u32;
            if p2 >= p1 {
                p2 = p2 + 1;
            }
            proof {
                lemma_pop32_single(p2);
                assert((1u32 << p1) & (1u32 << p2) == 0) by (bit_vector)
                    requires
                        p1 < 32,
                        p2 < 32,
                        p1 != p2,
                ;
                lemma_pop32_or_disjoint(1u32 << p1, 1u32 << p2);
            }
            if extra == 1 {
                mask = (1u32 << p1) | (1u32 << p2);
            } else {
                let lo = if p1 < p2 { p1 } else { p2 };
                let hi = if p1 < p2 { p2 } else { p1 };
                let mut p3 = rng::rand_below(30) as u32;
                if p3 >= lo {
                    p3 = p3 + 1;
                }
                if p3 >= hi {
                    p3 = p3 + 1;
                }
                proof {
                    lemma_pop32_single(p3);
                    assert(((1u32 << p1) | (1u32 << p2)) & (1u32 << p3) == 0) by (bit_vector)
                        requires
                            p1 < 32,
                            p2 < 32,
                            p3 < 32,
                            p3 != p1,
                            p3 != p2,
                    ;
                    lemma_pop32_or_disjoint((1u32 << p1) | (1u32 << p2), 1u32 << p3);
                }
                mask = (1u32 << p1) | (1u32 << p2) | (1u32 << p3);
            }
        }
        let g = self.0;
        self.0 = g ^ mask;
        proof {
            assert(g ^ (g ^ mask) == mask) by (bit_vector);
        }
    }
}

/// Whether a gene is copied verbatim from one of two parent genomes.
pub open spec fn gene_from_parents(g: Gene, a: Seq<Gene>, b: Seq<Gene>) -> bool {
    exists|j: int|
        (0 <= j < a.len() && g == a[j]) || (0 <= j < b.len() && g == b[j])
}

/// Whether a gene is copied verbatim from one parent genome.
pub open spec fn gene_from(g: Gene, p: Seq<Gene>) -> bool {
    exists|j: int| 0 <= j < p.len() && g == p[j]
}

/// Whether `p` is a permutation of the positions `0..n`.
pub open spec fn index_permutation(p: Seq<int>, n: int) -> bool {
    &&& p.len() == n
    &&& forall|t: int| 0 <= t < n ==> 0 <= #[trigger] p[t] < n
    &&& forall|t1: int, t2: int| 0 <= t1 < t2 < n ==> p[t1] != p[t2]
}

/// Whether `r` was bred from `a` and `b` through the slot permutation `p`:
/// even slots are within three bit flips of the first parent's gene at the
/// assigned position, odd slots of the second parent's — a crossover
/// followed by independent per-gene mutation of at most three bits.
pub open spec fn bred_by(r: Seq<Gene>, a: Seq<Gene>, b: Seq<Gene>, p: Seq<int>) -> bool {
    &&& index_permutation(p, r.len() as int)
    &&& forall|i: int|
        0 <= i < r.len() ==> bit_diff(
            #[trigger] r[i],
            if i % 2 == 0 {
                a[p[i]]
            } else {
                b[p[i]]
            },
        ) <= 3
}

/// Whether `r` is mixed from `a` and `b` by the slot assignment `p`: the
/// assigned positions form a permutation, even slots copy the gene of the
/// first parent at the assigned position, odd slots of the second.
pub open spec fn mixed_by(r: Seq<Gene>, a: Seq<Gene>, b: Seq<Gene>, p: Seq<int>) -> bool {
    &&& index_permutation(p, r.len() as int)
    &&& forall|i: int|
        0 <= i < r.len() ==> #[trigger] r[i] == if i % 2 == 0 {
            a[p[i]]
        } else {
            b[p[i]]
        }
}

/// An ordering of `0..n`, cast to mathematical integers, is a permutation
/// of the positions `0..n`.
pub proof fn lemma_order_permutation(s: Seq<usize>, n: int)
    requires
        s.len() == n,
        forall|t: int| 0 <= t < n ==> (#[trigger] s[t]) < n,
        s.no_duplicates(),
    ensures
        index_permutation(s.map_values(|u: usize| u as int), n),
{
    let p = s.map_values(|u: usize| u as int);
    assert forall|t: int| 0 <= t < n implies 0 <= #[trigger] p[t] < n by {
        assert(s[t] < n);
    }
    assert forall|t1: int, t2: int| 0 <= t1 < t2 < n implies p[t1] != p[t2] by {
        assert(s[t1] != s[t2]);
    }
}

/// A uniformly random ordering of `0..n`: a permutation, with every value
/// below `n` occurring exactly once. It decides which parent position fills
/// which output slot in a crossover, and the survivor pairing order when
/// breeding a generation.
pub fn random_order(n: usize) -> (r: Vec<usize>)
    ensures
        r@.len() == n,
        forall|t: int| 0 <= t < n ==> #[trigger] r@[t] < n,
        r@.no_duplicates(),
        forall|v: usize| v < n ==> #[trigger] r@.contains(v),
{
    let mut idx: Vec<usize> = Vec::new();
    let mut k: usize = 0;
    while k < n
        invariant
            k <= n,
            idx@.len() == k,
            forall|t: int| 0 <= t < k ==> idx@[t] == t,
        decreases n - k,
    {
        idx.push(k);
        k = k + 1;
    }
    let ghost pre = idx@;
    rng::shuffle_usizes(&mut idx);
    proof {
        broadcast use vstd::seq_lib::group_to_multiset_ensures;

        assert(pre.no_duplicates());
        pre.lemma_multiset_has_no_duplicates();
        assert forall|x: usize|
            idx@.to_multiset().contains(x) implies idx@.to_multiset().count(x) == 1 by {
            assert(pre.to_multiset().contains(x));
        }
        idx@.lemma_multiset_has_no_duplicates_conv();
        assert forall|t: int| 0 <= t < idx@.len() implies idx@[t] < n by {
            let v = idx@[t];
            assert(idx@.contains(v));
            assert(idx@.to_multiset().count(v) > 0);
            assert(pre.to_multiset().count(v) > 0);
            assert(pre.contains(v));
            let s = choose|s: int| 0 <= s < pre.len() && pre[s] == v;
            assert(pre[s] == s);
        }
        assert forall|v: usize| v < n implies #[trigger] idx@.contains(v) by {
            assert(pre[v as int] == v);
            assert(pre.contains(v));
            assert(pre.to_multiset().count(v) > 0);
            assert(idx@.to_multiset().count(v) > 0);
        }
    }
    idx
}

/// Crosses two genomes of equal length: a random shuffle decides which
/// position of which parent fills each output slot, alternating between the
/// parents, so every output gene is copied verbatim from one of them: even
/// slots carry a gene of the first parent, odd slots one of the second.
pub fn mix_genome(a: &Vec<Gene>, b: &Vec<Gene>) -> (r: Vec<Gene>)
    requires
        a@.len() == b@.len(),
    ensures
        r@.len() == a@.len(),
        forall|i: int| 0 <= i < r@.len() ==> gene_from_parents(#[trigger] r@[i], a@, b@),
        forall|i: int| 0 <= i < r@.len() && i % 2 == 0 ==> gene_from(#[trigger] r@[i], a@),
        forall|i: int| 0 <= i < r@.len() && i % 2 == 1 ==> gene_from(#[trigger] r@[i], b@),
        exists|p: Seq<int>| mixed_by(r@, a@, b@, p),
{
    let len = a.len();
    let idx = random_order(len);
    let ghost p = idx@.map_values(|u: usize| u as int);
    proof {
        assert(index_permutation(p, len as int)) by {
            assert forall|t: int| 0 <= t < len implies 0 <= #[trigger] p[t] < len by {
                assert(idx@[t] < len);
            }
            assert forall|t1: int, t2: int| 0 <= t1 < t2 < len implies p[t1] != p[t2] by {
                assert(idx@[t1] != idx@[t2]);
            }
        }
    }
    let mut r: Vec<Gene> = Vec::new();
    let mut i: usize = 0;
    while i < len
        invariant
            i <= len,
            r@.len() == i,
            a@.len() == len,
            b@.len() == len,
            idx@.len() == len,
            p == idx@.map_values(|u: usize| u as int),
            index_permutation(p, len as int),
            forall|t: int| 0 <= t < len ==> #[trigger] idx@[t] < len,
            forall|t: int| 0 <= t < i ==> gene_from_parents(#[trigger] r@[t], a@, b@),
            forall|t: int| 0 <= t < i && t % 2 == 0 ==> gene_from(#[trigger] r@[t], a@),
            forall|t: int| 0 <= t < i && t % 2 == 1 ==> gene_from(#[trigger] r@[t], b@),
            forall|t: int|
                0 <= t < i ==> #[trigger] r@[t] == if t % 2 == 0 {
                    a@[p[t]]
                } else {
                    b@[p[t]]
                },
        decreases len - i,
    {
        let j = idx[i];
        proof {
            assert(p[i as int] == j as int);
        }
        if i % 2 == 0 {
            r.push(a[j]);
            proof {
                assert(r@[i as int] == a@[j as int]);
            }
        } else {
            r.push(b[j]);
            proof {
                assert(r@[i as int] == b@[j as int]);
            }
        }
        i = i + 1;
    }
    proof {
        assert(mixed_by(r@, a@, b@, p));
    }
    r
}

/// A fresh genome of the given length, with every gene drawn at random.
pub fn random_genome(len: usize) -> (r: Vec<Gene>)
    ensures
        r@.len() == len,
{
    let mut r: Vec<Gene> = Vec::new();
    let mut i: usize = 0;
    while i < len
        invariant
            i <= len,
            r@.len() == i,
        decreases len - i,
    {
        r.push(Gene(rng::rand_u32()));
        i = i + 1;
    }
    r
}

} // verus!
