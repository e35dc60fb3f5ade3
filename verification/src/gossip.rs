//! The combinatorial side of gossip on a sheaf: the network topologies the
//! agents talk over, the pseudo-random draws that pick a random network, and
//! the passage between per-agent states and one flat state vector.
use vstd::prelude::*;

use crate::graph::{
    complete_edge_list, complete_edges, complete_edges_from, complete_row, edge_before,
    edges_sorted, ring_edge_list, ring_edges, star_edge_list, star_edges,
};
use crate::sheaf::{Sheaf, dims_sum, stalk_offset};

verus! {

/// Network topology for a gossip simulation.
#[derive(Debug, Clone)]
pub enum Topology {
    /// Ring: each vertex connected to its two neighbours.
    Ring(usize),
    /// Complete: every pair connected.
    Complete(usize),
    /// Star: vertex 0 is the hub, the given number of leaves around it.
    Star(usize),
    /// Erdős–Rényi random graph on `n` vertices.  Each pair is joined when
    /// its 16-bit pseudo-random draw `x` (in `0..65536`) is below the given
    /// threshold, so an edge probability `p` is the threshold `⌈65536 p⌉`
    /// clamped to `0..=65536`: `x < ⌈65536 p⌉` exactly when `x / 65536 < p`.
    ErdosRenyi(usize, u32),
}

/// One step of the xorshift64 generator (shifts 13, 7, 17).
pub open spec fn xorshift(s: u64) -> u64 {
    let a = s ^ (s << 13u64);
    let b = a ^ (a >> 7u64);
    b ^ (b << 17u64)
}

/// The seed the draws of a random topology start from.
pub open spec fn topology_seed() -> u64 {
    42
}

/// The pairs of `pairs` that the draws after `seed` accept: the generator is
/// stepped once per pair, and the pair is kept when the low 16 bits of the
/// new state are below `threshold`.
pub open spec fn erdos_renyi_pick(pairs: Seq<(usize, usize)>, seed: u64, threshold: u32) -> Seq<(usize, usize)>
    decreases pairs.len(),
{
    if pairs.len() == 0 {
        Seq::empty()
    } else {
        let s = xorshift(seed);
        let rest = erdos_renyi_pick(pairs.drop_first(), s, threshold);
        if (s & 0xFFFFu64) < threshold {
            seq![pairs[0]] + rest
        } else {
            rest
        }
    }
}

/// Edges of the Erdős–Rényi graph on `n` vertices: the pairs of the complete
/// graph, in its order, that the draws from the fixed seed accept.
pub open spec fn erdos_renyi_edges(n: nat, threshold: u32) -> Seq<(usize, usize)> {
    erdos_renyi_pick(complete_edges(n), topology_seed(), threshold)
}

/// The edge list a topology describes.
pub open spec fn topology_edges(topo: Topology) -> Seq<(usize, usize)> {
    match topo {
        Topology::Ring(n) => ring_edges(n as nat),
        Topology::Complete(n) => complete_edges(n as nat),
        Topology::Star(n_leaves) => star_edges(n_leaves as nat),
        Topology::ErdosRenyi(n, threshold) => erdos_renyi_edges(n as nat, threshold),
    }
}

/// Number of vertices of the graph a topology describes.
pub open spec fn topology_vertices(topo: Topology) -> nat {
    match topo {
        Topology::Ring(n) => n as nat,
        Topology::Complete(n) => n as nat,
        Topology::Star(n_leaves) => (n_leaves + 1) as nat,
        Topology::ErdosRenyi(n, _) => n as nat,
    }
}

/// One step of the xorshift64 generator.
pub fn xorshift64(seed: u64) -> (next: u64)
    ensures
        next == xorshift(seed),
{
    let mut s = seed;
    s = s ^ (s << 13u64);
    s = s ^ (s >> 7u64);
    s = s ^ (s << 17u64);
    s
}

/// Edges of the Erdős–Rényi graph on `n` vertices for the given threshold.
fn erdos_renyi_edge_list(n: usize, threshold: u32) -> (edges: Vec<(usize, usize)>)
    ensures
        edges@ == erdos_renyi_edges(n as nat, threshold),
{
    let ghost target = erdos_renyi_edges(n as nat, threshold);
    let mut edges: Vec<(usize, usize)> = Vec::new();
    let mut seed: u64 = 42;
    let mut u: usize = 0;
    while u < n
        invariant
            u <= n,
            target == erdos_renyi_edges(n as nat, threshold),
            edges@ + erdos_renyi_pick(complete_edges_from(u as nat, n as nat), seed, threshold)
                == target,
        decreases n - u,
    {
        let mut v: usize = u + 1;
        while v < n
            invariant
                u < n,
                u + 1 <= v <= n,
                target == erdos_renyi_edges(n as nat, threshold),
                edges@ + erdos_renyi_pick(
                    complete_row(u as nat, v as nat, n as nat) + complete_edges_from(
                        (u + 1) as nat,
                        n as nat,
                    ),
                    seed,
                    threshold,
                ) == target,
            decreases n - v,
        {
            let ghost pairs = complete_row(u as nat, v as nat, n as nat) + complete_edges_from(
                (u + 1) as nat,
                n as nat,
            );
            let ghost next_pairs = complete_row(u as nat, (v + 1) as nat, n as nat)
                + complete_edges_from((u + 1) as nat, n as nat);
            let ghost old_edges = edges@;
            proof {
                assert(pairs[0] == (u, v));
                assert(pairs.drop_first() =~= next_pairs);
            }
            seed = xorshift64(seed);
            if (seed & 0xFFFF) < threshold as u64 {
                edges.push((u, v));
                proof {
                    let rest = erdos_renyi_pick(next_pairs, seed, threshold);
                    assert(edges@ + rest =~= old_edges + (seq![(u, v)] + rest));
                }
            }
            v += 1;
        }
        proof {
            assert(complete_row(u as nat, n as nat, n as nat) + complete_edges_from(
                (u + 1) as nat,
                n as nat,
            ) =~= complete_edges_from((u + 1) as nat, n as nat));
        }
        u += 1;
    }
    proof {
        assert(complete_edges_from(n as nat, n as nat) =~= Seq::empty());
        assert(edges@ + Seq::<(usize, usize)>::empty() =~= edges@);
    }
    edges
}

/// Generates the edge list of a topology.
pub fn generate_topology(topo: &Topology) -> (edges: Vec<(usize, usize)>)
    ensures
        edges@ == topology_edges(*topo),
{
    match topo {
        Topology::Ring(n) => ring_edge_list(*n),
        Topology::Complete(n) => complete_edge_list(*n),
        Topology::Star(n_leaves) => star_edge_list(*n_leaves),
        Topology::ErdosRenyi(n, threshold) => erdos_renyi_edge_list(*n, *threshold),
    }
}

/// The draws keep a subsequence of the candidate pairs: nothing new, nothing
/// twice, all of them when every draw passes and none when no draw can.
proof fn lemma_erdos_renyi_pick(pairs: Seq<(usize, usize)>, seed: u64, threshold: u32)
    ensures
        forall|k: int|
            0 <= k < erdos_renyi_pick(pairs, seed, threshold).len() ==> pairs.contains(
                #[trigger] erdos_renyi_pick(pairs, seed, threshold)[k],
            ),
        erdos_renyi_pick(pairs, seed, threshold).len() <= pairs.len(),
        pairs.no_duplicates() ==> erdos_renyi_pick(pairs, seed, threshold).no_duplicates(),
        threshold == 0 ==> erdos_renyi_pick(pairs, seed, threshold).len() == 0,
        threshold >= 0x10000 ==> erdos_renyi_pick(pairs, seed, threshold) == pairs,
    decreases pairs.len(),
{
    let picked = erdos_renyi_pick(pairs, seed, threshold);
    if pairs.len() > 0 {
        let s = xorshift(seed);
        let rest = pairs.drop_first();
        let tail = erdos_renyi_pick(rest, s, threshold);
        lemma_erdos_renyi_pick(rest, s, threshold);
        assert(s & 0xFFFFu64 <= 0xFFFFu64) by (bit_vector);
        assert forall|k: int| 0 <= k < picked.len() implies pairs.contains(#[trigger] picked[k]) by {
            if (s & 0xFFFFu64) < threshold {
                if k == 0 {
                    assert(pairs[0] == picked[0]);
                } else {
                    assert(picked[k] == tail[k - 1]);
                    let j = choose|j: int| 0 <= j < rest.len() && rest[j] == tail[k - 1];
                    assert(pairs[j + 1] == rest[j]);
                }
            } else {
                let j = choose|j: int| 0 <= j < rest.len() && rest[j] == tail[k];
                assert(pairs[j + 1] == rest[j]);
            }
        }
        if pairs.no_duplicates() {
            assert(rest.no_duplicates());
            if (s & 0xFFFFu64) < threshold {
                assert forall|j: int| 0 <= j < tail.len() implies tail[j] != pairs[0] by {
                    assert(rest.contains(tail[j]));
                    let m = choose|m: int| 0 <= m < rest.len() && rest[m] == tail[j];
                    assert(pairs[m + 1] == rest[m]);
                }
                vstd::seq_lib::lemma_no_dup_in_concat(seq![pairs[0]], tail);
            }
        }
        if threshold >= 0x10000 {
            assert(pairs =~= seq![pairs[0]] + rest);
        }
    } else {
        assert(picked =~= pairs);
    }
}

/// Edges of the Erdős–Rényi graph on `n` vertices: each is an edge `(a, b)`
/// of the complete graph, with `a < b < n`; none occurs twice; there are at
/// most `n (n - 1) / 2`.  Threshold `0` (probability 0) gives no edge, and a
/// threshold of `65536` or more (probability 1) gives the complete graph.
pub proof fn lemma_erdos_renyi_edges(n: nat, threshold: u32)
    requires
        n <= usize::MAX,
    ensures
        forall|k: int|
            0 <= k < erdos_renyi_edges(n, threshold).len() ==> {
                let e = #[trigger] erdos_renyi_edges(n, threshold)[k];
                e.0 < e.1 && e.1 < n
            },
        erdos_renyi_edges(n, threshold).no_duplicates(),
        erdos_renyi_edges(n, threshold).len() <= n * (n - 1) / 2,
        threshold == 0 ==> erdos_renyi_edges(n, threshold).len() == 0,
        threshold >= 0x10000 ==> erdos_renyi_edges(n, threshold) == complete_edges(n),
{
    crate::graph::lemma_complete_edges(n);
    let pairs = complete_edges(n);
    lemma_erdos_renyi_pick(pairs, topology_seed(), threshold);
    let picked = erdos_renyi_edges(n, threshold);
    assert forall|k: int| 0 <= k < picked.len() implies {
        let e = #[trigger] picked[k];
        e.0 < e.1 && e.1 < n
    } by {
        assert(pairs.contains(picked[k]));
        let j = choose|j: int| 0 <= j < pairs.len() && pairs[j] == picked[k];
        assert(pairs[j] == picked[k]);
    }
}

/// The state of the xorshift64 generator after `k` steps from `seed`.
pub open spec fn xorshift_iter(seed: u64, k: nat) -> u64
    decreases k,
{
    if k == 0 {
        seed
    } else {
        xorshift(xorshift_iter(seed, (k - 1) as nat))
    }
}

/// Stepping once and then `k` times is stepping `k + 1` times.
proof fn lemma_xorshift_iter_shift(seed: u64, k: nat)
    ensures
        xorshift_iter(xorshift(seed), k) == xorshift_iter(seed, k + 1),
    decreases k,
{
    reveal_with_fuel(xorshift_iter, 2);
    if k > 0 {
        lemma_xorshift_iter_shift(seed, (k - 1) as nat);
    }
}

/// Among distinct candidate pairs, the `k`-th is picked exactly when the
/// low 16 bits of the generator state after `k + 1` steps are below the
/// threshold.
proof fn lemma_erdos_renyi_pick_draws(pairs: Seq<(usize, usize)>, seed: u64, threshold: u32)
    requires
        pairs.no_duplicates(),
    ensures
        forall|k: int|
            0 <= k < pairs.len() ==> (erdos_renyi_pick(pairs, seed, threshold).contains(
                #[trigger] pairs[k],
            ) <==> xorshift_iter(seed, (k + 1) as nat) % 0x10000 < threshold),
    decreases pairs.len(),
{
    if pairs.len() > 0 {
        let s = xorshift(seed);
        let rest = pairs.drop_first();
        let tail = erdos_renyi_pick(rest, s, threshold);
        let picked = erdos_renyi_pick(pairs, seed, threshold);
        lemma_erdos_renyi_pick_draws(rest, s, threshold);
        lemma_erdos_renyi_pick(rest, s, threshold);
        assert(s & 0xFFFFu64 == s % 0x10000u64) by (bit_vector);
        assert(xorshift_iter(seed, 1) == s) by {
            reveal_with_fuel(xorshift_iter, 2);
        }
        assert forall|k: int| 0 <= k < pairs.len() implies (picked.contains(#[trigger] pairs[k])
            <==> xorshift_iter(seed, (k + 1) as nat) % 0x10000 < threshold) by {
            if k == 0 {
                if (s & 0xFFFFu64) < threshold {
                    assert(picked[0] == pairs[0]);
                } else {
                    if picked.contains(pairs[0]) {
                        let j = choose|j: int| 0 <= j < tail.len() && tail[j] == pairs[0];
                        assert(tail[j] == picked[j]);
                        assert(rest.contains(tail[j]));
                        let m = choose|m: int| 0 <= m < rest.len() && rest[m] == tail[j];
                        assert(pairs[m + 1] == pairs[0]);
                    }
                }
            } else {
                assert(pairs[k] == rest[k - 1]);
                lemma_xorshift_iter_shift(seed, k as nat);
                assert(pairs[k] != pairs[0]);
                if (s & 0xFFFFu64) < threshold {
                    assert(picked == seq![pairs[0]] + tail);
                    if tail.contains(pairs[k]) {
                        let j = choose|j: int| 0 <= j < tail.len() && tail[j] == pairs[k];
                        assert(picked[j + 1] == pairs[k]);
                    }
                    if picked.contains(pairs[k]) {
                        let j = choose|j: int| 0 <= j < picked.len() && picked[j] == pairs[k];
                        assert(j != 0);
                        assert(tail[j - 1] == pairs[k]);
                    }
                }
            }
        }
    }
}

/// What the draws keep of a list in strictly increasing lexicographic order
/// is again in strictly increasing order.
proof fn lemma_erdos_renyi_pick_sorted(pairs: Seq<(usize, usize)>, seed: u64, threshold: u32)
    requires
        edges_sorted(pairs),
    ensures
        edges_sorted(erdos_renyi_pick(pairs, seed, threshold)),
    decreases pairs.len(),
{
    if pairs.len() > 0 {
        let s = xorshift(seed);
        let rest = pairs.drop_first();
        let tail = erdos_renyi_pick(rest, s, threshold);
        let picked = erdos_renyi_pick(pairs, seed, threshold);
        assert(edges_sorted(rest)) by {
            assert forall|i: int, j: int| 0 <= i < j < rest.len() implies edge_before(
                #[trigger] rest[i],
                #[trigger] rest[j],
            ) by {
                assert(rest[i] == pairs[i + 1] && rest[j] == pairs[j + 1]);
            }
        }
        lemma_erdos_renyi_pick_sorted(rest, s, threshold);
        lemma_erdos_renyi_pick(rest, s, threshold);
        if (s & 0xFFFFu64) < threshold {
            assert forall|i: int, j: int| 0 <= i < j < picked.len() implies edge_before(
                #[trigger] picked[i],
                #[trigger] picked[j],
            ) by {
                assert(picked[j] == tail[j - 1]);
                if i == 0 {
                    assert(rest.contains(tail[j - 1]));
                    let m = choose|m: int| 0 <= m < rest.len() && rest[m] == tail[j - 1];
                    assert(pairs[m + 1] == rest[m]);
                    assert(picked[0] == pairs[0]);
                } else {
                    assert(picked[i] == tail[i - 1]);
                }
            }
        }
    }
}

/// The draws of an Erdős–Rényi graph: the generator starts from the seed 42
/// and is stepped once per candidate pair of the complete graph, in the
/// complete graph's order; the `k`-th pair is an edge exactly when the low
/// 16 bits of the state after `k + 1` steps, read as a number in
/// `0..65536`, are below the threshold, so a threshold `t` accepts exactly
/// the `t` draws `0..t` of the 65536 possible ones.  Only such pairs are
/// edges, and they keep the increasing lexicographic order of the complete
/// graph.
pub proof fn lemma_erdos_renyi_draws(n: nat, threshold: u32)
    requires
        n <= usize::MAX,
    ensures
        forall|k: int|
            0 <= k < complete_edges(n).len() ==> (erdos_renyi_edges(n, threshold).contains(
                #[trigger] complete_edges(n)[k],
            ) <==> xorshift_iter(42, (k + 1) as nat) % 0x10000 < threshold),
        forall|e: (usize, usize)|
            #[trigger] erdos_renyi_edges(n, threshold).contains(e) ==> complete_edges(n).contains(e),
        edges_sorted(erdos_renyi_edges(n, threshold)),
{
    crate::graph::lemma_complete_edges(n);
    crate::graph::lemma_complete_edges_sorted(n);
    let pairs = complete_edges(n);
    lemma_erdos_renyi_pick_draws(pairs, 42, threshold);
    lemma_erdos_renyi_pick_sorted(pairs, 42, threshold);
    lemma_erdos_renyi_pick(pairs, 42, threshold);
    let picked = erdos_renyi_edges(n, threshold);
    assert forall|e: (usize, usize)| #[trigger] picked.contains(e) implies pairs.contains(e) by {
        let j = choose|j: int| 0 <= j < picked.len() && picked[j] == e;
        assert(pairs.contains(picked[j]));
    }
}

/// Every topology yields edges `(a, b)` with `a <= b` between vertices of its
/// graph, and no edge twice.
pub proof fn lemma_topology_edges(topo: Topology)
    ensures
        forall|k: int|
            0 <= k < topology_edges(topo).len() ==> {
                let e = #[trigger] topology_edges(topo)[k];
                e.0 <= e.1 && e.1 < topology_vertices(topo)
            },
        topology_edges(topo).no_duplicates(),
{
    match topo {
        Topology::Ring(n) => {
            crate::graph::lemma_ring_edges(n as nat);
        },
        Topology::Complete(n) => {
            crate::graph::lemma_complete_edges(n as nat);
        },
        Topology::Star(n_leaves) => {
            crate::graph::lemma_star_edges(n_leaves as nat);
        },
        Topology::ErdosRenyi(n, threshold) => {
            lemma_erdos_renyi_edges(n as nat, threshold);
        },
    }
}

/// A constant sheaf built on the graph of a topology (as the ring, complete
/// and star constructors do) is well formed, and its stalks add up to the
/// number of vertices times the stalk dimension.
pub proof fn lemma_constant_sheaf_on_topology<S: From<u8>>(sheaf: Sheaf<S>, topo: Topology, dim: nat)
    requires
        sheaf.is_constant_on(topology_vertices(topo), topology_edges(topo), dim),
        dim <= usize::MAX,
    ensures
        sheaf.well_formed(),
        dims_sum(sheaf.stalk_dims@) == topology_vertices(topo) * dim,
{
    lemma_topology_edges(topo);
    crate::sheaf::lemma_constant_sheaf_well_formed(
        sheaf,
        topology_vertices(topo),
        topology_edges(topo),
        dim,
    );
    crate::sheaf::lemma_constant_total_dimension(topology_vertices(topo), dim);
}

/// The states of all agents as sequences.
pub open spec fn states_view<T>(states: Seq<Vec<T>>) -> Seq<Seq<T>> {
    states.map_values(|s: Vec<T>| s@)
}

/// Concatenates the states of the agents, in vertex order, into one vector
/// of the direct sum of the stalks.
pub fn flatten_states<T: Copy>(states: &[Vec<T>]) -> (flat: Vec<T>)
    ensures
        flat@ == states_view(states@).flatten(),
{
    let mut flat: Vec<T> = Vec::new();
    let mut i: usize = 0;
    while i < states.len()
        invariant
            i <= states@.len(),
            flat@ == states_view(states@.take(i as int)).flatten(),
        decreases states.len() - i,
    {
        let s = &states[i];
        let ghost before = flat@;
        let mut k: usize = 0;
        while k < s.len()
            invariant
                k <= s@.len(),
                flat@ == before + s@.take(k as int),
            decreases s.len() - k,
        {
            flat.push(s[k]);
            proof {
                assert(s@.take(k + 1) =~= s@.take(k as int).push(s@[k as int]));
            }
            k += 1;
        }
        proof {
            assert(s@.take(s@.len() as int) =~= s@);
            assert(states_view(states@.take(i + 1)) =~= states_view(states@.take(i as int)).push(
                s@,
            ));
            states_view(states@.take(i as int)).lemma_flatten_push(s@);
        }
        i += 1;
    }
    assert(states@.take(states@.len() as int) =~= states@);
    flat
}

/// Cuts a vector of the direct sum of the stalks into the states of the
/// agents: agent `v` gets the `stalk_dims[v]` entries that start at its
/// offset.
pub fn unflatten_states<T: Copy>(flat: &[T], stalk_dims: &[usize]) -> (states: Vec<Vec<T>>)
    requires
        dims_sum(stalk_dims@) <= flat@.len(),
    ensures
        states@.len() == stalk_dims@.len(),
        forall|v: int|
            0 <= v < stalk_dims@.len() ==> #[trigger] states@[v]@ == flat@.subrange(
                stalk_offset(stalk_dims@, v) as int,
                stalk_offset(stalk_dims@, v) + stalk_dims@[v],
            ),
{
    let flat_len = flat.len();
    let mut states: Vec<Vec<T>> = Vec::new();
    let mut idx: usize = 0;
    let mut v: usize = 0;
    while v < stalk_dims.len()
        invariant
            v <= stalk_dims@.len(),
            flat_len == flat@.len(),
            dims_sum(stalk_dims@) <= flat_len,
            idx == stalk_offset(stalk_dims@, v as int),
            states@.len() == v,
            forall|w: int|
                0 <= w < v ==> #[trigger] states@[w]@ == flat@.subrange(
                    stalk_offset(stalk_dims@, w) as int,
                    stalk_offset(stalk_dims@, w) + stalk_dims@[w],
                ),
        decreases stalk_dims.len() - v,
    {
        let dim = stalk_dims[v];
        proof {
            crate::sheaf::lemma_stalk_offset_step(stalk_dims@, v as int);
            crate::sheaf::lemma_stalk_offset_monotone(stalk_dims@, v + 1, stalk_dims@.len() as int);
            assert(stalk_offset(stalk_dims@, v + 1) == idx + dim);
            assert(idx + dim <= dims_sum(stalk_dims@));
        }
        let mut part: Vec<T> = Vec::new();
        let mut k: usize = 0;
        while k < dim
            invariant
                k <= dim,
                flat_len == flat@.len(),
                idx + dim <= flat_len,
                part@ =~= flat@.subrange(idx as int, idx + k),
            decreases dim - k,
        {
            part.push(flat[idx + k]);
            k += 1;
        }
        states.push(part);
        idx = idx + dim;
        v += 1;
    }
    states
}

/// Flattening the agents' states and cutting the result by the stalk
/// dimensions gives the states back, when each state has the dimension of
/// its stalk; the flat vector has the total dimension.
pub proof fn lemma_unflatten_flatten<T>(parts: Seq<Seq<T>>, dims: Seq<usize>)
    requires
        parts.len() == dims.len(),
        forall|v: int| 0 <= v < dims.len() ==> (#[trigger] parts[v]).len() == dims[v],
    ensures
        parts.flatten().len() == dims_sum(dims),
        forall|v: int|
            0 <= v < dims.len() ==> parts.flatten().subrange(
                stalk_offset(dims, v) as int,
                stalk_offset(dims, v) + dims[v],
            ) == #[trigger] parts[v],
{
    lemma_unflatten_flatten_prefix(parts, dims, parts.len() as int);
    assert(parts.take(parts.len() as int) =~= parts);
    assert(dims.take(dims.len() as int) =~= dims);
}

proof fn lemma_unflatten_flatten_prefix<T>(parts: Seq<Seq<T>>, dims: Seq<usize>, i: int)
    requires
        parts.len() == dims.len(),
        0 <= i <= dims.len(),
        forall|v: int| 0 <= v < dims.len() ==> (#[trigger] parts[v]).len() == dims[v],
    ensures
        parts.take(i).flatten().len() == stalk_offset(dims, i),
        forall|v: int|
            0 <= v < i ==> parts.take(i).flatten().subrange(
                stalk_offset(dims, v) as int,
                stalk_offset(dims, v) + dims[v],
            ) == #[trigger] parts[v],
    decreases i,
{
    if i == 0 {
        assert(parts.take(0) =~= Seq::<Seq<T>>::empty());
        assert(dims.take(0) =~= Seq::<usize>::empty());
    } else {
        lemma_unflatten_flatten_prefix(parts, dims, i - 1);
        let a = parts.take(i - 1).flatten();
        assert(parts.take(i) =~= parts.take(i - 1).push(parts[i - 1]));
        parts.take(i - 1).lemma_flatten_push(parts[i - 1]);
        let f = parts.take(i).flatten();
        assert(f == a + parts[i - 1]);
        crate::sheaf::lemma_stalk_offset_step(dims, i - 1);
        assert forall|v: int| 0 <= v < i implies f.subrange(
            stalk_offset(dims, v) as int,
            stalk_offset(dims, v) + dims[v],
        ) == #[trigger] parts[v] by {
            if v < i - 1 {
                crate::sheaf::lemma_stalk_offset_step(dims, v);
                crate::sheaf::lemma_stalk_offset_monotone(dims, v + 1, i - 1);
                assert(f.subrange(stalk_offset(dims, v) as int, stalk_offset(dims, v) + dims[v])
                    =~= a.subrange(stalk_offset(dims, v) as int, stalk_offset(dims, v) + dims[v]));
            } else {
                assert(f.subrange(stalk_offset(dims, v) as int, stalk_offset(dims, v) + dims[v])
                    =~= parts[v]);
            }
        }
    }
}

} // verus!
