//! Edge lists of the graph families the sheaves and the gossip networks live on.
//!
//! Every edge is an unordered pair written `(a, b)` with `a <= b`; the lists
//! below say exactly which pairs occur and in which order.
use vstd::prelude::*;

verus! {

/// The pairs `(u, b)` with `v <= b < n`, in increasing order of `b`.
pub open spec fn complete_row(u: nat, v: nat, n: nat) -> Seq<(usize, usize)> {
    Seq::new(
        if v <= n { (n - v) as nat } else { 0 },
        |k: int| (u as usize, (v + k) as usize),
    )
}

/// The pairs `(a, b)` with `u <= a < b < n`, ordered by `a` and then by `b`.
pub open spec fn complete_edges_from(u: nat, n: nat) -> Seq<(usize, usize)>
    decreases n - u,
{
    if u >= n {
        Seq::empty()
    } else {
        complete_row(u, u + 1, n) + complete_edges_from(u + 1, n)
    }
}

/// Edges of the complete graph on `n` vertices: every pair `(a, b)` with
/// `a < b < n`, ordered by `a` and then by `b`.
pub open spec fn complete_edges(n: nat) -> Seq<(usize, usize)> {
    complete_edges_from(0, n)
}

/// Edges of the ring on `n` vertices, where vertex `i` is joined to vertex
/// `(i + 1) % n`, each pair listed once, in order of first appearance.
pub open spec fn ring_edges(n: nat) -> Seq<(usize, usize)> {
    if n == 0 {
        Seq::empty()
    } else if n == 1 {
        seq![(0usize, 0usize)]
    } else if n == 2 {
        seq![(0usize, 1usize)]
    } else {
        Seq::new(
            n,
            |i: int|
                if i < n - 1 {
                    (i as usize, (i + 1) as usize)
                } else {
                    (0usize, (n - 1) as usize)
                },
        )
    }
}

/// Edges of the star with hub `0` and leaves `1..=n_leaves`: `(0, v)` for
/// each leaf `v` in increasing order.
pub open spec fn star_edges(n_leaves: nat) -> Seq<(usize, usize)> {
    Seq::new(n_leaves, |i: int| (0usize, (i + 1) as usize))
}

/// Whether edge `a` comes before edge `b` in lexicographic order: by lower
/// endpoint, then by upper endpoint.
pub open spec fn edge_before(a: (usize, usize), b: (usize, usize)) -> bool {
    a.0 < b.0 || (a.0 == b.0 && a.1 < b.1)
}

/// A list of edges in strictly increasing lexicographic order.
pub open spec fn edges_sorted(edges: Seq<(usize, usize)>) -> bool {
    forall|i: int, j: int| 0 <= i < j < edges.len() ==> edge_before(#[trigger] edges[i], #[trigger] edges[j])
}

/// What the ring construction holds after it has looked at vertices `0..i`.
spec fn ring_prefix(i: nat, n: nat) -> Seq<(usize, usize)> {
    if n <= 2 {
        if i == 0 {
            Seq::empty()
        } else {
            ring_edges(n)
        }
    } else {
        ring_edges(n).take(i as int)
    }
}

/// Whether `edges` already holds the pair `e`.
fn has_edge(edges: &Vec<(usize, usize)>, e: (usize, usize)) -> (found: bool)
    ensures
        found == edges@.contains(e),
{
    let mut k: usize = 0;
    while k < edges.len()
        invariant
            k <= edges.len(),
            forall|m: int| 0 <= m < k ==> edges@[m] != e,
        decreases edges.len() - k,
    {
        if edges[k].0 == e.0 && edges[k].1 == e.1 {
            assert(edges@[k as int] == e);
            return true;
        }
        k += 1;
    }
    false
}

/// Builds the edge list of the complete graph on `n` vertices.
pub(crate) fn complete_edge_list(n: usize) -> (edges: Vec<(usize, usize)>)
    ensures
        edges@ == complete_edges(n as nat),
{
    let mut edges: Vec<(usize, usize)> = Vec::new();
    let mut u: usize = 0;
    while u < n
        invariant
            u <= n,
            edges@ + complete_edges_from(u as nat, n as nat) == complete_edges(n as nat),
        decreases n - u,
    {
        let mut v: usize = u + 1;
        while v < n
            invariant
                u < n,
                u + 1 <= v <= n,
                edges@ + complete_row(u as nat, v as nat, n as nat) + complete_edges_from(
                    (u + 1) as nat,
                    n as nat,
                ) == complete_edges(n as nat),
            decreases n - v,
        {
            let ghost row = complete_row(u as nat, v as nat, n as nat);
            let ghost rest = complete_edges_from((u + 1) as nat, n as nat);
            proof {
                let next = complete_row(u as nat, (v + 1) as nat, n as nat);
                assert(row =~= seq![(u, v)] + next);
                assert(edges@.push((u, v)) + next =~= edges@ + row);
            }
            edges.push((u, v));
            v += 1;
        }
        proof {
            assert(complete_row(u as nat, n as nat, n as nat) =~= Seq::empty());
            assert(edges@ + complete_row(u as nat, n as nat, n as nat) =~= edges@);
        }
        u += 1;
    }
    proof {
        assert(complete_edges_from(n as nat, n as nat) =~= Seq::empty());
        assert(edges@ + Seq::<(usize, usize)>::empty() =~= edges@);
    }
    edges
}

/// Builds the edge list of the ring on `n` vertices: each vertex `i` is
/// joined to `(i + 1) % n`, with the endpoints of each pair put in order and
/// a pair that is already present not added again.
pub(crate) fn ring_edge_list(n: usize) -> (edges: Vec<(usize, usize)>)
    ensures
        edges@ == ring_edges(n as nat),
{
    let mut edges: Vec<(usize, usize)> = Vec::new();
    let mut i: usize = 0;
    while i < n
        invariant
            i <= n,
            edges@ == ring_prefix(i as nat, n as nat),
        decreases n - i,
    {
        let j = (i + 1) % n;
        proof {
            if i + 1 < n {
                vstd::arithmetic::div_mod::lemma_small_mod((i + 1) as nat, n as nat);
            } else {
                vstd::arithmetic::div_mod::lemma_mod_self_0(n as int);
            }
        }
        let (a, b) = if i < j {
            (i, j)
        } else {
            (j, i)
        };
        let seen = has_edge(&edges, (a, b));
        proof {
            let ring = ring_edges(n as nat);
            if n <= 2 {
                if i == 0 {
                    assert(!seen);
                } else {
                    assert(n == 2 && i == 1);
                    assert(edges@[0] == (a, b));
                    assert(seen);
                }
            } else {
                assert(ring[i as int] == (a, b));
                assert forall|k: int| 0 <= k < i implies ring.take(i as int)[k] != (a, b) by {
                    assert(ring[k] == (k as usize, (k + 1) as usize));
                }
                assert(!seen);
                assert(ring.take(i as int).push((a, b)) =~= ring.take(i + 1));
            }
        }
        if !seen {
            edges.push((a, b));
        }
        proof {
            if n <= 2 {
                if i == 0 {
                    if n == 1 {
                        assert(edges@ =~= ring_edges(1));
                    } else {
                        assert(edges@ =~= ring_edges(2));
                    }
                }
            }
        }
        i += 1;
    }
    proof {
        if n > 2 {
            assert(ring_edges(n as nat).take(n as int) =~= ring_edges(n as nat));
        }
    }
    edges
}

/// Builds the edge list of the star with hub `0` and `n_leaves` leaves.
pub(crate) fn star_edge_list(n_leaves: usize) -> (edges: Vec<(usize, usize)>)
    ensures
        edges@ == star_edges(n_leaves as nat),
{
    let mut edges: Vec<(usize, usize)> = Vec::new();
    let mut i: usize = 0;
    while i < n_leaves
        invariant
            i <= n_leaves,
            edges@ =~= star_edges(n_leaves as nat).take(i as int),
        decreases n_leaves - i,
    {
        edges.push((0, i + 1));
        i += 1;
    }
    edges
}

/// The rows `u..n` of the complete graph: endpoints in range, no pair twice,
/// every pair present, and `(n - u)(n - u - 1) / 2` pairs in all.
proof fn lemma_complete_edges_from(u: nat, n: nat)
    requires
        u <= n,
        n <= usize::MAX,
    ensures
        forall|k: int|
            0 <= k < complete_edges_from(u, n).len() ==> {
                let e = #[trigger] complete_edges_from(u, n)[k];
                u <= e.0 && e.0 < e.1 && e.1 < n
            },
        complete_edges_from(u, n).no_duplicates(),
        forall|a: nat, b: nat|
            u <= a < b < n ==> #[trigger] complete_edges_from(u, n).contains((a as usize, b as usize)),
        2 * complete_edges_from(u, n).len() == (n - u) * (n - u - 1),
    decreases n - u,
{
    let s = complete_edges_from(u, n);
    if u == n {
        assert(s =~= Seq::empty());
    } else {
        lemma_complete_edges_from(u + 1, n);
        let row = complete_row(u, u + 1, n);
        let rest = complete_edges_from(u + 1, n);
        assert(s == row + rest);
        assert(row.no_duplicates());
        assert forall|i: int, j: int| 0 <= i < row.len() && 0 <= j < rest.len() implies row[i]
            != rest[j] by {
            assert(rest[j].0 >= u + 1);
        }
        vstd::seq_lib::lemma_no_dup_in_concat(row, rest);
        assert forall|k: int| 0 <= k < s.len() implies {
            let e = #[trigger] s[k];
            u <= e.0 && e.0 < e.1 && e.1 < n
        } by {
            if k >= row.len() {
                assert(s[k] == rest[k - row.len()]);
            }
        }
        assert forall|a: nat, b: nat| u <= a < b < n implies #[trigger] s.contains(
            (a as usize, b as usize),
        ) by {
            if a == u {
                let k = b - u - 1;
                assert(s[k] == row[k]);
                assert(s[k] == (a as usize, b as usize));
            } else {
                assert(rest.contains((a as usize, b as usize)));
                let j = choose|j: int| 0 <= j < rest.len() && rest[j] == (a as usize, b as usize);
                assert(s[row.len() + j] == rest[j]);
            }
        }
        let m: int = n - u - 1;
        assert(row.len() == m);
        assert(2 * m + m * (m - 1) == (m + 1) * m) by (nonlinear_arith);
    }
}

/// Edges of the complete graph on `n` vertices: each edge `(a, b)` has
/// `a < b < n`, no pair occurs twice, every such pair occurs, and there are
/// `n (n - 1) / 2` of them.
pub proof fn lemma_complete_edges(n: nat)
    requires
        n <= usize::MAX,
    ensures
        forall|k: int|
            0 <= k < complete_edges(n).len() ==> {
                let e = #[trigger] complete_edges(n)[k];
                e.0 < e.1 && e.1 < n
            },
        complete_edges(n).no_duplicates(),
        forall|a: nat, b: nat| a < b < n ==> #[trigger] complete_edges(n).contains((a as usize, b as usize)),
        complete_edges(n).len() == n * (n - 1) / 2,
{
    lemma_complete_edges_from(0, n);
    let s = complete_edges(n);
    assert forall|a: nat, b: nat| a < b < n implies #[trigger] s.contains((a as usize, b as usize)) by {
        assert(0 <= a < b < n);
    }
}

/// Edges of the ring on `n` vertices: each edge `(a, b)` has `a <= b < n`,
/// with `a < b` once there are two vertices or more; no pair occurs twice;
/// from three vertices on there are exactly `n` edges.
pub proof fn lemma_ring_edges(n: nat)
    requires
        n <= usize::MAX,
    ensures
        forall|k: int|
            0 <= k < ring_edges(n).len() ==> {
                let e = #[trigger] ring_edges(n)[k];
                &&& e.0 <= e.1
                &&& e.1 < n
                &&& n >= 2 ==> e.0 < e.1
            },
        ring_edges(n).no_duplicates(),
        n >= 3 ==> ring_edges(n).len() == n,
        n < 3 ==> ring_edges(n).len() == if n == 0 { 0nat } else { 1nat },
{
    let s = ring_edges(n);
    if n >= 3 {
        assert forall|i: int, j: int| 0 <= i < s.len() && 0 <= j < s.len() && i != j implies s[i]
            != s[j] by {
            if i < n - 1 && j < n - 1 {
            } else if i < n - 1 {
                assert(s[j] == (0usize, (n - 1) as usize));
            } else {
                assert(s[i] == (0usize, (n - 1) as usize));
            }
        }
    }
}

/// Edges of the star with `n_leaves` leaves: each edge is `(0, v)` with
/// `1 <= v <= n_leaves`, no pair occurs twice, and there is one edge per leaf.
pub proof fn lemma_star_edges(n_leaves: nat)
    requires
        n_leaves <= usize::MAX,
    ensures
        forall|k: int|
            0 <= k < star_edges(n_leaves).len() ==> {
                let e = #[trigger] star_edges(n_leaves)[k];
                e.0 == 0 && 1 <= e.1 <= n_leaves
            },
        star_edges(n_leaves).no_duplicates(),
        star_edges(n_leaves).len() == n_leaves,
{
}

/// The rows `u..n` of the complete graph come in strictly increasing
/// lexicographic order.
proof fn lemma_complete_edges_from_sorted(u: nat, n: nat)
    requires
        u <= n,
        n <= usize::MAX,
    ensures
        edges_sorted(complete_edges_from(u, n)),
    decreases n - u,
{
    if u < n {
        lemma_complete_edges_from_sorted(u + 1, n);
        lemma_complete_edges_from(u + 1, n);
        let row = complete_row(u, u + 1, n);
        let rest = complete_edges_from(u + 1, n);
        let s = complete_edges_from(u, n);
        assert(s == row + rest);
        assert forall|i: int, j: int| 0 <= i < j < s.len() implies edge_before(
            #[trigger] s[i],
            #[trigger] s[j],
        ) by {
            if j < row.len() {
            } else if i < row.len() {
                assert(s[j] == rest[j - row.len()]);
                assert(rest[j - row.len()].0 >= u + 1);
            } else {
                assert(s[i] == rest[i - row.len()]);
                assert(s[j] == rest[j - row.len()]);
            }
        }
    }
}

/// The complete graph lists its edges in strictly increasing lexicographic
/// order: `(0, 1), (0, 2), ..., (0, n - 1), (1, 2), ...`.
pub proof fn lemma_complete_edges_sorted(n: nat)
    requires
        n <= usize::MAX,
    ensures
        edges_sorted(complete_edges(n)),
{
    lemma_complete_edges_from_sorted(0, n);
}

/// The link from vertex `i` to its successor `(i + 1) % n` on a ring of `n`
/// vertices, with the smaller endpoint first.
pub open spec fn ring_link(i: int, n: int) -> (usize, usize) {
    let j = (i + 1) % n;
    if i < j {
        (i as usize, j as usize)
    } else {
        (j as usize, i as usize)
    }
}

/// In the ring on `n >= 1` vertices every vertex `i` is joined to its
/// successor `(i + 1) % n`; from three vertices on, the `i`-th edge is the
/// link from `i` to its successor (so, with the length law of
/// [`lemma_ring_edges`], these links are all the edges).
pub proof fn lemma_ring_neighbours(n: nat)
    requires
        1 <= n <= usize::MAX,
    ensures
        forall|i: int| 0 <= i < n ==> #[trigger] ring_edges(n).contains(ring_link(i, n as int)),
        n >= 3 ==> forall|i: int| 0 <= i < n ==> #[trigger] ring_edges(n)[i] == ring_link(i, n as int),
{
    let r = ring_edges(n);
    let ni = n as int;
    assert forall|i: int| 0 <= i < n implies #[trigger] ring_link(i, ni) == (if i + 1 < ni {
        (i as usize, (i + 1) as usize)
    } else {
        (0usize, i as usize)
    }) by {
        if i + 1 < ni {
            vstd::arithmetic::div_mod::lemma_small_mod((i + 1) as nat, n);
        } else {
            vstd::arithmetic::div_mod::lemma_mod_self_0(ni);
        }
    }
    assert forall|i: int| 0 <= i < n implies #[trigger] r.contains(ring_link(i, ni)) by {
        let l = ring_link(i, ni);
        if n >= 3 {
            assert(r[i] == l);
        } else {
            assert(r[0] == l);
        }
    }
    if n >= 3 {
        assert forall|i: int| 0 <= i < n implies #[trigger] r[i] == ring_link(i, ni) by {
            let l = ring_link(i, ni);
        }
    }
}

/// The star lists its edges `(0, 1), (0, 2), ..., (0, n_leaves)`: the `k`-th
/// edge joins the hub to leaf `k + 1`, so they come in increasing order.
pub proof fn lemma_star_edges_order(n_leaves: nat)
    requires
        n_leaves <= usize::MAX,
    ensures
        forall|k: int| 0 <= k < n_leaves ==> #[trigger] star_edges(n_leaves)[k] == (0usize, (k + 1) as usize),
        edges_sorted(star_edges(n_leaves)),
{
}

} // verus!
