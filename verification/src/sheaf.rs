//! Cellular sheaves on graphs.
//!
//! A cellular sheaf assigns a vector space (the *stalk*) to each vertex of a
//! graph and a linear *restriction map* to each edge.  The sheaf Laplacian
//! built from these data generalises the ordinary graph Laplacian, and its
//! spectrum governs whether, and how fast, a gossip protocol converges.
//!
//! The entries of the restriction matrices are of a scalar type `S`; the
//! constructors below build identity restrictions out of `S::from(0u8)` and
//! `S::from(1u8)`.
use vstd::prelude::*;

use crate::graph::{
    complete_edge_list, complete_edges, ring_edge_list, ring_edges, star_edge_list, star_edges,
};

verus! {

/// A cellular sheaf on an undirected graph with `n_vertices` vertices.
///
/// * `stalk_dims[v]`: dimension of the stalk at vertex `v`.
/// * `edge_restrictions`: one entry `(u, v, matrix)` per edge, where `matrix`
///   is the restriction map from the stalk at `u` to the stalk at `v`, stored
///   row-major (`stalk_dims[v]` rows of `stalk_dims[u]` entries).  The reverse
///   restriction `v -> u` is its transpose.
#[derive(Debug, Clone)]
pub struct Sheaf<S> {
    pub n_vertices: usize,
    pub stalk_dims: Vec<usize>,
    pub edge_restrictions: Vec<(usize, usize, Vec<Vec<S>>)>,
}

/// The matrix of a restriction map as a sequence of rows.
pub open spec fn matrix_view<S>(m: Vec<Vec<S>>) -> Seq<Seq<S>> {
    m@.map_values(|row: Vec<S>| row@)
}

/// The `dim x dim` matrix with `one` on the diagonal and `zero` elsewhere.
pub open spec fn identity_matrix<S>(dim: nat, zero: S, one: S) -> Seq<Seq<S>> {
    Seq::new(dim, |i: int| Seq::new(dim, |j: int| if i == j { one } else { zero }))
}

/// Sum of a sequence of stalk dimensions.
pub open spec fn dims_sum(dims: Seq<usize>) -> nat
    decreases dims.len(),
{
    if dims.len() == 0 {
        0
    } else {
        dims_sum(dims.drop_last()) + dims.last() as nat
    }
}

/// Position of the stalk of vertex `v` in the direct sum of all stalks:
/// the sum of the dimensions of the stalks before it.
pub open spec fn stalk_offset(dims: Seq<usize>, v: int) -> nat {
    dims_sum(dims.take(v))
}

impl<S> Sheaf<S> {
    /// The edges of the underlying graph, in the order they are stored.
    pub open spec fn edges(&self) -> Seq<(usize, usize)> {
        self.edge_restrictions@.map_values(|e: (usize, usize, Vec<Vec<S>>)| (e.0, e.1))
    }

    /// The restriction matrix of the `k`-th edge.
    pub open spec fn restriction(&self, k: int) -> Seq<Seq<S>> {
        matrix_view(self.edge_restrictions@[k].2)
    }

    /// One stalk dimension per vertex, every edge between two vertices of the
    /// graph, and every restriction `u -> v` a `dim F(v) x dim F(u)` matrix.
    pub open spec fn well_formed(&self) -> bool {
        &&& self.stalk_dims@.len() == self.n_vertices
        &&& forall|k: int|
            0 <= k < self.edge_restrictions@.len() ==> {
                let (u, v, m) = #[trigger] self.edge_restrictions@[k];
                &&& u < self.n_vertices
                &&& v < self.n_vertices
                &&& m@.len() == self.stalk_dims@[v as int]
                &&& forall|r: int| 0 <= r < m@.len() ==> #[trigger] m@[r]@.len() == self.stalk_dims@[u as int]
            }
    }

    /// Every restriction is the `dim x dim` identity built from what
    /// `S::from` gave for `0` and for `1`.
    pub open spec fn identity_restrictions(&self, dim: nat) -> bool where S: From<u8> {
        exists|zero: S, one: S|
            {
                &&& call_ensures(S::from, (0u8,), zero)
                &&& call_ensures(S::from, (1u8,), one)
                &&& forall|k: int|
                    0 <= k < self.edge_restrictions@.len() ==> #[trigger] self.restriction(k)
                        == identity_matrix(dim, zero, one)
            }
    }

    /// A sheaf on the graph with `n` vertices and edge list `edges` whose
    /// stalks all have dimension `dim` and whose restrictions are identities.
    pub open spec fn is_constant_on(&self, n: nat, edges: Seq<(usize, usize)>, dim: nat) -> bool where
        S: From<u8>,
     {
        &&& self.n_vertices == n
        &&& self.stalk_dims@ == Seq::new(n, |v: int| dim as usize)
        &&& self.edges() == edges
        &&& self.identity_restrictions(dim)
    }
}

/// Dimension of the stalk at `vertex`.
pub fn stalk_dimension<S>(sheaf: &Sheaf<S>, vertex: usize) -> (dim: usize)
    requires
        vertex < sheaf.stalk_dims@.len(),
    ensures
        dim == sheaf.stalk_dims@[vertex as int],
{
    sheaf.stalk_dims[vertex]
}

/// Sum of all stalk dimensions (the dimension of the space of 0-cochains,
/// on which the sheaf Laplacian acts).
pub fn total_dimension<S>(sheaf: &Sheaf<S>) -> (total: usize)
    requires
        dims_sum(sheaf.stalk_dims@) <= usize::MAX,
    ensures
        total == dims_sum(sheaf.stalk_dims@),
{
    let dims = &sheaf.stalk_dims;
    let mut total: usize = 0;
    let mut i: usize = 0;
    while i < dims.len()
        invariant
            i <= dims@.len(),
            total == dims_sum(dims@.take(i as int)),
            dims_sum(dims@) <= usize::MAX,
        decreases dims.len() - i,
    {
        proof {
            assert(dims@.take(i + 1).drop_last() =~= dims@.take(i as int));
            lemma_dims_sum_prefix_le(dims@, i + 1);
        }
        total = total + dims[i];
        i += 1;
    }
    assert(dims@.take(dims@.len() as int) =~= dims@);
    total
}

/// The sum of the first `i` dimensions is at most the sum of all of them.
pub proof fn lemma_dims_sum_prefix_le(dims: Seq<usize>, i: int)
    requires
        0 <= i <= dims.len(),
    ensures
        dims_sum(dims.take(i)) <= dims_sum(dims),
    decreases dims.len() - i,
{
    if i < dims.len() {
        lemma_dims_sum_prefix_le(dims, i + 1);
        assert(dims.take(i + 1).drop_last() =~= dims.take(i));
    } else {
        assert(dims.take(i) =~= dims);
    }
}

/// The offset of vertex `v + 1` is that of `v` plus the dimension of its stalk.
pub proof fn lemma_stalk_offset_step(dims: Seq<usize>, v: int)
    requires
        0 <= v < dims.len(),
    ensures
        stalk_offset(dims, v + 1) == stalk_offset(dims, v) + dims[v],
{
    assert(dims.take(v + 1).drop_last() =~= dims.take(v));
}

/// Offsets grow with the vertex index, and none passes the total dimension.
pub proof fn lemma_stalk_offset_monotone(dims: Seq<usize>, a: int, b: int)
    requires
        0 <= a <= b <= dims.len(),
    ensures
        stalk_offset(dims, a) <= stalk_offset(dims, b) <= dims_sum(dims),
    decreases b - a,
{
    if a < b {
        lemma_stalk_offset_monotone(dims, a, b - 1);
        lemma_stalk_offset_step(dims, b - 1);
    }
    lemma_dims_sum_prefix_le(dims, b);
}

/// Builds the `dim x dim` identity matrix out of `zero` and `one`.
fn identity<S: Copy>(dim: usize, zero: S, one: S) -> (m: Vec<Vec<S>>)
    ensures
        matrix_view(m) == identity_matrix(dim as nat, zero, one),
{
    let ghost id = identity_matrix(dim as nat, zero, one);
    let mut m: Vec<Vec<S>> = Vec::new();
    let mut i: usize = 0;
    while i < dim
        invariant
            i <= dim,
            id == identity_matrix(dim as nat, zero, one),
            m@.len() == i,
            forall|k: int| 0 <= k < i ==> #[trigger] m@[k]@ == id[k],
        decreases dim - i,
    {
        let mut row: Vec<S> = Vec::new();
        let mut j: usize = 0;
        while j < dim
            invariant
                i < dim,
                j <= dim,
                id == identity_matrix(dim as nat, zero, one),
                row@ =~= id[i as int].take(j as int),
            decreases dim - j,
        {
            if i == j {
                row.push(one);
            } else {
                row.push(zero);
            }
            j += 1;
        }
        assert(row@ =~= id[i as int]);
        m.push(row);
        i += 1;
    }
    assert(matrix_view(m) =~= id);
    m
}

/// The constant sheaf on `edges`: every stalk of dimension `dim`, every
/// restriction the identity.
fn constant_on_edges<S: From<u8> + Copy>(n_vertices: usize, edges: &Vec<(usize, usize)>, stalk_dim: usize) -> (sheaf: Sheaf<S>)
    ensures
        sheaf.is_constant_on(n_vertices as nat, edges@, stalk_dim as nat),
{
    let zero = S::from(0u8);
    let one = S::from(1u8);
    let mut stalk_dims: Vec<usize> = Vec::new();
    let mut v: usize = 0;
    while v < n_vertices
        invariant
            v <= n_vertices,
            stalk_dims@ =~= Seq::new(v as nat, |w: int| stalk_dim),
        decreases n_vertices - v,
    {
        stalk_dims.push(stalk_dim);
        v += 1;
    }
    let mut restrictions: Vec<(usize, usize, Vec<Vec<S>>)> = Vec::new();
    let mut k: usize = 0;
    while k < edges.len()
        invariant
            k <= edges@.len(),
            restrictions@.len() == k,
            forall|i: int|
                0 <= i < k ==> (#[trigger] restrictions@[i]).0 == edges@[i].0 && restrictions@[i].1
                    == edges@[i].1 && matrix_view(restrictions@[i].2) == identity_matrix(
                    stalk_dim as nat,
                    zero,
                    one,
                ),
        decreases edges.len() - k,
    {
        let (a, b) = edges[k];
        restrictions.push((a, b, identity(stalk_dim, zero, one)));
        k += 1;
    }
    let sheaf = Sheaf { n_vertices, stalk_dims, edge_restrictions: restrictions };
    assert(sheaf.edges() =~= edges@);
    assert(sheaf.stalk_dims@ =~= Seq::new(n_vertices as nat, |w: int| stalk_dim as usize));
    assert forall|i: int| 0 <= i < sheaf.edge_restrictions@.len() implies #[trigger] sheaf.restriction(i)
        == identity_matrix(stalk_dim as nat, zero, one) by {
        assert(sheaf.edge_restrictions@[i] == restrictions@[i]);
    }
    sheaf
}

/// Builds a **constant sheaf** on the complete graph with `n_vertices`
/// vertices: every stalk has dimension `stalk_dim` and every restriction map
/// is the identity matrix.  Its Laplacian is the ordinary graph Laplacian up
/// to a factor of `stalk_dim`.
pub fn constant_sheaf<S: From<u8> + Copy>(n_vertices: usize, stalk_dim: usize) -> (sheaf: Sheaf<S>)
    ensures
        sheaf.is_constant_on(n_vertices as nat, complete_edges(n_vertices as nat), stalk_dim as nat),
{
    let edges = complete_edge_list(n_vertices);
    constant_on_edges(n_vertices, &edges, stalk_dim)
}

/// Builds a **constant sheaf on a ring**: vertex `i` is joined to vertex
/// `(i + 1) % n_vertices`.
pub fn constant_sheaf_ring<S: From<u8> + Copy>(n_vertices: usize, stalk_dim: usize) -> (sheaf: Sheaf<S>)
    ensures
        sheaf.is_constant_on(n_vertices as nat, ring_edges(n_vertices as nat), stalk_dim as nat),
{
    let edges = ring_edge_list(n_vertices);
    constant_on_edges(n_vertices, &edges, stalk_dim)
}

/// Builds a **constant sheaf on a star** whose centre is vertex `0` and whose
/// leaves are the vertices `1..=n_leaves`.
pub fn constant_sheaf_star<S: From<u8> + Copy>(n_leaves: usize, stalk_dim: usize) -> (sheaf: Sheaf<S>)
    requires
        n_leaves < usize::MAX,
    ensures
        sheaf.is_constant_on((n_leaves + 1) as nat, star_edges(n_leaves as nat), stalk_dim as nat),
{
    let edges = star_edge_list(n_leaves);
    constant_on_edges(n_leaves + 1, &edges, stalk_dim)
}

/// Builds a **disagreement sheaf** on the complete graph: one-dimensional
/// stalks and the restriction `[1]` on every edge.  Its Laplacian is the
/// graph Laplacian of the complete graph.
pub fn disagreement_sheaf<S: From<u8> + Copy>(n_vertices: usize) -> (sheaf: Sheaf<S>)
    ensures
        sheaf.is_constant_on(n_vertices as nat, complete_edges(n_vertices as nat), 1),
{
    let edges = complete_edge_list(n_vertices);
    constant_on_edges(n_vertices, &edges, 1)
}

/// Builds a disagreement sheaf on a ring.
pub fn disagreement_sheaf_ring<S: From<u8> + Copy>(n_vertices: usize) -> (sheaf: Sheaf<S>)
    ensures
        sheaf.is_constant_on(n_vertices as nat, ring_edges(n_vertices as nat), 1),
{
    let edges = ring_edge_list(n_vertices);
    constant_on_edges(n_vertices, &edges, 1)
}

/// Builds a sheaf on the given edge list with uniform stalk dimension and
/// identity restrictions.  The edges are taken as given, in order.
pub fn sheaf_from_edges<S: From<u8> + Copy>(n_vertices: usize, edges: &[(usize, usize)], stalk_dim: usize) -> (sheaf: Sheaf<S>)
    ensures
        sheaf.is_constant_on(n_vertices as nat, edges@, stalk_dim as nat),
{
    let mut list: Vec<(usize, usize)> = Vec::new();
    let mut k: usize = 0;
    while k < edges.len()
        invariant
            k <= edges@.len(),
            list@ =~= edges@.take(k as int),
        decreases edges.len() - k,
    {
        list.push(edges[k]);
        k += 1;
    }
    assert(edges@.take(edges@.len() as int) =~= edges@);
    constant_on_edges(n_vertices, &list, stalk_dim)
}

/// A constant sheaf on a graph whose edges all join vertices of the graph is
/// well formed: each restriction is a `dim x dim` matrix between stalks of
/// dimension `dim`.
pub proof fn lemma_constant_sheaf_well_formed<S: From<u8>>(
    sheaf: Sheaf<S>,
    n: nat,
    edges: Seq<(usize, usize)>,
    dim: nat,
)
    requires
        sheaf.is_constant_on(n, edges, dim),
        dim <= usize::MAX,
        forall|k: int| 0 <= k < edges.len() ==> (#[trigger] edges[k]).0 < n && edges[k].1 < n,
    ensures
        sheaf.well_formed(),
{
    let (zero, one) = choose|zero: S, one: S|
        {
            &&& call_ensures(S::from, (0u8,), zero)
            &&& call_ensures(S::from, (1u8,), one)
            &&& forall|k: int|
                0 <= k < sheaf.edge_restrictions@.len() ==> #[trigger] sheaf.restriction(k)
                    == identity_matrix(dim, zero, one)
        };
    assert forall|k: int| 0 <= k < sheaf.edge_restrictions@.len() implies {
        let (u, v, m) = #[trigger] sheaf.edge_restrictions@[k];
        &&& u < sheaf.n_vertices
        &&& v < sheaf.n_vertices
        &&& m@.len() == sheaf.stalk_dims@[v as int]
        &&& forall|r: int| 0 <= r < m@.len() ==> #[trigger] m@[r]@.len() == sheaf.stalk_dims@[u as int]
    } by {
        let (u, v, m) = sheaf.edge_restrictions@[k];
        assert(sheaf.edges()[k] == edges[k]);
        assert(sheaf.restriction(k) == identity_matrix(dim, zero, one));
        assert(matrix_view(m).len() == dim);
        assert forall|r: int| 0 <= r < m@.len() implies #[trigger] m@[r]@.len()
            == sheaf.stalk_dims@[u as int] by {
            assert(matrix_view(m)[r] == m@[r]@);
        }
    }
}

/// The disagreement sheaf on `n` vertices has the graph, the stalks and the
/// restrictions of the constant sheaf with one-dimensional stalks: both are
/// the complete graph with stalks of dimension one and identity restrictions.
pub proof fn lemma_disagreement_is_constant<S: From<u8>>(disagreement: Sheaf<S>, constant: Sheaf<S>, n: nat)
    requires
        disagreement.is_constant_on(n, complete_edges(n), 1),
        constant.is_constant_on(n, complete_edges(n), 1),
    ensures
        disagreement.n_vertices == constant.n_vertices,
        disagreement.stalk_dims@ == constant.stalk_dims@,
        disagreement.edges() == constant.edges(),
        disagreement.edge_restrictions@.len() == constant.edge_restrictions@.len(),
        forall|k: int|
            0 <= k < disagreement.edge_restrictions@.len() ==> {
                let r = #[trigger] disagreement.restriction(k);
                &&& r.len() == 1
                &&& r[0].len() == 1
                &&& call_ensures(S::from, (1u8,), r[0][0])
            },
{
    let (zero, one) = choose|zero: S, one: S|
        {
            &&& call_ensures(S::from, (0u8,), zero)
            &&& call_ensures(S::from, (1u8,), one)
            &&& forall|k: int|
                0 <= k < disagreement.edge_restrictions@.len() ==> #[trigger] disagreement.restriction(k)
                    == identity_matrix(1, zero, one)
        };
    assert(disagreement.edges().len() == constant.edges().len());
    assert forall|k: int| 0 <= k < disagreement.edge_restrictions@.len() implies {
        let r = #[trigger] disagreement.restriction(k);
        &&& r.len() == 1
        &&& r[0].len() == 1
        &&& call_ensures(S::from, (1u8,), r[0][0])
    } by {
        assert(disagreement.restriction(k) == identity_matrix(1, zero, one));
    }
}

/// The identity matrix of dimension `dim` is square of side `dim`, with
/// `one` on its diagonal and `zero` everywhere else.
pub proof fn lemma_identity_matrix<S>(dim: nat, zero: S, one: S)
    ensures
        identity_matrix(dim, zero, one).len() == dim,
        forall|i: int| 0 <= i < dim ==> (#[trigger] identity_matrix(dim, zero, one)[i]).len() == dim,
        forall|i: int| 0 <= i < dim ==> #[trigger] identity_matrix(dim, zero, one)[i][i] == one,
        forall|i: int, j: int|
            0 <= i < dim && 0 <= j < dim && i != j ==> #[trigger] identity_matrix(dim, zero, one)[i][j]
                == zero,
{
}

/// The stalks of a constant sheaf on `n` vertices with stalks of dimension
/// `dim` add up to `n * dim`.
pub proof fn lemma_constant_total_dimension(n: nat, dim: nat)
    requires
        dim <= usize::MAX,
    ensures
        dims_sum(Seq::new(n, |v: int| dim as usize)) == n * dim,
    decreases n,
{
    let s = Seq::new(n, |v: int| dim as usize);
    if n > 0 {
        let t = Seq::new((n - 1) as nat, |v: int| dim as usize);
        lemma_constant_total_dimension((n - 1) as nat, dim);
        assert(dims_sum(t) == (n - 1) * dim);
        assert(s.drop_last() =~= t);
        assert(dims_sum(s) == dims_sum(t) + dim);
        assert((n - 1) * dim + dim == n * dim) by (nonlinear_arith)
            requires n > 0;
    } else {
        assert(n * dim == 0) by (nonlinear_arith)
            requires n == 0;
    }
}

} // verus!
