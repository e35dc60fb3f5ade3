//! The index bookkeeping of the sheaf Laplacian.
//!
//! The sheaf Laplacian `L_F` is a block matrix on the direct sum of the
//! stalks: the block of vertex `v` starts at its stalk offset, and each edge
//! `(u, v)` with restriction `F_uv` touches the blocks `[u,u]`, `[v,v]`,
//! `[u,v]` (with `F_uvᵀ`) and `[v,u]` (with `F_uv`).
use vstd::prelude::*;

use crate::sheaf::{Sheaf, dims_sum, stalk_offset};

verus! {

/// The transpose of a matrix given by its rows: as many rows as the first
/// row has entries, each holding one column of the matrix.  An empty matrix
/// transposes to an empty one.
pub open spec fn transpose_of<T>(m: Seq<Seq<T>>) -> Seq<Seq<T>> {
    if m.len() == 0 {
        Seq::empty()
    } else {
        Seq::new(m[0].len(), |j: int| Seq::new(m.len(), |i: int| m[i][j]))
    }
}

/// The rows of a matrix stored as a vector of rows.
pub open spec fn rows_of<T>(m: Seq<Vec<T>>) -> Seq<Seq<T>> {
    m.map_values(|row: Vec<T>| row@)
}

/// Transposes a matrix given by its rows; every row must be at least as long
/// as the first one.
pub fn transpose<T: Copy>(m: &[Vec<T>]) -> (t: Vec<Vec<T>>)
    requires
        forall|i: int| 0 <= i < m@.len() ==> (#[trigger] m@[i])@.len() >= m@[0]@.len(),
    ensures
        rows_of(t@) == transpose_of(rows_of(m@)),
{
    if m.len() == 0 {
        let t: Vec<Vec<T>> = Vec::new();
        assert(rows_of(t@) =~= transpose_of(rows_of(m@)));
        return t;
    }
    let rows = m.len();
    let cols = m[0].len();
    let ghost target = transpose_of(rows_of(m@));
    let mut t: Vec<Vec<T>> = Vec::new();
    let mut j: usize = 0;
    while j < cols
        invariant
            rows == m@.len(),
            rows > 0,
            cols == m@[0]@.len(),
            j <= cols,
            target == transpose_of(rows_of(m@)),
            forall|i: int| 0 <= i < m@.len() ==> (#[trigger] m@[i])@.len() >= m@[0]@.len(),
            t@.len() == j,
            forall|c: int| 0 <= c < j ==> (#[trigger] t@[c])@ == target[c],
        decreases cols - j,
    {
        let mut column: Vec<T> = Vec::new();
        let mut i: usize = 0;
        while i < rows
            invariant
                rows == m@.len(),
                rows > 0,
                cols == m@[0]@.len(),
                j < cols,
                i <= rows,
                target == transpose_of(rows_of(m@)),
                forall|r: int| 0 <= r < m@.len() ==> (#[trigger] m@[r])@.len() >= m@[0]@.len(),
                column@ =~= target[j as int].take(i as int),
            decreases rows - i,
        {
            assert(m@[i as int]@.len() >= cols);
            column.push(m[i][j]);
            proof {
                assert(rows_of(m@)[i as int] == m@[i as int]@);
            }
            i += 1;
        }
        assert(column@ =~= target[j as int]);
        t.push(column);
        j += 1;
    }
    assert(rows_of(t@) =~= target);
    t
}

/// The transpose of a matrix with `rows > 0` rows, each at least as long as
/// the first (of length `cols`), has `cols` rows of `rows` entries, and its
/// entry `(j, i)` is the entry `(i, j)` of the matrix.
pub proof fn lemma_transpose_entries<T>(m: Seq<Seq<T>>)
    requires
        m.len() > 0,
        forall|i: int| 0 <= i < m.len() ==> (#[trigger] m[i]).len() >= m[0].len(),
    ensures
        transpose_of(m).len() == m[0].len(),
        forall|j: int| 0 <= j < m[0].len() ==> (#[trigger] transpose_of(m)[j]).len() == m.len(),
        forall|i: int, j: int|
            0 <= i < m.len() && 0 <= j < m[0].len() ==> #[trigger] transpose_of(m)[j][i] == m[i][j],
{
}

/// Transposing twice gives back a matrix whose rows all have the same,
/// non-zero length.
pub proof fn lemma_transpose_involution<T>(m: Seq<Seq<T>>)
    requires
        m.len() > 0,
        m[0].len() > 0,
        forall|i: int| 0 <= i < m.len() ==> (#[trigger] m[i]).len() == m[0].len(),
    ensures
        transpose_of(transpose_of(m)) == m,
{
    let t = transpose_of(m);
    assert(t[0].len() == m.len());
    assert forall|i: int| 0 <= i < m.len() implies #[trigger] transpose_of(t)[i] == m[i] by {
        assert(transpose_of(t)[i] =~= m[i]);
    }
    assert(transpose_of(t) =~= m);
}

/// Offset of each vertex's block in the sheaf Laplacian: `0` for vertex `0`,
/// and for each later vertex the offset of the previous one plus the
/// dimension of its stalk.
pub fn stalk_offsets<S>(sheaf: &Sheaf<S>) -> (offsets: Vec<usize>)
    requires
        sheaf.n_vertices <= sheaf.stalk_dims@.len() + 1,
        sheaf.n_vertices > 0 ==> dims_sum(sheaf.stalk_dims@.take(sheaf.n_vertices - 1))
            <= usize::MAX,
    ensures
        offsets@.len() == sheaf.n_vertices,
        forall|v: int|
            0 <= v < sheaf.n_vertices ==> #[trigger] offsets@[v] == stalk_offset(
                sheaf.stalk_dims@,
                v,
            ),
{
    let n = sheaf.n_vertices;
    let dims = &sheaf.stalk_dims;
    let mut offsets: Vec<usize> = Vec::new();
    if n == 0 {
        return offsets;
    }
    offsets.push(0);
    assert(dims@.take(0) =~= Seq::<usize>::empty());
    let mut v: usize = 1;
    while v < n
        invariant
            n == sheaf.n_vertices,
            dims@ == sheaf.stalk_dims@,
            n <= dims@.len() + 1,
            dims_sum(dims@.take(n - 1)) <= usize::MAX,
            1 <= v <= n,
            offsets@.len() == v,
            forall|w: int| 0 <= w < v ==> #[trigger] offsets@[w] == stalk_offset(dims@, w),
        decreases n - v,
    {
        proof {
            crate::sheaf::lemma_stalk_offset_step(dims@, v - 1);
            crate::sheaf::lemma_dims_sum_prefix_le(dims@.take(n - 1), v as int);
            assert(dims@.take(n - 1).take(v as int) =~= dims@.take(v as int));
        }
        let next = offsets[v - 1] + dims[v - 1];
        offsets.push(next);
        v += 1;
    }
    offsets
}

} // verus!
