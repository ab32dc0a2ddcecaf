//! Counting and indexing on a triangular lattice, as mathematics on `int`.

use vstd::prelude::*;
use crate::lattice_vertex::{LatticeVertex, lattice_point};

verus! {

/// The largest supported subdivision level. Up to this level the
/// `60 * n * n` corners of the polyhedron's faces can be numbered with `u32`.
pub const MAX_SUBDIVISIONS: u32 = 8460;

/// The `k`-th triangular number, `0 + 1 + ... + k`.
pub open spec fn triangular(k: int) -> int {
    k * (k + 1) / 2
}

/// Number of small triangles on a triangle of level `n`.
pub open spec fn triangle_count(n: int) -> int {
    n * n
}

/// Number of lattice points on a triangle of level `n`.
pub open spec fn vertex_count(n: int) -> int {
    (n + 1) * (n + 2) / 2
}

/// Number of small triangles that point the same way as the whole triangle.
pub open spec fn upward_count(n: int) -> int {
    n * (n + 1) / 2
}

/// Number of small triangles that point the other way.
pub open spec fn downward_count(n: int) -> int {
    n * (n - 1) / 2
}

/// Number of lattice edges: three for each upward triangle.
pub open spec fn edge_count(n: int) -> int {
    upward_count(n) * 3
}

/// Position of the point `(x, y, n - x - y)` when the points of level `n` are
/// listed in ascending lexicographic order.
pub open spec fn vertex_index(n: int, x: int, y: int) -> int {
    x * (2 * (n + 1) + 1 - x) / 2 + y
}

/// Position of the first point whose first coordinate is `x`.
pub open spec fn row_start(n: int, x: int) -> int {
    triangular(n + 1) - triangular(n + 1 - x)
}

/// The point at position `i` of level `n`. The first `n + 1` points have
/// `x == 0`; the others are the points of level `n - 1` moved up by one in `x`.
pub open spec fn vertex_at(n: int, i: int) -> LatticeVertex
    decreases n,
{
    if n <= 0 || i <= n {
        lattice_point(n, 0, i)
    } else {
        let below = vertex_at(n - 1, i - n - 1);
        LatticeVertex { x: (below.x + 1) as i32, y: below.y, z: below.z }
    }
}

/// Each triangular number is the one before plus its own number, and twice
/// a triangular number is a product of two neighbours.
pub proof fn lemma_triangular_step(k: int)
    ensures
        triangular(k + 1) == triangular(k) + k + 1,
        2 * triangular(k) == k * (k + 1),
{
    let a = k * (k + 1);
    let b = (k + 1) * (k + 2);
    assert(b == a + 2 * (k + 1)) by (nonlinear_arith)
        requires
            a == k * (k + 1),
            b == (k + 1) * (k + 2),
    ;
    let m = k / 2;
    if k % 2 == 0 {
        assert(a == 2 * (m * (k + 1))) by (nonlinear_arith)
            requires
                a == k * (k + 1),
                k == 2 * m,
        ;
    } else {
        assert(a == 2 * (k * (m + 1))) by (nonlinear_arith)
            requires
                a == k * (k + 1),
                k + 1 == 2 * (m + 1),
        ;
    }
}

/// A triangular number lies between its number and the square of it.
pub proof fn lemma_triangular_bounds(k: int)
    requires
        0 <= k,
    ensures
        0 <= triangular(k),
        k <= triangular(k),
        triangular(k) <= k * k,
    decreases k,
{
    if k > 0 {
        lemma_triangular_bounds(k - 1);
        lemma_triangular_step(k - 1);
        assert(k * k == (k - 1) * (k - 1) + 2 * k - 1) by (nonlinear_arith);
    } else {
        assert(k * k == 0) by (nonlinear_arith)
            requires
                k == 0,
        ;
    }
}

/// Triangular numbers grow, and by at least as much as their numbers.
pub proof fn lemma_triangular_monotonic(a: int, b: int)
    requires
        0 <= a <= b,
    ensures
        triangular(a) <= triangular(b),
        triangular(b) - triangular(a) >= b - a,
    decreases b - a,
{
    if a < b {
        lemma_triangular_monotonic(a, b - 1);
        lemma_triangular_step(b - 1);
    }
}

/// The counts in terms of triangular numbers.
pub proof fn lemma_counts(n: int)
    ensures
        vertex_count(n) == triangular(n + 1),
        upward_count(n) == triangular(n),
        downward_count(n) == triangular(n - 1),
        triangle_count(n) == upward_count(n) + downward_count(n),
        vertex_count(n) == upward_count(n) + n + 1,
{
    lemma_triangular_step(n);
    lemma_triangular_step(n - 1);
    assert((n - 1) * n == n * (n - 1)) by (nonlinear_arith);
    assert(n * n == (n - 1) * n + n) by (nonlinear_arith);
    assert(n * (n + 1) == n * n + n) by (nonlinear_arith);
}

/// The closed form of the index is the start of the row plus the offset in it.
pub proof fn lemma_vertex_index(n: int, x: int, y: int)
    ensures
        vertex_index(n, x, y) == row_start(n, x) + y,
{
    lemma_triangular_step(n + 1);
    lemma_triangular_step(n + 1 - x);
    let p = x * (2 * (n + 1) + 1 - x);
    assert(p == (n + 1) * (n + 2) - (n + 1 - x) * (n + 2 - x)) by (nonlinear_arith)
        requires
            p == x * (2 * (n + 1) + 1 - x),
    ;
}

/// Moving to the next row skips the points of the row.
pub proof fn lemma_row_start_step(n: int, x: int)
    ensures
        row_start(n, x + 1) == row_start(n, x) + (n + 1 - x),
        row_start(n, 0) == 0,
        row_start(n, n + 1) == vertex_count(n),
{
    lemma_triangular_step(n - x);
    lemma_counts(n);
    assert(triangular(0) == 0);
}

/// The rows of level `n` after the first are the rows of level `n - 1`.
pub proof fn lemma_row_start_shift(n: int, x: int)
    ensures
        row_start(n, x + 1) == row_start(n - 1, x) + n + 1,
{
    lemma_triangular_step(n);
}

/// Bounds on the index of a point of the lattice.
pub proof fn lemma_vertex_index_bounds(n: int, x: int, y: int)
    requires
        0 <= x,
        0 <= y,
        x + y <= n,
    ensures
        0 <= row_start(n, x) <= vertex_index(n, x, y) < vertex_count(n),
        vertex_index(n, x, y) < row_start(n, x + 1),
{
    lemma_vertex_index(n, x, y);
    lemma_row_start_step(n, x);
    lemma_triangular_monotonic(n + 1 - x, n + 1);
    lemma_triangular_monotonic(0, n - x);
    lemma_counts(n);
    lemma_triangular_step(n - x);
    assert(triangular(0) == 0);
}

/// `vertex_at` inverts `vertex_index`.
pub proof fn lemma_vertex_at_index(n: int, x: int, y: int)
    requires
        0 <= x,
        0 <= y,
        x + y <= n,
        n <= i32::MAX,
    ensures
        vertex_at(n, vertex_index(n, x, y)) == lattice_point(n, x, y),
    decreases x,
{
    lemma_vertex_index(n, x, y);
    lemma_row_start_step(n, 0);
    if x == 0 {
        assert(row_start(n, 0) == 0);
    } else {
        lemma_vertex_index_bounds(n, x, y);
        lemma_vertex_index(n - 1, x - 1, y);
        lemma_row_start_shift(n, x - 1);
        lemma_vertex_at_index(n - 1, x - 1, y);
        lemma_row_start_step(n, 0);
        lemma_triangular_monotonic(n + 1 - x, n);
        lemma_triangular_step(n);
        assert(vertex_index(n, x, y) > n);
    }
}

/// Every position below the count holds a point of the level, and
/// `vertex_index` inverts `vertex_at`.
pub proof fn lemma_vertex_at(n: int, i: int)
    requires
        0 <= n <= i32::MAX,
        0 <= i < vertex_count(n),
    ensures
        vertex_at(n, i).on_level(n),
        vertex_index(n, vertex_at(n, i).x as int, vertex_at(n, i).y as int) == i,
    decreases n,
{
    lemma_counts(n);
    lemma_triangular_step(n);
    if n <= 0 || i <= n {
        assert(triangular(0) == 0);
        assert(triangular(1) == 1);
        lemma_vertex_index(n, 0, i);
        assert(row_start(n, 0) == 0);
    } else {
        lemma_counts(n - 1);
        lemma_vertex_at(n - 1, i - n - 1);
        let below = vertex_at(n - 1, i - n - 1);
        lemma_vertex_index(n - 1, below.x as int, below.y as int);
        lemma_vertex_index(n, below.x + 1, below.y as int);
        lemma_row_start_shift(n, below.x as int);
    }
}

} // verus!
