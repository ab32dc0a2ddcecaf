//! The subdivided triangle as mathematics: which triangles there are, where
//! they stand in the list, and which of them lie along a row or a side.

use vstd::prelude::*;
use crate::lattice_math::{
    MAX_SUBDIVISIONS, downward_count, edge_count, lemma_counts, lemma_row_start_step,
    lemma_triangular_bounds, lemma_triangular_monotonic, lemma_triangular_step, lemma_vertex_at,
    lemma_vertex_at_index, lemma_vertex_index, lemma_vertex_index_bounds, triangle_count,
    triangular, upward_count, vertex_at, vertex_count, vertex_index,
};
use crate::lattice_vertex::{LatticeVertex, lattice_point};
use crate::triangle::Triangle;

verus! {

/// Position of the upward triangle whose `u` corner is `(x, y, n - x - y)`,
/// for `x >= 1`: upward triangles follow the order of their `u` corners.
pub open spec fn upward_index(n: int, x: int, y: int) -> int {
    vertex_index(n, x, y) - (n + 1)
}

/// Position of the downward triangle whose `u` corner is `(x, y, n - x - y)`,
/// for `y >= 1` and `x + y < n`: downward triangles come after all upward
/// ones, in the order of their `u` corners.
pub open spec fn downward_index(n: int, x: int, y: int) -> int {
    upward_count(n) + vertex_index(n - 2, x, y - 1)
}

/// The upward triangle at `v`: corners `v`, `v + (-1, 1, 0)`, `v + (-1, 0, 1)`.
pub open spec fn upward_triangle(n: int, v: LatticeVertex) -> Triangle<usize> {
    Triangle {
        u: vertex_index(n, v.x as int, v.y as int) as usize,
        v: vertex_index(n, v.x - 1, v.y + 1) as usize,
        w: vertex_index(n, v.x - 1, v.y as int) as usize,
    }
}

/// The downward triangle at `v`: corners `v`, `v - (-1, 1, 0)`, `v - (-1, 0, 1)`.
pub open spec fn downward_triangle(n: int, v: LatticeVertex) -> Triangle<usize> {
    Triangle {
        u: vertex_index(n, v.x as int, v.y as int) as usize,
        v: vertex_index(n, v.x + 1, v.y - 1) as usize,
        w: vertex_index(n, v.x + 1, v.y as int) as usize,
    }
}

/// The triangle at position `i` of level `n`.
pub open spec fn triangle_at(n: int, i: int) -> Triangle<usize> {
    if i < upward_count(n) {
        upward_triangle(n, vertex_at(n, i + n + 1))
    } else {
        let c = vertex_at(n - 2, i - upward_count(n));
        downward_triangle(n, lattice_point(n, c.x as int, c.y + 1))
    }
}

/// All points of level `n`, in ascending lexicographic order.
pub open spec fn lattice_vertices(n: int) -> Seq<LatticeVertex> {
    Seq::new(vertex_count(n) as nat, |i: int| vertex_at(n, i))
}

/// All triangles of level `n`, upward ones first.
pub open spec fn lattice_triangles(n: int) -> Seq<Triangle<usize>> {
    Seq::new(triangle_count(n) as nat, |i: int| triangle_at(n, i))
}

/// The triangles with a side on the line `x == i`, by ascending `y` of their
/// centres: upward triangles with `u` at `(i + 1, k)` alternate with downward
/// triangles with `u` at `(i, k + 1)`.
pub open spec fn row_run(n: int, i: int) -> Seq<usize> {
    Seq::new(
        (if 0 <= i < n {
            2 * (n - i) - 1
        } else {
            0
        }) as nat,
        |k: int|
            if k % 2 == 0 {
                upward_index(n, i + 1, k / 2) as usize
            } else {
                downward_index(n, i, k / 2 + 1) as usize
            },
    )
}

/// The triangles that touch the side `z == 0`, from corner `u` to corner `v`.
pub open spec fn uv_run(n: int) -> Seq<usize> {
    Seq::new(
        (2 * n - 1) as nat,
        |k: int|
            if k % 2 == 0 {
                upward_index(n, n - k / 2, k / 2) as usize
            } else {
                downward_index(n, n - 2 - k / 2, k / 2 + 1) as usize
            },
    )
}

/// The triangles that touch the side `x == 0`, from corner `v` to corner `w`.
pub open spec fn vw_run(n: int) -> Seq<usize> {
    Seq::new(
        (2 * n - 1) as nat,
        |k: int|
            if k % 2 == 0 {
                upward_index(n, 1, n - 1 - k / 2) as usize
            } else {
                downward_index(n, 0, n - 1 - k / 2) as usize
            },
    )
}

/// The triangles that touch the side `y == 0`, from corner `w` to corner `u`.
pub open spec fn wu_run(n: int) -> Seq<usize> {
    Seq::new(
        (2 * n - 1) as nat,
        |k: int|
            if k % 2 == 0 {
                upward_index(n, k / 2 + 1, 0) as usize
            } else {
                downward_index(n, k / 2, 1) as usize
            },
    )
}

/// Position of an inner point among the inner points of level `n`: its index
/// on the triangle of level `n - 3` that the inner points form.
pub open spec fn interior_index(n: int, x: int, y: int) -> int {
    vertex_index(n - 3, x - 1, y - 1)
}

/// Whether the points with indices `a` and `b` are joined by a side of a
/// small triangle, `a` being the one that comes first in the list of points.
pub open spec fn is_lattice_edge(n: int, a: int, b: int) -> bool {
    let p = vertex_at(n, a);
    let q = vertex_at(n, b);
    &&& 0 <= a < vertex_count(n)
    &&& 0 <= b < vertex_count(n)
    &&& {
        ||| q.x == p.x && q.y == p.y + 1
        ||| q.x == p.x + 1 && q.y == p.y
        ||| q.x == p.x + 1 && q.y == p.y - 1
    }
}

/// What a subdivided triangle holds: its level, its points and its triangles.
pub struct SubdivisionView {
    pub level: int,
    pub vertices: Seq<LatticeVertex>,
    pub triangles: Seq<Triangle<usize>>,
}

/// The subdivided triangle of level `n`.
pub open spec fn subdivision(n: int) -> SubdivisionView {
    SubdivisionView { level: n, vertices: lattice_vertices(n), triangles: lattice_triangles(n) }
}

/// The counts of a supported level fit every integer type used here.
pub proof fn lemma_count_bounds(n: int)
    requires
        0 <= n <= MAX_SUBDIVISIONS,
    ensures
        0 <= upward_count(n) <= triangle_count(n) <= 71571600,
        0 <= downward_count(n) <= triangle_count(n),
        n <= vertex_count(n) <= 35798491,
        edge_count(n) <= 107370090,
{
    lemma_counts(n);
    lemma_triangular_bounds(n);
    lemma_triangular_monotonic(n, 8460);
    lemma_triangular_monotonic(n + 1, 8461);
    lemma_triangular_bounds(n + 1);
    if n > 0 {
        lemma_triangular_bounds(n - 1);
    } else {
        assert(n * (n - 1) == 0) by (nonlinear_arith)
            requires
                n == 0,
        ;
    }
    assert(n * n <= 8460 * 8460) by (nonlinear_arith)
        requires
            0 <= n <= 8460,
    ;
    assert(triangular(8460) == 35790030);
    assert(triangular(8461) == 35798491);
}

/// Where the upward triangles of a row start, by triangular numbers.
pub proof fn lemma_upward_index(n: int, x: int, y: int)
    ensures
        upward_index(n, x, y) == upward_count(n) - triangular(n + 1 - x) + y,
{
    lemma_vertex_index(n, x, y);
    lemma_counts(n);
    lemma_triangular_step(n);
}

/// Where the downward triangles of a row start, by triangular numbers.
pub proof fn lemma_downward_index(n: int, x: int, y: int)
    ensures
        downward_index(n, x, y) == triangle_count(n) - triangular(n - 1 - x) + y - 1,
{
    lemma_vertex_index(n - 2, x, y - 1);
    lemma_counts(n);
}

/// Upward triangles fill the positions below `upward_count`, downward ones
/// the positions from there to `triangle_count`.
pub proof fn lemma_triangle_index_bounds(n: int, x: int, y: int)
    requires
        0 <= x,
        0 <= y,
        x + y <= n,
    ensures
        x >= 1 ==> 0 <= upward_index(n, x, y) < upward_count(n),
        y >= 1 && x + y < n ==> upward_count(n) <= downward_index(n, x, y) < triangle_count(n),
{
    lemma_counts(n);
    if x >= 1 {
        lemma_vertex_index_bounds(n, x, y);
        lemma_vertex_index(n, x, y);
        lemma_row_start_step(n, 0);
        lemma_triangular_monotonic(n + 1 - x, n);
        lemma_triangular_step(n);
    }
    if y >= 1 && x + y < n {
        lemma_vertex_index_bounds(n - 2, x, y - 1);
        lemma_counts(n - 2);
        lemma_triangular_step(n - 1);
    }
}

/// The corners of every triangle are points of the lattice: the `u` corner
/// is the point the triangle is named after, and the other two are its
/// neighbours in the next row, below for an upward triangle and above for a
/// downward one.
pub proof fn lemma_triangle_corners(n: int, i: int)
    requires
        1 <= n <= MAX_SUBDIVISIONS,
        0 <= i < triangle_count(n),
    ensures
        triangle_at(n, i).u < vertex_count(n),
        triangle_at(n, i).v < vertex_count(n),
        triangle_at(n, i).w < vertex_count(n),
        i < upward_count(n) ==> {
            let p = vertex_at(n, i + n + 1);
            &&& p.on_level(n)
            &&& p.x >= 1
            &&& i == upward_index(n, p.x as int, p.y as int)
            &&& vertex_at(n, triangle_at(n, i).u as int) == p
            &&& vertex_at(n, triangle_at(n, i).v as int) == lattice_point(n, p.x - 1, p.y + 1)
            &&& vertex_at(n, triangle_at(n, i).w as int) == lattice_point(n, p.x - 1, p.y as int)
        },
        i >= upward_count(n) ==> {
            let c = vertex_at(n - 2, i - upward_count(n));
            let p = lattice_point(n, c.x as int, c.y + 1);
            &&& c.on_level(n - 2)
            &&& p.on_level(n)
            &&& p.y >= 1
            &&& p.z >= 1
            &&& i == downward_index(n, p.x as int, p.y as int)
            &&& vertex_at(n, triangle_at(n, i).u as int) == p
            &&& vertex_at(n, triangle_at(n, i).v as int) == lattice_point(n, p.x + 1, p.y - 1)
            &&& vertex_at(n, triangle_at(n, i).w as int) == lattice_point(n, p.x + 1, p.y as int)
        },
{
    lemma_counts(n);
    lemma_count_bounds(n);
    if i < upward_count(n) {
        lemma_vertex_at(n, i + n + 1);
        let p = vertex_at(n, i + n + 1);
        if p.x == 0 {
            lemma_vertex_index(n, 0, p.y as int);
            lemma_row_start_step(n, 0);
        }
        lemma_vertex_index_bounds(n, p.x as int, p.y as int);
        lemma_vertex_index_bounds(n, p.x - 1, p.y + 1);
        lemma_vertex_index_bounds(n, p.x - 1, p.y as int);
        lemma_vertex_at_index(n, p.x as int, p.y as int);
        lemma_vertex_at_index(n, p.x - 1, p.y + 1);
        lemma_vertex_at_index(n, p.x - 1, p.y as int);
    } else {
        assert(n >= 2) by {
            if n == 1 {
                assert(n * n == 1 && n * (n + 1) == 2) by (nonlinear_arith)
                    requires
                        n == 1,
                ;
            }
        }
        lemma_counts(n - 2);
        lemma_vertex_at(n - 2, i - upward_count(n));
        let c = vertex_at(n - 2, i - upward_count(n));
        let p = lattice_point(n, c.x as int, c.y + 1);
        lemma_vertex_index_bounds(n, p.x as int, p.y as int);
        lemma_vertex_index_bounds(n, p.x + 1, p.y - 1);
        lemma_vertex_index_bounds(n, p.x + 1, p.y as int);
        lemma_vertex_at_index(n, p.x as int, p.y as int);
        lemma_vertex_at_index(n, p.x + 1, p.y - 1);
        lemma_vertex_at_index(n, p.x + 1, p.y as int);
    }
}

} // verus!
