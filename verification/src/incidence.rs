//! Which small triangles meet at a lattice point, and which points are
//! joined by the side of a triangle.

use vstd::prelude::*;
use crate::lattice_math::{
    MAX_SUBDIVISIONS, lemma_counts, lemma_row_start_step, lemma_vertex_at,
    lemma_vertex_at_index, lemma_vertex_index, lemma_vertex_index_bounds, triangle_count,
    upward_count, vertex_at, vertex_count, vertex_index,
};
use crate::lattice_model::{
    downward_index, is_lattice_edge, lemma_count_bounds, lemma_triangle_corners,
    lemma_triangle_index_bounds, row_run, triangle_at, upward_index, uv_run, vw_run, wu_run,
};
use crate::lattice_vertex::{LatticeVertex, lattice_point};

verus! {

/// Whether triangle `t` of level `n` has the point with index `i` as a corner.
pub open spec fn touches(n: int, t: int, i: int) -> bool {
    let corners = triangle_at(n, t);
    &&& 0 <= t < triangle_count(n)
    &&& (corners.u == i || corners.v == i || corners.w == i)
}

/// Whether `t` is one of the up to six triangles around the point
/// `(x, y, n - x - y)`: the upward triangles named after the point itself
/// and after its two upper neighbours, and the downward triangles named
/// after the point itself and after its two lower neighbours, as far as they
/// exist.
pub open spec fn is_around(n: int, x: int, y: int, t: int) -> bool {
    let z = n - x - y;
    ||| x >= 1 && t == upward_index(n, x, y)
    ||| y >= 1 && t == upward_index(n, x + 1, y - 1)
    ||| z >= 1 && t == upward_index(n, x + 1, y)
    ||| y >= 1 && z >= 1 && t == downward_index(n, x, y)
    ||| x >= 1 && z >= 1 && t == downward_index(n, x - 1, y + 1)
    ||| x >= 1 && y >= 1 && t == downward_index(n, x - 1, y)
}

/// The triangles that have a point as a corner are the triangles around it.
#[verifier::rlimit(30)]
pub proof fn lemma_touches(n: int, t: int, i: int)
    requires
        1 <= n <= MAX_SUBDIVISIONS,
        0 <= i < vertex_count(n),
    ensures
        touches(n, t, i) <==> is_around(n, vertex_at(n, i).x as int, vertex_at(n, i).y as int, t),
{
    let v = vertex_at(n, i);
    let x = v.x as int;
    let y = v.y as int;
    let z = n - x - y;
    lemma_vertex_at(n, i);
    lemma_counts(n);
    lemma_count_bounds(n);
    if touches(n, t, i) {
        lemma_triangle_corners(n, t);
        let corners = triangle_at(n, t);
        if t < upward_count(n) {
            let p = vertex_at(n, t + n + 1);
            if corners.u == i {
                assert(v == p);
            } else if corners.v == i {
                assert(v == lattice_point(n, p.x - 1, p.y + 1));
            } else {
                assert(v == lattice_point(n, p.x - 1, p.y as int));
            }
        } else {
            let c = vertex_at(n - 2, t - upward_count(n));
            let p = lattice_point(n, c.x as int, c.y + 1);
            if corners.u == i {
                assert(v == p);
            } else if corners.v == i {
                assert(v == lattice_point(n, p.x + 1, p.y - 1));
            } else {
                assert(v == lattice_point(n, p.x + 1, p.y as int));
            }
        }
    }
    if is_around(n, x, y, t) {
        if x >= 1 && t == upward_index(n, x, y) {
            lemma_up(n, x, y);
        } else if y >= 1 && t == upward_index(n, x + 1, y - 1) {
            lemma_up(n, x + 1, y - 1);
        } else if z >= 1 && t == upward_index(n, x + 1, y) {
            lemma_up(n, x + 1, y);
        } else if y >= 1 && z >= 1 && t == downward_index(n, x, y) {
            lemma_down(n, x, y);
        } else if x >= 1 && z >= 1 && t == downward_index(n, x - 1, y + 1) {
            lemma_down(n, x - 1, y + 1);
        } else {
            lemma_down(n, x - 1, y);
        }
    }
}

/// The upward triangle named after `(x, y, n - x - y)`: where it stands and
/// which points are its corners.
pub proof fn lemma_up(n: int, x: int, y: int)
    requires
        1 <= n <= MAX_SUBDIVISIONS,
        1 <= x,
        0 <= y,
        x + y <= n,
    ensures
        0 <= upward_index(n, x, y) < upward_count(n),
        triangle_at(n, upward_index(n, x, y)).u == vertex_index(n, x, y),
        triangle_at(n, upward_index(n, x, y)).v == vertex_index(n, x - 1, y + 1),
        triangle_at(n, upward_index(n, x, y)).w == vertex_index(n, x - 1, y),
{
    lemma_triangle_index_bounds(n, x, y);
    lemma_vertex_at_index(n, x, y);
    lemma_vertex_index_bounds(n, x, y);
    lemma_vertex_index_bounds(n, x - 1, y + 1);
    lemma_vertex_index_bounds(n, x - 1, y);
    lemma_count_bounds(n);
}

/// The downward triangle named after `(x, y, n - x - y)`: where it stands
/// and which points are its corners.
pub proof fn lemma_down(n: int, x: int, y: int)
    requires
        1 <= n <= MAX_SUBDIVISIONS,
        0 <= x,
        1 <= y,
        x + y < n,
    ensures
        upward_count(n) <= downward_index(n, x, y) < triangle_count(n),
        triangle_at(n, downward_index(n, x, y)).u == vertex_index(n, x, y),
        triangle_at(n, downward_index(n, x, y)).v == vertex_index(n, x + 1, y - 1),
        triangle_at(n, downward_index(n, x, y)).w == vertex_index(n, x + 1, y),
{
    lemma_triangle_index_bounds(n, x, y);
    lemma_vertex_at_index(n - 2, x, y - 1);
    lemma_vertex_index_bounds(n, x, y);
    lemma_vertex_index_bounds(n, x + 1, y - 1);
    lemma_vertex_index_bounds(n, x + 1, y);
    lemma_count_bounds(n);
}

/// The three corners of triangle `t` as points.
pub open spec fn corner_points(n: int, t: int) -> (LatticeVertex, LatticeVertex, LatticeVertex) {
    (
        vertex_at(n, triangle_at(n, t).u as int),
        vertex_at(n, triangle_at(n, t).v as int),
        vertex_at(n, triangle_at(n, t).w as int),
    )
}

/// The triangles of row `i` have a side on the line `x == i`, with the
/// third corner on the line `x == i + 1`, and come by ascending `y` of their
/// centres: three times the `y` of the centre grows by one or by two from
/// one triangle to the next.
pub proof fn lemma_row_triangles(n: int, i: int, k: int)
    requires
        1 <= n <= MAX_SUBDIVISIONS,
        0 <= i < n,
        0 <= k < 2 * (n - i) - 1,
    ensures
        row_run(n, i)[k] < triangle_count(n),
        ({
            let (u, v, w) = corner_points(n, row_run(n, i)[k] as int);
            &&& u.on_level(n) && v.on_level(n) && w.on_level(n)
            &&& k % 2 == 0 ==> u.x == i + 1 && v.x == i && w.x == i
            &&& k % 2 == 1 ==> u.x == i && v.x == i + 1 && w.x == i + 1
            &&& u.y + v.y + w.y == 3 * (k / 2) + 1 + k % 2
        }),
{
    lemma_count_bounds(n);
    lemma_counts(n);
    if k % 2 == 0 {
        lemma_up(n, i + 1, k / 2);
        lemma_vertex_at_index(n, i + 1, k / 2);
        lemma_vertex_at_index(n, i, k / 2 + 1);
        lemma_vertex_at_index(n, i, k / 2);
        lemma_vertex_index_bounds(n, i + 1, k / 2);
        lemma_vertex_index_bounds(n, i, k / 2 + 1);
        lemma_vertex_index_bounds(n, i, k / 2);
    } else {
        lemma_down(n, i, k / 2 + 1);
        lemma_vertex_at_index(n, i, k / 2 + 1);
        lemma_vertex_at_index(n, i + 1, k / 2);
        lemma_vertex_at_index(n, i + 1, k / 2 + 1);
        lemma_vertex_index_bounds(n, i, k / 2 + 1);
        lemma_vertex_index_bounds(n, i + 1, k / 2);
        lemma_vertex_index_bounds(n, i + 1, k / 2 + 1);
    }
}

/// Every triangle of the run along side `uv` has a corner on that side.
pub proof fn lemma_uv_triangles(n: int, k: int)
    requires
        1 <= n <= MAX_SUBDIVISIONS,
        0 <= k < 2 * n - 1,
    ensures
        uv_run(n)[k] < triangle_count(n),
        ({
            let (u, v, w) = corner_points(n, uv_run(n)[k] as int);
            u.z == 0 || w.z == 0
        }),
{
    lemma_count_bounds(n);
    let j = k / 2;
    if k % 2 == 0 {
        lemma_up(n, n - j, j);
        lemma_vertex_at_index(n, n - j, j);
        lemma_vertex_index_bounds(n, n - j, j);
    } else {
        lemma_down(n, n - 2 - j, j + 1);
        lemma_vertex_at_index(n, n - 1 - j, j + 1);
        lemma_vertex_index_bounds(n, n - 1 - j, j + 1);
    }
}

/// Every triangle of the run along side `vw` has a corner on that side.
pub proof fn lemma_vw_triangles(n: int, k: int)
    requires
        1 <= n <= MAX_SUBDIVISIONS,
        0 <= k < 2 * n - 1,
    ensures
        vw_run(n)[k] < triangle_count(n),
        ({
            let (u, v, w) = corner_points(n, vw_run(n)[k] as int);
            u.x == 0 || w.x == 0
        }),
{
    lemma_count_bounds(n);
    let j = k / 2;
    if k % 2 == 0 {
        lemma_up(n, 1, n - 1 - j);
        lemma_vertex_at_index(n, 0, n - 1 - j);
        lemma_vertex_index_bounds(n, 0, n - 1 - j);
    } else {
        lemma_down(n, 0, n - 1 - j);
        lemma_vertex_at_index(n, 0, n - 1 - j);
        lemma_vertex_index_bounds(n, 0, n - 1 - j);
    }
}

/// Every triangle of the run along side `wu` has a corner on that side.
pub proof fn lemma_wu_triangles(n: int, k: int)
    requires
        1 <= n <= MAX_SUBDIVISIONS,
        0 <= k < 2 * n - 1,
    ensures
        wu_run(n)[k] < triangle_count(n),
        ({
            let (u, v, w) = corner_points(n, wu_run(n)[k] as int);
            u.y == 0 || v.y == 0
        }),
{
    lemma_count_bounds(n);
    let j = k / 2;
    if k % 2 == 0 {
        lemma_up(n, j + 1, 0);
        lemma_vertex_at_index(n, j + 1, 0);
        lemma_vertex_index_bounds(n, j + 1, 0);
    } else {
        lemma_down(n, j, 1);
        lemma_vertex_at_index(n, j + 1, 0);
        lemma_vertex_index_bounds(n, j + 1, 0);
    }
}

/// The runs along the sides begin and end with the triangles in the two
/// corners of the side.
pub proof fn lemma_side_ends(n: int)
    requires
        1 <= n <= MAX_SUBDIVISIONS,
    ensures
        uv_run(n)[0] == upward_index(n, n, 0),
        uv_run(n)[2 * n - 2] == upward_index(n, 1, n - 1),
        vw_run(n)[0] == upward_index(n, 1, n - 1),
        vw_run(n)[2 * n - 2] == upward_index(n, 1, 0),
        wu_run(n)[0] == upward_index(n, 1, 0),
        wu_run(n)[2 * n - 2] == upward_index(n, n, 0),
{
    lemma_count_bounds(n);
    lemma_up(n, n, 0);
    lemma_up(n, 1, n - 1);
    lemma_up(n, 1, 0);
    assert((2 * n - 2) / 2 == n - 1 && (2 * n - 2) % 2 == 0);
}

/// Whether the points with indices `a` and `b`, `a` the lower one, are two
/// corners of one triangle.
pub open spec fn share_triangle(n: int, a: int, b: int) -> bool {
    &&& 0 <= a < b < vertex_count(n)
    &&& exists|t: int| #[trigger] touches(n, t, a) && touches(n, t, b)
}

/// The lattice edges are the sides of the triangles: two points are joined
/// by a lattice edge if and only if they are corners of one triangle.
pub proof fn lemma_edges_from_triangles(n: int, a: int, b: int)
    requires
        1 <= n <= MAX_SUBDIVISIONS,
    ensures
        is_lattice_edge(n, a, b) <==> share_triangle(n, a, b),
{
    if is_lattice_edge(n, a, b) {
        let p = vertex_at(n, a);
        let q = vertex_at(n, b);
        lemma_vertex_at(n, a);
        lemma_vertex_at(n, b);
        lemma_vertex_index(n, p.x as int, p.y as int);
        lemma_vertex_index(n, q.x as int, q.y as int);
        lemma_vertex_index_bounds(n, p.x as int, p.y as int);
        lemma_vertex_index_bounds(n, q.x as int, q.y as int);
        lemma_row_start_step(n, p.x as int);
        assert(a < b);
        lemma_edges_are_sides(n, a, b);
        assert(touches(n, triangle_on_edge(n, a, b), a));
    }
    if share_triangle(n, a, b) {
        lemma_edges_are_sides(n, a, b);
    }
}

/// The upward triangle that has the lattice edge from `a` to `b` as a side.
pub open spec fn triangle_on_edge(n: int, a: int, b: int) -> int {
    let p = vertex_at(n, a);
    let q = vertex_at(n, b);
    if q.x == p.x {
        upward_index(n, p.x + 1, p.y as int)
    } else {
        upward_index(n, q.x as int, q.y as int)
    }
}

/// Every lattice edge is a side of an upward triangle, and two points that
/// are corners of one triangle are joined by a lattice edge.
#[verifier::rlimit(30)]
pub proof fn lemma_edges_are_sides(n: int, a: int, b: int)
    requires
        1 <= n <= MAX_SUBDIVISIONS,
        0 <= a < b < vertex_count(n),
    ensures
        is_lattice_edge(n, a, b) ==> touches(n, triangle_on_edge(n, a, b), a) && touches(
            n,
            triangle_on_edge(n, a, b),
            b,
        ) && triangle_on_edge(n, a, b) < upward_count(n),
        forall|t: int| touches(n, t, a) && touches(n, t, b) ==> is_lattice_edge(n, a, b),
{
    let p = vertex_at(n, a);
    let q = vertex_at(n, b);
    lemma_vertex_at(n, a);
    lemma_vertex_at(n, b);
    lemma_counts(n);
    lemma_count_bounds(n);
    if is_lattice_edge(n, a, b) {
        if q.x == p.x {
            lemma_up(n, p.x + 1, p.y as int);
        } else {
            lemma_up(n, q.x as int, q.y as int);
        }
    }
    assert forall|t: int| touches(n, t, a) && touches(n, t, b) implies is_lattice_edge(
        n,
        a,
        b,
    ) by {
        lemma_triangle_corners(n, t);
        if t < upward_count(n) {
            let u = vertex_at(n, t + n + 1);
            lemma_vertex_index_bounds(n, u.x as int, u.y as int);
            lemma_vertex_index_bounds(n, u.x - 1, u.y + 1);
            lemma_vertex_index_bounds(n, u.x - 1, u.y as int);
            lemma_vertex_index(n, u.x - 1, u.y + 1);
            lemma_vertex_index(n, u.x - 1, u.y as int);
        } else {
            let c = vertex_at(n - 2, t - upward_count(n));
            let u = lattice_point(n, c.x as int, c.y + 1);
            lemma_vertex_index_bounds(n, u.x as int, u.y as int);
            lemma_vertex_index_bounds(n, u.x + 1, u.y - 1);
            lemma_vertex_index_bounds(n, u.x + 1, u.y as int);
            lemma_vertex_index(n, u.x + 1, u.y - 1);
            lemma_vertex_index(n, u.x + 1, u.y as int);
        }
    }
}

} // verus!
