//! The numbering of the faces agrees with the faces themselves: the face
//! that a lattice point of a seed face is numbered with is made of the
//! triangles around that point.

use vstd::prelude::*;
use vstd::arithmetic::div_mod::lemma_fundamental_div_mod_converse;
use crate::incidence::{is_around, lemma_edges_are_sides, lemma_touches, touches, triangle_on_edge};
use crate::lattice_math::{
    MAX_SUBDIVISIONS, lemma_counts, lemma_row_start_step, lemma_triangular_step,
    lemma_vertex_at, lemma_vertex_at_index, lemma_vertex_index, lemma_vertex_index_bounds,
    triangle_count, triangular, vertex_at, vertex_count, vertex_index,
};
use crate::lattice_model::{
    downward_index, is_lattice_edge, lemma_count_bounds, lemma_triangle_index_bounds,
    upward_index, uv_run, vw_run, wu_run,
};
use crate::lattice_vertex::{LatticeVertex, lattice_point};
use crate::polyhedron::{
    band, corner_u, corner_v, corner_w, edge_face, edge_faces, edge_first_face, edge_first_run,
    edge_second_face, edge_second_run, face_count, face_face, face_faces, face_index, face_list,
    faces_meet, faces_per_face, interior_face, is_adjacent, joined_faces, lemma_face_counts,
    lemma_face_index_bound, vertex_face, vertex_faces,
};

verus! {

/// What it means for a list of five to hold an entry.
pub proof fn lemma_contains_five(s: Seq<(int, int)>, p: (int, int))
    requires
        s.len() == 5,
    ensures
        s.contains(p) <==> (p == s[0] || p == s[1] || p == s[2] || p == s[3] || p == s[4]),
{
    if s.contains(p) {
        let i = choose|i: int| 0 <= i < s.len() && s[i] == p;
    }
}

/// What it means for a list of six to hold an entry.
pub proof fn lemma_contains_six(s: Seq<(int, int)>, p: (int, int))
    requires
        s.len() == 6,
    ensures
        s.contains(p) <==> (p == s[0] || p == s[1] || p == s[2] || p == s[3] || p == s[4] || p
            == s[5]),
{
    if s.contains(p) {
        let i = choose|i: int| 0 <= i < s.len() && s[i] == p;
    }
}

/// Three consecutive triangles of the run along side `uv`, beginning at an
/// even place, are the triangles around a point of that side.
pub proof fn lemma_uv_window(n: int, k: int)
    requires
        1 <= n <= MAX_SUBDIVISIONS,
        0 <= k <= n - 2,
    ensures
        uv_run(n)[2 * k] == upward_index(n, n - k, k),
        uv_run(n)[2 * k + 1] == downward_index(n, n - 2 - k, k + 1),
        uv_run(n)[2 * k + 2] == upward_index(n, n - k - 1, k + 1),
{
    lemma_count_bounds(n);
    lemma_triangle_index_bounds(n, n - k, k);
    lemma_triangle_index_bounds(n, n - 2 - k, k + 1);
    lemma_triangle_index_bounds(n, n - k - 1, k + 1);
    assert((2 * k) / 2 == k && (2 * k) % 2 == 0);
    assert((2 * k + 1) / 2 == k && (2 * k + 1) % 2 == 1);
    assert((2 * k + 2) / 2 == k + 1 && (2 * k + 2) % 2 == 0);
}

/// Three consecutive triangles of the run along side `vw`, beginning at an
/// even place, are the triangles around a point of that side.
pub proof fn lemma_vw_window(n: int, k: int)
    requires
        1 <= n <= MAX_SUBDIVISIONS,
        0 <= k <= n - 2,
    ensures
        vw_run(n)[2 * k] == upward_index(n, 1, n - 1 - k),
        vw_run(n)[2 * k + 1] == downward_index(n, 0, n - 1 - k),
        vw_run(n)[2 * k + 2] == upward_index(n, 1, n - 2 - k),
{
    lemma_count_bounds(n);
    lemma_triangle_index_bounds(n, 1, n - 1 - k);
    lemma_triangle_index_bounds(n, 0, n - 1 - k);
    lemma_triangle_index_bounds(n, 1, n - 2 - k);
    assert((2 * k) / 2 == k && (2 * k) % 2 == 0);
    assert((2 * k + 1) / 2 == k && (2 * k + 1) % 2 == 1);
    assert((2 * k + 2) / 2 == k + 1 && (2 * k + 2) % 2 == 0);
}

/// Three consecutive triangles of the run along side `wu`, beginning at an
/// even place, are the triangles around a point of that side.
pub proof fn lemma_wu_window(n: int, k: int)
    requires
        1 <= n <= MAX_SUBDIVISIONS,
        0 <= k <= n - 2,
    ensures
        wu_run(n)[2 * k] == upward_index(n, k + 1, 0),
        wu_run(n)[2 * k + 1] == downward_index(n, k, 1),
        wu_run(n)[2 * k + 2] == upward_index(n, k + 2, 0),
{
    lemma_count_bounds(n);
    lemma_triangle_index_bounds(n, k + 1, 0);
    lemma_triangle_index_bounds(n, k, 1);
    lemma_triangle_index_bounds(n, k + 2, 0);
    assert((2 * k) / 2 == k && (2 * k) % 2 == 0);
    assert((2 * k + 1) / 2 == k && (2 * k + 1) % 2 == 1);
    assert((2 * k + 2) / 2 == k + 1 && (2 * k + 2) % 2 == 0);
}

/// Where the hexagon at place `k` of edge `e` stands in the list of faces.
pub proof fn lemma_edge_face_at(n: int, e: int, k: int)
    requires
        1 <= n <= MAX_SUBDIVISIONS,
        0 <= e < 30,
        0 <= k < n - 1,
    ensures
        12 <= 12 + e * (n - 1) + k < 12 + 30 * (n - 1),
        face_list(n)[12 + e * (n - 1) + k] == edge_face(n, e, k),
{
    let d = n - 1;
    lemma_fundamental_div_mod_converse(e * d + k, d, e, k);
    assert(0 <= e * d && e * d + d <= 30 * d) by (nonlinear_arith)
        requires
            0 <= e < 30,
            0 <= d,
    ;
    lemma_face_counts(n);
    assert(face_list(n)[12 + e * d + k] == edge_faces(n)[e * d + k]);
}

/// Where the hexagon around the inner point `(x, y, n - x - y)` of seed face
/// `f` stands in the list of faces.
pub proof fn lemma_face_face_at(n: int, f: int, x: int, y: int)
    requires
        1 <= n <= MAX_SUBDIVISIONS,
        0 <= f < 20,
        1 <= x,
        1 <= y,
        x + y < n,
    ensures
        face_index(n, f, lattice_point(n, x, y)) == 12 + 30 * (n - 1) + f
            * faces_per_face(n) + vertex_index(n - 3, x - 1, y - 1),
        face_list(n)[face_index(n, f, lattice_point(n, x, y))]
            == interior_face(n, f, x, y),
{
    let q = faces_per_face(n);
    let m = vertex_index(n - 3, x - 1, y - 1);
    lemma_face_counts(n);
    lemma_counts(n - 3);
    lemma_vertex_index_bounds(n - 3, x - 1, y - 1);
    lemma_vertex_at_index(n - 3, x - 1, y - 1);
    lemma_fundamental_div_mod_converse(f * q + m, q, f, m);
    assert(0 <= f * q && f * q + q <= 20 * q) by (nonlinear_arith)
        requires
            0 <= f < 20,
            0 <= q,
    ;
    let i = 12 + 30 * (n - 1) + f * q + m;
    assert(face_list(n)[i] == face_faces(n)[f * q + m]);
    assert(face_face(n, f * q + m) == interior_face(n, f, x, y));
}

/// The hexagon of an inner point is made of the six triangles around it.
pub proof fn lemma_inner_point(n: int, f: int, i: int, t: int)
    requires
        1 <= n <= MAX_SUBDIVISIONS,
        0 <= f < 20,
        0 <= i < vertex_count(n),
        vertex_at(n, i).is_interior(),
    ensures
        face_list(n)[face_index(n, f, vertex_at(n, i))].contains((f, t)) <==> is_around(
            n,
            vertex_at(n, i).x as int,
            vertex_at(n, i).y as int,
            t,
        ),
{
    let v = vertex_at(n, i);
    lemma_vertex_at(n, i);
    lemma_face_face_at(n, f, v.x as int, v.y as int);
    assert(v == lattice_point(n, v.x as int, v.y as int));
    lemma_contains_six(interior_face(n, f, v.x as int, v.y as int), (f, t));
}

/// The pentagon of a corner point holds, for the seed face the point is
/// taken on, the one triangle in that corner.
pub proof fn lemma_corner_point(n: int, f: int, i: int, t: int)
    requires
        1 <= n <= MAX_SUBDIVISIONS,
        0 <= f < 20,
        0 <= i < vertex_count(n),
        vertex_at(n, i).is_corner(),
    ensures
        face_list(n)[face_index(n, f, vertex_at(n, i))].contains((f, t)) <==> is_around(
            n,
            vertex_at(n, i).x as int,
            vertex_at(n, i).y as int,
            t,
        ),
{
    let v = vertex_at(n, i);
    lemma_vertex_at(n, i);
    lemma_face_index_bound(n, f, v);
    lemma_face_counts(n);
    let index = face_index(n, f, v);
    assert(face_list(n)[index] == vertex_faces(n)[index]);
    let face = vertex_face(n, index);
    lemma_contains_five(face, (f, t));
    lemma_triangle_index_bounds(n, n, 0);
    lemma_triangle_index_bounds(n, 1, n - 1);
    lemma_triangle_index_bounds(n, 1, 0);
    let j = f % 5;
    if v.y == 0 && v.z == 0 {
        assert(face.contains((f, t)) <==> t == corner_u(n));
    } else if v.x == 0 && v.z == 0 {
        assert(face.contains((f, t)) <==> t == corner_v(n));
    } else {
        assert(face.contains((f, t)) <==> t == corner_w(n));
    }
}

/// The run of triangles along the edges of group `g`, on the first or the
/// second side.
pub open spec fn edge_run(n: int, g: int, first: bool) -> Seq<usize> {
    if first {
        edge_first_run(n, g)
    } else {
        edge_second_run(n, g)
    }
}

/// The window of the run that the hexagon at place `k` takes its three
/// triangles from: on the second side the run is walked backwards.
pub open spec fn window_of(n: int, k: int, first: bool) -> int {
    if first {
        k
    } else {
        n - 2 - k
    }
}

/// A hexagon on an edge holds, for the seed face on either side of the
/// edge, the three triangles of one window of that side's run.
pub proof fn lemma_edge_face_side(n: int, e: int, k: int, f: int, first: bool, t: int)
    requires
        1 <= n <= MAX_SUBDIVISIONS,
        0 <= e < 30,
        0 <= k < n - 1,
        first ==> edge_first_face(e / 5, e % 5) == f,
        !first ==> edge_second_face(e / 5, e % 5) == f,
    ensures
        edge_face(n, e, k).contains((f, t)) <==> {
            let run = edge_run(n, e / 5, first);
            let w = window_of(n, k, first);
            t == run[2 * w] || t == run[2 * w + 1] || t == run[2 * w + 2]
        },
{
    let face = edge_face(n, e, k);
    lemma_contains_six(face, (f, t));
    assert(edge_first_face(e / 5, e % 5) != edge_second_face(e / 5, e % 5));
}

/// The triangles around a point of side `uv` are a window of that side's run.
pub proof fn lemma_uv_around(n: int, x: int, t: int)
    requires
        1 <= n <= MAX_SUBDIVISIONS,
        1 <= x <= n - 1,
    ensures
        is_around(n, x, n - x, t) <==> {
            let w = n - 1 - x;
            t == uv_run(n)[2 * w] || t == uv_run(n)[2 * w + 1] || t == uv_run(n)[2 * w + 2]
        },
{
    lemma_uv_window(n, n - 1 - x);
}

/// The triangles around a point of side `vw` are a window of that side's run.
pub proof fn lemma_vw_around(n: int, y: int, t: int)
    requires
        1 <= n <= MAX_SUBDIVISIONS,
        1 <= y <= n - 1,
    ensures
        is_around(n, 0, y, t) <==> {
            let w = n - 1 - y;
            t == vw_run(n)[2 * w] || t == vw_run(n)[2 * w + 1] || t == vw_run(n)[2 * w + 2]
        },
{
    lemma_vw_window(n, n - 1 - y);
}

/// The triangles around a point of side `wu` are a window of that side's run.
pub proof fn lemma_wu_around(n: int, x: int, t: int)
    requires
        1 <= n <= MAX_SUBDIVISIONS,
        1 <= x <= n - 1,
    ensures
        is_around(n, x, 0, t) <==> {
            let w = x - 1;
            t == wu_run(n)[2 * w] || t == wu_run(n)[2 * w + 1] || t == wu_run(n)[2 * w + 2]
        },
{
    lemma_wu_window(n, x - 1);
}

/// The hexagon of a point on side `uv` of the seed face holds, for that
/// seed face, the three triangles around the point.
#[verifier::rlimit(30)]
pub proof fn lemma_uv_point(n: int, f: int, x: int, t: int)
    requires
        1 <= n <= MAX_SUBDIVISIONS,
        0 <= f < 20,
        1 <= x <= n - 1,
    ensures
        face_list(n)[face_index(n, f, lattice_point(n, x, n - x))].contains(
            (f, t),
        ) <==> is_around(n, x, n - x, t),
{
    let v = lattice_point(n, x, n - x);
    let y = n - x;
    let ring = band(f);
    let e: int = if ring == 0 {
        (f + 4) % 5
    } else if ring == 1 {
        10 + f % 5
    } else if ring == 2 {
        10 + f % 5
    } else {
        25 + f % 5
    };
    let first = ring == 1 || ring == 3;
    let k = if first {
        y - 1
    } else {
        x - 1
    };
    assert(face_index(n, f, v) == 12 + e * (n - 1) + k);
    lemma_edge_face_at(n, e, k);
    lemma_edge_face_side(n, e, k, f, first, t);
    lemma_uv_around(n, x, t);
    assert(edge_run(n, e / 5, first) == uv_run(n));
    assert(window_of(n, k, first) == n - 1 - x);
}

/// The hexagon of a point on side `vw` of the seed face holds, for that
/// seed face, the three triangles around the point.
#[verifier::rlimit(30)]
pub proof fn lemma_vw_point(n: int, f: int, y: int, t: int)
    requires
        1 <= n <= MAX_SUBDIVISIONS,
        0 <= f < 20,
        1 <= y <= n - 1,
    ensures
        face_list(n)[face_index(n, f, lattice_point(n, 0, y))].contains(
            (f, t),
        ) <==> is_around(n, 0, y, t),
{
    let v = lattice_point(n, 0, y);
    let z = n - y;
    let ring = band(f);
    let e: int = if ring == 0 {
        5 + f
    } else if ring == 1 {
        5 + f % 5
    } else if ring == 2 {
        20 + f % 5
    } else {
        20 + f % 5
    };
    let first = ring == 0 || ring == 2;
    let k = if first {
        z - 1
    } else {
        y - 1
    };
    assert(face_index(n, f, v) == 12 + e * (n - 1) + k);
    lemma_edge_face_at(n, e, k);
    lemma_edge_face_side(n, e, k, f, first, t);
    lemma_vw_around(n, y, t);
    assert(edge_run(n, e / 5, first) == vw_run(n));
    assert(window_of(n, k, first) == n - 1 - y);
}

/// The hexagon of a point on side `wu` of the seed face holds, for that
/// seed face, the three triangles around the point.
#[verifier::rlimit(30)]
pub proof fn lemma_wu_point(n: int, f: int, x: int, t: int)
    requires
        1 <= n <= MAX_SUBDIVISIONS,
        0 <= f < 20,
        1 <= x <= n - 1,
    ensures
        face_list(n)[face_index(n, f, lattice_point(n, x, 0))].contains(
            (f, t),
        ) <==> is_around(n, x, 0, t),
{
    let v = lattice_point(n, x, 0);
    let z = n - x;
    let ring = band(f);
    let e: int = if ring == 0 {
        f
    } else if ring == 1 {
        15 + (f + 4) % 5
    } else if ring == 2 {
        15 + f % 5
    } else {
        25 + (f + 4) % 5
    };
    let first = ring == 0 || ring == 2;
    let k = if first {
        x - 1
    } else {
        z - 1
    };
    assert(face_index(n, f, v) == 12 + e * (n - 1) + k);
    lemma_edge_face_at(n, e, k);
    lemma_edge_face_side(n, e, k, f, first, t);
    lemma_wu_around(n, x, t);
    assert(edge_run(n, e / 5, first) == wu_run(n));
    assert(window_of(n, k, first) == x - 1);
}

/// The hexagon of a point on a side of the seed face holds, for that seed
/// face, the three triangles around the point.
pub proof fn lemma_side_point(n: int, f: int, i: int, t: int)
    requires
        1 <= n <= MAX_SUBDIVISIONS,
        0 <= f < 20,
        0 <= i < vertex_count(n),
        !vertex_at(n, i).is_corner(),
        !vertex_at(n, i).is_interior(),
    ensures
        face_list(n)[face_index(n, f, vertex_at(n, i))].contains((f, t)) <==> is_around(
            n,
            vertex_at(n, i).x as int,
            vertex_at(n, i).y as int,
            t,
        ),
{
    let v = vertex_at(n, i);
    lemma_vertex_at(n, i);
    assert(v == lattice_point(n, v.x as int, v.y as int));
    if v.z == 0 {
        lemma_uv_point(n, f, v.x as int, t);
    } else if v.x == 0 {
        lemma_vw_point(n, f, v.y as int, t);
    } else {
        lemma_wu_point(n, f, v.x as int, t);
    }
}

/// The face that a lattice point of a seed face is numbered with holds, for
/// that seed face, exactly the triangles that have the point as a corner.
pub proof fn lemma_face_of_point(n: int, f: int, i: int, t: int)
    requires
        1 <= n <= MAX_SUBDIVISIONS,
        0 <= f < 20,
        0 <= i < vertex_count(n),
    ensures
        face_list(n)[face_index(n, f, vertex_at(n, i))].contains((f, t)) <==> touches(n, t, i),
{
    let v = vertex_at(n, i);
    lemma_touches(n, t, i);
    if v.is_interior() {
        lemma_inner_point(n, f, i, t);
    } else if v.is_corner() {
        lemma_corner_point(n, f, i, t);
    } else {
        lemma_side_point(n, f, i, t);
    }
}

/// The edge of the icosahedron that a side of seed face `f` lies on: side 0
/// is `uv`, side 1 is `vw`, side 2 is `wu`.
pub open spec fn edge_of_side(f: int, side: int) -> int {
    let ring = band(f);
    if side == 0 {
        if ring == 0 {
            (f + 4) % 5
        } else if ring == 1 {
            10 + f % 5
        } else if ring == 2 {
            10 + f % 5
        } else {
            25 + f % 5
        }
    } else if side == 1 {
        if ring == 0 {
            5 + f
        } else if ring == 1 {
            5 + f % 5
        } else if ring == 2 {
            20 + f % 5
        } else {
            20 + f % 5
        }
    } else {
        if ring == 0 {
            f
        } else if ring == 1 {
            15 + (f + 4) % 5
        } else if ring == 2 {
            15 + f % 5
        } else {
            25 + (f + 4) % 5
        }
    }
}

/// The side that a point on the rim of the seed face lies on.
pub open spec fn side_of(v: LatticeVertex) -> int {
    if v.z == 0 {
        0
    } else if v.x == 0 {
        1
    } else {
        2
    }
}

/// The number of a side point: which edge of the icosahedron it lies on and
/// which place it has there.
pub proof fn lemma_side_index(n: int, f: int, v: LatticeVertex)
    requires
        1 <= n <= MAX_SUBDIVISIONS,
        0 <= f < 20,
        v.on_level(n),
        !v.is_corner(),
        !v.is_interior(),
    ensures
        0 <= edge_of_side(f, side_of(v)) < 30,
        0 <= face_index(n, f, v) - 12 - edge_of_side(f, side_of(v)) * (n - 1) < n - 1,
        (face_index(n, f, v) - 12) / (n - 1) == edge_of_side(f, side_of(v)),
        band(f) == 0 || band(f) == 2 ==> (face_index(n, f, v) - 12) % (n - 1) + 1 == (if v.z
            == 0 {
            v.x
        } else if v.x == 0 {
            v.z
        } else {
            v.x
        }),
        band(f) == 1 || band(f) == 3 ==> (face_index(n, f, v) - 12) % (n - 1) + 1 == (if v.z
            == 0 {
            v.y
        } else if v.x == 0 {
            v.y
        } else {
            v.z
        }),
{
    let e = edge_of_side(f, side_of(v));
    let k = face_index(n, f, v) - 12 - e * (n - 1);
    assert(0 <= k < n - 1);
    lemma_fundamental_div_mod_converse(e * (n - 1) + k, n - 1, e, k);
}

/// Different points of a seed face are numbered with different faces of the
/// polyhedron.
pub proof fn lemma_face_index_injective(n: int, f: int, a: int, b: int)
    requires
        1 <= n <= MAX_SUBDIVISIONS,
        0 <= f < 20,
        0 <= a < vertex_count(n),
        0 <= b < vertex_count(n),
        a != b,
    ensures
        face_index(n, f, vertex_at(n, a)) != face_index(n, f, vertex_at(n, b)),
{
    let p = vertex_at(n, a);
    let q = vertex_at(n, b);
    lemma_vertex_at(n, a);
    lemma_vertex_at(n, b);
    lemma_face_index_bound(n, f, p);
    lemma_face_index_bound(n, f, q);
    assert(p != q);
    if p.is_interior() && q.is_interior() {
        lemma_vertex_at_index(n - 3, p.x - 1, p.y - 1);
        lemma_vertex_at_index(n - 3, q.x - 1, q.y - 1);
    } else if p.is_corner() && q.is_corner() {
    } else if !p.is_corner() && !q.is_corner() && !p.is_interior() && !q.is_interior() {
        lemma_side_index(n, f, p);
        lemma_side_index(n, f, q);
    }
}

/// The two faces of a pair of neighbours are different faces, and they have
/// a corner in common: a triangle that has the lattice edge between their
/// two points as a side.
pub proof fn lemma_adjacent_faces_meet(n: int, pair: (usize, usize))
    requires
        1 <= n <= MAX_SUBDIVISIONS,
        is_adjacent(n, pair),
    ensures
        pair.0 < pair.1 < face_count(n),
        exists|f: int, t: int|
            0 <= f < 20 && 0 <= t < triangle_count(n) && #[trigger] face_list(n)[pair.0 as int]
                .contains((f, t)) && face_list(n)[pair.1 as int].contains((f, t)),
{
    let (f, a, b) = choose|f: int, a: int, b: int|
        0 <= f < 20 && is_lattice_edge(n, a, b) && pair == #[trigger] joined_faces(n, f, a, b);
    let p = vertex_at(n, a);
    let q = vertex_at(n, b);
    lemma_vertex_at(n, a);
    lemma_vertex_at(n, b);
    lemma_face_index_bound(n, f, p);
    lemma_face_index_bound(n, f, q);
    assert(a != b);
    lemma_vertex_index_bounds(n, p.x as int, p.y as int);
    lemma_vertex_index_bounds(n, q.x as int, q.y as int);
    lemma_vertex_index(n, p.x as int, p.y as int);
    lemma_vertex_index(n, q.x as int, q.y as int);
    lemma_row_start_step(n, p.x as int);
    assert(a < b);
    lemma_face_index_injective(n, f, a, b);
    lemma_edges_are_sides(n, a, b);
    let t = triangle_on_edge(n, a, b);
    lemma_face_of_point(n, f, a, t);
    lemma_face_of_point(n, f, b, t);
    assert(face_list(n)[pair.0 as int].contains((f, t)) && face_list(n)[pair.1 as int].contains(
        (f, t),
    ));
}

/// The point of side `side` of a seed face whose triangles are window `w`
/// of that side's run.
pub open spec fn point_of_window(n: int, side: int, w: int) -> LatticeVertex {
    if side == 0 {
        lattice_point(n, n - 1 - w, w + 1)
    } else if side == 1 {
        lattice_point(n, 0, n - 1 - w)
    } else {
        lattice_point(n, w + 1, 0)
    }
}

/// The side of the seed face that the run along the edges of group `g`
/// follows, on the first or the second side of the edge.
pub open spec fn side_of_run(g: int, first: bool) -> int {
    if first {
        if g == 0 || g == 3 {
            2int
        } else if g == 1 || g == 4 {
            1int
        } else {
            0int
        }
    } else {
        if g == 0 || g == 2 {
            0int
        } else if g == 1 || g == 4 {
            1int
        } else {
            2int
        }
    }
}

/// The seed face on the first or the second side of edge `e`.
pub open spec fn edge_side_face(e: int, first: bool) -> int {
    if first {
        edge_first_face(e / 5, e % 5)
    } else {
        edge_second_face(e / 5, e % 5)
    }
}

/// Each hexagon on an edge is the face of a side point of either seed face
/// at the edge: the point whose triangles the hexagon takes from that face.
pub proof fn lemma_edge_face_points(n: int, e: int, k: int, first: bool)
    requires
        1 <= n <= MAX_SUBDIVISIONS,
        0 <= e < 30,
        0 <= k < n - 1,
    ensures
        0 <= edge_side_face(e, first) < 20,
        point_of_window(n, side_of_run(e / 5, first), window_of(n, k, first)).on_level(n),
        face_index(
            n,
            edge_side_face(e, first),
            point_of_window(n, side_of_run(e / 5, first), window_of(n, k, first)),
        ) == 12 + e * (n - 1) + k,
        edge_run(n, e / 5, first) == (if side_of_run(e / 5, first) == 0 {
            uv_run(n)
        } else if side_of_run(e / 5, first) == 1 {
            vw_run(n)
        } else {
            wu_run(n)
        }),
{
    let g = e / 5;
    let j = e % 5;
    let f = edge_side_face(e, first);
    let v = point_of_window(n, side_of_run(g, first), window_of(n, k, first));
    if g == 0 {
        assert(face_index(n, f, v) == 12 + e * (n - 1) + k);
    } else if g == 1 {
        assert(face_index(n, f, v) == 12 + e * (n - 1) + k);
    } else if g == 2 {
        assert(face_index(n, f, v) == 12 + e * (n - 1) + k);
    } else if g == 3 {
        assert(face_index(n, f, v) == 12 + e * (n - 1) + k);
    } else if g == 4 {
        assert(face_index(n, f, v) == 12 + e * (n - 1) + k);
    } else {
        assert(face_index(n, f, v) == 12 + e * (n - 1) + k);
    }
}

/// The triangles of a window of a side's run are triangles around the
/// point of that window.
pub proof fn lemma_window_around(n: int, side: int, w: int, t: int)
    requires
        1 <= n <= MAX_SUBDIVISIONS,
        0 <= side < 3,
        0 <= w <= n - 2,
    ensures
        ({
            let run = if side == 0 {
                uv_run(n)
            } else if side == 1 {
                vw_run(n)
            } else {
                wu_run(n)
            };
            t == run[2 * w] || t == run[2 * w + 1] || t == run[2 * w + 2]
        }) <==> is_around(
            n,
            point_of_window(n, side, w).x as int,
            point_of_window(n, side, w).y as int,
            t,
        ),
{
    if side == 0 {
        lemma_uv_around(n, n - 1 - w, t);
    } else if side == 1 {
        lemma_vw_around(n, n - 1 - w, t);
    } else {
        lemma_wu_around(n, w + 1, t);
    }
}

/// The point of a seed face that a corner of a pentagon belongs to.
pub proof fn lemma_corner_of_pentagon(n: int, index: int, g: int, t: int) -> (i: int)
    requires
        1 <= n <= MAX_SUBDIVISIONS,
        0 <= index < 12,
        vertex_face(n, index).contains((g, t)),
    ensures
        0 <= g < 20,
        0 <= i < vertex_count(n),
        face_index(n, g, vertex_at(n, i)) == index,
        touches(n, t, i),
{
    let face = vertex_face(n, index);
    lemma_contains_five(face, (g, t));
    lemma_counts(n);
    lemma_count_bounds(n);
    let v = if t == corner_u(n) && (index <= 1 || (g, t) == face[3]) {
        lattice_point(n, n, 0)
    } else if t == corner_v(n) && ((g, t) == face[1] || (g, t) == face[4]) {
        lattice_point(n, 0, n)
    } else {
        lattice_point(n, 0, 0)
    };
    let i = vertex_index(n, v.x as int, v.y as int);
    lemma_vertex_index_bounds(n, v.x as int, v.y as int);
    lemma_vertex_at_index(n, v.x as int, v.y as int);
    assert(vertex_at(n, i) == v);
    assert(0 <= g < 20);
    assert(face_index(n, g, v) == index);
    lemma_touches(n, t, i);
    i
}

/// Every corner of a face of the polyhedron is a triangle of a seed face
/// around a point of that seed face that is numbered with the face.
pub proof fn lemma_corner_of_face(n: int, index: int, g: int, t: int) -> (i: int)
    requires
        1 <= n <= MAX_SUBDIVISIONS,
        0 <= index < face_count(n),
        face_list(n)[index].contains((g, t)),
    ensures
        0 <= g < 20,
        0 <= i < vertex_count(n),
        face_index(n, g, vertex_at(n, i)) == index,
        touches(n, t, i),
{
    lemma_face_counts(n);
    lemma_counts(n);
    lemma_count_bounds(n);
    let d = n - 1;
    let q = faces_per_face(n);
    if index < 12 {
        assert(face_list(n)[index] == vertex_face(n, index));
        lemma_corner_of_pentagon(n, index, g, t)
    } else if index < 12 + 30 * d {
        let m = index - 12;
        let e = m / d;
        let k = m % d;
        vstd::arithmetic::div_mod::lemma_fundamental_div_mod(m, d);
        assert(0 <= e < 30) by (nonlinear_arith)
            requires
                0 <= m < 30 * d,
                d > 0,
                0 <= k < d,
                m == d * e + k,
        ;
        assert(d * e == e * d) by (nonlinear_arith);
        assert(face_list(n)[index] == edge_face(n, e, k));
        let face = edge_face(n, e, k);
        lemma_contains_six(face, (g, t));
        let first = (g, t) == face[0] || (g, t) == face[1] || (g, t) == face[2];
        lemma_edge_face_side(n, e, k, g, first, t);
        lemma_edge_face_points(n, e, k, first);
        let side = side_of_run(e / 5, first);
        let w = window_of(n, k, first);
        lemma_window_around(n, side, w, t);
        let v = point_of_window(n, side, w);
        let i = vertex_index(n, v.x as int, v.y as int);
        lemma_vertex_index_bounds(n, v.x as int, v.y as int);
        lemma_vertex_at_index(n, v.x as int, v.y as int);
        assert(vertex_at(n, i) == v);
        lemma_touches(n, t, i);
        i
    } else {
        let m = index - 12 - 30 * d;
        let f = m / q;
        let r = m % q;
        vstd::arithmetic::div_mod::lemma_fundamental_div_mod(m, q);
        assert(0 <= f < 20) by (nonlinear_arith)
            requires
                0 <= m < 20 * q,
                q > 0,
                0 <= r < q,
                m == q * f + r,
        ;
        assert(q * f == f * q) by (nonlinear_arith);
        assert(face_list(n)[index] == face_face(n, m));
        lemma_counts(n - 3);
        assert(n >= 3) by {
            if n <= 2 {
                lemma_triangular_step(n - 2);
                assert(triangular(0) == 0);
                assert(triangular(-1) == 0);
            }
        }
        lemma_vertex_at(n - 3, r);
        let c = vertex_at(n - 3, r);
        let face = interior_face(n, f, c.x + 1, c.y + 1);
        lemma_contains_six(face, (g, t));
        let v = lattice_point(n, c.x + 1, c.y + 1);
        let i = vertex_index(n, v.x as int, v.y as int);
        lemma_vertex_index_bounds(n, v.x as int, v.y as int);
        lemma_vertex_at_index(n, v.x as int, v.y as int);
        assert(vertex_at(n, i) == v);
        lemma_face_face_at(n, f, c.x + 1, c.y + 1);
        lemma_touches(n, t, i);
        i
    }
}

/// Two different faces that have a corner in common are neighbours.
pub proof fn lemma_faces_that_meet_are_adjacent(n: int, first: int, second: int, g: int, t: int)
    requires
        1 <= n <= MAX_SUBDIVISIONS,
        0 <= first < second < face_count(n),
        face_list(n)[first].contains((g, t)),
        face_list(n)[second].contains((g, t)),
    ensures
        is_adjacent(n, (first as usize, second as usize)),
{
    let a = lemma_corner_of_face(n, first, g, t);
    let b = lemma_corner_of_face(n, second, g, t);
    lemma_vertex_at(n, a);
    lemma_vertex_at(n, b);
    lemma_face_index_bound(n, g, vertex_at(n, a));
    lemma_face_index_bound(n, g, vertex_at(n, b));
    if a < b {
        lemma_edges_are_sides(n, a, b);
        assert(is_lattice_edge(n, a, b));
        assert((first as usize, second as usize) == joined_faces(n, g, a, b));
    } else {
        lemma_edges_are_sides(n, b, a);
        assert(is_lattice_edge(n, b, a));
        assert((first as usize, second as usize) == joined_faces(n, g, b, a));
    }
}

/// The neighbours are exactly the pairs of different faces that have a
/// corner in common.
pub proof fn lemma_adjacency_by_corners(n: int, pair: (usize, usize))
    requires
        1 <= n <= MAX_SUBDIVISIONS,
    ensures
        is_adjacent(n, pair) <==> faces_meet(n, pair),
{
    if is_adjacent(n, pair) {
        lemma_adjacent_faces_meet(n, pair);
    }
    if faces_meet(n, pair) {
        let (g, t) = choose|g: int, t: int|
            #[trigger] face_list(n)[pair.0 as int].contains((g, t)) && face_list(
                n,
            )[pair.1 as int].contains((g, t));
        lemma_faces_that_meet_are_adjacent(n, pair.0 as int, pair.1 as int, g, t);
    }
}

} // verus!
