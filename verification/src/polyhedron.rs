//! The faces of the subdivided icosahedron and their numbering, as
//! mathematics.
//!
//! A corner of the polyhedron is a small triangle of one seed face; a face of
//! the polyhedron belongs to a lattice point, and its corners are the small
//! triangles around that point. The faces are listed in three groups: the
//! pentagons around the corners of the icosahedron, the hexagons on its
//! edges, and the hexagons inside its faces.

use vstd::prelude::*;
use crate::lattice_math::{
    MAX_SUBDIVISIONS, lemma_counts, lemma_triangular_bounds, lemma_triangular_step,
    lemma_vertex_at, lemma_vertex_index_bounds, triangle_count, triangular, upward_count,
    vertex_at,
};
use crate::lattice_model::{
    downward_index, interior_index, is_lattice_edge, lemma_count_bounds,
    lemma_triangle_index_bounds, upward_index, uv_run, vw_run, wu_run,
};
use crate::lattice_vertex::LatticeVertex;

verus! {

/// Number of polyhedron faces on each edge of the icosahedron.
pub open spec fn faces_per_edge(n: int) -> int {
    n - 1
}

/// Number of polyhedron faces inside each face of the icosahedron.
pub open spec fn faces_per_face(n: int) -> int {
    (n - 1) * (n - 2) / 2
}

/// Number of hexagons at level `n`.
pub open spec fn hexagon_count(n: int) -> int {
    30 * faces_per_edge(n) + 20 * faces_per_face(n)
}

/// Number of faces of the polyhedron at level `n`.
pub open spec fn face_count(n: int) -> int {
    12 + 30 * (n - 1) + 20 * (n - 1) * (n - 2) / 2
}

/// Number of corners over all faces: five for each pentagon and six for
/// each hexagon.
pub open spec fn mesh_vertex_count(n: int) -> int {
    12 * 5 + hexagon_count(n) * 6
}

/// Number of triangles when every face is cut into a fan: three for each
/// pentagon and four for each hexagon.
pub open spec fn mesh_triangle_count(n: int) -> int {
    12 * 3 + hexagon_count(n) * 4
}

/// The triangle at corner `u` of a seed face.
pub open spec fn corner_u(n: int) -> int {
    upward_index(n, n, 0)
}

/// The triangle at corner `v` of a seed face.
pub open spec fn corner_v(n: int) -> int {
    upward_index(n, 1, n - 1)
}

/// The triangle at corner `w` of a seed face.
pub open spec fn corner_w(n: int) -> int {
    upward_index(n, 1, 0)
}

/// The pentagon with number `i`, for `0 <= i < 12`. Pentagon 0 sits at the
/// top corner and pentagon 1 at the bottom corner, where the `u` corners of
/// five seed faces meet. Pentagons 2 to 6 sit on the upper ring of corners
/// and pentagons 7 to 11 on the lower ring; there a corner is shared by five
/// seed faces of three different rings.
pub open spec fn vertex_face(n: int, i: int) -> Seq<(int, int)> {
    let u = corner_u(n);
    let v = corner_v(n);
    let w = corner_w(n);
    if i == 0 {
        seq![(4, u), (3, u), (2, u), (1, u), (0, u)]
    } else if i == 1 {
        seq![(15, u), (16, u), (17, u), (18, u), (19, u)]
    } else if i < 7 {
        let face = i + 3;
        seq![
            (face - 5, w),
            ((face + 1) % 5, v),
            (5 + (face + 1) % 5, w),
            (face + 5, u),
            (face, v),
        ]
    } else {
        let face = i + 3;
        seq![
            (face + 5, w),
            (15 + (face + 4) % 5, v),
            (10 + (face + 4) % 5, w),
            (face - 5, u),
            (face, v),
        ]
    }
}

/// The thirty edges of the icosahedron come in six groups of five. This is
/// the seed face on the first side of edge `j` of group `g`.
pub open spec fn edge_first_face(g: int, j: int) -> int {
    if g <= 1 {
        j
    } else if g == 2 {
        5 + j
    } else if g <= 4 {
        10 + j
    } else {
        15 + j
    }
}

/// The seed face on the second side of edge `j` of group `g`.
pub open spec fn edge_second_face(g: int, j: int) -> int {
    if g == 0 {
        (j + 1) % 5
    } else if g == 1 {
        j + 5
    } else if g == 2 {
        10 + j
    } else if g == 3 {
        5 + (j + 1) % 5
    } else if g == 4 {
        15 + j
    } else {
        15 + (j + 1) % 5
    }
}

/// The triangles along the edge on its first side, for the edges of group `g`.
pub open spec fn edge_first_run(n: int, g: int) -> Seq<usize> {
    if g == 0 || g == 3 {
        wu_run(n)
    } else if g == 1 || g == 4 {
        vw_run(n)
    } else {
        uv_run(n)
    }
}

/// The triangles along the edge on its second side, for the edges of group `g`.
pub open spec fn edge_second_run(n: int, g: int) -> Seq<usize> {
    if g == 0 || g == 2 {
        uv_run(n)
    } else if g == 1 || g == 4 {
        vw_run(n)
    } else {
        wu_run(n)
    }
}

/// The hexagon at place `k` on edge `e` of the icosahedron, for
/// `0 <= e < 30` and `0 <= k < n - 1`: three consecutive triangles of the
/// run on the first side, then the three triangles facing them on the second
/// side, whose run is walked backwards.
pub open spec fn edge_face(n: int, e: int, k: int) -> Seq<(int, int)> {
    let g = e / 5;
    let j = e % 5;
    let fa = edge_first_face(g, j);
    let fb = edge_second_face(g, j);
    let a = edge_first_run(n, g);
    let b = edge_second_run(n, g);
    seq![
        (fa, a[2 * k] as int),
        (fa, a[2 * k + 1] as int),
        (fa, a[2 * k + 2] as int),
        (fb, b[2 * n - 4 - 2 * k] as int),
        (fb, b[2 * n - 3 - 2 * k] as int),
        (fb, b[2 * n - 2 - 2 * k] as int),
    ]
}

/// The hexagon around the inner point `(x, y, n - x - y)` of seed face `f`:
/// the six small triangles that have the point as a corner.
pub open spec fn interior_face(n: int, f: int, x: int, y: int) -> Seq<(int, int)> {
    seq![
        (f, downward_index(n, x - 1, y)),
        (f, upward_index(n, x, y)),
        (f, downward_index(n, x - 1, y + 1)),
        (f, upward_index(n, x + 1, y)),
        (f, downward_index(n, x, y)),
        (f, upward_index(n, x + 1, y - 1)),
    ]
}

/// The hexagon with number `m` among those inside the seed faces: they are
/// ordered by seed face, and within a seed face by inner point.
pub open spec fn face_face(n: int, m: int) -> Seq<(int, int)> {
    let f = m / faces_per_face(n);
    let c = vertex_at(n - 3, m % faces_per_face(n));
    interior_face(n, f, c.x + 1, c.y + 1)
}

/// The twelve pentagons.
pub open spec fn vertex_faces(n: int) -> Seq<Seq<(int, int)>> {
    Seq::new(12, |i: int| vertex_face(n, i))
}

/// The hexagons on the edges of the icosahedron, edge by edge.
pub open spec fn edge_faces(n: int) -> Seq<Seq<(int, int)>> {
    Seq::new((30 * (n - 1)) as nat, |i: int| edge_face(n, i / (n - 1), i % (n - 1)))
}

/// The hexagons inside the faces of the icosahedron, face by face.
pub open spec fn face_faces(n: int) -> Seq<Seq<(int, int)>> {
    Seq::new((20 * faces_per_face(n)) as nat, |i: int| face_face(n, i))
}

/// All faces of the polyhedron of level `n`: pentagons, then the hexagons on
/// edges, then the hexagons inside faces.
pub open spec fn face_list(n: int) -> Seq<Seq<(int, int)>> {
    vertex_faces(n) + edge_faces(n) + face_faces(n)
}

/// The band of five seed faces that seed face `f` belongs to.
pub open spec fn band(f: int) -> int {
    f / 5
}

/// The number of the polyhedron face that belongs to the lattice point `v`
/// of seed face `f`. A corner point belongs to a pentagon, a point on a side
/// to a hexagon on an edge of the icosahedron, an inner point to a hexagon
/// of the seed face itself.
pub open spec fn face_index(n: int, f: int, v: LatticeVertex) -> int {
    let per_edge = faces_per_edge(n);
    let first: int = 11;
    if v.y == 0 && v.z == 0 {
        if band(f) == 0 {
            0
        } else if band(f) == 1 {
            7 + f % 5
        } else if band(f) == 2 {
            2 + f % 5
        } else {
            1
        }
    } else if v.x == 0 && v.z == 0 {
        if band(f) == 0 {
            2 + (f + 4) % 5
        } else if band(f) == 1 {
            2 + f % 5
        } else if band(f) == 2 {
            7 + f % 5
        } else {
            7 + (f + 1) % 5
        }
    } else if v.x == 0 && v.y == 0 {
        if band(f) == 0 {
            2 + f
        } else if band(f) == 1 {
            2 + (f + 4) % 5
        } else if band(f) == 2 {
            7 + (f + 1) % 5
        } else {
            7 + f % 5
        }
    } else if v.z == 0 {
        if band(f) == 0 {
            first + ((f + 4) % 5) * per_edge + v.x
        } else if band(f) == 1 {
            first + (10 + f % 5) * per_edge + v.y
        } else if band(f) == 2 {
            first + (10 + f % 5) * per_edge + v.x
        } else {
            first + (25 + f % 5) * per_edge + v.y
        }
    } else if v.x == 0 {
        if band(f) == 0 {
            first + (5 + f) * per_edge + v.z
        } else if band(f) == 1 {
            first + (5 + f % 5) * per_edge + v.y
        } else if band(f) == 2 {
            first + (20 + f % 5) * per_edge + v.z
        } else {
            first + (20 + f % 5) * per_edge + v.y
        }
    } else if v.y == 0 {
        if band(f) == 0 {
            first + f * per_edge + v.x
        } else if band(f) == 1 {
            first + (15 + (f + 4) % 5) * per_edge + v.z
        } else if band(f) == 2 {
            first + (15 + f % 5) * per_edge + v.x
        } else {
            first + (25 + (f + 4) % 5) * per_edge + v.z
        }
    } else {
        12 + 30 * per_edge + f * faces_per_face(n) + interior_index(n, v.x as int, v.y as int)
    }
}

/// The pair of two face numbers with the smaller one first.
pub open spec fn ordered(p: int, q: int) -> (usize, usize) {
    if p <= q {
        (p as usize, q as usize)
    } else {
        (q as usize, p as usize)
    }
}

/// The two polyhedron faces that the lattice edge from point `a` to point
/// `b` joins on seed face `f`.
pub open spec fn joined_faces(n: int, f: int, a: int, b: int) -> (usize, usize) {
    ordered(face_index(n, f, vertex_at(n, a)), face_index(n, f, vertex_at(n, b)))
}

/// Whether the pair of face numbers comes from a lattice edge of some seed
/// face: the two faces belong to neighbouring lattice points.
pub open spec fn is_adjacent(n: int, pair: (usize, usize)) -> bool {
    exists|f: int, a: int, b: int|
        0 <= f < 20 && is_lattice_edge(n, a, b) && pair == #[trigger] joined_faces(n, f, a, b)
}

/// Whether the pair names two different faces, the smaller number first,
/// that have a corner in common.
pub open spec fn faces_meet(n: int, pair: (usize, usize)) -> bool {
    &&& pair.0 < pair.1 < face_count(n)
    &&& exists|g: int, t: int|
        #[trigger] face_list(n)[pair.0 as int].contains((g, t)) && face_list(n)[pair.1 as int]
            .contains((g, t))
}

/// The number of a face is below the number of faces.
pub proof fn lemma_face_index_bound(n: int, f: int, v: LatticeVertex)
    requires
        1 <= n <= MAX_SUBDIVISIONS,
        0 <= f < 20,
        v.on_level(n),
    ensures
        0 <= face_index(n, f, v) < face_count(n),
        v.is_corner() <==> face_index(n, f, v) < 12,
        v.is_interior() <==> face_index(n, f, v) >= 12 + 30 * (n - 1),
        face_count(n) <= 715716002,
{
    lemma_face_counts(n);
    let d = n - 1;
    let q = faces_per_face(n);
    assert(10 * n * n + 2 <= 715716002) by (nonlinear_arith)
        requires
            1 <= n <= 8460,
    ;
    assert(face_count(n) == 12 + 30 * d + 20 * q);
    assert forall|e: int| 0 <= e <= 29 implies 0 <= #[trigger] (e * d) <= 29 * d by {
        assert(0 <= e * d <= 29 * d) by (nonlinear_arith)
            requires
                0 <= e <= 29,
                0 <= d,
        ;
    }
    if v.is_interior() {
        assert(n >= 3);
        lemma_vertex_index_bounds(n - 3, v.x - 1, v.y - 1);
        lemma_counts(n - 3);
        assert(0 <= f * q && (f + 1) * q <= 20 * q && (f + 1) * q == f * q + q)
            by (nonlinear_arith)
            requires
                0 <= f < 20,
                0 <= q,
        ;
    } else if v.is_corner() {
    } else {
        if v.z == 0 {
            assert(0 <= ((f + 4) % 5) * d <= 29 * d);
            assert(0 <= (10 + f % 5) * d <= 29 * d);
            assert(0 <= (25 + f % 5) * d <= 29 * d);
        } else if v.x == 0 {
            assert(0 <= (5 + f) * d <= 29 * d || band(f) != 0);
            assert(0 <= (5 + f % 5) * d <= 29 * d);
            assert(0 <= (20 + f % 5) * d <= 29 * d);
        } else {
            assert(0 <= f * d <= 29 * d);
            assert(0 <= (15 + (f + 4) % 5) * d <= 29 * d);
            assert(0 <= (15 + f % 5) * d <= 29 * d);
            assert(0 <= (25 + (f + 4) % 5) * d <= 29 * d);
        }
    }
}

/// Every triangle named by the run along a side exists.
pub proof fn lemma_side_runs(n: int)
    requires
        1 <= n <= MAX_SUBDIVISIONS,
    ensures
        forall|k: int| 0 <= k < 2 * n - 1 ==> #[trigger] uv_run(n)[k] < triangle_count(n),
        forall|k: int| 0 <= k < 2 * n - 1 ==> #[trigger] vw_run(n)[k] < triangle_count(n),
        forall|k: int| 0 <= k < 2 * n - 1 ==> #[trigger] wu_run(n)[k] < triangle_count(n),
{
    lemma_count_bounds(n);
    lemma_counts(n);
    assert forall|k: int| 0 <= k < 2 * n - 1 implies #[trigger] uv_run(n)[k] < triangle_count(
        n,
    ) by {
        lemma_triangle_index_bounds(n, n - k / 2, k / 2);
        if k % 2 == 1 {
            lemma_triangle_index_bounds(n, n - 2 - k / 2, k / 2 + 1);
        }
    }
    assert forall|k: int| 0 <= k < 2 * n - 1 implies #[trigger] vw_run(n)[k] < triangle_count(
        n,
    ) by {
        lemma_triangle_index_bounds(n, 1, n - 1 - k / 2);
        if k % 2 == 1 {
            lemma_triangle_index_bounds(n, 0, n - 1 - k / 2);
        }
    }
    assert forall|k: int| 0 <= k < 2 * n - 1 implies #[trigger] wu_run(n)[k] < triangle_count(
        n,
    ) by {
        lemma_triangle_index_bounds(n, k / 2 + 1, 0);
        if k % 2 == 1 {
            lemma_triangle_index_bounds(n, k / 2, 1);
        }
    }
}

/// The six triangles around the inner point `(x, y, n - x - y)`, as they
/// come from two neighbouring rows of triangles: three pairs of a triangle
/// of the row below the point and one of the row above it.
pub open spec fn interior_window(n: int, x: int, y: int) -> (
    (usize, usize),
    (usize, usize),
    (usize, usize),
) {
    (
        (downward_index(n, x - 1, y) as usize, upward_index(n, x + 1, y - 1) as usize),
        (upward_index(n, x, y) as usize, downward_index(n, x, y) as usize),
        (downward_index(n, x - 1, y + 1) as usize, upward_index(n, x + 1, y) as usize),
    )
}

/// The six triangles around an inner point exist.
pub proof fn lemma_interior_window(n: int, x: int, y: int)
    requires
        1 <= n <= MAX_SUBDIVISIONS,
        1 <= x,
        1 <= y,
        x + y < n,
    ensures
        upward_count(n) <= downward_index(n, x - 1, y) < triangle_count(n),
        upward_count(n) <= downward_index(n, x - 1, y + 1) < triangle_count(n),
        upward_count(n) <= downward_index(n, x, y) < triangle_count(n),
        0 <= upward_index(n, x, y) < upward_count(n),
        0 <= upward_index(n, x + 1, y) < upward_count(n),
        0 <= upward_index(n, x + 1, y - 1) < upward_count(n),
        triangle_count(n) <= 71571600,
{
    lemma_count_bounds(n);
    lemma_triangle_index_bounds(n, x - 1, y);
    lemma_triangle_index_bounds(n, x - 1, y + 1);
    lemma_triangle_index_bounds(n, x, y);
    lemma_triangle_index_bounds(n, x + 1, y);
    lemma_triangle_index_bounds(n, x + 1, y - 1);
}

/// The counts by triangular numbers and as a polynomial.
pub proof fn lemma_face_counts(n: int)
    requires
        n >= 1,
    ensures
        faces_per_face(n) == triangular(n - 2),
        faces_per_face(n) >= 0,
        face_count(n) == 12 + hexagon_count(n),
        face_count(n) == 10 * n * n + 2,
        mesh_vertex_count(n) == 60 * n * n,
        mesh_triangle_count(n) == 40 * n * n - 4,
        face_list(n).len() == face_count(n),
{
    lemma_triangular_step(n - 2);
    let t = triangular(n - 2);
    assert((n - 1) * (n - 2) == (n - 2) * (n - 1)) by (nonlinear_arith);
    assert(2 * t == (n - 1) * (n - 2));
    if n >= 2 {
        lemma_triangular_bounds(n - 2);
    } else {
        assert((n - 1) * (n - 2) == 0) by (nonlinear_arith)
            requires
                n == 1,
        ;
    }
    assert(20 * (n - 1) * (n - 2) == 20 * ((n - 1) * (n - 2))) by (nonlinear_arith);
    assert(10 * n * n + 2 == 12 + 30 * (n - 1) + 10 * ((n - 1) * (n - 2))) by (nonlinear_arith);
    assert(60 * n * n == 6 * (10 * n * n)) by (nonlinear_arith);
    assert(40 * n * n == 4 * (10 * n * n)) by (nonlinear_arith);
}

/// The corners of every face name a seed face and one of its triangles.
pub proof fn lemma_face_corners(n: int, i: int)
    requires
        1 <= n <= MAX_SUBDIVISIONS,
        0 <= i < face_count(n),
    ensures
        face_list(n)[i].len() == if i < 12 {
            5int
        } else {
            6int
        },
        forall|j: int|
            0 <= j < face_list(n)[i].len() ==> 0 <= (#[trigger] face_list(n)[i][j]).0 < 20 && 0
                <= face_list(n)[i][j].1 < triangle_count(n),
{
    lemma_face_counts(n);
    lemma_count_bounds(n);
    lemma_side_runs(n);
    let d = n - 1;
    let q = faces_per_face(n);
    if i < 12 {
        assert(face_list(n)[i] == vertex_face(n, i));
        lemma_triangle_index_bounds(n, n, 0);
        lemma_triangle_index_bounds(n, 1, n - 1);
        lemma_triangle_index_bounds(n, 1, 0);
        let face = vertex_face(n, i);
        assert forall|j: int| 0 <= j < face.len() implies 0 <= (#[trigger] face[j]).0 < 20 && 0
            <= face[j].1 < triangle_count(n) by {
            if j == 0 {
            } else if j == 1 {
            } else if j == 2 {
            } else if j == 3 {
            } else {
            }
        }
    } else if i < 12 + 30 * d {
        let m = i - 12;
        assert(face_list(n)[i] == edge_face(n, m / d, m % d));
        let e = m / d;
        let k = m % d;
        vstd::arithmetic::div_mod::lemma_fundamental_div_mod(m, d);
        assert(0 <= e < 30 && 0 <= k < d) by (nonlinear_arith)
            requires
                0 <= m < 30 * d,
                d > 0,
                0 <= k < d,
                m == d * e + k,
        ;
        let face = edge_face(n, e, k);
        let a = edge_first_run(n, e / 5);
        let b = edge_second_run(n, e / 5);
        assert forall|j: int| 0 <= j < face.len() implies 0 <= (#[trigger] face[j]).0 < 20 && 0
            <= face[j].1 < triangle_count(n) by {
            if j == 0 {
                assert(a[2 * k] < triangle_count(n));
            } else if j == 1 {
                assert(a[2 * k + 1] < triangle_count(n));
            } else if j == 2 {
                assert(a[2 * k + 2] < triangle_count(n));
            } else if j == 3 {
                assert(b[2 * n - 4 - 2 * k] < triangle_count(n));
            } else if j == 4 {
                assert(b[2 * n - 3 - 2 * k] < triangle_count(n));
            } else {
                assert(b[2 * n - 2 - 2 * k] < triangle_count(n));
            }
        }
    } else {
        let m = i - 12 - 30 * d;
        assert(face_list(n)[i] == face_face(n, m));
        let f = m / q;
        let r = m % q;
        vstd::arithmetic::div_mod::lemma_fundamental_div_mod(m, q);
        assert(0 <= f < 20 && 0 <= r < q) by (nonlinear_arith)
            requires
                0 <= m < 20 * q,
                q > 0,
                0 <= r < q,
                m == q * f + r,
        ;
        lemma_counts(n - 3);
        assert(n >= 3) by {
            if n <= 2 {
                lemma_triangular_step(n - 2);
                assert(triangular(0) == 0);
                assert(triangular(-1) == 0);
            }
        }
        lemma_vertex_at(n - 3, r);
        let c = vertex_at(n - 3, r);
        lemma_interior_window(n, c.x + 1, c.y + 1);
        let face = face_face(n, m);
        assert forall|j: int| 0 <= j < face.len() implies 0 <= (#[trigger] face[j]).0 < 20 && 0
            <= face[j].1 < triangle_count(n) by {
            if j == 0 {
            } else if j == 1 {
            } else if j == 2 {
            } else if j == 3 {
            } else if j == 4 {
            } else {
            }
        }
    }
}

} // verus!
