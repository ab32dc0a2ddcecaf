//! Neighbouring faces have a side in common: two corners that follow each
//! other in both faces, in opposite directions.

use vstd::prelude::*;
use crate::consistency::{
    edge_of_side, edge_run, edge_side_face, lemma_contains_five, lemma_contains_six,
    lemma_edge_face_at, lemma_face_face_at, lemma_face_of_point,
    lemma_faces_that_meet_are_adjacent, lemma_uv_window, lemma_vw_window, lemma_wu_window,
    point_of_window, side_of, window_of,
};
use crate::incidence::{lemma_side_ends, touches};
use crate::lattice_math::{
    MAX_SUBDIVISIONS, lemma_counts, lemma_vertex_at, lemma_vertex_at_index, triangle_count,
    vertex_at, vertex_index,
};
use crate::lattice_model::{
    downward_index, is_lattice_edge, lemma_count_bounds, lemma_triangle_corners,
    lemma_triangle_index_bounds, upward_index, uv_run, vw_run, wu_run,
};
use crate::lattice_vertex::{LatticeVertex, lattice_point};
use crate::polyhedron::{
    band, corner_u, corner_v, corner_w, edge_face, face_count, face_index, face_list,
    interior_face, is_adjacent, joined_faces, lemma_face_counts, lemma_face_index_bound,
    vertex_face,
};

verus! {

/// The place after `p` in a face with `len` corners, going round.
pub open spec fn next_place(len: int, p: int) -> int {
    if p + 1 < len {
        p + 1
    } else {
        0
    }
}

/// Whether the side of `first` that begins at place `p` is the side of
/// `second` that begins at place `q`, walked the other way.
pub open spec fn same_side(
    first: Seq<(int, int)>,
    p: int,
    second: Seq<(int, int)>,
    q: int,
) -> bool {
    &&& 0 <= p < first.len()
    &&& 0 <= q < second.len()
    &&& first[p] == second[next_place(second.len() as int, q)]
    &&& first[next_place(first.len() as int, p)] == second[q]
}

/// Whether the two faces have exactly a side in common: two different
/// corners that follow each other in both faces, in opposite directions,
/// and no other corner.
pub open spec fn share_exactly_a_side(first: Seq<(int, int)>, second: Seq<(int, int)>) -> bool {
    exists|p: int, q: int| #[trigger]
        same_side(first, p, second, q) && first[p] != first[next_place(first.len() as int, p)]
            && forall|c: (int, int)|
            first.contains(c) && second.contains(c) ==> c == first[p] || c
                == first[next_place(first.len() as int, p)]
}

/// Having exactly a side in common goes both ways.
pub proof fn lemma_share_exactly_symmetric(first: Seq<(int, int)>, second: Seq<(int, int)>)
    requires
        share_exactly_a_side(first, second),
    ensures
        share_exactly_a_side(second, first),
{
    let (p, q) = choose|p: int, q: int| #[trigger]
        same_side(first, p, second, q) && first[p] != first[next_place(first.len() as int, p)]
            && forall|c: (int, int)|
            first.contains(c) && second.contains(c) ==> c == first[p] || c
                == first[next_place(first.len() as int, p)];
    assert(same_side(second, q, first, p));
}

/// Whether the two faces have a side in common.
pub open spec fn share_side(first: Seq<(int, int)>, second: Seq<(int, int)>) -> bool {
    exists|p: int, q: int| same_side(first, p, second, q)
}

/// The triangles around the point `(x, y, n - x - y)` counterclockwise,
/// numbered 0 to 5. Between triangle `s` and the next lies the lattice edge
/// to neighbour `s` of the point; the neighbours are, from 0 to 5,
/// `(x - 1, y)`, `(x - 1, y + 1)`, `(x, y + 1)`, `(x + 1, y)`,
/// `(x + 1, y - 1)` and `(x, y - 1)`.
pub open spec fn sector(n: int, x: int, y: int, s: int) -> int {
    if s == 0 {
        downward_index(n, x - 1, y)
    } else if s == 1 {
        upward_index(n, x, y)
    } else if s == 2 {
        downward_index(n, x - 1, y + 1)
    } else if s == 3 {
        upward_index(n, x + 1, y)
    } else if s == 4 {
        downward_index(n, x, y)
    } else {
        upward_index(n, x + 1, y - 1)
    }
}

/// Whether triangle `s` around the point `(x, y, n - x - y)` exists.
pub open spec fn has_sector(n: int, x: int, y: int, s: int) -> bool {
    let z = n - x - y;
    if s == 0 {
        x >= 1 && y >= 1
    } else if s == 1 {
        x >= 1
    } else if s == 2 {
        x >= 1 && z >= 1
    } else if s == 3 {
        z >= 1
    } else if s == 4 {
        y >= 1 && z >= 1
    } else {
        y >= 1
    }
}

/// Whether seed face `f` lies on the first side of the edge of the
/// icosahedron under its side `side`.
pub open spec fn is_first(f: int, side: int) -> bool {
    if side == 0 {
        band(f) == 1 || band(f) == 3
    } else {
        band(f) == 0 || band(f) == 2
    }
}

/// The window of the run along its side that holds the triangles around a
/// side point.
pub open spec fn window_of_point(n: int, v: LatticeVertex) -> int {
    if v.z == 0 {
        n - 1 - v.x
    } else if v.x == 0 {
        n - 1 - v.y
    } else {
        v.x - 1
    }
}

/// The first of the three triangles around a side point in the order of the
/// run along its side: the triangles are then this one and the next two.
pub open spec fn first_sector(v: LatticeVertex) -> int {
    if v.z == 0 {
        5int
    } else if v.x == 0 {
        3int
    } else {
        1int
    }
}

/// What `lemma_side_face` states of a side point.
pub open spec fn side_face_known(n: int, f: int, v: LatticeVertex) -> bool {
    let side = side_of(v);
    let e = edge_of_side(f, side);
    let first = is_first(f, side);
    let w = window_of_point(n, v);
    let k = window_of(n, w, first);
    let base = if first {
        0int
    } else {
        3int
    };
    let face = face_list(n)[face_index(n, f, v)];
    let s = first_sector(v);
    &&& 0 <= e < 30
    &&& 0 <= k < n - 1
    &&& 0 <= w < n - 1
    &&& edge_side_face(e, first) == f
    &&& face_index(n, f, v) == 12 + e * (n - 1) + k
    &&& face == edge_face(n, e, k)
    &&& face.len() == 6
    &&& face[base] == (f, sector(n, v.x as int, v.y as int, s))
    &&& face[base + 1] == (f, sector(n, v.x as int, v.y as int, (s + 1) % 6))
    &&& face[base + 2] == (f, sector(n, v.x as int, v.y as int, (s + 2) % 6))
}

/// The edge of the icosahedron under a side of a seed face has the seed
/// face on the side that `is_first` says, and the run along that side of
/// the edge is the run along the side of the seed face.
pub proof fn lemma_edge_of_side(n: int, f: int, side: int)
    requires
        0 <= f < 20,
        0 <= side < 3,
    ensures
        0 <= edge_of_side(f, side) < 30,
        edge_side_face(edge_of_side(f, side), is_first(f, side)) == f,
        edge_run(n, edge_of_side(f, side) / 5, is_first(f, side)) == (if side == 0 {
            uv_run(n)
        } else if side == 1 {
            vw_run(n)
        } else {
            wu_run(n)
        }),
{
}

/// Where the face of a side point stands in the list of faces.
pub proof fn lemma_side_place(n: int, f: int, v: LatticeVertex)
    requires
        1 <= n <= MAX_SUBDIVISIONS,
        0 <= f < 20,
        v.on_level(n),
        !v.is_corner(),
        !v.is_interior(),
    ensures
        0 <= window_of_point(n, v) < n - 1,
        0 <= window_of(n, window_of_point(n, v), is_first(f, side_of(v))) < n - 1,
        face_index(n, f, v) == 12 + edge_of_side(f, side_of(v)) * (n - 1) + window_of(
            n,
            window_of_point(n, v),
            is_first(f, side_of(v)),
        ),
{
}

/// The three triangles of a window of the run along a side are the three
/// triangles around the point of that window, in their order around it.
pub proof fn lemma_window_sectors(n: int, v: LatticeVertex)
    requires
        1 <= n <= MAX_SUBDIVISIONS,
        v.on_level(n),
        !v.is_corner(),
        !v.is_interior(),
    ensures
        ({
            let run = if side_of(v) == 0 {
                uv_run(n)
            } else if side_of(v) == 1 {
                vw_run(n)
            } else {
                wu_run(n)
            };
            let w = window_of_point(n, v);
            let s = first_sector(v);
            &&& run[2 * w] == sector(n, v.x as int, v.y as int, s)
            &&& run[2 * w + 1] == sector(n, v.x as int, v.y as int, (s + 1) % 6)
            &&& run[2 * w + 2] == sector(n, v.x as int, v.y as int, (s + 2) % 6)
        }),
{
    let w = window_of_point(n, v);
    if v.z == 0 {
        lemma_uv_window(n, w);
    } else if v.x == 0 {
        lemma_vw_window(n, w);
    } else {
        lemma_wu_window(n, w);
    }
}

/// The places of the triangles of one side of an edge in a hexagon on that
/// edge.
pub proof fn lemma_edge_face_entries(n: int, e: int, k: int, first: bool)
    requires
        1 <= n <= MAX_SUBDIVISIONS,
        0 <= e < 30,
        0 <= k < n - 1,
    ensures
        ({
            let face = edge_face(n, e, k);
            let base = if first {
                0int
            } else {
                3int
            };
            let run = edge_run(n, e / 5, first);
            let w = window_of(n, k, first);
            let f = edge_side_face(e, first);
            &&& face.len() == 6
            &&& face[base] == (f, run[2 * w] as int)
            &&& face[base + 1] == (f, run[2 * w + 1] as int)
            &&& face[base + 2] == (f, run[2 * w + 2] as int)
        }),
{
}

/// The hexagon of a side point: where it stands, and where in it the three
/// triangles around the point on this seed face stand.
pub proof fn lemma_side_face(n: int, f: int, v: LatticeVertex)
    requires
        1 <= n <= MAX_SUBDIVISIONS,
        0 <= f < 20,
        v.on_level(n),
        !v.is_corner(),
        !v.is_interior(),
    ensures
        side_face_known(n, f, v),
{
    let side = side_of(v);
    let e = edge_of_side(f, side);
    let first = is_first(f, side);
    let w = window_of_point(n, v);
    let k = window_of(n, w, first);
    lemma_edge_of_side(n, f, side);
    lemma_side_place(n, f, v);
    lemma_window_sectors(n, v);
    lemma_edge_face_at(n, e, k);
    assert(window_of(n, k, first) == w);
    lemma_edge_face_entries(n, e, k, first);
}

/// Two triangles that follow each other around a point of a seed face
/// follow each other in the face of that point. The result is the place of
/// the first of the two.
#[verifier::rlimit(30)]
pub proof fn lemma_fan(n: int, f: int, v: LatticeVertex, s: int) -> (p: int)
    requires
        1 <= n <= MAX_SUBDIVISIONS,
        0 <= f < 20,
        v.on_level(n),
        0 <= s < 6,
        has_sector(n, v.x as int, v.y as int, s),
        has_sector(n, v.x as int, v.y as int, (s + 1) % 6),
    ensures
        ({
            let face = face_list(n)[face_index(n, f, v)];
            &&& 0 <= p < face.len()
            &&& face[p] == (f, sector(n, v.x as int, v.y as int, s))
            &&& face[next_place(face.len() as int, p)] == (
                f,
                sector(n, v.x as int, v.y as int, (s + 1) % 6),
            )
        }),
{
    if v.is_interior() {
        lemma_face_face_at(n, f, v.x as int, v.y as int);
        assert(v == lattice_point(n, v.x as int, v.y as int));
        s
    } else {
        lemma_side_face(n, f, v);
        let base = if is_first(f, side_of(v)) {
            0int
        } else {
            3int
        };
        if s == first_sector(v) {
            base
        } else {
            base + 1
        }
    }
}

/// Neighbour `d` of the point `(x, y)`.
pub open spec fn neighbour(n: int, v: LatticeVertex, d: int) -> LatticeVertex {
    if d == 0 {
        lattice_point(n, v.x - 1, v.y as int)
    } else if d == 1 {
        lattice_point(n, v.x - 1, v.y + 1)
    } else if d == 2 {
        lattice_point(n, v.x as int, v.y + 1)
    } else if d == 3 {
        lattice_point(n, v.x + 1, v.y as int)
    } else if d == 4 {
        lattice_point(n, v.x + 1, v.y - 1)
    } else {
        lattice_point(n, v.x as int, v.y - 1)
    }
}

/// The triangles that have both ends of a lattice edge as corners are the
/// two triangles on either side of the edge, as far as they exist.
pub proof fn lemma_flank(n: int, a: int, b: int, t: int)
    requires
        1 <= n <= MAX_SUBDIVISIONS,
        is_lattice_edge(n, a, b),
        touches(n, t, a),
        touches(n, t, b),
    ensures
        ({
            let p = vertex_at(n, a);
            let q = vertex_at(n, b);
            let d: int = if q.x == p.x {
                2
            } else if q.y == p.y {
                3
            } else {
                4
            };
            ||| t == sector(n, p.x as int, p.y as int, d) && has_sector(
                n,
                p.x as int,
                p.y as int,
                d,
            )
            ||| t == sector(n, p.x as int, p.y as int, d + 1) && has_sector(
                n,
                p.x as int,
                p.y as int,
                d + 1,
            )
        }),
{
    let p = vertex_at(n, a);
    let q = vertex_at(n, b);
    lemma_vertex_at(n, a);
    lemma_vertex_at(n, b);
    lemma_counts(n);
    lemma_count_bounds(n);
    lemma_triangle_corners(n, t);
    assert(a != b);
}

/// The seed face on the other side of a side of seed face `f`.
pub open spec fn other_face(f: int, side: int) -> int {
    edge_side_face(edge_of_side(f, side), !is_first(f, side))
}

/// Across its three sides a seed face has three different neighbours.
pub proof fn lemma_other_faces(f: int)
    requires
        0 <= f < 20,
    ensures
        other_face(f, 0) != f,
        other_face(f, 1) != f,
        other_face(f, 2) != f,
        other_face(f, 0) != other_face(f, 1),
        other_face(f, 0) != other_face(f, 2),
        other_face(f, 1) != other_face(f, 2),
{
}

/// The corners of the face of a point of a seed face that is no corner of
/// the seed face lie on that seed face or, for a point on a side, on the
/// seed face across that side.
pub proof fn lemma_seed_faces_of_face(n: int, f: int, v: LatticeVertex, c: (int, int))
    requires
        1 <= n <= MAX_SUBDIVISIONS,
        0 <= f < 20,
        v.on_level(n),
        !v.is_corner(),
        face_list(n)[face_index(n, f, v)].contains(c),
    ensures
        c.0 == f || (!v.is_interior() && c.0 == other_face(f, side_of(v))),
{
    if v.is_interior() {
        lemma_face_face_at(n, f, v.x as int, v.y as int);
        assert(v == lattice_point(n, v.x as int, v.y as int));
        lemma_contains_six(interior_face(n, f, v.x as int, v.y as int), c);
    } else {
        lemma_side_face(n, f, v);
        let e = edge_of_side(f, side_of(v));
        let first = is_first(f, side_of(v));
        let k = window_of(n, window_of_point(n, v), first);
        lemma_contains_six(edge_face(n, e, k), c);
    }
}

/// The faces of the two ends of a lattice edge that has a triangle of the
/// seed face on either side have exactly the side between those two
/// triangles in common.
pub proof fn lemma_inner_edge_exact(n: int, f: int, a: int, b: int)
    requires
        1 <= n <= MAX_SUBDIVISIONS,
        0 <= f < 20,
        is_lattice_edge(n, a, b),
        ({
            let p = vertex_at(n, a);
            let q = vertex_at(n, b);
            let d: int = if q.x == p.x {
                2
            } else if q.y == p.y {
                3
            } else {
                4
            };
            has_sector(n, p.x as int, p.y as int, d) && has_sector(
                n,
                p.x as int,
                p.y as int,
                d + 1,
            )
        }),
    ensures
        share_exactly_a_side(
            face_list(n)[face_index(n, f, vertex_at(n, a))],
            face_list(n)[face_index(n, f, vertex_at(n, b))],
        ),
{
    let v = vertex_at(n, a);
    let w = vertex_at(n, b);
    lemma_vertex_at(n, a);
    lemma_vertex_at(n, b);
    let d: int = if w.x == v.x {
        2
    } else if w.y == v.y {
        3
    } else {
        4
    };
    assert(w == neighbour(n, v, d));
    let p = lemma_fan(n, f, v, d);
    let q = lemma_fan(n, f, w, (d + 3) % 6);
    let first = face_list(n)[face_index(n, f, v)];
    let second = face_list(n)[face_index(n, f, w)];
    let one = sector(n, v.x as int, v.y as int, d);
    let two = sector(n, v.x as int, v.y as int, d + 1);
    assert(one == sector(n, w.x as int, w.y as int, (d + 4) % 6));
    assert(two == sector(n, w.x as int, w.y as int, (d + 3) % 6));
    assert(same_side(first, p, second, q));
    lemma_count_bounds(n);
    lemma_interior_sectors(n, v.x as int, v.y as int, d);
    assert(one != two);
    lemma_other_faces(f);
    assert forall|c: (int, int)| first.contains(c) && second.contains(c) implies c == first[p]
        || c == first[next_place(first.len() as int, p)] by {
        lemma_seed_faces_of_face(n, f, v, c);
        lemma_seed_faces_of_face(n, f, w, c);
        assert(c.0 == f);
        lemma_face_of_point(n, f, a, c.1);
        lemma_face_of_point(n, f, b, c.1);
        lemma_flank(n, a, b, c.1);
    }
}

/// Whether the two faces have a corner in common and all they have in common
/// lies on seed face `f`.
pub open spec fn share_within(first: Seq<(int, int)>, second: Seq<(int, int)>, f: int) -> bool {
    &&& exists|t: int| #[trigger] first.contains((f, t)) && second.contains((f, t))
    &&& forall|c: (int, int)| first.contains(c) && second.contains(c) ==> c.0 == f
}

/// What the faces of the two ends of a lattice edge with a triangle of the
/// seed face on either side have in common lies on that seed face.
pub proof fn lemma_inner_common(n: int, f: int, a: int, b: int)
    requires
        1 <= n <= MAX_SUBDIVISIONS,
        0 <= f < 20,
        is_lattice_edge(n, a, b),
        ({
            let p = vertex_at(n, a);
            let q = vertex_at(n, b);
            let d: int = if q.x == p.x {
                2
            } else if q.y == p.y {
                3
            } else {
                4
            };
            has_sector(n, p.x as int, p.y as int, d) && has_sector(
                n,
                p.x as int,
                p.y as int,
                d + 1,
            )
        }),
    ensures
        share_within(
            face_list(n)[face_index(n, f, vertex_at(n, a))],
            face_list(n)[face_index(n, f, vertex_at(n, b))],
            f,
        ),
        share_within(
            face_list(n)[face_index(n, f, vertex_at(n, b))],
            face_list(n)[face_index(n, f, vertex_at(n, a))],
            f,
        ),
{
    let v = vertex_at(n, a);
    let w = vertex_at(n, b);
    lemma_vertex_at(n, a);
    lemma_vertex_at(n, b);
    let d: int = if w.x == v.x {
        2
    } else if w.y == v.y {
        3
    } else {
        4
    };
    assert(w == neighbour(n, v, d));
    let p = lemma_fan(n, f, v, d);
    let q = lemma_fan(n, f, w, (d + 3) % 6);
    let first = face_list(n)[face_index(n, f, v)];
    let second = face_list(n)[face_index(n, f, w)];
    let one = sector(n, v.x as int, v.y as int, d);
    assert(one == sector(n, w.x as int, w.y as int, (d + 4) % 6));
    assert(first[p] == (f, one));
    assert(second[next_place(second.len() as int, q)] == (f, one));
    assert(first.contains((f, one)));
    assert(second.contains((f, one)));
    lemma_other_faces(f);
    assert forall|c: (int, int)| first.contains(c) && second.contains(c) implies c.0 == f by {
        lemma_seed_faces_of_face(n, f, v, c);
        lemma_seed_faces_of_face(n, f, w, c);
    }
}

/// Two triangles that follow each other around a point are different
/// triangles: one of them is an upward and the other a downward triangle.
pub proof fn lemma_interior_sectors(n: int, x: int, y: int, d: int)
    requires
        1 <= n <= MAX_SUBDIVISIONS,
        0 <= x,
        0 <= y,
        x + y <= n,
        0 <= d < 6,
        has_sector(n, x, y, d),
        has_sector(n, x, y, (d + 1) % 6),
    ensures
        sector(n, x, y, d) != sector(n, x, y, (d + 1) % 6),
        0 <= sector(n, x, y, d) < triangle_count(n),
        0 <= sector(n, x, y, (d + 1) % 6) < triangle_count(n),
{
    lemma_count_bounds(n);
    lemma_counts(n);
    if x >= 1 {
        lemma_triangle_index_bounds(n, x, y);
        if y >= 1 {
            lemma_triangle_index_bounds(n, x - 1, y);
        }
        if x + y < n {
            lemma_triangle_index_bounds(n, x - 1, y + 1);
        }
    }
    if x + y < n {
        lemma_triangle_index_bounds(n, x + 1, y);
    }
    if y >= 1 {
        lemma_triangle_index_bounds(n, x + 1, y - 1);
        if x + y < n {
            lemma_triangle_index_bounds(n, x, y);
        }
    }
}

/// The pentagon at the beginning of edge `e` of the icosahedron: the corner
/// of the icosahedron before the first hexagon on the edge.
pub open spec fn start_pentagon(e: int) -> int {
    let g = e / 5;
    let j = e % 5;
    if g == 0 {
        2 + j
    } else if g == 1 {
        2 + (j + 4) % 5
    } else if g == 2 {
        7 + j
    } else if g == 3 {
        7 + (j + 1) % 5
    } else if g == 4 {
        7 + j
    } else {
        1
    }
}

/// The place in the pentagon at the beginning of edge `e` of the side that
/// crosses the edge.
pub open spec fn start_place(e: int) -> int {
    let g = e / 5;
    let j = e % 5;
    if g == 0 {
        0
    } else if g == 1 {
        1
    } else if g == 2 {
        3
    } else if g == 3 {
        2
    } else if g == 4 {
        4
    } else {
        j
    }
}

/// The pentagon at the end of edge `e` of the icosahedron.
pub open spec fn end_pentagon(e: int) -> int {
    let g = e / 5;
    let j = e % 5;
    if g == 0 {
        0
    } else if g <= 3 {
        2 + j
    } else {
        7 + (j + 1) % 5
    }
}

/// The place in the pentagon at the end of edge `e` of the side that
/// crosses the edge.
pub open spec fn end_place(e: int) -> int {
    let g = e / 5;
    let j = e % 5;
    if g == 0 {
        4 - (j + 1) % 5
    } else if g == 1 {
        4
    } else if g == 2 {
        3
    } else if g == 3 {
        2
    } else if g == 4 {
        1
    } else {
        0
    }
}

/// The faces along edge `e` from one corner of the icosahedron to the
/// other: the pentagon at the beginning, the hexagons on the edge, the
/// pentagon at the end.
pub open spec fn chain_face(n: int, e: int, m: int) -> int {
    if m <= 0 {
        start_pentagon(e)
    } else if m >= n {
        end_pentagon(e)
    } else {
        12 + e * (n - 1) + (m - 1)
    }
}

/// Different points of a level have different indices.
pub proof fn lemma_index_injective(n: int, x: int, y: int, u: int, v: int)
    requires
        0 <= n <= MAX_SUBDIVISIONS,
        0 <= x,
        0 <= y,
        x + y <= n,
        0 <= u,
        0 <= v,
        u + v <= n,
        x != u || y != v,
    ensures
        vertex_index(n, x, y) != vertex_index(n, u, v),
{
    lemma_vertex_at_index(n, x, y);
    lemma_vertex_at_index(n, u, v);
}

/// No triangle comes twice in the run along side `uv`.
pub proof fn lemma_uv_run_repeats_nothing(n: int, i: int, j: int)
    requires
        1 <= n <= MAX_SUBDIVISIONS,
        0 <= i < j < 2 * n - 1,
    ensures
        uv_run(n)[i] != uv_run(n)[j],
{
    lemma_count_bounds(n);
    lemma_triangle_index_bounds(n, n - i / 2, i / 2);
    lemma_triangle_index_bounds(n, n - j / 2, j / 2);
    if i % 2 == 1 {
        lemma_triangle_index_bounds(n, n - 2 - i / 2, i / 2 + 1);
    }
    if j % 2 == 1 {
        lemma_triangle_index_bounds(n, n - 2 - j / 2, j / 2 + 1);
    }
    if i % 2 == 0 && j % 2 == 0 {
        lemma_index_injective(n, n - i / 2, i / 2, n - j / 2, j / 2);
    } else if i % 2 == 1 && j % 2 == 1 {
        lemma_index_injective(n - 2, n - 2 - i / 2, i / 2, n - 2 - j / 2, j / 2);
    }
}

/// No triangle comes twice in the run along side `vw`.
pub proof fn lemma_vw_run_repeats_nothing(n: int, i: int, j: int)
    requires
        1 <= n <= MAX_SUBDIVISIONS,
        0 <= i < j < 2 * n - 1,
    ensures
        vw_run(n)[i] != vw_run(n)[j],
{
    lemma_count_bounds(n);
    lemma_triangle_index_bounds(n, 1, n - 1 - i / 2);
    lemma_triangle_index_bounds(n, 1, n - 1 - j / 2);
    if i % 2 == 1 {
        lemma_triangle_index_bounds(n, 0, n - 1 - i / 2);
    }
    if j % 2 == 1 {
        lemma_triangle_index_bounds(n, 0, n - 1 - j / 2);
    }
    if i % 2 == 0 && j % 2 == 0 {
        lemma_index_injective(n, 1, n - 1 - i / 2, 1, n - 1 - j / 2);
    } else if i % 2 == 1 && j % 2 == 1 {
        lemma_index_injective(n - 2, 0, n - 2 - i / 2, 0, n - 2 - j / 2);
    }
}

/// No triangle comes twice in the run along side `wu`.
pub proof fn lemma_wu_run_repeats_nothing(n: int, i: int, j: int)
    requires
        1 <= n <= MAX_SUBDIVISIONS,
        0 <= i < j < 2 * n - 1,
    ensures
        wu_run(n)[i] != wu_run(n)[j],
{
    lemma_count_bounds(n);
    lemma_triangle_index_bounds(n, i / 2 + 1, 0);
    lemma_triangle_index_bounds(n, j / 2 + 1, 0);
    if i % 2 == 1 {
        lemma_triangle_index_bounds(n, i / 2, 1);
    }
    if j % 2 == 1 {
        lemma_triangle_index_bounds(n, j / 2, 1);
    }
    if i % 2 == 0 && j % 2 == 0 {
        lemma_index_injective(n, i / 2 + 1, 0, j / 2 + 1, 0);
    } else if i % 2 == 1 && j % 2 == 1 {
        lemma_index_injective(n - 2, i / 2, 0, j / 2, 0);
    }
}

/// No triangle comes twice in the run along either side of an edge.
pub proof fn lemma_run_repeats_nothing(n: int, g: int, first: bool, i: int, j: int)
    requires
        1 <= n <= MAX_SUBDIVISIONS,
        0 <= g < 6,
        0 <= i < 2 * n - 1,
        0 <= j < 2 * n - 1,
        i != j,
    ensures
        edge_run(n, g, first)[i] != edge_run(n, g, first)[j],
{
    let (lo, hi) = if i < j {
        (i, j)
    } else {
        (j, i)
    };
    lemma_uv_run_repeats_nothing(n, lo, hi);
    lemma_vw_run_repeats_nothing(n, lo, hi);
    lemma_wu_run_repeats_nothing(n, lo, hi);
}

/// Whether the two faces lie across edge `e` of the icosahedron from each
/// other's point of view: on either side of the edge they have a corner in
/// common, and all they have in common lies on the two seed faces at the
/// edge.
pub open spec fn share_seam(first: Seq<(int, int)>, second: Seq<(int, int)>, e: int) -> bool {
    let fa = edge_side_face(e, true);
    let fb = edge_side_face(e, false);
    &&& exists|t: int| #[trigger] first.contains((fa, t)) && second.contains((fa, t))
    &&& exists|t: int| #[trigger] first.contains((fb, t)) && second.contains((fb, t))
    &&& forall|c: (int, int)|
        first.contains(c) && second.contains(c) ==> c.0 == fa || c.0 == fb
}

/// Lying across an edge from each other goes both ways.
pub proof fn lemma_share_seam_symmetric(first: Seq<(int, int)>, second: Seq<(int, int)>, e: int)
    requires
        share_seam(first, second, e),
    ensures
        share_seam(second, first, e),
{
    let fa = edge_side_face(e, true);
    let fb = edge_side_face(e, false);
    let x = choose|t: int| #[trigger] first.contains((fa, t)) && second.contains((fa, t));
    let y = choose|t: int| #[trigger] first.contains((fb, t)) && second.contains((fb, t));
    assert(second.contains((fa, x)) && first.contains((fa, x)));
    assert(second.contains((fb, y)) && first.contains((fb, y)));
}

/// `lemma_chain_start` for the edges of group 0.
proof fn lemma_chain_start_zero(n: int, e: int)
    requires
        2 <= n <= MAX_SUBDIVISIONS,
        0 <= e < 5,
    ensures
        share_exactly_a_side(vertex_face(n, start_pentagon(e)), edge_face(n, e, 0)),
        share_seam(vertex_face(n, start_pentagon(e)), edge_face(n, e, 0), e),
{
    lemma_side_ends(n);
    let pentagon = vertex_face(n, start_pentagon(e));
    let hexagon = edge_face(n, e, 0);
    let p = start_place(e);
    assert(e / 5 == 0);
    assert(2 * n - 2 - 2 * 0 == 2 * n - 2);
    assert(pentagon[p] == hexagon[0]);
    assert(pentagon[next_place(5, p)] == hexagon[5]);
    assert(same_side(pentagon, p, hexagon, 5));
    assert forall|c: (int, int)| pentagon.contains(c) && hexagon.contains(c) implies (c
        == pentagon[p] || c == pentagon[next_place(5, p)]) && (c.0 == edge_side_face(e, true)
        || c.0 == edge_side_face(e, false)) by {
        lemma_contains_five(pentagon, c);
        lemma_contains_six(hexagon, c);
    }
    assert(pentagon.contains(hexagon[0]) && hexagon.contains(hexagon[0]));
    assert(pentagon.contains(hexagon[5]) && hexagon.contains(hexagon[5]));
    assert(pentagon.contains((edge_side_face(e, true), hexagon[0].1)));
    assert(pentagon.contains((edge_side_face(e, false), hexagon[5].1)));
}

/// `lemma_chain_end` for the edges of group 0.
proof fn lemma_chain_end_zero(n: int, e: int)
    requires
        2 <= n <= MAX_SUBDIVISIONS,
        0 <= e < 5,
    ensures
        share_exactly_a_side(vertex_face(n, end_pentagon(e)), edge_face(n, e, n - 2)),
        share_seam(vertex_face(n, end_pentagon(e)), edge_face(n, e, n - 2), e),
{
    lemma_side_ends(n);
    let pentagon = vertex_face(n, end_pentagon(e));
    let hexagon = edge_face(n, e, n - 2);
    let p = end_place(e);
    assert(e / 5 == 0);
    assert(2 * (n - 2) + 2 == 2 * n - 2);
    assert(2 * n - 4 - 2 * (n - 2) == 0);
    assert(pentagon[p] == hexagon[3]);
    assert(pentagon[next_place(5, p)] == hexagon[2]);
    assert(same_side(pentagon, p, hexagon, 2));
    assert forall|c: (int, int)| pentagon.contains(c) && hexagon.contains(c) implies (c
        == pentagon[p] || c == pentagon[next_place(5, p)]) && (c.0 == edge_side_face(e, true)
        || c.0 == edge_side_face(e, false)) by {
        lemma_contains_five(pentagon, c);
        lemma_contains_six(hexagon, c);
    }
    assert(pentagon.contains(hexagon[2]) && hexagon.contains(hexagon[2]));
    assert(pentagon.contains(hexagon[3]) && hexagon.contains(hexagon[3]));
    assert(pentagon.contains((edge_side_face(e, true), hexagon[2].1)));
    assert(pentagon.contains((edge_side_face(e, false), hexagon[3].1)));
}

/// `lemma_chain_single` for the edges of group 0.
proof fn lemma_chain_single_zero(e: int)
    requires
        0 <= e < 5,
    ensures
        share_exactly_a_side(vertex_face(1, start_pentagon(e)), vertex_face(1, end_pentagon(e))),
        share_seam(vertex_face(1, start_pentagon(e)), vertex_face(1, end_pentagon(e)), e),
{
    let first = vertex_face(1, start_pentagon(e));
    let second = vertex_face(1, end_pentagon(e));
    let p = start_place(e);
    let q = end_place(e);
    assert(e / 5 == 0);
    assert(corner_u(1) == corner_v(1) && corner_v(1) == corner_w(1));
    assert(first[p] == second[next_place(5, q)]);
    assert(first[next_place(5, p)] == second[q]);
    assert(same_side(first, p, second, q));
    assert(first[p].0 == edge_side_face(e, true));
    assert(first[next_place(5, p)].0 == edge_side_face(e, false));
    assert forall|c: (int, int)| first.contains(c) && second.contains(c) implies (c == first[p]
        || c == first[next_place(5, p)]) && (c.0 == edge_side_face(e, true) || c.0
        == edge_side_face(e, false)) by {
        lemma_contains_five(first, c);
        lemma_contains_five(second, c);
    }
    assert(first.contains(first[p]) && second.contains(first[p]));
    assert(first.contains(second[q]) && second.contains(second[q]));
    assert(first.contains((edge_side_face(e, true), first[p].1)));
    assert(first.contains((edge_side_face(e, false), second[q].1)));
}

/// `lemma_chain_start` for the edges of group 1.
proof fn lemma_chain_start_one(n: int, e: int)
    requires
        2 <= n <= MAX_SUBDIVISIONS,
        5 <= e < 10,
    ensures
        share_exactly_a_side(vertex_face(n, start_pentagon(e)), edge_face(n, e, 0)),
        share_seam(vertex_face(n, start_pentagon(e)), edge_face(n, e, 0), e),
{
    lemma_side_ends(n);
    let pentagon = vertex_face(n, start_pentagon(e));
    let hexagon = edge_face(n, e, 0);
    let p = start_place(e);
    assert(e / 5 == 1);
    assert(2 * n - 2 - 2 * 0 == 2 * n - 2);
    assert(pentagon[p] == hexagon[0]);
    assert(pentagon[next_place(5, p)] == hexagon[5]);
    assert(same_side(pentagon, p, hexagon, 5));
    assert forall|c: (int, int)| pentagon.contains(c) && hexagon.contains(c) implies (c
        == pentagon[p] || c == pentagon[next_place(5, p)]) && (c.0 == edge_side_face(e, true)
        || c.0 == edge_side_face(e, false)) by {
        lemma_contains_five(pentagon, c);
        lemma_contains_six(hexagon, c);
    }
    assert(pentagon.contains(hexagon[0]) && hexagon.contains(hexagon[0]));
    assert(pentagon.contains(hexagon[5]) && hexagon.contains(hexagon[5]));
    assert(pentagon.contains((edge_side_face(e, true), hexagon[0].1)));
    assert(pentagon.contains((edge_side_face(e, false), hexagon[5].1)));
}

/// `lemma_chain_end` for the edges of group 1.
proof fn lemma_chain_end_one(n: int, e: int)
    requires
        2 <= n <= MAX_SUBDIVISIONS,
        5 <= e < 10,
    ensures
        share_exactly_a_side(vertex_face(n, end_pentagon(e)), edge_face(n, e, n - 2)),
        share_seam(vertex_face(n, end_pentagon(e)), edge_face(n, e, n - 2), e),
{
    lemma_side_ends(n);
    let pentagon = vertex_face(n, end_pentagon(e));
    let hexagon = edge_face(n, e, n - 2);
    let p = end_place(e);
    assert(e / 5 == 1);
    assert(2 * (n - 2) + 2 == 2 * n - 2);
    assert(2 * n - 4 - 2 * (n - 2) == 0);
    assert(pentagon[p] == hexagon[3]);
    assert(pentagon[next_place(5, p)] == hexagon[2]);
    assert(same_side(pentagon, p, hexagon, 2));
    assert forall|c: (int, int)| pentagon.contains(c) && hexagon.contains(c) implies (c
        == pentagon[p] || c == pentagon[next_place(5, p)]) && (c.0 == edge_side_face(e, true)
        || c.0 == edge_side_face(e, false)) by {
        lemma_contains_five(pentagon, c);
        lemma_contains_six(hexagon, c);
    }
    assert(pentagon.contains(hexagon[2]) && hexagon.contains(hexagon[2]));
    assert(pentagon.contains(hexagon[3]) && hexagon.contains(hexagon[3]));
    assert(pentagon.contains((edge_side_face(e, true), hexagon[2].1)));
    assert(pentagon.contains((edge_side_face(e, false), hexagon[3].1)));
}

/// `lemma_chain_single` for the edges of group 1.
proof fn lemma_chain_single_one(e: int)
    requires
        5 <= e < 10,
    ensures
        share_exactly_a_side(vertex_face(1, start_pentagon(e)), vertex_face(1, end_pentagon(e))),
        share_seam(vertex_face(1, start_pentagon(e)), vertex_face(1, end_pentagon(e)), e),
{
    let first = vertex_face(1, start_pentagon(e));
    let second = vertex_face(1, end_pentagon(e));
    let p = start_place(e);
    let q = end_place(e);
    assert(e / 5 == 1);
    assert(corner_u(1) == corner_v(1) && corner_v(1) == corner_w(1));
    assert(first[p] == second[next_place(5, q)]);
    assert(first[next_place(5, p)] == second[q]);
    assert(same_side(first, p, second, q));
    assert(first[p].0 == edge_side_face(e, true));
    assert(first[next_place(5, p)].0 == edge_side_face(e, false));
    assert forall|c: (int, int)| first.contains(c) && second.contains(c) implies (c == first[p]
        || c == first[next_place(5, p)]) && (c.0 == edge_side_face(e, true) || c.0
        == edge_side_face(e, false)) by {
        lemma_contains_five(first, c);
        lemma_contains_five(second, c);
    }
    assert(first.contains(first[p]) && second.contains(first[p]));
    assert(first.contains(second[q]) && second.contains(second[q]));
    assert(first.contains((edge_side_face(e, true), first[p].1)));
    assert(first.contains((edge_side_face(e, false), second[q].1)));
}

/// `lemma_chain_start` for the edges of group 2.
proof fn lemma_chain_start_two(n: int, e: int)
    requires
        2 <= n <= MAX_SUBDIVISIONS,
        10 <= e < 15,
    ensures
        share_exactly_a_side(vertex_face(n, start_pentagon(e)), edge_face(n, e, 0)),
        share_seam(vertex_face(n, start_pentagon(e)), edge_face(n, e, 0), e),
{
    lemma_side_ends(n);
    let pentagon = vertex_face(n, start_pentagon(e));
    let hexagon = edge_face(n, e, 0);
    let p = start_place(e);
    assert(e / 5 == 2);
    assert(2 * n - 2 - 2 * 0 == 2 * n - 2);
    assert(pentagon[p] == hexagon[0]);
    assert(pentagon[next_place(5, p)] == hexagon[5]);
    assert(same_side(pentagon, p, hexagon, 5));
    assert forall|c: (int, int)| pentagon.contains(c) && hexagon.contains(c) implies (c
        == pentagon[p] || c == pentagon[next_place(5, p)]) && (c.0 == edge_side_face(e, true)
        || c.0 == edge_side_face(e, false)) by {
        lemma_contains_five(pentagon, c);
        lemma_contains_six(hexagon, c);
    }
    assert(pentagon.contains(hexagon[0]) && hexagon.contains(hexagon[0]));
    assert(pentagon.contains(hexagon[5]) && hexagon.contains(hexagon[5]));
    assert(pentagon.contains((edge_side_face(e, true), hexagon[0].1)));
    assert(pentagon.contains((edge_side_face(e, false), hexagon[5].1)));
}

/// `lemma_chain_end` for the edges of group 2.
proof fn lemma_chain_end_two(n: int, e: int)
    requires
        2 <= n <= MAX_SUBDIVISIONS,
        10 <= e < 15,
    ensures
        share_exactly_a_side(vertex_face(n, end_pentagon(e)), edge_face(n, e, n - 2)),
        share_seam(vertex_face(n, end_pentagon(e)), edge_face(n, e, n - 2), e),
{
    lemma_side_ends(n);
    let pentagon = vertex_face(n, end_pentagon(e));
    let hexagon = edge_face(n, e, n - 2);
    let p = end_place(e);
    assert(e / 5 == 2);
    assert(2 * (n - 2) + 2 == 2 * n - 2);
    assert(2 * n - 4 - 2 * (n - 2) == 0);
    assert(pentagon[p] == hexagon[3]);
    assert(pentagon[next_place(5, p)] == hexagon[2]);
    assert(same_side(pentagon, p, hexagon, 2));
    assert forall|c: (int, int)| pentagon.contains(c) && hexagon.contains(c) implies (c
        == pentagon[p] || c == pentagon[next_place(5, p)]) && (c.0 == edge_side_face(e, true)
        || c.0 == edge_side_face(e, false)) by {
        lemma_contains_five(pentagon, c);
        lemma_contains_six(hexagon, c);
    }
    assert(pentagon.contains(hexagon[2]) && hexagon.contains(hexagon[2]));
    assert(pentagon.contains(hexagon[3]) && hexagon.contains(hexagon[3]));
    assert(pentagon.contains((edge_side_face(e, true), hexagon[2].1)));
    assert(pentagon.contains((edge_side_face(e, false), hexagon[3].1)));
}

/// `lemma_chain_single` for the edges of group 2.
proof fn lemma_chain_single_two(e: int)
    requires
        10 <= e < 15,
    ensures
        share_exactly_a_side(vertex_face(1, start_pentagon(e)), vertex_face(1, end_pentagon(e))),
        share_seam(vertex_face(1, start_pentagon(e)), vertex_face(1, end_pentagon(e)), e),
{
    let first = vertex_face(1, start_pentagon(e));
    let second = vertex_face(1, end_pentagon(e));
    let p = start_place(e);
    let q = end_place(e);
    assert(e / 5 == 2);
    assert(corner_u(1) == corner_v(1) && corner_v(1) == corner_w(1));
    assert(first[p] == second[next_place(5, q)]);
    assert(first[next_place(5, p)] == second[q]);
    assert(same_side(first, p, second, q));
    assert(first[p].0 == edge_side_face(e, true));
    assert(first[next_place(5, p)].0 == edge_side_face(e, false));
    assert forall|c: (int, int)| first.contains(c) && second.contains(c) implies (c == first[p]
        || c == first[next_place(5, p)]) && (c.0 == edge_side_face(e, true) || c.0
        == edge_side_face(e, false)) by {
        lemma_contains_five(first, c);
        lemma_contains_five(second, c);
    }
    assert(first.contains(first[p]) && second.contains(first[p]));
    assert(first.contains(second[q]) && second.contains(second[q]));
    assert(first.contains((edge_side_face(e, true), first[p].1)));
    assert(first.contains((edge_side_face(e, false), second[q].1)));
}

/// `lemma_chain_start` for the edges of group 3.
proof fn lemma_chain_start_three(n: int, e: int)
    requires
        2 <= n <= MAX_SUBDIVISIONS,
        15 <= e < 20,
    ensures
        share_exactly_a_side(vertex_face(n, start_pentagon(e)), edge_face(n, e, 0)),
        share_seam(vertex_face(n, start_pentagon(e)), edge_face(n, e, 0), e),
{
    lemma_side_ends(n);
    let pentagon = vertex_face(n, start_pentagon(e));
    let hexagon = edge_face(n, e, 0);
    let p = start_place(e);
    assert(e / 5 == 3);
    assert(2 * n - 2 - 2 * 0 == 2 * n - 2);
    assert(pentagon[p] == hexagon[0]);
    assert(pentagon[next_place(5, p)] == hexagon[5]);
    assert(same_side(pentagon, p, hexagon, 5));
    assert forall|c: (int, int)| pentagon.contains(c) && hexagon.contains(c) implies (c
        == pentagon[p] || c == pentagon[next_place(5, p)]) && (c.0 == edge_side_face(e, true)
        || c.0 == edge_side_face(e, false)) by {
        lemma_contains_five(pentagon, c);
        lemma_contains_six(hexagon, c);
    }
    assert(pentagon.contains(hexagon[0]) && hexagon.contains(hexagon[0]));
    assert(pentagon.contains(hexagon[5]) && hexagon.contains(hexagon[5]));
    assert(pentagon.contains((edge_side_face(e, true), hexagon[0].1)));
    assert(pentagon.contains((edge_side_face(e, false), hexagon[5].1)));
}

/// `lemma_chain_end` for the edges of group 3.
proof fn lemma_chain_end_three(n: int, e: int)
    requires
        2 <= n <= MAX_SUBDIVISIONS,
        15 <= e < 20,
    ensures
        share_exactly_a_side(vertex_face(n, end_pentagon(e)), edge_face(n, e, n - 2)),
        share_seam(vertex_face(n, end_pentagon(e)), edge_face(n, e, n - 2), e),
{
    lemma_side_ends(n);
    let pentagon = vertex_face(n, end_pentagon(e));
    let hexagon = edge_face(n, e, n - 2);
    let p = end_place(e);
    assert(e / 5 == 3);
    assert(2 * (n - 2) + 2 == 2 * n - 2);
    assert(2 * n - 4 - 2 * (n - 2) == 0);
    assert(pentagon[p] == hexagon[3]);
    assert(pentagon[next_place(5, p)] == hexagon[2]);
    assert(same_side(pentagon, p, hexagon, 2));
    assert forall|c: (int, int)| pentagon.contains(c) && hexagon.contains(c) implies (c
        == pentagon[p] || c == pentagon[next_place(5, p)]) && (c.0 == edge_side_face(e, true)
        || c.0 == edge_side_face(e, false)) by {
        lemma_contains_five(pentagon, c);
        lemma_contains_six(hexagon, c);
    }
    assert(pentagon.contains(hexagon[2]) && hexagon.contains(hexagon[2]));
    assert(pentagon.contains(hexagon[3]) && hexagon.contains(hexagon[3]));
    assert(pentagon.contains((edge_side_face(e, true), hexagon[2].1)));
    assert(pentagon.contains((edge_side_face(e, false), hexagon[3].1)));
}

/// `lemma_chain_single` for the edges of group 3.
proof fn lemma_chain_single_three(e: int)
    requires
        15 <= e < 20,
    ensures
        share_exactly_a_side(vertex_face(1, start_pentagon(e)), vertex_face(1, end_pentagon(e))),
        share_seam(vertex_face(1, start_pentagon(e)), vertex_face(1, end_pentagon(e)), e),
{
    let first = vertex_face(1, start_pentagon(e));
    let second = vertex_face(1, end_pentagon(e));
    let p = start_place(e);
    let q = end_place(e);
    assert(e / 5 == 3);
    assert(corner_u(1) == corner_v(1) && corner_v(1) == corner_w(1));
    assert(first[p] == second[next_place(5, q)]);
    assert(first[next_place(5, p)] == second[q]);
    assert(same_side(first, p, second, q));
    assert(first[p].0 == edge_side_face(e, true));
    assert(first[next_place(5, p)].0 == edge_side_face(e, false));
    assert forall|c: (int, int)| first.contains(c) && second.contains(c) implies (c == first[p]
        || c == first[next_place(5, p)]) && (c.0 == edge_side_face(e, true) || c.0
        == edge_side_face(e, false)) by {
        lemma_contains_five(first, c);
        lemma_contains_five(second, c);
    }
    assert(first.contains(first[p]) && second.contains(first[p]));
    assert(first.contains(second[q]) && second.contains(second[q]));
    assert(first.contains((edge_side_face(e, true), first[p].1)));
    assert(first.contains((edge_side_face(e, false), second[q].1)));
}

/// `lemma_chain_start` for the edges of group 4.
proof fn lemma_chain_start_four(n: int, e: int)
    requires
        2 <= n <= MAX_SUBDIVISIONS,
        20 <= e < 25,
    ensures
        share_exactly_a_side(vertex_face(n, start_pentagon(e)), edge_face(n, e, 0)),
        share_seam(vertex_face(n, start_pentagon(e)), edge_face(n, e, 0), e),
{
    lemma_side_ends(n);
    let pentagon = vertex_face(n, start_pentagon(e));
    let hexagon = edge_face(n, e, 0);
    let p = start_place(e);
    assert(e / 5 == 4);
    assert(2 * n - 2 - 2 * 0 == 2 * n - 2);
    assert(pentagon[p] == hexagon[0]);
    assert(pentagon[next_place(5, p)] == hexagon[5]);
    assert(same_side(pentagon, p, hexagon, 5));
    assert forall|c: (int, int)| pentagon.contains(c) && hexagon.contains(c) implies (c
        == pentagon[p] || c == pentagon[next_place(5, p)]) && (c.0 == edge_side_face(e, true)
        || c.0 == edge_side_face(e, false)) by {
        lemma_contains_five(pentagon, c);
        lemma_contains_six(hexagon, c);
    }
    assert(pentagon.contains(hexagon[0]) && hexagon.contains(hexagon[0]));
    assert(pentagon.contains(hexagon[5]) && hexagon.contains(hexagon[5]));
    assert(pentagon.contains((edge_side_face(e, true), hexagon[0].1)));
    assert(pentagon.contains((edge_side_face(e, false), hexagon[5].1)));
}

/// `lemma_chain_end` for the edges of group 4.
proof fn lemma_chain_end_four(n: int, e: int)
    requires
        2 <= n <= MAX_SUBDIVISIONS,
        20 <= e < 25,
    ensures
        share_exactly_a_side(vertex_face(n, end_pentagon(e)), edge_face(n, e, n - 2)),
        share_seam(vertex_face(n, end_pentagon(e)), edge_face(n, e, n - 2), e),
{
    lemma_side_ends(n);
    let pentagon = vertex_face(n, end_pentagon(e));
    let hexagon = edge_face(n, e, n - 2);
    let p = end_place(e);
    assert(e / 5 == 4);
    assert(2 * (n - 2) + 2 == 2 * n - 2);
    assert(2 * n - 4 - 2 * (n - 2) == 0);
    assert(pentagon[p] == hexagon[3]);
    assert(pentagon[next_place(5, p)] == hexagon[2]);
    assert(same_side(pentagon, p, hexagon, 2));
    assert forall|c: (int, int)| pentagon.contains(c) && hexagon.contains(c) implies (c
        == pentagon[p] || c == pentagon[next_place(5, p)]) && (c.0 == edge_side_face(e, true)
        || c.0 == edge_side_face(e, false)) by {
        lemma_contains_five(pentagon, c);
        lemma_contains_six(hexagon, c);
    }
    assert(pentagon.contains(hexagon[2]) && hexagon.contains(hexagon[2]));
    assert(pentagon.contains(hexagon[3]) && hexagon.contains(hexagon[3]));
    assert(pentagon.contains((edge_side_face(e, true), hexagon[2].1)));
    assert(pentagon.contains((edge_side_face(e, false), hexagon[3].1)));
}

/// `lemma_chain_single` for the edges of group 4.
proof fn lemma_chain_single_four(e: int)
    requires
        20 <= e < 25,
    ensures
        share_exactly_a_side(vertex_face(1, start_pentagon(e)), vertex_face(1, end_pentagon(e))),
        share_seam(vertex_face(1, start_pentagon(e)), vertex_face(1, end_pentagon(e)), e),
{
    let first = vertex_face(1, start_pentagon(e));
    let second = vertex_face(1, end_pentagon(e));
    let p = start_place(e);
    let q = end_place(e);
    assert(e / 5 == 4);
    assert(corner_u(1) == corner_v(1) && corner_v(1) == corner_w(1));
    assert(first[p] == second[next_place(5, q)]);
    assert(first[next_place(5, p)] == second[q]);
    assert(same_side(first, p, second, q));
    assert(first[p].0 == edge_side_face(e, true));
    assert(first[next_place(5, p)].0 == edge_side_face(e, false));
    assert forall|c: (int, int)| first.contains(c) && second.contains(c) implies (c == first[p]
        || c == first[next_place(5, p)]) && (c.0 == edge_side_face(e, true) || c.0
        == edge_side_face(e, false)) by {
        lemma_contains_five(first, c);
        lemma_contains_five(second, c);
    }
    assert(first.contains(first[p]) && second.contains(first[p]));
    assert(first.contains(second[q]) && second.contains(second[q]));
    assert(first.contains((edge_side_face(e, true), first[p].1)));
    assert(first.contains((edge_side_face(e, false), second[q].1)));
}

/// `lemma_chain_start` for the edges of group 5.
proof fn lemma_chain_start_five(n: int, e: int)
    requires
        2 <= n <= MAX_SUBDIVISIONS,
        25 <= e < 30,
    ensures
        share_exactly_a_side(vertex_face(n, start_pentagon(e)), edge_face(n, e, 0)),
        share_seam(vertex_face(n, start_pentagon(e)), edge_face(n, e, 0), e),
{
    lemma_side_ends(n);
    let pentagon = vertex_face(n, start_pentagon(e));
    let hexagon = edge_face(n, e, 0);
    let p = start_place(e);
    assert(e / 5 == 5);
    assert(2 * n - 2 - 2 * 0 == 2 * n - 2);
    assert(pentagon[p] == hexagon[0]);
    assert(pentagon[next_place(5, p)] == hexagon[5]);
    assert(same_side(pentagon, p, hexagon, 5));
    assert forall|c: (int, int)| pentagon.contains(c) && hexagon.contains(c) implies (c
        == pentagon[p] || c == pentagon[next_place(5, p)]) && (c.0 == edge_side_face(e, true)
        || c.0 == edge_side_face(e, false)) by {
        lemma_contains_five(pentagon, c);
        lemma_contains_six(hexagon, c);
    }
    assert(pentagon.contains(hexagon[0]) && hexagon.contains(hexagon[0]));
    assert(pentagon.contains(hexagon[5]) && hexagon.contains(hexagon[5]));
    assert(pentagon.contains((edge_side_face(e, true), hexagon[0].1)));
    assert(pentagon.contains((edge_side_face(e, false), hexagon[5].1)));
}

/// `lemma_chain_end` for the edges of group 5.
proof fn lemma_chain_end_five(n: int, e: int)
    requires
        2 <= n <= MAX_SUBDIVISIONS,
        25 <= e < 30,
    ensures
        share_exactly_a_side(vertex_face(n, end_pentagon(e)), edge_face(n, e, n - 2)),
        share_seam(vertex_face(n, end_pentagon(e)), edge_face(n, e, n - 2), e),
{
    lemma_side_ends(n);
    let pentagon = vertex_face(n, end_pentagon(e));
    let hexagon = edge_face(n, e, n - 2);
    let p = end_place(e);
    assert(e / 5 == 5);
    assert(2 * (n - 2) + 2 == 2 * n - 2);
    assert(2 * n - 4 - 2 * (n - 2) == 0);
    assert(pentagon[p] == hexagon[3]);
    assert(pentagon[next_place(5, p)] == hexagon[2]);
    assert(same_side(pentagon, p, hexagon, 2));
    assert forall|c: (int, int)| pentagon.contains(c) && hexagon.contains(c) implies (c
        == pentagon[p] || c == pentagon[next_place(5, p)]) && (c.0 == edge_side_face(e, true)
        || c.0 == edge_side_face(e, false)) by {
        lemma_contains_five(pentagon, c);
        lemma_contains_six(hexagon, c);
    }
    assert(pentagon.contains(hexagon[2]) && hexagon.contains(hexagon[2]));
    assert(pentagon.contains(hexagon[3]) && hexagon.contains(hexagon[3]));
    assert(pentagon.contains((edge_side_face(e, true), hexagon[2].1)));
    assert(pentagon.contains((edge_side_face(e, false), hexagon[3].1)));
}

/// `lemma_chain_single` for the edges of group 5.
proof fn lemma_chain_single_five(e: int)
    requires
        25 <= e < 30,
    ensures
        share_exactly_a_side(vertex_face(1, start_pentagon(e)), vertex_face(1, end_pentagon(e))),
        share_seam(vertex_face(1, start_pentagon(e)), vertex_face(1, end_pentagon(e)), e),
{
    let first = vertex_face(1, start_pentagon(e));
    let second = vertex_face(1, end_pentagon(e));
    let p = start_place(e);
    let q = end_place(e);
    assert(e / 5 == 5);
    assert(corner_u(1) == corner_v(1) && corner_v(1) == corner_w(1));
    assert(first[p] == second[next_place(5, q)]);
    assert(first[next_place(5, p)] == second[q]);
    assert(same_side(first, p, second, q));
    assert(first[p].0 == edge_side_face(e, true));
    assert(first[next_place(5, p)].0 == edge_side_face(e, false));
    assert forall|c: (int, int)| first.contains(c) && second.contains(c) implies (c == first[p]
        || c == first[next_place(5, p)]) && (c.0 == edge_side_face(e, true) || c.0
        == edge_side_face(e, false)) by {
        lemma_contains_five(first, c);
        lemma_contains_five(second, c);
    }
    assert(first.contains(first[p]) && second.contains(first[p]));
    assert(first.contains(second[q]) && second.contains(second[q]));
    assert(first.contains((edge_side_face(e, true), first[p].1)));
    assert(first.contains((edge_side_face(e, false), second[q].1)));
}

/// The first hexagon on an edge and the pentagon before it have exactly a
/// side in common, across the edge.
proof fn lemma_chain_start(n: int, e: int)
    requires
        2 <= n <= MAX_SUBDIVISIONS,
        0 <= e < 30,
    ensures
        share_exactly_a_side(vertex_face(n, start_pentagon(e)), edge_face(n, e, 0)),
        share_seam(vertex_face(n, start_pentagon(e)), edge_face(n, e, 0), e),
{
    if e < 5 {
        lemma_chain_start_zero(n, e);
    } else if e < 10 {
        lemma_chain_start_one(n, e);
    } else if e < 15 {
        lemma_chain_start_two(n, e);
    } else if e < 20 {
        lemma_chain_start_three(n, e);
    } else if e < 25 {
        lemma_chain_start_four(n, e);
    } else {
        lemma_chain_start_five(n, e);
    }
}

/// The last hexagon on an edge and the pentagon after it have exactly a
/// side in common, across the edge.
proof fn lemma_chain_end(n: int, e: int)
    requires
        2 <= n <= MAX_SUBDIVISIONS,
        0 <= e < 30,
    ensures
        share_exactly_a_side(vertex_face(n, end_pentagon(e)), edge_face(n, e, n - 2)),
        share_seam(vertex_face(n, end_pentagon(e)), edge_face(n, e, n - 2), e),
{
    if e < 5 {
        lemma_chain_end_zero(n, e);
    } else if e < 10 {
        lemma_chain_end_one(n, e);
    } else if e < 15 {
        lemma_chain_end_two(n, e);
    } else if e < 20 {
        lemma_chain_end_three(n, e);
    } else if e < 25 {
        lemma_chain_end_four(n, e);
    } else {
        lemma_chain_end_five(n, e);
    }
}

/// At level 1 the two pentagons at the ends of an edge have exactly a side
/// in common, across the edge.
proof fn lemma_chain_single(e: int)
    requires
        0 <= e < 30,
    ensures
        share_exactly_a_side(vertex_face(1, start_pentagon(e)), vertex_face(1, end_pentagon(e))),
        share_seam(vertex_face(1, start_pentagon(e)), vertex_face(1, end_pentagon(e)), e),
{
    if e < 5 {
        lemma_chain_single_zero(e);
    } else if e < 10 {
        lemma_chain_single_one(e);
    } else if e < 15 {
        lemma_chain_single_two(e);
    } else if e < 20 {
        lemma_chain_single_three(e);
    } else if e < 25 {
        lemma_chain_single_four(e);
    } else {
        lemma_chain_single_five(e);
    }
}

/// Two hexagons that follow each other on an edge have exactly a side in
/// common, across the edge.
proof fn lemma_chain_step(n: int, e: int, k: int)
    requires
        1 <= n <= MAX_SUBDIVISIONS,
        0 <= e < 30,
        0 <= k,
        k + 1 < n - 1,
    ensures
        share_exactly_a_side(edge_face(n, e, k), edge_face(n, e, k + 1)),
        share_seam(edge_face(n, e, k), edge_face(n, e, k + 1), e),
{
    let first = edge_face(n, e, k);
    let second = edge_face(n, e, k + 1);
    assert(2 * (k + 1) == 2 * k + 2);
    assert(2 * n - 2 - 2 * (k + 1) == 2 * n - 4 - 2 * k);
    assert(first[2] == second[0]);
    assert(first[3] == second[5]);
    assert(same_side(first, 2, second, 5));
    assert(first[2] != first[3]);
    lemma_chain_step_only(n, e, k);
    assert(first.contains(first[2]) && second.contains(second[0]));
    assert(first.contains(first[3]) && second.contains(second[5]));
    assert(first.contains((edge_side_face(e, true), first[2].1)));
    assert(first.contains((edge_side_face(e, false), first[3].1)));
    assert forall|c: (int, int)| first.contains(c) && second.contains(c) implies c.0
        == edge_side_face(e, true) || c.0 == edge_side_face(e, false) by {
        lemma_contains_six(first, c);
    }
}

/// Two hexagons that follow each other on an edge have no corner in common
/// but the two of their common side.
#[verifier::rlimit(30)]
proof fn lemma_chain_step_only(n: int, e: int, k: int)
    requires
        1 <= n <= MAX_SUBDIVISIONS,
        0 <= e < 30,
        0 <= k,
        k + 1 < n - 1,
    ensures
        forall|c: (int, int)|
            edge_face(n, e, k).contains(c) && edge_face(n, e, k + 1).contains(c) ==> c
                == edge_face(n, e, k)[2] || c == edge_face(n, e, k)[3],
{
    let first = edge_face(n, e, k);
    let second = edge_face(n, e, k + 1);
    let g = e / 5;
    let w = n - 2 - k;
    lemma_edge_face_entries(n, e, k, true);
    lemma_edge_face_entries(n, e, k, false);
    lemma_edge_face_entries(n, e, k + 1, true);
    lemma_edge_face_entries(n, e, k + 1, false);
    let a = edge_run(n, g, true);
    let b = edge_run(n, g, false);
    lemma_run_repeats_nothing(n, g, true, 2 * k, 2 * k + 2);
    lemma_run_repeats_nothing(n, g, true, 2 * k, 2 * k + 3);
    lemma_run_repeats_nothing(n, g, true, 2 * k, 2 * k + 4);
    lemma_run_repeats_nothing(n, g, true, 2 * k + 1, 2 * k + 2);
    lemma_run_repeats_nothing(n, g, true, 2 * k + 1, 2 * k + 3);
    lemma_run_repeats_nothing(n, g, true, 2 * k + 1, 2 * k + 4);
    lemma_run_repeats_nothing(n, g, true, 2 * k + 2, 2 * k + 3);
    lemma_run_repeats_nothing(n, g, true, 2 * k + 2, 2 * k + 4);
    lemma_run_repeats_nothing(n, g, false, 2 * w, 2 * w - 2);
    lemma_run_repeats_nothing(n, g, false, 2 * w, 2 * w - 1);
    lemma_run_repeats_nothing(n, g, false, 2 * w + 1, 2 * w - 2);
    lemma_run_repeats_nothing(n, g, false, 2 * w + 1, 2 * w - 1);
    lemma_run_repeats_nothing(n, g, false, 2 * w + 1, 2 * w);
    lemma_run_repeats_nothing(n, g, false, 2 * w + 2, 2 * w - 2);
    lemma_run_repeats_nothing(n, g, false, 2 * w + 2, 2 * w - 1);
    lemma_run_repeats_nothing(n, g, false, 2 * w + 2, 2 * w);
    assert(edge_side_face(e, true) != edge_side_face(e, false));
    assert(window_of(n, k + 1, false) == w - 1);
    assert forall|c: (int, int)| first.contains(c) && second.contains(c) implies c == first[2]
        || c == first[3] by {
        lemma_contains_six(first, c);
        lemma_contains_six(second, c);
    }
}

/// The corners of the face at place `m` along edge `e`.
pub open spec fn chain_corners(n: int, e: int, m: int) -> Seq<(int, int)> {
    if m <= 0 {
        vertex_face(n, start_pentagon(e))
    } else if m >= n {
        vertex_face(n, end_pentagon(e))
    } else {
        edge_face(n, e, m - 1)
    }
}

/// The faces along an edge as they stand in the list of faces.
pub proof fn lemma_chain_corners(n: int, e: int, m: int)
    requires
        1 <= n <= MAX_SUBDIVISIONS,
        0 <= e < 30,
        0 <= m <= n,
    ensures
        face_list(n)[chain_face(n, e, m)] == chain_corners(n, e, m),
{
    lemma_face_counts(n);
    if 0 < m < n {
        lemma_edge_face_at(n, e, m - 1);
    }
}

/// Faces that follow each other along an edge of the icosahedron have
/// exactly a side in common, across the edge.
proof fn lemma_chain_sides(n: int, e: int, m: int)
    requires
        1 <= n <= MAX_SUBDIVISIONS,
        0 <= e < 30,
        0 <= m < n,
    ensures
        share_exactly_a_side(chain_corners(n, e, m), chain_corners(n, e, m + 1)),
        share_exactly_a_side(chain_corners(n, e, m + 1), chain_corners(n, e, m)),
        share_seam(chain_corners(n, e, m), chain_corners(n, e, m + 1), e),
{
    let first = chain_corners(n, e, m);
    let second = chain_corners(n, e, m + 1);
    if n == 1 {
        lemma_chain_single(e);
        lemma_share_exactly_symmetric(first, second);
    } else if m == 0 {
        lemma_chain_start(n, e);
        lemma_share_exactly_symmetric(first, second);
    } else if m == n - 1 {
        lemma_chain_end(n, e);
        lemma_share_exactly_symmetric(second, first);
        lemma_share_seam_symmetric(second, first, e);
    } else {
        lemma_chain_step(n, e, m - 1);
        assert(m - 1 + 1 == m);
        lemma_share_exactly_symmetric(first, second);
    }
}

/// Faces that follow each other along an edge of the icosahedron have
/// exactly a side in common, across the edge.
pub proof fn lemma_chain(n: int, e: int, m: int)
    requires
        1 <= n <= MAX_SUBDIVISIONS,
        0 <= e < 30,
        0 <= m < n,
    ensures
        share_exactly_a_side(
            face_list(n)[chain_face(n, e, m)],
            face_list(n)[chain_face(n, e, m + 1)],
        ),
        share_exactly_a_side(
            face_list(n)[chain_face(n, e, m + 1)],
            face_list(n)[chain_face(n, e, m)],
        ),
        share_seam(face_list(n)[chain_face(n, e, m)], face_list(n)[chain_face(n, e, m + 1)], e),
{
    lemma_chain_corners(n, e, m);
    lemma_chain_corners(n, e, m + 1);
    lemma_chain_sides(n, e, m);
}

/// The place along its edge of the icosahedron of the point of window `w`
/// of a side of seed face `f`. The two corners at the ends of the side are
/// the points of the windows `-1` and `n - 1`.
pub open spec fn place_on_edge(n: int, f: int, side: int, w: int) -> int {
    if is_first(f, side) {
        w + 1
    } else {
        n - 1 - w
    }
}

/// The face of a corner of a seed face is the pentagon at that end of the
/// edge of the icosahedron under either side at the corner.
proof fn lemma_chain_corner(n: int, f: int, side: int, w: int)
    requires
        1 <= n <= MAX_SUBDIVISIONS,
        0 <= f < 20,
        0 <= side < 3,
        w == -1 || w == n - 1,
    ensures
        point_of_window(n, side, w).on_level(n),
        face_index(n, f, point_of_window(n, side, w)) == chain_face(
            n,
            edge_of_side(f, side),
            place_on_edge(n, f, side, w),
        ),
{
}

/// The faces of the points along a side of a seed face are the faces along
/// the edge of the icosahedron under that side.
pub proof fn lemma_chain_faces(n: int, f: int, side: int, w: int)
    requires
        1 <= n <= MAX_SUBDIVISIONS,
        0 <= f < 20,
        0 <= side < 3,
        -1 <= w <= n - 1,
    ensures
        0 <= edge_of_side(f, side) < 30,
        0 <= place_on_edge(n, f, side, w) <= n,
        point_of_window(n, side, w).on_level(n),
        face_index(n, f, point_of_window(n, side, w)) == chain_face(
            n,
            edge_of_side(f, side),
            place_on_edge(n, f, side, w),
        ),
{
    lemma_edge_of_side(n, f, side);
    if w == -1 || w == n - 1 {
        lemma_chain_corner(n, f, side, w);
    } else {
        let v = point_of_window(n, side, w);
        assert(side_of(v) == side);
        assert(window_of_point(n, v) == w);
        lemma_side_place(n, f, v);
    }
}

/// The faces of the two ends of a lattice edge of a seed face have exactly
/// a side in common.
pub proof fn lemma_edge_faces_share_side(n: int, f: int, a: int, b: int)
    requires
        1 <= n <= MAX_SUBDIVISIONS,
        0 <= f < 20,
        is_lattice_edge(n, a, b),
    ensures
        share_exactly_a_side(
            face_list(n)[face_index(n, f, vertex_at(n, a))],
            face_list(n)[face_index(n, f, vertex_at(n, b))],
        ),
        share_exactly_a_side(
            face_list(n)[face_index(n, f, vertex_at(n, b))],
            face_list(n)[face_index(n, f, vertex_at(n, a))],
        ),
{
    let p = vertex_at(n, a);
    let q = vertex_at(n, b);
    lemma_vertex_at(n, a);
    lemma_vertex_at(n, b);
    let d: int = if q.x == p.x {
        2
    } else if q.y == p.y {
        3
    } else {
        4
    };
    assert(q == neighbour(n, p, d));
    if has_sector(n, p.x as int, p.y as int, d) && has_sector(n, p.x as int, p.y as int, d + 1) {
        lemma_inner_edge_exact(n, f, a, b);
        lemma_share_exactly_symmetric(
            face_list(n)[face_index(n, f, p)],
            face_list(n)[face_index(n, f, q)],
        );
    } else {
        let side: int = if d == 2 {
            1
        } else if d == 3 {
            2
        } else {
            0
        };
        let wp: int = if d == 3 {
            p.x - 1
        } else if d == 2 {
            n - 1 - p.y
        } else {
            n - 1 - p.x
        };
        let wq: int = if d == 3 {
            wp + 1
        } else {
            wp - 1
        };
        assert(p == point_of_window(n, side, wp));
        assert(q == point_of_window(n, side, wq));
        lemma_chain_faces(n, f, side, wp);
        lemma_chain_faces(n, f, side, wq);
        let e = edge_of_side(f, side);
        let mp = place_on_edge(n, f, side, wp);
        let mq = place_on_edge(n, f, side, wq);
        if mp < mq {
            assert(mq == mp + 1);
            lemma_chain(n, e, mp);
        } else {
            assert(mp == mq + 1);
            lemma_chain(n, e, mq);
        }
    }
}

/// The two faces of a pair of neighbours have exactly a side in common: two
/// different corners that follow each other in both faces, in opposite
/// directions, and no other corner.
pub proof fn lemma_neighbours_share_exactly_a_side(n: int, pair: (usize, usize))
    requires
        1 <= n <= MAX_SUBDIVISIONS,
        is_adjacent(n, pair),
    ensures
        share_exactly_a_side(face_list(n)[pair.0 as int], face_list(n)[pair.1 as int]),
{
    let (f, a, b) = choose|f: int, a: int, b: int|
        0 <= f < 20 && is_lattice_edge(n, a, b) && pair == #[trigger] joined_faces(n, f, a, b);
    lemma_vertex_at(n, a);
    lemma_vertex_at(n, b);
    lemma_face_index_bound(n, f, vertex_at(n, a));
    lemma_face_index_bound(n, f, vertex_at(n, b));
    lemma_edge_faces_share_side(n, f, a, b);
}

/// Two different faces are neighbours if and only if they have a side in
/// common, and then that side is all they have in common.
pub proof fn lemma_adjacency_by_sides(n: int, first: int, second: int)
    requires
        1 <= n <= MAX_SUBDIVISIONS,
        0 <= first < second < face_count(n),
    ensures
        is_adjacent(n, (first as usize, second as usize)) <==> share_side(
            face_list(n)[first],
            face_list(n)[second],
        ),
        is_adjacent(n, (first as usize, second as usize)) ==> share_exactly_a_side(
            face_list(n)[first],
            face_list(n)[second],
        ),
{
    let pair = (first as usize, second as usize);
    let one = face_list(n)[first];
    let two = face_list(n)[second];
    lemma_face_index_bound(n, 0, lattice_point(n, 0, 0));
    if is_adjacent(n, pair) {
        lemma_neighbours_share_exactly_a_side(n, pair);
        let (p, q) = choose|p: int, q: int| #[trigger]
            same_side(one, p, two, q) && one[p] != one[next_place(one.len() as int, p)]
                && forall|c: (int, int)|
                one.contains(c) && two.contains(c) ==> c == one[p] || c == one[next_place(
                    one.len() as int,
                    p,
                )];
        assert(same_side(one, p, two, q));
    }
    if share_side(one, two) {
        let (p, q) = choose|p: int, q: int| same_side(one, p, two, q);
        let c = one[p];
        assert(one.contains(c));
        assert(two[next_place(two.len() as int, q)] == c);
        assert(two.contains(c));
        lemma_faces_that_meet_are_adjacent(n, first, second, c.0, c.1);
    }
}

} // verus!
