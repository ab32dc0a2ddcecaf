//! The Goldberg polyhedron over a subdivided icosahedron: its faces, its
//! mesh buffers and the graph of neighbouring faces.

use vstd::prelude::*;
use vstd::arithmetic::div_mod::lemma_fundamental_div_mod_converse;
use crate::consistency::{
    lemma_adjacency_by_corners, lemma_adjacent_faces_meet, lemma_face_of_point,
};
use crate::counting::lemma_neighbour_count;
use crate::error::GlobeError;
use crate::face::{
    ExactFace, MeshFace, corner_list, fan, fans, gathered, lemma_fans_len, lemma_gathered_push,
    lemma_same_corners_same_face, mesh_face, mesh_offset, mesh_views,
};
use crate::incidence::touches;
use crate::lattice_math::{
    MAX_SUBDIVISIONS, lemma_counts, lemma_row_start_step, lemma_triangular_step,
    lemma_vertex_at, lemma_vertex_at_index, lemma_vertex_index, row_start, triangle_count,
    triangular, upward_count, vertex_at, vertex_count,
};
use crate::lattice_model::{is_lattice_edge, lemma_count_bounds, row_run};
use crate::lattice_vertex::lattice_point;
use crate::polyhedron::{
    corner_u, corner_v, corner_w, edge_face, edge_faces, edge_first_face, edge_first_run,
    edge_second_face, edge_second_run, face_count, face_face, face_faces, face_index, face_list,
    faces_meet, faces_per_face, interior_window, is_adjacent, joined_faces, lemma_face_corners,
    lemma_face_counts, lemma_face_index_bound, lemma_interior_window, lemma_side_runs,
    mesh_triangle_count, vertex_face, vertex_faces,
};
use crate::seed::{Seed, SeedFace, icosahedron_faces};
use crate::sequences::{distinct, lemma_distinct, unique, windows_of_three};
use crate::sides::{lemma_neighbours_share_exactly_a_side, share_exactly_a_side};
use crate::subdivided_triangle::SubdividedTriangle;

verus! {

/// The greater of two numbers.
fn max(a: u32, b: u32) -> (greater: u32)
    ensures
        greater >= a,
        greater >= b,
        greater == a || greater == b,
{
    if a > b {
        a
    } else {
        b
    }
}

/// The corners of each face of a list.
pub open spec fn face_views(faces: Seq<ExactFace>) -> Seq<Seq<(int, int)>> {
    Seq::new(faces.len(), |i: int| faces[i]@)
}

/// Whether no face of the list is a hexagon.
pub open spec fn all_pentagons(faces: Seq<ExactFace>) -> bool {
    forall|i: int| 0 <= i < faces.len() ==> faces[i] is Pentagon
}

/// Whether no face of the list is a pentagon.
pub open spec fn all_hexagons(faces: Seq<ExactFace>) -> bool {
    forall|i: int| 0 <= i < faces.len() ==> faces[i] is Hexagon
}

/// Places in a list that is made of `e` blocks of `d` entries and `k` more.
proof fn lemma_block(e: int, d: int, k: int)
    requires
        0 <= e,
        0 <= k < d,
    ensures
        (e * d + k) / d == e,
        (e * d + k) % d == k,
        0 <= e * d,
        (e + 1) * d == e * d + d,
{
    lemma_fundamental_div_mod_converse(e * d + k, d, e, k);
    assert(0 <= e * d && (e + 1) * d == e * d + d) by (nonlinear_arith)
        requires
            0 <= e,
            0 <= d,
    ;
}

/// The pairs of `a` and of `b` read backwards.
fn zip_reversed(a: &Vec<usize>, b: &Vec<usize>) -> (pairs: Vec<(usize, usize)>)
    requires
        a@.len() == b@.len(),
    ensures
        pairs@.len() == a@.len(),
        forall|i: int| 0 <= i < pairs@.len() ==> pairs@[i] == (a@[i], b@[b@.len() - 1 - i]),
{
    let mut pairs: Vec<(usize, usize)> = Vec::new();
    let len = a.len();
    let mut i: usize = 0;
    while i < len
        invariant
            len == a@.len(),
            len == b@.len(),
            0 <= i <= len,
            pairs@.len() == i,
            forall|k: int| 0 <= k < i ==> pairs@[k] == (a@[k], b@[len - 1 - k]),
        decreases len - i,
    {
        pairs.push((a[i], b[len - 1 - i]));
        i = i + 1;
    }
    pairs
}

/// The pairs of `a` without its first and last entry, and of `b`.
fn zip_inner(a: &Vec<usize>, b: &Vec<usize>) -> (pairs: Vec<(usize, usize)>)
    requires
        a@.len() == b@.len() + 2,
    ensures
        pairs@.len() == b@.len(),
        forall|i: int| 0 <= i < pairs@.len() ==> pairs@[i] == (a@[i + 1], b@[i]),
{
    let mut pairs: Vec<(usize, usize)> = Vec::new();
    let len = b.len();
    let mut i: usize = 0;
    while i < len
        invariant
            len == b@.len(),
            a@.len() == len + 2,
            0 <= i <= len,
            pairs@.len() == i,
            forall|k: int| 0 <= k < i ==> pairs@[k] == (a@[k + 1], b@[k]),
        decreases len - i,
    {
        pairs.push((a[i + 1], b[i]));
        i = i + 1;
    }
    pairs
}

/// Every second window of three neighbouring pairs, beginning with the first.
fn alternate_windows(pairs: Vec<(usize, usize)>) -> (chosen: Vec<
    ((usize, usize), (usize, usize), (usize, usize)),
>)
    ensures
        chosen@.len() == if pairs@.len() >= 3 {
            (pairs@.len() - 1) / 2
        } else {
            0
        },
        forall|k: int|
            0 <= k < chosen@.len() ==> chosen@[k] == (
                pairs@[2 * k],
                pairs@[2 * k + 1],
                pairs@[2 * k + 2],
            ),
{
    let ghost given = pairs@;
    let windows = windows_of_three(pairs);
    let mut chosen: Vec<((usize, usize), (usize, usize), (usize, usize))> = Vec::new();
    let total = windows.len();
    let count = total / 2 + total % 2;
    let mut k: usize = 0;
    while k < count
        invariant
            total == windows@.len(),
            count == total / 2 + total % 2,
            0 <= k <= count,
            chosen@.len() == k,
            windows@.len() == if given.len() >= 3 {
                given.len() - 2
            } else {
                0
            },
            forall|i: int|
                0 <= i < windows@.len() ==> windows@[i] == (given[i], given[i + 1], given[i + 2]),
            forall|i: int|
                0 <= i < chosen@.len() ==> chosen@[i] == (
                    given[2 * i],
                    given[2 * i + 1],
                    given[2 * i + 2],
                ),
        decreases count - k,
    {
        assert(2 * k < total) by {
            assert(total == 2 * (total / 2) + total % 2);
        }
        chosen.push(windows[2 * k]);
        k = k + 1;
    }
    chosen
}

/// The place of seed face `f` in the block of twenty that belongs to the
/// lattice edge with number `i`.
spec fn block_slot(i: int, f: int) -> int {
    20 * i + f
}

/// What a polyhedron holds: its level and the corners of each of its faces.
pub struct GlobeView {
    pub level: int,
    pub faces: Seq<Seq<(int, int)>>,
}

/// Whether the pentagons of a list of faces are its first twelve entries.
pub open spec fn pentagons_first(faces: Seq<ExactFace>) -> bool {
    forall|i: int| 0 <= i < faces.len() ==> (faces[i] is Pentagon <==> i < 12)
}

/// A Goldberg polyhedron made from an icosahedron whose faces have been
/// subdivided `n` times. Its corners are the small triangles of the twenty
/// subdivided seed faces, its faces the pentagons and hexagons around the
/// lattice points.
pub struct HexGlobe {
    seed: Seed,
    subdivision: SubdividedTriangle,
    faces: Vec<ExactFace>,
}

impl View for HexGlobe {
    type V = GlobeView;

    closed spec fn view(&self) -> GlobeView {
        GlobeView { level: self.subdivision@.level, faces: face_views(self.faces@) }
    }
}

/// Building the polyhedron of one level again gives the same faces: two
/// polyhedra of the same level have the same list of faces.
pub proof fn lemma_construct_repeatable(first: HexGlobe, second: HexGlobe)
    requires
        first.wf(),
        second.wf(),
        first@.level == second@.level,
    ensures
        first@ == second@,
        first@.faces == face_list(first@.level),
        first.face_seq() == second.face_seq(),
{
    let a = first.face_seq();
    let b = second.face_seq();
    assert(a.len() == face_views(a).len());
    assert(b.len() == face_views(b).len());
    assert forall|i: int| 0 <= i < a.len() implies a[i] == b[i] by {
        assert(face_views(a)[i] == a[i]@);
        assert(face_views(b)[i] == b[i]@);
        lemma_same_corners_same_face(a[i], b[i]);
    }
    assert(a =~= b);
}

impl HexGlobe {
    /// The subdivided triangle that every seed face is a copy of.
    pub closed spec fn template(&self) -> SubdividedTriangle {
        self.subdivision
    }

    /// The seed polyhedron.
    pub closed spec fn seed_faces(&self) -> Seq<SeedFace> {
        self.seed@
    }

    /// The faces as they are stored.
    pub closed spec fn face_seq(&self) -> Seq<ExactFace> {
        self.faces@
    }

    /// Whether this is the polyhedron of a supported level.
    pub open spec fn wf(&self) -> bool {
        &&& self.template().wf()
        &&& self.template()@.level == self@.level
        &&& self.seed_faces() == icosahedron_faces()
        &&& self@.faces == face_views(self.face_seq())
        &&& self@.faces == face_list(self@.level)
        &&& pentagons_first(self.face_seq())
    }

    /// The twelve pentagons around the corners of the icosahedron.
    pub fn vertex_faces_from_template(template: &SubdividedTriangle) -> (faces: Vec<ExactFace>)
        requires
            template.wf(),
        ensures
            face_views(faces@) == vertex_faces(template@.level),
            all_pentagons(faces@),
    {
        let ghost n = template@.level;
        let u = template.u();
        let v = template.v();
        let w = template.w();
        proof {
            lemma_count_bounds(n);
        }
        let mut faces: Vec<ExactFace> = Vec::new();
        let top = ExactFace::construct_pentagon((4, u), (3, u), (2, u), (1, u), (0, u));
        let bottom = ExactFace::construct_pentagon((15, u), (16, u), (17, u), (18, u), (19, u));
        assert(top@ =~= vertex_face(n, 0));
        assert(bottom@ =~= vertex_face(n, 1));
        faces.push(top);
        faces.push(bottom);
        let mut face: usize = 5;
        while face < 10
            invariant
                5 <= face <= 10,
                n == template@.level,
                1 <= n <= MAX_SUBDIVISIONS,
                u == corner_u(n),
                v == corner_v(n),
                w == corner_w(n),
                u < upward_count(n),
                v < upward_count(n),
                w < upward_count(n),
                faces@.len() == face - 3,
                forall|i: int|
                    #![trigger faces@[i]]
                    0 <= i < faces@.len() ==> faces@[i] is Pentagon && faces@[i]@ == vertex_face(
                        n,
                        i,
                    ),
            decreases 10 - face,
        {
            proof {
                lemma_count_bounds(n);
            }
            let pentagon = ExactFace::construct_pentagon(
                (face - 5, w),
                ((face + 1) % 5, v),
                (5 + (face + 1) % 5, w),
                (face + 5, u),
                (face, v),
            );
            assert(pentagon@ =~= vertex_face(n, face - 3));
            faces.push(pentagon);
            face = face + 1;
        }
        while face < 15
            invariant
                10 <= face <= 15,
                n == template@.level,
                1 <= n <= MAX_SUBDIVISIONS,
                u == corner_u(n),
                v == corner_v(n),
                w == corner_w(n),
                u < upward_count(n),
                v < upward_count(n),
                w < upward_count(n),
                faces@.len() == face - 3,
                forall|i: int|
                    #![trigger faces@[i]]
                    0 <= i < faces@.len() ==> faces@[i] is Pentagon && faces@[i]@ == vertex_face(
                        n,
                        i,
                    ),
            decreases 15 - face,
        {
            proof {
                lemma_count_bounds(n);
            }
            let pentagon = ExactFace::construct_pentagon(
                (face + 5, w),
                (15 + (face + 4) % 5, v),
                (10 + (face + 4) % 5, w),
                (face - 5, u),
                (face, v),
            );
            assert(pentagon@ =~= vertex_face(n, face - 3));
            faces.push(pentagon);
            face = face + 1;
        }
        proof {
            assert(face_views(faces@) =~= vertex_faces(n));
        }
        faces
    }

    /// Appends the hexagons on the five edges of group `group`, edge by
    /// edge and along each edge in the order of the run on its first side.
    fn append_edge_group(
        faces: &mut Vec<ExactFace>,
        level: usize,
        group: usize,
        first: &Vec<usize>,
        second: &Vec<usize>,
    )
        requires
            1 <= level <= MAX_SUBDIVISIONS,
            group < 6,
            first@ == edge_first_run(level as int, group as int),
            second@ == edge_second_run(level as int, group as int),
            old(faces)@.len() == 5 * group * (level - 1),
            all_hexagons(old(faces)@),
            forall|i: int|
                0 <= i < old(faces)@.len() ==> #[trigger] old(faces)@[i]@ == edge_face(
                    level as int,
                    i / (level - 1),
                    i % (level - 1),
                ),
        ensures
            final(faces)@.len() == 5 * (group + 1) * (level - 1),
            all_hexagons(final(faces)@),
            forall|i: int|
                0 <= i < final(faces)@.len() ==> #[trigger] final(faces)@[i]@ == edge_face(
                    level as int,
                    i / (level - 1),
                    i % (level - 1),
                ),
    {
        let ghost n = level as int;
        let ghost d = n - 1;
        proof {
            lemma_side_runs(n);
            lemma_count_bounds(n);
        }
        let windows = alternate_windows(zip_reversed(first, second));
        assert(windows@.len() == d);
        let mut j: usize = 0;
        while j < 5
            invariant
                0 <= j <= 5,
                n == level,
                d == n - 1,
                1 <= n <= MAX_SUBDIVISIONS,
                group < 6,
                first@ == edge_first_run(n, group as int),
                second@ == edge_second_run(n, group as int),
                first@.len() == 2 * n - 1,
                second@.len() == 2 * n - 1,
                windows@.len() == d,
                forall|k: int|
                    0 <= k < windows@.len() ==> windows@[k] == (
                        (first@[2 * k], second@[2 * n - 2 - 2 * k]),
                        (first@[2 * k + 1], second@[2 * n - 3 - 2 * k]),
                        (first@[2 * k + 2], second@[2 * n - 4 - 2 * k]),
                    ),
                forall|k: int| 0 <= k < 2 * n - 1 ==> first@[k] < triangle_count(n),
                forall|k: int| 0 <= k < 2 * n - 1 ==> second@[k] < triangle_count(n),
                faces@.len() == (5 * group + j) * d,
                all_hexagons(faces@),
                forall|i: int|
                    0 <= i < faces@.len() ==> #[trigger] faces@[i]@ == edge_face(n, i / d, i % d),
            decreases 5 - j,
        {
            let face_a = if group <= 1 {
                j
            } else if group == 2 {
                5 + j
            } else if group <= 4 {
                10 + j
            } else {
                15 + j
            };
            let face_b = if group == 0 {
                (j + 1) % 5
            } else if group == 1 {
                j + 5
            } else if group == 2 {
                10 + j
            } else if group == 3 {
                5 + (j + 1) % 5
            } else if group == 4 {
                15 + j
            } else {
                15 + (j + 1) % 5
            };
            let ghost e = 5 * group + j;
            let mut k: usize = 0;
            while k < windows.len()
                invariant
                    0 <= j < 5,
                    0 <= k <= windows@.len(),
                    n == level,
                    d == n - 1,
                    e == 5 * group + j,
                    1 <= n <= MAX_SUBDIVISIONS,
                    group < 6,
                    face_a == edge_first_face(group as int, j as int),
                    face_b == edge_second_face(group as int, j as int),
                    face_a < 20,
                    face_b < 20,
                    first@ == edge_first_run(n, group as int),
                    second@ == edge_second_run(n, group as int),
                    first@.len() == 2 * n - 1,
                    second@.len() == 2 * n - 1,
                    windows@.len() == d,
                    forall|k: int|
                        0 <= k < windows@.len() ==> windows@[k] == (
                            (first@[2 * k], second@[2 * n - 2 - 2 * k]),
                            (first@[2 * k + 1], second@[2 * n - 3 - 2 * k]),
                            (first@[2 * k + 2], second@[2 * n - 4 - 2 * k]),
                        ),
                    forall|k: int| 0 <= k < 2 * n - 1 ==> first@[k] < triangle_count(n),
                    forall|k: int| 0 <= k < 2 * n - 1 ==> second@[k] < triangle_count(n),
                    faces@.len() == e * d + k,
                    all_hexagons(faces@),
                    forall|i: int|
                        0 <= i < faces@.len() ==> #[trigger] faces@[i]@ == edge_face(
                            n,
                            i / d,
                            i % d,
                        ),
                decreases windows@.len() - k,
            {
                let ((a0, b0), (a1, b1), (a2, b2)) = windows[k];
                proof {
                    lemma_count_bounds(n);
                    lemma_block(e as int, d, k as int);
                }
                let hexagon = ExactFace::construct_hexagon(
                    (face_a, a0),
                    (face_a, a1),
                    (face_a, a2),
                    (face_b, b2),
                    (face_b, b1),
                    (face_b, b0),
                );
                assert(hexagon@ =~= edge_face(n, e as int, k as int));
                faces.push(hexagon);
                k = k + 1;
            }
            proof {
                assert((e + 1) * d == e * d + d) by (nonlinear_arith);
            }
            j = j + 1;
        }
        proof {
            assert((5 * group + 5) * d == 5 * (group + 1) * (level - 1)) by (nonlinear_arith)
                requires
                    d == level - 1,
            ;
        }
    }

    /// The windows of six triangles around the inner points of the
    /// template, in the order of the points.
    fn interior_windows(template: &SubdividedTriangle) -> (interior: Vec<
        ((usize, usize), (usize, usize), (usize, usize)),
    >)
        requires
            template.wf(),
        ensures
            interior@.len() == faces_per_face(template@.level),
            forall|m: int|
                0 <= m < interior@.len() ==> #[trigger] interior@[m] == interior_window(
                    template@.level,
                    vertex_at(template@.level - 3, m).x + 1,
                    vertex_at(template@.level - 3, m).y + 1,
                ),
    {
        let level = template.level() as usize;
        let ghost n = template@.level;
        let mut interior: Vec<((usize, usize), (usize, usize), (usize, usize))> = Vec::new();
        let mut i: usize = 0;
        proof {
            lemma_row_start_step(n - 3, 0);
            lemma_face_counts(n);
        }
        while i + 1 < level
            invariant
                template.wf(),
                n == template@.level,
                level == n,
                0 <= i <= level - 1,
                interior@.len() == row_start(n - 3, i as int),
                forall|m: int|
                    0 <= m < interior@.len() ==> #[trigger] interior@[m] == interior_window(
                        n,
                        vertex_at(n - 3, m).x + 1,
                        vertex_at(n - 3, m).y + 1,
                    ),
            decreases level - i,
        {
            let below = template.row(i);
            let above = template.row(i + 1);
            let windows = alternate_windows(zip_inner(&below, &above));
            assert(windows@.len() == n - i - 2);
            let mut k: usize = 0;
            while k < windows.len()
                invariant
                    template.wf(),
                    n == template@.level,
                    level == n,
                    0 <= i < level - 1,
                    0 <= k <= windows@.len(),
                    windows@.len() == n - i - 2,
                    below@ == row_run(n, i as int),
                    above@ == row_run(n, i + 1),
                    forall|j: int|
                        0 <= j < windows@.len() ==> windows@[j] == (
                            (below@[2 * j + 1], above@[2 * j]),
                            (below@[2 * j + 2], above@[2 * j + 1]),
                            (below@[2 * j + 3], above@[2 * j + 2]),
                        ),
                    interior@.len() == row_start(n - 3, i as int) + k,
                    forall|m: int|
                        0 <= m < interior@.len() ==> #[trigger] interior@[m] == interior_window(
                            n,
                            vertex_at(n - 3, m).x + 1,
                            vertex_at(n - 3, m).y + 1,
                        ),
                decreases windows@.len() - k,
            {
                proof {
                    lemma_vertex_index(n - 3, i as int, k as int);
                    lemma_vertex_at_index(n - 3, i as int, k as int);
                    assert((2 * k + 1) / 2 == k && (2 * k + 1) % 2 == 1);
                    assert((2 * k + 2) / 2 == k + 1 && (2 * k + 2) % 2 == 0);
                    assert((2 * k + 3) / 2 == k + 1 && (2 * k + 3) % 2 == 1);
                    assert((2 * k) / 2 == k && (2 * k) % 2 == 0);
                    assert(windows@[k as int] == interior_window(n, i + 1, k + 1));
                }
                interior.push(windows[k]);
                k = k + 1;
            }
            proof {
                lemma_row_start_step(n - 3, i as int);
            }
            i = i + 1;
        }
        proof {
            lemma_row_start_step(n - 3, n - 2);
            lemma_counts(n - 3);
            lemma_face_counts(n);
            if n == 1 {
                assert(triangular(-1) == 0);
            }
        }
        interior
    }

    /// The hexagons inside the twenty faces of the icosahedron, one for each
    /// inner lattice point, seed face by seed face.
    pub fn face_faces_from_template(template: &SubdividedTriangle) -> (faces: Vec<ExactFace>)
        requires
            template.wf(),
        ensures
            face_views(faces@) == face_faces(template@.level),
            all_hexagons(faces@),
    {
        let ghost n = template@.level;
        let interior = Self::interior_windows(template);
        let ghost d = faces_per_face(n);
        let mut faces: Vec<ExactFace> = Vec::new();
        let mut face: usize = 0;
        proof {
            assert(0 * d == 0) by (nonlinear_arith);
        }
        while face < 20
            invariant
                0 <= face <= 20,
                1 <= n <= MAX_SUBDIVISIONS,
                d == faces_per_face(n),
                interior@.len() == d,
                forall|m: int|
                    0 <= m < interior@.len() ==> #[trigger] interior@[m] == interior_window(
                        n,
                        vertex_at(n - 3, m).x + 1,
                        vertex_at(n - 3, m).y + 1,
                    ),
                faces@.len() == face * d,
                all_hexagons(faces@),
                forall|i: int| 0 <= i < faces@.len() ==> #[trigger] faces@[i]@ == face_face(n, i),
            decreases 20 - face,
        {
            let mut m: usize = 0;
            while m < interior.len()
                invariant
                    0 <= face < 20,
                    0 <= m <= interior@.len(),
                    1 <= n <= MAX_SUBDIVISIONS,
                    d == faces_per_face(n),
                    interior@.len() == d,
                    forall|m: int|
                        0 <= m < interior@.len() ==> #[trigger] interior@[m] == interior_window(
                            n,
                            vertex_at(n - 3, m).x + 1,
                            vertex_at(n - 3, m).y + 1,
                        ),
                    faces@.len() == face * d + m,
                    all_hexagons(faces@),
                    forall|i: int|
                        0 <= i < faces@.len() ==> #[trigger] faces@[i]@ == face_face(n, i),
                decreases interior@.len() - m,
            {
                let ((a0, b0), (a1, b1), (a2, b2)) = interior[m];
                let ghost c = vertex_at(n - 3, m as int);
                proof {
                    lemma_face_counts(n);
                    lemma_counts(n - 3);
                    assert(n >= 3) by {
                        if n <= 2 {
                            lemma_triangular_step(n - 2);
                            assert(triangular(0) == 0);
                            assert(triangular(-1) == 0);
                        }
                    }
                    lemma_vertex_at(n - 3, m as int);
                    lemma_interior_window(n, c.x + 1, c.y + 1);
                    lemma_block(face as int, d, m as int);
                    assert(interior@[m as int] == interior_window(n, c.x + 1, c.y + 1));
                }
                let hexagon = ExactFace::construct_hexagon(
                    (face, a0),
                    (face, a1),
                    (face, a2),
                    (face, b2),
                    (face, b1),
                    (face, b0),
                );
                assert(hexagon@ =~= face_face(n, face * d + m));
                faces.push(hexagon);
                m = m + 1;
            }
            proof {
                assert((face + 1) * d == face * d + d) by (nonlinear_arith);
            }
            face = face + 1;
        }
        proof {
            assert(face_views(faces@) =~= face_faces(n));
        }
        faces
    }

    /// Appends the faces of `more` to `all`.
    fn append_faces(all: &mut Vec<ExactFace>, more: &Vec<ExactFace>)
        ensures
            final(all)@ == old(all)@ + more@,
    {
        let mut i: usize = 0;
        while i < more.len()
            invariant
                0 <= i <= more@.len(),
                all@ == old(all)@ + more@.subrange(0, i as int),
            decreases more@.len() - i,
        {
            all.push(more[i]);
            proof {
                assert(more@.subrange(0, i + 1) == more@.subrange(0, i as int).push(more@[i as int]));
                assert(all@ =~= old(all)@ + more@.subrange(0, i + 1));
            }
            i = i + 1;
        }
        proof {
            assert(more@.subrange(0, more@.len() as int) =~= more@);
        }
    }

    /// All faces of the polyhedron in their fixed order: the pentagons, the
    /// hexagons on edges, the hexagons inside faces.
    pub fn faces_from_template(template: &SubdividedTriangle) -> (faces: Vec<ExactFace>)
        requires
            template.wf(),
        ensures
            face_views(faces@) == face_list(template@.level),
            pentagons_first(faces@),
            faces@.len() == face_count(template@.level),
    {
        let ghost n = template@.level;
        let mut faces = Self::vertex_faces_from_template(template);
        let ghost pentagons = faces@;
        let on_edges = Self::edge_faces_from_template(template);
        let in_faces = Self::face_faces_from_template(template);
        Self::append_faces(&mut faces, &on_edges);
        Self::append_faces(&mut faces, &in_faces);
        proof {
            lemma_face_counts(n);
            assert(face_views(pentagons).len() == 12);
            assert(face_views(on_edges@).len() == on_edges@.len());
            assert(face_views(in_faces@).len() == in_faces@.len());
            assert(faces@ == pentagons + on_edges@ + in_faces@);
            assert(face_views(faces@) =~= face_views(pentagons) + face_views(on_edges@)
                + face_views(in_faces@));
            assert forall|i: int| 0 <= i < faces@.len() implies (faces@[i] is Pentagon <==> i
                < 12) by {
                if i < 12 {
                    assert(faces@[i] == pentagons[i]);
                } else if i < 12 + on_edges@.len() {
                    assert(faces@[i] == on_edges@[i - 12]);
                } else {
                    assert(faces@[i] == in_faces@[i - 12 - on_edges@.len()]);
                }
            }
        }
        faces
    }

    /// The polyhedron of level `n`. Level 0 is refused.
    pub fn new(n: u32) -> (result: Result<Self, GlobeError>)
        requires
            n <= MAX_SUBDIVISIONS,
        ensures
            result.is_err() <==> n == 0,
            result matches Err(e) ==> e == GlobeError::InvalidSubdivisionLevel,
            result matches Ok(globe) ==> {
                &&& globe.wf()
                &&& globe@.level == n
                &&& globe@.faces == face_list(n as int)
                &&& globe@.faces.len() == 12 + 30 * (n - 1) + 20 * (n - 1) * (n - 2) / 2
            },
    {
        let subdivision = match SubdividedTriangle::new(n) {
            Ok(subdivision) => subdivision,
            Err(refusal) => {
                return Err(refusal);
            },
        };
        let seed = Seed::icosahedron();
        let faces = Self::faces_from_template(&subdivision);
        proof {
            lemma_face_counts(n as int);
        }
        Ok(HexGlobe { seed, subdivision, faces })
    }

    /// The number of the polyhedron face that belongs to the lattice point
    /// with index `i` of seed face `f`: the face whose corners on that seed
    /// face are the triangles that have the point as a corner.
    pub fn vertex_index_to_face_index(&self, f: usize, i: usize) -> (index: usize)
        requires
            self.wf(),
            f < 20,
            i < vertex_count(self@.level),
        ensures
            index == face_index(self@.level, f as int, vertex_at(self@.level, i as int)),
            index < face_count(self@.level),
            forall|t: int|
                self@.faces[index as int].contains((f as int, t)) <==> touches(
                    self@.level,
                    t,
                    i as int,
                ),
    {
        let v = self.subdivision.vertex_denominator(i);
        let ghost n = self@.level;
        let level = self.subdivision.level();
        proof {
            lemma_vertex_at(n, i as int);
            lemma_face_index_bound(n, f as int, v);
            lemma_face_counts(n);
            assert forall|t: int|
                face_list(n)[face_index(n, f as int, v)].contains((f as int, t)) <==> touches(
                    n,
                    t,
                    i as int,
                ) by {
                lemma_face_of_point(n, f as int, i as int, t);
            }
        }
        let per_edge: usize = level as usize - 1;
        let per_face: usize = ((level - 1) * (max(level, 2) - 2) / 2) as usize;
        let x = v.x as usize;
        let y = v.y as usize;
        let z = v.z as usize;
        let ring = f / 5;
        proof {
            assert(per_face == faces_per_face(n)) by {
                if level >= 2 {
                    assert((level - 1) * (level - 2) <= 8460 * 8460) by (nonlinear_arith)
                        requires
                            2 <= level <= 8460,
                    ;
                } else {
                    assert((level - 1) * 0 == 0);
                    assert((n - 1) * (n - 2) == 0) by (nonlinear_arith)
                        requires
                            n == 1,
                    ;
                }
            }
            assert forall|e: int| 0 <= e <= 29 implies 0 <= #[trigger] (e * per_edge) <= 29
                * per_edge by {
                assert(0 <= e * per_edge <= 29 * per_edge) by (nonlinear_arith)
                    requires
                        0 <= e <= 29,
                        0 <= per_edge,
                ;
            }
            assert(0 <= f * per_face <= 19 * per_face) by (nonlinear_arith)
                requires
                    0 <= f < 20,
                    0 <= per_face,
            ;
        }
        if v.y == 0 && v.z == 0 {
            // corner u
            if ring == 0 {
                0
            } else if ring == 1 {
                7 + f % 5
            } else if ring == 2 {
                2 + f % 5
            } else {
                1
            }
        } else if v.x == 0 && v.z == 0 {
            // corner v
            if ring == 0 {
                2 + (f + 4) % 5
            } else if ring == 1 {
                2 + f % 5
            } else if ring == 2 {
                7 + f % 5
            } else {
                7 + (f + 1) % 5
            }
        } else if v.x == 0 && v.y == 0 {
            // corner w
            if ring == 0 {
                2 + f
            } else if ring == 1 {
                2 + (f + 4) % 5
            } else if ring == 2 {
                7 + (f + 1) % 5
            } else {
                7 + f % 5
            }
        } else if v.z == 0 || v.x == 0 || v.y == 0 {
            let offset: usize = 12 - 1;
            if v.z == 0 {
                // side uv
                if ring == 0 {
                    offset + ((f + 4) % 5) * per_edge + x
                } else if ring == 1 {
                    offset + (10 + f % 5) * per_edge + y
                } else if ring == 2 {
                    offset + (10 + f % 5) * per_edge + x
                } else {
                    offset + (25 + f % 5) * per_edge + y
                }
            } else if v.x == 0 {
                // side vw
                if ring == 0 {
                    offset + (5 + f) * per_edge + z
                } else if ring == 1 {
                    offset + (5 + f % 5) * per_edge + y
                } else if ring == 2 {
                    offset + (20 + f % 5) * per_edge + z
                } else {
                    offset + (20 + f % 5) * per_edge + y
                }
            } else {
                // side wu
                if ring == 0 {
                    offset + f * per_edge + x
                } else if ring == 1 {
                    offset + (15 + (f + 4) % 5) * per_edge + z
                } else if ring == 2 {
                    offset + (15 + f % 5) * per_edge + x
                } else {
                    offset + (25 + (f + 4) % 5) * per_edge + z
                }
            }
        } else {
            let offset = 12 + 30 * per_edge + f * per_face;
            // Index of the point among the points that lie on no side.
            let j = self.subdivision.vertex_interior_index_unchecked(v);
            proof {
                lemma_counts(n - 3);
            }
            offset + j
        }
    }

    /// The undirected edges between neighbouring faces, as pairs of face
    /// numbers with the smaller number first. The pairs are those of the
    /// faces that belong to the two ends of a lattice edge of some seed face.
    /// They are the pairs of different faces with a corner in common, and
    /// what the two faces of a pair have in common is exactly one side. No
    /// pair comes twice, and there are `30 * n * n` of them; the order of the
    /// pairs says nothing.
    pub fn adjacency(&self) -> (adjacency: Vec<(usize, usize)>)
        requires
            self.wf(),
        ensures
            adjacency@.no_duplicates(),
            adjacency@.len() == 30 * self@.level * self@.level,
            forall|pair: (usize, usize)|
                adjacency@.contains(pair) <==> is_adjacent(self@.level, pair),
            forall|pair: (usize, usize)|
                adjacency@.contains(pair) <==> faces_meet(self@.level, pair),
            forall|k: int|
                0 <= k < adjacency@.len() ==> share_exactly_a_side(
                    self@.faces[(#[trigger] adjacency@[k]).0 as int],
                    self@.faces[adjacency@[k].1 as int],
                ),
            forall|k: int|
                0 <= k < adjacency@.len() ==> (#[trigger] adjacency@[k]).0 < adjacency@[k].1
                    < face_count(self@.level),
    {
        let ghost n = self@.level;
        let edges = self.subdivision.vertex_adjacency();
        proof {
            lemma_count_bounds(n);
        }
        let mut pairs: Vec<(usize, usize)> = Vec::new();
        let mut i: usize = 0;
        while i < edges.len()
            invariant
                self.wf(),
                n == self@.level,
                0 <= i <= edges@.len(),
                edges@.len() <= 107370090,
                forall|a: usize, b: usize|
                    edges@.contains((a, b)) <==> is_lattice_edge(n, a as int, b as int),
                pairs@.len() == 20 * i,
                forall|k: int|
                    0 <= k < pairs@.len() ==> is_adjacent(n, #[trigger] pairs@[k]) && pairs@[k].0
                        <= pairs@[k].1 < face_count(n),
                forall|e: int, f: int|
                    0 <= e < i && 0 <= f < 20 ==> pairs@[#[trigger] block_slot(e, f)]
                        == joined_faces(n, f, edges@[e].0 as int, edges@[e].1 as int),
            decreases edges@.len() - i,
        {
            let (a, b) = edges[i];
            proof {
                assert(edges@.contains((a, b)));
            }
            let mut f: usize = 0;
            while f < 20
                invariant
                    self.wf(),
                    n == self@.level,
                    0 <= i < edges@.len(),
                    edges@.len() <= 107370090,
                    0 <= f <= 20,
                    (a, b) == edges@[i as int],
                    is_lattice_edge(n, a as int, b as int),
                    pairs@.len() == 20 * i + f,
                    forall|k: int|
                        0 <= k < pairs@.len() ==> is_adjacent(n, #[trigger] pairs@[k])
                            && pairs@[k].0 <= pairs@[k].1 < face_count(n),
                    forall|e: int, g: int|
                        0 <= e && 0 <= g < 20 && (e < i || (e == i && g < f))
                            ==> pairs@[#[trigger] block_slot(e, g)] == joined_faces(
                            n,
                            g,
                            edges@[e].0 as int,
                            edges@[e].1 as int,
                        ),
                decreases 20 - f,
            {
                let p = self.vertex_index_to_face_index(f, a);
                let q = self.vertex_index_to_face_index(f, b);
                let pair = if p <= q {
                    (p, q)
                } else {
                    (q, p)
                };
                proof {
                    assert(pair == joined_faces(n, f as int, a as int, b as int));
                    assert(is_adjacent(n, pair));
                    assert(block_slot(i as int, f as int) == pairs@.len());
                }
                pairs.push(pair);
                f = f + 1;
            }
            i = i + 1;
        }
        proof {
            lemma_distinct(pairs@);
            let kept = distinct(pairs@);
            assert forall|pair: (usize, usize)| is_adjacent(n, pair) <==> faces_meet(
                n,
                pair,
            ) by {
                lemma_adjacency_by_corners(n, pair);
            }
            assert forall|pair: (usize, usize)| is_adjacent(n, pair) implies pairs@.contains(
                pair,
            ) by {
                let (f, a, b) = choose|f: int, a: int, b: int|
                    0 <= f < 20 && is_lattice_edge(n, a, b) && pair == #[trigger] joined_faces(
                        n,
                        f,
                        a,
                        b,
                    );
                lemma_count_bounds(n);
                assert(edges@.contains((a as usize, b as usize)));
                let e = choose|e: int|
                    0 <= e < edges@.len() && edges@[e] == (a as usize, b as usize);
                assert(pairs@[block_slot(e, f)] == pair);
            }
            assert forall|pair: (usize, usize)| pairs@.contains(pair) implies is_adjacent(
                n,
                pair,
            ) by {
                let k = choose|k: int| 0 <= k < pairs@.len() && pairs@[k] == pair;
                assert(is_adjacent(n, pairs@[k]));
            }
            assert forall|k: int| 0 <= k < kept.len() implies (#[trigger] kept[k]).0 < kept[k].1
                < face_count(n) by {
                assert(kept.contains(kept[k]));
                assert(pairs@.contains(kept[k]));
                let j = choose|j: int| 0 <= j < pairs@.len() && pairs@[j] == kept[k];
                assert(is_adjacent(n, pairs@[j]));
                lemma_adjacent_faces_meet(n, kept[k]);
            }
            lemma_neighbour_count(n, kept);
            assert forall|k: int| 0 <= k < kept.len() implies share_exactly_a_side(
                face_list(n)[(#[trigger] kept[k]).0 as int],
                face_list(n)[kept[k].1 as int],
            ) by {
                assert(kept.contains(kept[k]));
                assert(pairs@.contains(kept[k]));
                lemma_neighbours_share_exactly_a_side(n, kept[k]);
            }
        }
        unique(pairs)
    }

    /// The subdivision level.
    pub fn level(&self) -> (n: u32)
        requires
            self.wf(),
        ensures
            n == self@.level,
            1 <= n <= MAX_SUBDIVISIONS,
    {
        self.subdivision.level()
    }

    /// The subdivided triangle that every seed face is a copy of.
    pub fn subdivision(&self) -> (template: &SubdividedTriangle)
        ensures
            *template == self.template(),
    {
        &self.subdivision
    }

    /// The seed icosahedron.
    pub fn seed(&self) -> (seed: &Seed)
        ensures
            seed@ == self.seed_faces(),
    {
        &self.seed
    }

    /// The faces of the polyhedron: pentagons first.
    pub fn faces(&self) -> (faces: &Vec<ExactFace>)
        ensures
            faces@ == self.face_seq(),
    {
        &self.faces
    }

    /// The number of faces of the polyhedron.
    pub fn count_faces(&self) -> (count: usize)
        requires
            self.wf(),
        ensures
            count == face_count(self@.level),
            count == 12 + 30 * (self@.level - 1) + 20 * (self@.level - 1) * (self@.level - 2) / 2,
    {
        proof {
            lemma_face_counts(self@.level);
        }
        self.faces.len()
    }

    /// The vertex buffer of the mesh: for each face in turn, and for each
    /// of its corners in turn, the entry of `centroids` for that corner.
    /// `centroids` holds one list for each seed face with one entry for each
    /// small triangle.
    pub fn mesh_vertices<T: Copy>(&self, centroids: &Vec<Vec<T>>) -> (vertices: Vec<T>)
        requires
            self.wf(),
            centroids@.len() == 20,
            forall|f: int|
                0 <= f < 20 ==> (#[trigger] centroids@[f])@.len() == triangle_count(self@.level),
        ensures
            vertices@.len() == 60 * self@.level * self@.level,
            gathered(centroids@, corner_list(self@.faces), vertices@),
    {
        let ghost n = self@.level;
        let ghost all = self@.faces;
        let mut vertices: Vec<T> = Vec::new();
        let mut i: usize = 0;
        proof {
            lemma_face_counts(n);
            assert(all.subrange(0, 0) =~= Seq::<Seq<(int, int)>>::empty());
        }
        while i < self.faces.len()
            invariant
                self.wf(),
                n == self@.level,
                all == self@.faces,
                0 <= i <= self.faces@.len(),
                self.faces@.len() == face_count(n),
                centroids@.len() == 20,
                forall|f: int|
                    0 <= f < 20 ==> (#[trigger] centroids@[f])@.len() == triangle_count(n),
                vertices@.len() == mesh_offset(i as int),
                gathered(centroids@, corner_list(all.subrange(0, i as int)), vertices@),
            decreases self.faces@.len() - i,
        {
            let corners = self.faces[i].corners();
            let ghost before = corner_list(all.subrange(0, i as int));
            let ghost face = all[i as int];
            proof {
                lemma_face_corners(n, i as int);
                assert(all.subrange(0, i + 1).drop_last() =~= all.subrange(0, i as int));
                assert(all.subrange(0, i + 1).last() == face);
                assert(corner_list(all.subrange(0, i + 1)) == before + face);
                assert(face == self.faces@[i as int]@);
                assert(before + face.subrange(0, 0) =~= before);
            }
            let mut j: usize = 0;
            while j < corners.len()
                invariant
                    n == self@.level,
                    0 <= j <= corners@.len(),
                    corners@.len() == face.len(),
                    forall|c: int| 0 <= c < corners@.len() ==> corners@[c]@ == face[c],
                    forall|c: int|
                        0 <= c < face.len() ==> 0 <= (#[trigger] face[c]).0 < 20 && 0 <= face[c].1
                            < triangle_count(n),
                    centroids@.len() == 20,
                    forall|f: int|
                        0 <= f < 20 ==> (#[trigger] centroids@[f])@.len() == triangle_count(n),
                    vertices@.len() == before.len() + j,
                    gathered(centroids@, before + face.subrange(0, j as int), vertices@),
                decreases corners@.len() - j,
            {
                let corner = corners[j];
                assert(corner@ == face[j as int]);
                let value = centroids[corner.face()][corner.subdivision()];
                proof {
                    lemma_gathered_push(
                        centroids@,
                        before + face.subrange(0, j as int),
                        vertices@,
                        face[j as int],
                        value,
                    );
                    assert((before + face.subrange(0, j as int)).push(face[j as int]) =~= before
                        + face.subrange(0, j + 1));
                }
                vertices.push(value);
                j = j + 1;
            }
            proof {
                assert(face.subrange(0, face.len() as int) =~= face);
            }
            i = i + 1;
        }
        proof {
            assert(all.subrange(0, all.len() as int) =~= all);
            assert(60 * n * n == 60 + 6 * (face_count(n) - 12)) by (nonlinear_arith)
                requires
                    face_count(n) == 10 * n * n + 2,
            ;
        }
        vertices
    }

    /// The faces as positions in the vertex buffer that `mesh_vertices`
    /// makes: face `i` takes the next five or six positions.
    pub fn mesh_faces(&self) -> (output: Vec<MeshFace>)
        requires
            self.wf(),
        ensures
            output@.len() == face_count(self@.level),
            fans(mesh_views(output@)).len() == 3 * mesh_triangle_count(self@.level),
            forall|i: int|
                0 <= i < output@.len() ==> (#[trigger] output@[i])@ == mesh_face(i) && (
                output@[i] is Pentagon <==> i < 12),
    {
        let ghost level = self@.level;
        let mut output: Vec<MeshFace> = Vec::new();
        let mut n: u32 = 0;
        let mut i: usize = 0;
        proof {
            lemma_face_counts(level);
            lemma_face_index_bound(level, 0, lattice_point(level, 0, 0));
        }
        while i < self.faces.len()
            invariant
                self.wf(),
                level == self@.level,
                0 <= i <= self.faces@.len(),
                self.faces@.len() == face_count(level),
                face_count(level) <= 715716002,
                n == mesh_offset(i as int),
                output@.len() == i,
                forall|k: int|
                    0 <= k < output@.len() ==> (#[trigger] output@[k])@ == mesh_face(k) && (
                    output@[k] is Pentagon <==> k < 12),
            decreases self.faces@.len() - i,
        {
            let face = match self.faces[i] {
                ExactFace::Pentagon(_) => {
                    n = n + 5;
                    MeshFace::Pentagon([n - 5, n - 4, n - 3, n - 2, n - 1])
                },
                ExactFace::Hexagon(_) => {
                    n = n + 6;
                    MeshFace::Hexagon([n - 6, n - 5, n - 4, n - 3, n - 2, n - 1])
                },
            };
            assert(face@ =~= mesh_face(i as int));
            output.push(face);
            i = i + 1;
        }
        proof {
            let views = mesh_views(output@);
            assert forall|k: int| 0 <= k < 12 implies (#[trigger] views[k]).len() == 5 by {
                assert(views[k] == output@[k]@);
            }
            assert forall|k: int| 12 <= k < views.len() implies (#[trigger] views[k]).len()
                == 6 by {
                assert(views[k] == output@[k]@);
            }
            lemma_fans_len(views, 12);
        }
        output
    }

    /// The triangle buffer of the mesh: every face of `faces` cut into a fan
    /// of triangles from its first corner, three positions for each triangle.
    pub fn mesh_triangles(&self, faces: &Vec<MeshFace>) -> (output: Vec<u32>)
        ensures
            output@ == fans(mesh_views(faces@)),
    {
        let ghost all = mesh_views(faces@);
        let mut output: Vec<u32> = Vec::new();
        let mut i: usize = 0;
        proof {
            assert(all.subrange(0, 0) =~= Seq::<Seq<u32>>::empty());
        }
        while i < faces.len()
            invariant
                0 <= i <= faces@.len(),
                all == mesh_views(faces@),
                output@ == fans(all.subrange(0, i as int)),
            decreases faces@.len() - i,
        {
            let ghost before = output@;
            proof {
                assert(all.subrange(0, i + 1).drop_last() =~= all.subrange(0, i as int));
                assert(all.subrange(0, i + 1).last() == faces@[i as int]@);
            }
            match faces[i] {
                MeshFace::Pentagon(v) => {
                    output.push(v[0]);
                    output.push(v[1]);
                    output.push(v[2]);
                    output.push(v[0]);
                    output.push(v[2]);
                    output.push(v[3]);
                    output.push(v[0]);
                    output.push(v[3]);
                    output.push(v[4]);
                    assert(output@ =~= before + fan(v@));
                },
                MeshFace::Hexagon(v) => {
                    output.push(v[0]);
                    output.push(v[1]);
                    output.push(v[2]);
                    output.push(v[0]);
                    output.push(v[2]);
                    output.push(v[3]);
                    output.push(v[0]);
                    output.push(v[3]);
                    output.push(v[4]);
                    output.push(v[0]);
                    output.push(v[4]);
                    output.push(v[5]);
                    assert(output@ =~= before + fan(v@));
                },
            }
            i = i + 1;
        }
        proof {
            assert(all.subrange(0, all.len() as int) =~= all);
        }
        output
    }

    /// The hexagons on the thirty edges of the icosahedron, `n - 1` on each.
    pub fn edge_faces_from_template(template: &SubdividedTriangle) -> (faces: Vec<ExactFace>)
        requires
            template.wf(),
        ensures
            face_views(faces@) == edge_faces(template@.level),
            all_hexagons(faces@),
    {
        let level = template.level() as usize;
        let ghost n = template@.level;
        let uv = template.uv();
        let vw = template.vw();
        let wu = template.wu();
        let mut faces: Vec<ExactFace> = Vec::new();
        proof {
            assert(5 * 0 * (level - 1) == 0) by (nonlinear_arith);
        }
        // top to top
        Self::append_edge_group(&mut faces, level, 0, &wu, &uv);
        // top to upper middle
        Self::append_edge_group(&mut faces, level, 1, &vw, &vw);
        // upper middle to lower middle
        Self::append_edge_group(&mut faces, level, 2, &uv, &uv);
        // lower middle to upper middle
        Self::append_edge_group(&mut faces, level, 3, &wu, &wu);
        // lower middle to bottom
        Self::append_edge_group(&mut faces, level, 4, &vw, &vw);
        // bottom to bottom
        Self::append_edge_group(&mut faces, level, 5, &uv, &wu);
        proof {
            assert(5 * 6 * (level - 1) == 30 * (n - 1)) by (nonlinear_arith)
                requires
                    level == n,
            ;
            assert(face_views(faces@) =~= edge_faces(n));
        }
        faces
    }
}

} // verus!
