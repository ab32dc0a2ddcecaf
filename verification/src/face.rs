//! The faces of the polyhedron: twelve pentagons and otherwise hexagons.

use vstd::prelude::*;
use crate::packed_index::{PackedIndex, max_subdivision};

verus! {

/// A face of the polyhedron as its corners in counterclockwise order. Each
/// corner is a small triangle of one seed face, named by a packed index.
#[derive(Copy, Clone, Debug)]
pub enum ExactFace {
    Pentagon([PackedIndex; 5]),
    Hexagon([PackedIndex; 6]),
}

impl View for ExactFace {
    type V = Seq<(int, int)>;

    /// The corners as pairs `(seed face, triangle)`: five for a pentagon, six
    /// for a hexagon.
    open spec fn view(&self) -> Seq<(int, int)> {
        match *self {
            ExactFace::Pentagon(corners) => Seq::new(5, |i: int| corners@[i]@),
            ExactFace::Hexagon(corners) => Seq::new(6, |i: int| corners@[i]@),
        }
    }
}

/// Faces with the same corners are the same face.
pub proof fn lemma_same_corners_same_face(a: ExactFace, b: ExactFace)
    requires
        a@ == b@,
    ensures
        a == b,
{
    match (a, b) {
        (ExactFace::Pentagon(c), ExactFace::Pentagon(d)) => {
            assert forall|i: int| 0 <= i < 5 implies c@[i] == d@[i] by {
                assert(a@[i] == b@[i]);
                c@[i].lemma_view_injective(d@[i]);
            }
            assert(c@ =~= d@);
            assert(c =~= d);
        },
        (ExactFace::Hexagon(c), ExactFace::Hexagon(d)) => {
            assert forall|i: int| 0 <= i < 6 implies c@[i] == d@[i] by {
                assert(a@[i] == b@[i]);
                c@[i].lemma_view_injective(d@[i]);
            }
            assert(c@ =~= d@);
            assert(c =~= d);
        },
        (ExactFace::Pentagon(c), ExactFace::Hexagon(d)) => {
            assert(a@.len() == 5 && b@.len() == 6);
        },
        (ExactFace::Hexagon(c), ExactFace::Pentagon(d)) => {
            assert(a@.len() == 6 && b@.len() == 5);
        },
    }
}

impl Default for ExactFace {
    /// A hexagon whose corners are all the first triangle of the first face.
    fn default() -> (face: Self)
        ensures
            face is Hexagon,
            face@ == Seq::new(6, |i: int| (0int, 0int)),
    {
        let zero = PackedIndex::new(0, 0);
        let face = ExactFace::Hexagon([zero, zero, zero, zero, zero, zero]);
        assert(face@ =~= Seq::new(6, |i: int| (0int, 0int)));
        face
    }
}

/// A face of the polyhedron as the positions of its corners in the buffer of
/// mesh vertices, in counterclockwise order.
#[derive(Copy, Clone, Debug)]
pub enum MeshFace {
    Pentagon([u32; 5]),
    Hexagon([u32; 6]),
}

impl View for MeshFace {
    type V = Seq<u32>;

    /// The positions of the corners: five for a pentagon, six for a hexagon.
    open spec fn view(&self) -> Seq<u32> {
        match *self {
            MeshFace::Pentagon(corners) => corners@,
            MeshFace::Hexagon(corners) => corners@,
        }
    }
}

impl Default for MeshFace {
    /// A hexagon whose corners are all at position 0.
    fn default() -> (face: Self)
        ensures
            face is Hexagon,
            face@ == Seq::new(6, |i: int| 0u32),
    {
        let face = MeshFace::Hexagon([0, 0, 0, 0, 0, 0]);
        assert(face@ =~= Seq::new(6, |i: int| 0u32));
        face
    }
}

/// The fan that cuts a face into triangles from its first corner: the
/// triangles `(c0, c1, c2)`, `(c0, c2, c3)` and so on, one after the other.
pub open spec fn fan(corners: Seq<u32>) -> Seq<u32> {
    Seq::new(
        (3 * (corners.len() - 2)) as nat,
        |t: int|
            if t % 3 == 0 {
                corners[0]
            } else {
                corners[t / 3 + t % 3]
            },
    )
}

/// The fans of a list of faces, one after the other.
pub open spec fn fans(faces: Seq<Seq<u32>>) -> Seq<u32>
    decreases faces.len(),
{
    if faces.len() == 0 {
        Seq::empty()
    } else {
        fans(faces.drop_last()) + fan(faces.last())
    }
}

/// The triangle buffer of a list of faces that begins with `pentagons`
/// pentagons and goes on with hexagons only has nine entries for each
/// pentagon and twelve for each hexagon.
pub proof fn lemma_fans_len(faces: Seq<Seq<u32>>, pentagons: int)
    requires
        0 <= pentagons <= faces.len(),
        forall|i: int| 0 <= i < pentagons ==> (#[trigger] faces[i]).len() == 5,
        forall|i: int| pentagons <= i < faces.len() ==> (#[trigger] faces[i]).len() == 6,
    ensures
        fans(faces).len() == 9 * pentagons + 12 * (faces.len() - pentagons),
    decreases faces.len(),
{
    if faces.len() > 0 {
        let front = faces.drop_last();
        if pentagons == faces.len() {
            lemma_fans_len(front, pentagons - 1);
        } else {
            lemma_fans_len(front, pentagons);
        }
    }
}

/// The corners of a list of faces, one face after the other.
pub open spec fn corner_list(faces: Seq<Seq<(int, int)>>) -> Seq<(int, int)>
    decreases faces.len(),
{
    if faces.len() == 0 {
        Seq::empty()
    } else {
        corner_list(faces.drop_last()) + faces.last()
    }
}

/// The positions of the corners of each face of a list.
pub open spec fn mesh_views(faces: Seq<MeshFace>) -> Seq<Seq<u32>> {
    Seq::new(faces.len(), |i: int| faces[i]@)
}

/// Whether `vertices` holds, for each corner of the list in turn, the entry
/// of `centroids` that the corner names: the entry for triangle `corner.1`
/// in the list for seed face `corner.0`.
pub open spec fn gathered<T>(
    centroids: Seq<Vec<T>>,
    corners: Seq<(int, int)>,
    vertices: Seq<T>,
) -> bool {
    &&& vertices.len() == corners.len()
    &&& forall|k: int|
        0 <= k < corners.len() ==> {
            let corner = #[trigger] corners[k];
            &&& 0 <= corner.0 < centroids.len()
            &&& 0 <= corner.1 < centroids[corner.0]@.len()
            &&& vertices[k] == centroids[corner.0]@[corner.1]
        }
}

/// Gathering one more corner appends its entry.
pub proof fn lemma_gathered_push<T>(
    centroids: Seq<Vec<T>>,
    corners: Seq<(int, int)>,
    vertices: Seq<T>,
    corner: (int, int),
    value: T,
)
    requires
        gathered(centroids, corners, vertices),
        0 <= corner.0 < centroids.len(),
        0 <= corner.1 < centroids[corner.0]@.len(),
        value == centroids[corner.0]@[corner.1],
    ensures
        gathered(centroids, corners.push(corner), vertices.push(value)),
{
    let more = corners.push(corner);
    let next = vertices.push(value);
    assert forall|k: int| 0 <= k < more.len() implies {
        let c = #[trigger] more[k];
        &&& 0 <= c.0 < centroids.len()
        &&& 0 <= c.1 < centroids[c.0]@.len()
        &&& next[k] == centroids[c.0]@[c.1]
    } by {
        if k < corners.len() {
            assert(more[k] == corners[k]);
            assert(next[k] == vertices[k]);
        }
    }
}

/// The positions in the buffer of mesh vertices of the corners of face `i`:
/// the buffer holds the corners face by face, five for each of the twelve
/// pentagons and six for each hexagon after them.
pub open spec fn mesh_face(i: int) -> Seq<u32> {
    if i < 12 {
        Seq::new(5, |j: int| (5 * i + j) as u32)
    } else {
        Seq::new(6, |j: int| (60 + 6 * (i - 12) + j) as u32)
    }
}

/// Number of mesh vertices that the first `i` faces take.
pub open spec fn mesh_offset(i: int) -> int {
    if i <= 12 {
        5 * i
    } else {
        60 + 6 * (i - 12)
    }
}

impl ExactFace {
    /// The hexagon with the six given corners, each a pair of a seed face
    /// and a triangle index.
    pub fn construct_hexagon(
        c0: (usize, usize),
        c1: (usize, usize),
        c2: (usize, usize),
        c3: (usize, usize),
        c4: (usize, usize),
        c5: (usize, usize),
    ) -> (face: Self)
        requires
            c0.0 < 32 && c0.1 <= max_subdivision(),
            c1.0 < 32 && c1.1 <= max_subdivision(),
            c2.0 < 32 && c2.1 <= max_subdivision(),
            c3.0 < 32 && c3.1 <= max_subdivision(),
            c4.0 < 32 && c4.1 <= max_subdivision(),
            c5.0 < 32 && c5.1 <= max_subdivision(),
        ensures
            face is Hexagon,
            face@ == seq![
                (c0.0 as int, c0.1 as int),
                (c1.0 as int, c1.1 as int),
                (c2.0 as int, c2.1 as int),
                (c3.0 as int, c3.1 as int),
                (c4.0 as int, c4.1 as int),
                (c5.0 as int, c5.1 as int),
            ],
    {
        let face = ExactFace::Hexagon(
            [
                PackedIndex::new(c0.0, c0.1),
                PackedIndex::new(c1.0, c1.1),
                PackedIndex::new(c2.0, c2.1),
                PackedIndex::new(c3.0, c3.1),
                PackedIndex::new(c4.0, c4.1),
                PackedIndex::new(c5.0, c5.1),
            ],
        );
        assert(face@ =~= seq![
            (c0.0 as int, c0.1 as int),
            (c1.0 as int, c1.1 as int),
            (c2.0 as int, c2.1 as int),
            (c3.0 as int, c3.1 as int),
            (c4.0 as int, c4.1 as int),
            (c5.0 as int, c5.1 as int),
        ]);
        face
    }

    /// The pentagon with the five given corners, each a pair of a seed face
    /// and a triangle index.
    pub fn construct_pentagon(
        c0: (usize, usize),
        c1: (usize, usize),
        c2: (usize, usize),
        c3: (usize, usize),
        c4: (usize, usize),
    ) -> (face: Self)
        requires
            c0.0 < 32 && c0.1 <= max_subdivision(),
            c1.0 < 32 && c1.1 <= max_subdivision(),
            c2.0 < 32 && c2.1 <= max_subdivision(),
            c3.0 < 32 && c3.1 <= max_subdivision(),
            c4.0 < 32 && c4.1 <= max_subdivision(),
        ensures
            face is Pentagon,
            face@ == seq![
                (c0.0 as int, c0.1 as int),
                (c1.0 as int, c1.1 as int),
                (c2.0 as int, c2.1 as int),
                (c3.0 as int, c3.1 as int),
                (c4.0 as int, c4.1 as int),
            ],
    {
        let face = ExactFace::Pentagon(
            [
                PackedIndex::new(c0.0, c0.1),
                PackedIndex::new(c1.0, c1.1),
                PackedIndex::new(c2.0, c2.1),
                PackedIndex::new(c3.0, c3.1),
                PackedIndex::new(c4.0, c4.1),
            ],
        );
        assert(face@ =~= seq![
            (c0.0 as int, c0.1 as int),
            (c1.0 as int, c1.1 as int),
            (c2.0 as int, c2.1 as int),
            (c3.0 as int, c3.1 as int),
            (c4.0 as int, c4.1 as int),
        ]);
        face
    }

    /// Whether the face is one of the twelve pentagons.
    pub fn is_pentagon(&self) -> (yes: bool)
        ensures
            yes == (*self is Pentagon),
            yes == (self@.len() == 5),
    {
        match self {
            ExactFace::Pentagon(_) => true,
            ExactFace::Hexagon(_) => false,
        }
    }

    /// The corners of the face, in order.
    pub fn corners(&self) -> (corners: Vec<PackedIndex>)
        ensures
            corners@.len() == self@.len(),
            forall|i: int| 0 <= i < corners@.len() ==> corners@[i]@ == self@[i],
    {
        let mut corners: Vec<PackedIndex> = Vec::new();
        match self {
            ExactFace::Pentagon(c) => {
                let mut i: usize = 0;
                while i < 5
                    invariant
                        *self == ExactFace::Pentagon(*c),
                        0 <= i <= 5,
                        corners@.len() == i,
                        forall|k: int| 0 <= k < i ==> corners@[k]@ == self@[k],
                    decreases 5 - i,
                {
                    corners.push(c[i]);
                    i = i + 1;
                }
            },
            ExactFace::Hexagon(c) => {
                let mut i: usize = 0;
                while i < 6
                    invariant
                        *self == ExactFace::Hexagon(*c),
                        0 <= i <= 6,
                        corners@.len() == i,
                        forall|k: int| 0 <= k < i ==> corners@[k]@ == self@[k],
                    decreases 6 - i,
                {
                    corners.push(c[i]);
                    i = i + 1;
                }
            },
        }
        corners
    }
}

} // verus!
