//! The icosahedron that is subdivided: its twenty faces over twelve corners.
//!
//! The corners are numbered 0 to 11. Their positions are not kept here; what
//! is kept is which corners span a face, and which faces are turned copies of
//! another face.

use vstd::prelude::*;
use crate::triangle::Triangle;

verus! {

/// Number of corners of the icosahedron.
pub const SEED_VERTICES: usize = 12;

/// Number of edges of the icosahedron.
pub const SEED_EDGES: usize = 30;

/// Number of faces of the icosahedron.
pub const SEED_FACES: usize = 20;

/// The corner that the axis of the symmetric faces runs through.
pub const SEED_AXIS: usize = 3;

/// A turn about the axis through the centre and one corner of the
/// icosahedron, by a multiple of a fifth of a full turn.
#[derive(Copy, Clone, Debug, PartialEq, Eq, Hash, Structural)]
pub struct SeedRotation {
    /// The corner that the axis runs through.
    pub axis: usize,
    /// The angle in fifths of a full turn, that is in steps of 72 degrees.
    pub fifths: u32,
}

/// One face of the icosahedron.
#[derive(Clone, Debug)]
pub enum SeedFace {
    /// A face given by its three corners, counterclockwise seen from outside.
    Base(Triangle<usize>),
    /// A face that is another face, named by its index, after a rotation.
    Symmetry(usize, SeedRotation),
}

/// The corners of the four faces that are given explicitly, one for each
/// ring of five faces: the ring around the top, the two rings of the belt
/// and the ring around the bottom.
pub open spec fn base_corners(ring: int) -> Triangle<usize> {
    if ring == 0 {
        Triangle { u: 0, v: 5, w: 10 }
    } else if ring == 1 {
        Triangle { u: 11, v: 10, w: 5 }
    } else if ring == 2 {
        Triangle { u: 10, v: 11, w: 7 }
    } else {
        Triangle { u: 3, v: 7, w: 11 }
    }
}

/// Face `i` of the icosahedron. The first face of each ring is given by its
/// corners; the others are that face turned about the common axis, by one
/// fifth of a turn for each step along the ring.
pub open spec fn icosahedron_face(i: int) -> SeedFace {
    if i % 5 == 0 {
        SeedFace::Base(base_corners(i / 5))
    } else {
        SeedFace::Symmetry(
            (i - i % 5) as usize,
            SeedRotation { axis: 3, fifths: (i % 5) as u32 },
        )
    }
}

/// The twenty faces of the icosahedron.
pub open spec fn icosahedron_faces() -> Seq<SeedFace> {
    Seq::new(20, |i: int| icosahedron_face(i))
}

/// The indices and corners of the faces among the first `count` of `faces`
/// that are given explicitly, in ascending order.
pub open spec fn base_faces_of(faces: Seq<SeedFace>, count: int) -> Seq<(usize, Triangle<usize>)>
    decreases count,
{
    if count <= 0 {
        Seq::empty()
    } else {
        let before = base_faces_of(faces, count - 1);
        match faces[count - 1] {
            SeedFace::Base(corners) => before.push(((count - 1) as usize, corners)),
            SeedFace::Symmetry(_, _) => before,
        }
    }
}

/// The faces among the first `count` of `faces` that are copies of another
/// face, in ascending order: own index, index of the other face, rotation.
pub open spec fn symmetries_of(faces: Seq<SeedFace>, count: int) -> Seq<
    (usize, usize, SeedRotation),
>
    decreases count,
{
    if count <= 0 {
        Seq::empty()
    } else {
        let before = symmetries_of(faces, count - 1);
        match faces[count - 1] {
            SeedFace::Base(_) => before,
            SeedFace::Symmetry(base, turn) => before.push(((count - 1) as usize, base, turn)),
        }
    }
}

/// The polyhedron whose faces are subdivided.
#[derive(Clone, Debug)]
pub struct Seed {
    faces: Vec<SeedFace>,
}

impl View for Seed {
    type V = Seq<SeedFace>;

    closed spec fn view(&self) -> Seq<SeedFace> {
        self.faces@
    }
}

impl Seed {
    /// Whether every copied face names an explicitly given face.
    pub open spec fn wf(&self) -> bool {
        forall|i: int|
            0 <= i < self@.len() ==> (#[trigger] self@[i] matches SeedFace::Symmetry(base, _)
                ==> base < self@.len() && self@[base as int] is Base)
    }

    /// The icosahedron, the only seed there is.
    pub fn icosahedron() -> (seed: Self)
        ensures
            seed@ == icosahedron_faces(),
            seed.wf(),
    {
        let mut faces: Vec<SeedFace> = Vec::new();
        // Top
        faces.push(Self::triangle(0, 5, 10));
        faces.push(Self::rotation(0, 1));
        faces.push(Self::rotation(0, 2));
        faces.push(Self::rotation(0, 3));
        faces.push(Self::rotation(0, 4));
        // Upper middle
        faces.push(Self::triangle(11, 10, 5));
        faces.push(Self::rotation(5, 1));
        faces.push(Self::rotation(5, 2));
        faces.push(Self::rotation(5, 3));
        faces.push(Self::rotation(5, 4));
        // Lower middle
        faces.push(Self::triangle(10, 11, 7));
        faces.push(Self::rotation(10, 1));
        faces.push(Self::rotation(10, 2));
        faces.push(Self::rotation(10, 3));
        faces.push(Self::rotation(10, 4));
        // Bottom
        faces.push(Self::triangle(3, 7, 11));
        faces.push(Self::rotation(15, 1));
        faces.push(Self::rotation(15, 2));
        faces.push(Self::rotation(15, 3));
        faces.push(Self::rotation(15, 4));
        proof {
            assert forall|i: int| 0 <= i < 20 implies faces@[i] == icosahedron_face(i) by {
                if i < 5 {
                } else if i < 10 {
                } else if i < 15 {
                } else {
                }
            }
            assert(faces@ =~= icosahedron_faces());
        }
        Seed { faces }
    }

    /// A face given by three corners.
    fn triangle(u: usize, v: usize, w: usize) -> (face: SeedFace)
        ensures
            face == SeedFace::Base(Triangle { u, v, w }),
    {
        SeedFace::Base(Triangle::new(u, v, w))
    }

    /// A face that is face `base` turned about the common axis.
    fn rotation(base: usize, fifths: u32) -> (face: SeedFace)
        ensures
            face == SeedFace::Symmetry(base, SeedRotation { axis: 3, fifths }),
    {
        SeedFace::Symmetry(base, SeedRotation { axis: SEED_AXIS, fifths })
    }

    /// The faces that are given as turned copies of other faces: for each its
    /// own index, the index of the face that is turned, and the rotation that
    /// takes that face to this one.
    pub fn symmetries(&self) -> (copies: Vec<(usize, usize, SeedRotation)>)
        ensures
            copies@ == symmetries_of(self@, self@.len() as int),
    {
        let mut copies: Vec<(usize, usize, SeedRotation)> = Vec::new();
        let mut i: usize = 0;
        while i < self.faces.len()
            invariant
                0 <= i <= self.faces@.len(),
                copies@ == symmetries_of(self@, i as int),
            decreases self.faces@.len() - i,
        {
            match &self.faces[i] {
                SeedFace::Base(_) => {},
                SeedFace::Symmetry(base, turn) => {
                    copies.push((i, *base, *turn));
                },
            }
            i = i + 1;
        }
        copies
    }

    /// The faces that are given by their corners: for each its index and the
    /// three corners.
    pub fn base_faces(&self) -> (bases: Vec<(usize, Triangle<usize>)>)
        ensures
            bases@ == base_faces_of(self@, self@.len() as int),
    {
        let mut bases: Vec<(usize, Triangle<usize>)> = Vec::new();
        let mut i: usize = 0;
        while i < self.faces.len()
            invariant
                0 <= i <= self.faces@.len(),
                bases@ == base_faces_of(self@, i as int),
            decreases self.faces@.len() - i,
        {
            match &self.faces[i] {
                SeedFace::Base(corners) => {
                    bases.push((i, Triangle { u: corners.u, v: corners.v, w: corners.w }));
                },
                SeedFace::Symmetry(_, _) => {},
            }
            i = i + 1;
        }
        bases
    }
}

/// The icosahedron has four faces given by their corners, the first of each
/// ring, and sixteen copies; each copy is the first face of its own ring
/// turned by as many fifths as the copy stands behind it.
pub proof fn lemma_icosahedron_faces()
    ensures
        base_faces_of(icosahedron_faces(), 20) == seq![
            (0usize, base_corners(0)),
            (5usize, base_corners(1)),
            (10usize, base_corners(2)),
            (15usize, base_corners(3)),
        ],
        symmetries_of(icosahedron_faces(), 20).len() == 16,
        forall|k: int|
            #![trigger symmetries_of(icosahedron_faces(), 20)[k]]
            0 <= k < 16 ==> symmetries_of(icosahedron_faces(), 20)[k] == (
                (5 * (k / 4) + k % 4 + 1) as usize,
                (5 * (k / 4)) as usize,
                SeedRotation { axis: 3, fifths: (k % 4 + 1) as u32 },
            ),
{
    let faces = icosahedron_faces();
    reveal_with_fuel(base_faces_of, 21);
    reveal_with_fuel(symmetries_of, 21);
    assert(base_faces_of(faces, 20) =~= seq![
        (0usize, base_corners(0)),
        (5usize, base_corners(1)),
        (10usize, base_corners(2)),
        (15usize, base_corners(3)),
    ]);
    assert(symmetries_of(faces, 20).len() == 16);
}

} // verus!
