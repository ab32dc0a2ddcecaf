//! One integer key for a pair of a seed face and an index within that face.

use vstd::prelude::*;

verus! {

/// Number of low bits that hold the seed face.
pub const FACE_BITS: usize = 5;

/// Number of distinct seed-face values a key can hold.
pub const FACE_SLOTS: usize = 32;

/// Largest index within a face that still leaves room for the face bits.
pub open spec fn max_subdivision() -> int {
    usize::MAX as int / 32
}

/// The key for `(face, subdivision)` as a number: the index moved up by the
/// face bits, with the face in the bits below.
pub open spec fn pack(face: int, subdivision: int) -> int {
    subdivision * 32 + face
}

/// The pair behind a key, face first.
pub open spec fn unpack(key: int) -> (int, int) {
    (key % 32, key / 32)
}

/// Packing and unpacking undo each other: a pair with a face below 32 comes
/// back from its key, and every key is the key of the pair it unpacks to.
pub proof fn lemma_pack_round_trip(face: int, subdivision: int)
    requires
        0 <= face < 32,
        0 <= subdivision,
    ensures
        unpack(pack(face, subdivision)) == (face, subdivision),
        pack(unpack(pack(face, subdivision)).0, unpack(pack(face, subdivision)).1) == pack(
            face,
            subdivision,
        ),
{
}

/// Keys are ordered by the index within the face first and by the face
/// second.
pub proof fn lemma_pack_order(a: (int, int), b: (int, int))
    requires
        0 <= a.0 < 32,
        0 <= b.0 < 32,
    ensures
        pack(a.0, a.1) < pack(b.0, b.1) <==> a.1 < b.1 || (a.1 == b.1 && a.0 < b.0),
        pack(a.0, a.1) == pack(b.0, b.1) <==> a == b,
{
}

/// A `usize` whose lower 5 bits name one of the seed faces and whose
/// remaining bits hold an index within that face.
#[derive(Copy, Clone, Debug, Default, PartialEq, Eq, PartialOrd, Ord, Hash, Structural)]
pub struct PackedIndex(usize);

impl View for PackedIndex {
    type V = (int, int);

    /// The pair `(face, subdivision)` that the key stands for.
    closed spec fn view(&self) -> (int, int) {
        unpack(self.0 as int)
    }
}

impl PackedIndex {
    /// The key as a plain number.
    pub closed spec fn key(self) -> int {
        self.0 as int
    }

    /// Keys with the same pair behind them are the same key.
    pub proof fn lemma_view_injective(self, other: Self)
        requires
            self@ == other@,
        ensures
            self == other,
    {
        assert(self.0 == 32 * (self.0 / 32) + self.0 % 32);
        assert(other.0 == 32 * (other.0 / 32) + other.0 % 32);
    }

    /// Packs the two indices into one key.
    pub fn new(face: usize, subdivision: usize) -> (packed: Self)
        requires
            face < 32,
            subdivision <= max_subdivision(),
        ensures
            packed.key() == pack(face as int, subdivision as int),
            packed@ == (face as int, subdivision as int),
    {
        assert(subdivision <= usize::MAX / 32);
        assert(subdivision <= usize::MAX >> 5) by {
            let m = usize::MAX;
            assert(m >> 5 == m / 32) by (bit_vector);
        }
        let top = usize::MAX >> 5;
        assert(usize::MAX == !0usize) by {
            let m = usize::MAX;
            let ones = !0usize;
            assert(m <= !0usize) by (bit_vector);
            assert(ones <= usize::MAX);
        }
        assert((subdivision << 5) | face == subdivision * 32 + face) by (bit_vector)
            requires
                face < 32,
                subdivision <= top,
                top == !0usize >> 5,
        ;
        Self((subdivision << 5) | face)
    }

    /// The stored seed face.
    pub fn face(&self) -> (face: usize)
        ensures
            face as int == self@.0,
            face < 32,
    {
        let key = self.0;
        assert(key & 0b11111 == key % 32) by (bit_vector);
        self.0 & 0b11111
    }

    /// The stored index within the face.
    pub fn subdivision(&self) -> (subdivision: usize)
        ensures
            subdivision as int == self@.1,
            subdivision <= max_subdivision(),
    {
        let key = self.0;
        assert(key >> 5 == key / 32) by (bit_vector);
        self.0 >> 5
    }
}

} // verus!
