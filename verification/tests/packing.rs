use hexglobe::denominator::ImplicitDenominator;
use hexglobe::fixed::{max, FixedPoint};
use hexglobe::lattice_vertex::LatticeVertex;
use hexglobe::packed_index::PackedIndex;
use hexglobe::seed::{Seed, SeedFace, SeedRotation};
use hexglobe::triangle::Triangle;

#[test]
fn pack_and_unpack_round_trip() {
    for face in 0..32usize {
        for subdivision in [0usize, 1, 2, 31, 32, 33, 1000, 71_571_599, 134_217_727] {
            let packed = PackedIndex::new(face, subdivision);
            assert_eq!(packed.face(), face);
            assert_eq!(packed.subdivision(), subdivision);
        }
    }
}

#[test]
fn packed_keys_order_by_subdivision_then_face() {
    assert!(PackedIndex::new(19, 0) < PackedIndex::new(0, 1));
    assert!(PackedIndex::new(3, 7) < PackedIndex::new(4, 7));
    assert_eq!(PackedIndex::new(3, 7), PackedIndex::new(3, 7));
    assert_ne!(PackedIndex::new(3, 7), PackedIndex::new(7, 3));
    assert_eq!(PackedIndex::default(), PackedIndex::new(0, 0));
}

#[test]
fn triangle_keeps_its_corners() {
    let t = Triangle::new(1usize, 2usize, 3usize);
    assert_eq!((t.u, t.v, t.w), (1, 2, 3));
}

#[test]
fn fractions_need_a_denominator() {
    assert!(ImplicitDenominator::new(LatticeVertex::new(1, 1, 1), 0).is_none());
    let third = ImplicitDenominator::new(LatticeVertex::new(1, 1, 1), 3).unwrap();
    assert_eq!(third.inner(), LatticeVertex::new(1, 1, 1));
    assert_eq!(third.denominator(), 3);
    let step = ImplicitDenominator::wrap(LatticeVertex::new(-1, 1, 0), 3);
    let moved = third.clone() + step.clone();
    assert_eq!(moved.inner(), LatticeVertex::new(0, 2, 1));
    assert_eq!(moved.denominator(), 3);
    let back = moved - step;
    assert_eq!(back.inner(), LatticeVertex::new(1, 1, 1));
}

#[test]
fn lattice_vertices_add_and_subtract() {
    let a = LatticeVertex::new(2, 1, 1);
    let b = LatticeVertex::new(-1, 0, 1);
    assert_eq!(a + b, LatticeVertex::new(1, 1, 2));
    assert_eq!(a - b, LatticeVertex::new(3, 1, 0));
    assert_eq!(a.element_sum(), 4);
}

#[test]
fn fixed_point_parts() {
    assert_eq!(max(3, 7), 7);
    assert_eq!(max(7, 3), 7);
    assert!(FixedPoint::new(5, 0).is_none());
    assert!(FixedPoint::new(5, 6).is_none());
    assert!(FixedPoint::new(5, 1 << 32).is_none());
    let v = FixedPoint::new(22, 8).unwrap();
    assert_eq!(v.integral(), 2);
    assert_eq!(v.fractional(), (3, 4));
    let whole = FixedPoint::new(16, 8).unwrap();
    assert_eq!(whole.integral(), 2);
    assert_eq!(whole.fractional(), (0, 1));
    let odd = FixedPoint::new(7, 1).unwrap();
    assert_eq!(odd.integral(), 7);
    assert_eq!(odd.fractional(), (0, 1));
}

#[test]
fn fixed_point_conversion_and_sum() {
    let v = FixedPoint::new(22, 8).unwrap();
    assert!(v.to_denominator(16) == FixedPoint::new(44, 16).unwrap());
    assert_eq!(v.to_denominator(16).integral(), 2);
    assert_eq!(v.to_denominator(16).fractional(), (3, 4));
    assert!(v.to_denominator(4) == FixedPoint::new(11, 4).unwrap());
    let w = FixedPoint::new(21, 8).unwrap();
    assert_eq!(w.to_denominator(2).fractional(), (1, 2));
    assert_eq!(w.to_denominator(2).integral(), 2);
    assert!(v == FixedPoint::new(11, 4).unwrap());
    assert!(v != FixedPoint::new(23, 8).unwrap());
    let sum = v + FixedPoint::new(1, 2).unwrap();
    assert_eq!(sum.integral(), 3);
    assert_eq!(sum.fractional(), (1, 4));
}

#[test]
fn icosahedron_has_four_given_faces_and_sixteen_copies() {
    let seed = Seed::icosahedron();
    let bases = seed.base_faces();
    assert_eq!(
        bases,
        vec![
            (0, Triangle::new(0, 5, 10)),
            (5, Triangle::new(11, 10, 5)),
            (10, Triangle::new(10, 11, 7)),
            (15, Triangle::new(3, 7, 11)),
        ]
    );
    let copies = seed.symmetries();
    assert_eq!(copies.len(), 16);
    assert_eq!(copies[0], (1, 0, SeedRotation { axis: 3, fifths: 1 }));
    assert_eq!(copies[3], (4, 0, SeedRotation { axis: 3, fifths: 4 }));
    assert_eq!(copies[4], (6, 5, SeedRotation { axis: 3, fifths: 1 }));
    assert_eq!(copies[15], (19, 15, SeedRotation { axis: 3, fifths: 4 }));
    let mut seen = vec![false; 20];
    for (face, _) in &bases {
        seen[*face] = true;
    }
    for (face, base, _) in &copies {
        seen[*face] = true;
        assert!(bases.iter().any(|(b, _)| b == base));
    }
    assert!(seen.iter().all(|s| *s));
    let _ = SeedFace::Base(Triangle::new(0, 1, 2));
}
