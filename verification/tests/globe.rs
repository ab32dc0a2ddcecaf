use std::collections::HashSet;

use hexglobe::error::GlobeError;
use hexglobe::face::{ExactFace, MeshFace};
use hexglobe::hexglobe::HexGlobe;
use hexglobe::packed_index::PackedIndex;
use hexglobe::subdivided_triangle::SubdividedTriangle;

// Number of vertices, edges, and faces of icosahedron.
const V: usize = 12;
const E: usize = 30;
const F: usize = 20;

fn globe(n: u32) -> HexGlobe {
    HexGlobe::new(n).unwrap()
}

fn face_creation_test_hexagons(n: u32) {
    let template = SubdividedTriangle::new(n).unwrap();
    let edge_faces = HexGlobe::edge_faces_from_template(&template).len();
    let face_faces = HexGlobe::face_faces_from_template(&template).len();

    let n_edge_faces = E * (n - 1) as usize;
    let n_face_faces = F * ((n - 1) * (n.max(2) - 2) / 2) as usize;

    assert!(edge_faces == n_edge_faces, "Incorrect number of hexagons crossing edges for icosahedron with {:?} subdivisions.", n);
    assert!(face_faces == n_face_faces, "Incorrect number of hexagons within faces for icosahedron with {:?} subdivisions.", n);

    let pentagon = HexGlobe::edge_faces_from_template(&template).iter().position(|v| match v {
        ExactFace::Pentagon(_) => true,
        _ => false,
    });

    assert!(pentagon == None, "Found pentagon crossing edge for icosahedron with {:?} subdivisions.", n);

    let pentagon = HexGlobe::face_faces_from_template(&template).iter().position(|v| match v {
        ExactFace::Pentagon(_) => true,
        _ => false,
    });

    assert!(pentagon == None, "Found pentagon within face for icosahedron with {:?} subdivisions.", n);
}

fn face_creation_test_pentagons(n: u32) {
    let template = SubdividedTriangle::new(n).unwrap();
    let vertex_faces = HexGlobe::vertex_faces_from_template(&template).len();

    let n_vertex_faces = V;

    assert!(vertex_faces == n_vertex_faces, "Incorrect number of pentagons on vertices for icosahedron with {:?} subdivisions.", n);

    let hexagon = HexGlobe::vertex_faces_from_template(&template).iter().position(|v| match v {
        ExactFace::Hexagon(_) => true,
        _ => false,
    });

    assert!(hexagon == None, "Found hexagonal face lying on a vertex for icosahedron with {:?} subdivisions.", n);
}

fn basic_count_test(n: u32) {
    let globe = globe(n);
    let n_vertices_expected = F * (n * n) as usize;
    let n_faces = V + E * (n - 1) as usize + F * ((n - 1) * (n.max(2) - 2) / 2) as usize;
    let n_vertices = F * globe.subdivision().triangles().len();

    assert!(n_vertices == n_vertices_expected, "Incorrect number of vertices in icosahedron with {:?} subdivisions.", n);
    assert!(globe.faces().len() == n_faces, "Incorrect number of faces in icosahedron with {:?} subdivisions.", n);
    assert!(globe.count_faces() == n_faces);
}

fn hexagon_count_test(n: u32) {
    let globe = globe(n);
    let expected = E * (n - 1) as usize + F * ((n - 1) * (n.max(2) - 2) / 2) as usize;

    let hexagons = globe
        .faces()
        .iter()
        .filter(|f| match f {
            ExactFace::Hexagon(_) => true,
            ExactFace::Pentagon(_) => false,
        })
        .collect::<Vec<_>>();
    assert!(hexagons.len() == expected, "Incorrect number of hexagons in icosahedron with {:?} subdivisions.", n);
}

fn pentagon_count_test(n: u32) {
    let globe = globe(n);

    let pentagons = globe
        .faces()
        .iter()
        .filter(|f| match f {
            ExactFace::Hexagon(_) => false,
            ExactFace::Pentagon(_) => true,
        })
        .collect::<Vec<_>>();
    assert!(pentagons.len() == V, "Incorrect number of pentagons in icosahedron with {:?} subdivisions.", n);
}

fn sides(face: &ExactFace) -> Vec<(PackedIndex, PackedIndex)> {
    let v = face.corners();
    (0..v.len())
        .map(|j| (v[j], v[(j + 1) % v.len()]))
        .map(|(a, b)| (a.min(b), a.max(b)))
        .collect()
}

fn expected_adjacency(globe: &HexGlobe) -> HashSet<(usize, usize)> {
    let sides = globe.faces().iter().map(sides).collect::<Vec<_>>();
    let mut expected = HashSet::new();
    for i in 0..sides.len() {
        for j in (i + 1)..sides.len() {
            if sides[i].iter().any(|s| sides[j].contains(s)) {
                expected.insert((i, j));
            }
        }
    }
    expected
}

fn adjacency_test(n: u32) {
    let globe = globe(n);
    let computed_adjacency = globe
        .adjacency()
        .into_iter()
        .map(|(a, b)| (a.min(b), a.max(b)))
        .collect::<HashSet<_>>();
    let expected_adjacency = expected_adjacency(&globe);

    assert!(computed_adjacency.is_subset(&expected_adjacency), "Not all computed adjacencies are real for hexglobe with {:?} subdivisions.", n);
    assert!(expected_adjacency.is_subset(&computed_adjacency), "Not all adjacencies are computed for hexglobe with {:?} subdivisions.", n);

    let listed = globe.adjacency();
    let ordered = listed.iter().cloned().collect::<HashSet<_>>();
    assert!(ordered.len() == listed.len(), "Duplicate ordered edges found in adjacency edge list for hexglobe with {:?} subdivisions", n);
    assert!(computed_adjacency.len() == listed.len(), "Duplicate unordered edges found in adjacency edge list for hexglobe with {:?} subdivisions", n);
}

fn shared_corners(a: &ExactFace, b: &ExactFace) -> usize {
    let a = a.corners();
    let b = b.corners();
    a.iter().filter(|c| b.contains(c)).count()
}

fn vertex_index_to_face_index_test(n: u32, f: usize, i: usize) {
    let globe = globe(n);

    let actual = globe.vertex_index_to_face_index(f, i);
    let actual_face = globe.faces()[actual];
    let matches = actual_face
        .corners()
        .iter()
        .map(|v| globe.subdivision().triangle(v.subdivision()))
        .position(|t| t.u == i || t.v == i || t.w == i);

    assert!(matches.is_some(), "Did not get expected face index for hexglobe with {:?} subdivisions.", n);
}

#[test]
fn basic_counts() {
    basic_count_test(1);

    basic_count_test(2);

    basic_count_test(3);

    basic_count_test(4);
}

#[test]
fn tests_basic_counts() {
    let globe = globe(2);

    assert_eq!(F * globe.subdivision().triangle_count(), F * 4, "Incorrect number of vertices in icosahedron with 2 subdivisions.");
    assert_eq!(globe.faces().len(), V + E, "Incorrect number of faces in icosahedron with 2 subdivisions.");
}

#[test]
fn hexagon_counts() {
    let globe = globe(2);

    let (hexagons, _): (Vec<&ExactFace>, Vec<&ExactFace>) = globe.faces().iter().partition(|f| match f {
        ExactFace::Hexagon(_) => true,
        ExactFace::Pentagon(_) => false,
    });
    assert_eq!(hexagons.len(), E, "Incorrect number of hexagons in icosahedron with 2 subdivisions.");
}

#[test]
fn pentagon_counts() {
    let globe = globe(2);

    let (_, pentagons): (Vec<&ExactFace>, Vec<&ExactFace>) = globe.faces().iter().partition(|f| match f {
        ExactFace::Hexagon(_) => true,
        ExactFace::Pentagon(_) => false,
    });
    assert_eq!(pentagons.len(), V, "Incorrect number of pentagons in icosahedron with 2 subdivisions.");
}

#[test]
fn hexagon_counts_total() {
    hexagon_count_test(1);

    hexagon_count_test(2);

    hexagon_count_test(3);

    hexagon_count_test(4);
}

#[test]
fn pentagon_counts_total() {
    pentagon_count_test(1);

    pentagon_count_test(2);

    pentagon_count_test(3);

    pentagon_count_test(4);
}

#[test]
fn hexagon_counts_subdivision() {
    face_creation_test_hexagons(1);

    face_creation_test_hexagons(2);

    face_creation_test_hexagons(3);

    face_creation_test_hexagons(4);
}

#[test]
fn pentagon_counts_subdivision() {
    face_creation_test_pentagons(1);

    face_creation_test_pentagons(2);

    face_creation_test_pentagons(3);

    face_creation_test_pentagons(4);
}

#[test]
fn adjacency() {
    adjacency_test(1);

    adjacency_test(2);

    adjacency_test(3);

    adjacency_test(4);

    adjacency_test(5);

    adjacency_test(5);
}

#[test]
fn vertex_to_face_index() {
    // Edge
    vertex_index_to_face_index_test(2, 1, 2);
    // Interior
    vertex_index_to_face_index_test(3, 11, 5);

    vertex_index_to_face_index_test(4, 0, 6);
    vertex_index_to_face_index_test(4, 1, 7);
    vertex_index_to_face_index_test(4, 2, 10);
    vertex_index_to_face_index_test(4, 1, 1)
}

#[test]
fn level_zero_gives_no_globe() {
    assert_eq!(HexGlobe::new(0).err(), Some(GlobeError::InvalidSubdivisionLevel));
}

#[test]
fn face_count_formula() {
    for n in 1u32..=12 {
        let expected = 12 + 30 * (n - 1) + 20 * (n - 1) * (n.max(2) - 2) / 2;
        assert_eq!(globe(n).count_faces(), expected as usize);
        assert_eq!(globe(n).count_faces(), (10 * n * n + 2) as usize);
    }
}

#[test]
fn construction_is_repeatable() {
    for n in 1..=5 {
        let a = globe(n);
        let b = globe(n);
        assert_eq!(a.faces().len(), b.faces().len());
        for (x, y) in a.faces().iter().zip(b.faces().iter()) {
            assert_eq!(x.corners(), y.corners());
            assert_eq!(x.is_pentagon(), y.is_pentagon());
        }
    }
}

fn pairs(face: &ExactFace) -> Vec<(usize, usize)> {
    face.corners().iter().map(|c| (c.face(), c.subdivision())).collect()
}

#[test]
fn level_one_is_the_icosahedron() {
    let globe = globe(1);
    assert_eq!(globe.faces().len(), 12);
    assert!(globe.faces().iter().all(|f| f.is_pentagon()));
    assert_eq!(20 * globe.subdivision().triangle_count(), 20);
    let faces = globe.mesh_faces();
    assert_eq!(globe.mesh_triangles(&faces).len(), 36 * 3);
    assert_eq!(globe.adjacency().len(), 30);
    assert_eq!(pairs(&globe.faces()[0]), vec![(4, 0), (3, 0), (2, 0), (1, 0), (0, 0)]);
    assert_eq!(pairs(&globe.faces()[1]), vec![(15, 0), (16, 0), (17, 0), (18, 0), (19, 0)]);
    assert_eq!(pairs(&globe.faces()[2]), vec![(0, 0), (1, 0), (6, 0), (10, 0), (5, 0)]);
    assert_eq!(pairs(&globe.faces()[6]), vec![(4, 0), (0, 0), (5, 0), (14, 0), (9, 0)]);
    assert_eq!(pairs(&globe.faces()[7]), vec![(15, 0), (19, 0), (14, 0), (5, 0), (10, 0)]);
    assert_eq!(pairs(&globe.faces()[11]), vec![(19, 0), (18, 0), (13, 0), (9, 0), (14, 0)]);
    let mut adjacency = globe.adjacency();
    adjacency.sort();
    assert_eq!(
        adjacency,
        vec![
            (0, 2), (0, 3), (0, 4), (0, 5), (0, 6), (1, 7), (1, 8), (1, 9), (1, 10), (1, 11),
            (2, 3), (2, 6), (2, 7), (2, 8), (3, 4), (3, 8), (3, 9), (4, 5), (4, 9), (4, 10),
            (5, 6), (5, 10), (5, 11), (6, 7), (6, 11), (7, 8), (7, 11), (8, 9), (9, 10),
            (10, 11),
        ]
    );
}

#[test]
fn level_two_has_forty_two_faces() {
    let globe = globe(2);
    assert_eq!(globe.faces().len(), 42);
    assert_eq!(globe.faces().iter().filter(|f| f.is_pentagon()).count(), 12);
    assert_eq!(globe.faces().iter().filter(|f| !f.is_pentagon()).count(), 30);
    let template = SubdividedTriangle::new(2).unwrap();
    assert_eq!(HexGlobe::face_faces_from_template(&template).len(), 0);
    assert_eq!(pairs(&globe.faces()[12]), vec![(0, 0), (0, 3), (0, 2), (1, 2), (1, 3), (1, 1)]);
    assert_eq!(pairs(&globe.faces()[41]), vec![(19, 2), (19, 3), (19, 1), (15, 0), (15, 3), (15, 2)]);
    let adjacency = globe.adjacency();
    assert_eq!(adjacency.len(), 120);
    assert_eq!(&adjacency[..6], &[(2, 17), (3, 18), (4, 19), (5, 20), (6, 21), (6, 17)]);
}

#[test]
fn interior_faces_surround_their_point() {
    let globe = globe(3);
    assert_eq!(globe.faces().len(), 92);
    assert_eq!(pairs(&globe.faces()[72]), vec![(0, 6), (0, 1), (0, 7), (0, 4), (0, 8), (0, 3)]);
    assert_eq!(pairs(&globe.faces()[91]), vec![(19, 6), (19, 1), (19, 7), (19, 4), (19, 8), (19, 3)]);
    let template = SubdividedTriangle::new(3).unwrap();
    let all = HexGlobe::faces_from_template(&template);
    assert_eq!(all.len(), 92);
}

#[test]
fn face_index_values() {
    assert_eq!(globe(2).vertex_index_to_face_index(1, 2), 2);
    assert_eq!(globe(3).vertex_index_to_face_index(11, 5), 83);
    assert_eq!(globe(4).vertex_index_to_face_index(0, 6), 102);
    assert_eq!(globe(4).vertex_index_to_face_index(1, 7), 106);
    assert_eq!(globe(4).vertex_index_to_face_index(2, 10), 110);
    assert_eq!(globe(4).vertex_index_to_face_index(1, 1), 32);
}

#[test]
fn every_lattice_point_names_a_face_that_touches_it() {
    for n in 1..=5u32 {
        let globe = globe(n);
        let template = globe.subdivision();
        for f in 0..20 {
            for i in 0..template.vertex_count() {
                let face = globe.faces()[globe.vertex_index_to_face_index(f, i)];
                let around = (0..template.triangle_count())
                    .filter(|t| {
                        let t = template.triangle(*t);
                        t.u == i || t.v == i || t.w == i
                    })
                    .collect::<Vec<_>>();
                let named = face
                    .corners()
                    .iter()
                    .filter(|c| c.face() == f)
                    .map(|c| c.subdivision())
                    .collect::<Vec<_>>();
                assert_eq!(named.len(), around.len());
                assert!(around.iter().all(|t| named.contains(t)));
            }
        }
    }
}

#[test]
fn adjacent_faces_share_two_consecutive_corners() {
    for n in 1..=5u32 {
        let globe = globe(n);
        for (a, b) in globe.adjacency() {
            assert!(a < b);
            assert_eq!(shared_corners(&globe.faces()[a], &globe.faces()[b]), 2);
            let mine = sides(&globe.faces()[a]);
            let theirs = sides(&globe.faces()[b]);
            assert_eq!(mine.iter().filter(|s| theirs.contains(s)).count(), 1);
        }
        assert_eq!(globe.adjacency().len(), (30 * n * n) as usize);
    }
}

#[test]
fn mesh_buffers_follow_the_faces() {
    let globe = globe(2);
    let faces = globe.mesh_faces();
    assert_eq!(faces.len(), 42);
    match faces[0] {
        MeshFace::Pentagon(v) => assert_eq!(v, [0, 1, 2, 3, 4]),
        MeshFace::Hexagon(_) => panic!("the first face is a pentagon"),
    }
    match faces[11] {
        MeshFace::Pentagon(v) => assert_eq!(v, [55, 56, 57, 58, 59]),
        MeshFace::Hexagon(_) => panic!("the twelfth face is a pentagon"),
    }
    match faces[12] {
        MeshFace::Hexagon(v) => assert_eq!(v, [60, 61, 62, 63, 64, 65]),
        MeshFace::Pentagon(_) => panic!("the thirteenth face is a hexagon"),
    }
    match faces[41] {
        MeshFace::Hexagon(v) => assert_eq!(v, [234, 235, 236, 237, 238, 239]),
        MeshFace::Pentagon(_) => panic!("the last face is a hexagon"),
    }
    let triangles = globe.mesh_triangles(&faces);
    assert_eq!(triangles.len(), (12 * 3 + 30 * 4) * 3);
    assert_eq!(&triangles[..9], &[0, 1, 2, 0, 2, 3, 0, 3, 4]);
    assert_eq!(&triangles[108..120], &[60, 61, 62, 60, 62, 63, 60, 63, 64, 60, 64, 65]);

    let centroids = (0..20usize)
        .map(|f| (0..4usize).map(|t| (f, t)).collect::<Vec<_>>())
        .collect::<Vec<_>>();
    let vertices = globe.mesh_vertices(&centroids);
    assert_eq!(vertices.len(), 240);
    assert_eq!(&vertices[..5], &[(4, 2), (3, 2), (2, 2), (1, 2), (0, 2)]);
    assert_eq!(&vertices[60..66], &[(0, 0), (0, 3), (0, 2), (1, 2), (1, 3), (1, 1)]);
    let mut k = 0;
    for face in globe.faces() {
        for corner in face.corners() {
            assert_eq!(vertices[k], (corner.face(), corner.subdivision()));
            k += 1;
        }
    }
}
