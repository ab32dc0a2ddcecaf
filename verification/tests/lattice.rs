use std::collections::HashSet;

use hexglobe::error::GlobeError;
use hexglobe::lattice_vertex::LatticeVertex;
use hexglobe::subdivided_triangle::{
    n_edges, n_triangles, n_triangles_down, n_triangles_up, n_vertices, SubdividedTriangle,
};
use hexglobe::triangle::Triangle;

fn lattice(n: u32) -> SubdividedTriangle {
    SubdividedTriangle::new(n).unwrap()
}

fn edge_length_test(n: u32) {
    let subdivided = lattice(n);
    let n_triangles_edge = (2 * n - 1) as usize;

    assert!(subdivided.uv().len() == n_triangles_edge, "Incorrect number of triangles touching edge uv for subdivision level {:?}.", n);
    assert!(subdivided.vw().len() == n_triangles_edge, "Incorrect number of triangles touching edge vw for subdivision level {:?}.", n);
    assert!(subdivided.wu().len() == n_triangles_edge, "Incorrect number of triangles touching edge wu for subdivision level {:?}.", n);
}

fn position(subdivided: &SubdividedTriangle, v: LatticeVertex) -> Option<usize> {
    (0..subdivided.vertex_count()).find(|i| subdivided.vertex_denominator(*i) == v)
}

fn vertex_index_test(n: u32, x: i32, y: i32, z: i32) {
    let subdivided = lattice(n);
    let v = LatticeVertex::new(x, y, z);
    let i = subdivided.vertex_index(v);
    let j = position(&subdivided, v);

    assert!(i == j, "Incorrect index given for vertex {:?} in triangle with {:?} subdivisions.", v, n);
}

fn vertex_adjacency_test(n: u32) {
    let tri = lattice(n);
    let actual_adjacency = tri.vertex_adjacency();

    let untrue_edge = actual_adjacency.iter().find(|(i, j)| {
        let d = tri.vertex_denominator(*i) - tri.vertex_denominator(*j);
        d.x.abs() + d.y.abs() + d.z.abs() != 2
    });

    assert!(untrue_edge == None, "Returned false edge for triangle with {:?} subdivisions.", n);

    let expected_adjacency = (0..tri.triangle_count())
        .map(|i| tri.triangle(i))
        .flat_map(|t| [(t.u, t.v), (t.v, t.w), (t.w, t.u)])
        .map(|(a, b)| (a.min(b), a.max(b)))
        .collect::<HashSet<_>>();

    let actual_adjacency_set = actual_adjacency.iter().cloned().collect::<HashSet<_>>();
    let difference = actual_adjacency_set
        .symmetric_difference(&expected_adjacency)
        .collect::<HashSet<_>>();

    assert!(difference == HashSet::new(), "Found edges in triangle with {:?} subdivisions that were not returned by adjacency method.", n);
    assert_eq!(actual_adjacency.len(), actual_adjacency_set.len());
    assert_eq!(actual_adjacency.len(), n_edges(n));
}

fn row_test(n: u32, i: usize) {
    let tri = lattice(n);
    let row = tri.row(i);
    let row_tris_verts = row
        .iter()
        .map(|i| tri.triangle(*i))
        .map(|t| {
            Triangle::new(
                tri.vertex_denominator(t.u),
                tri.vertex_denominator(t.v),
                tri.vertex_denominator(t.w),
            )
        })
        .collect::<Vec<_>>();
    let x = i as i32;

    let wrong_coordinate = row_tris_verts
        .iter()
        .find(|t| t.u.x != x && t.v.x != x && t.w.x != x);

    assert!(wrong_coordinate == None, "Incorrect calculation of row {:?} for triangle with {:?} subdivisions.", i, n);

    let unscaled_centroids = row_tris_verts
        .iter()
        .map(|t| t.u + t.v + t.w)
        .collect::<Vec<_>>();
    let ys = unscaled_centroids.iter().map(|c| c.y).collect::<Vec<_>>();
    let is_sorted = ys.windows(2).all(|w| w[0] <= w[1]);

    assert!(is_sorted, "Incorrect sorting of row {:?} for triangle with {:?} subdivisions.\nUnscaled centroids {:?}", i, n, unscaled_centroids);
}

#[test]
fn subdivision() {
    let test = lattice(3);

    assert_eq!(test.vertex_count(), 10, "Incorrect number of vertices in subdivision.");
    assert_eq!(test.triangle_count(), 9, "Incorrect number of triangles in subdivision.");
}

#[test]
fn tests_subdivision() {
    let test = lattice(3);

    assert!(test.vertex_count() == 10, "Incorrect number of vertices in subdivision.");
    assert!(test.triangle_count() == 9, "Incorrect number of triangles in subdivision.");

    assert!(test.vertex_count() == n_vertices(3), "Constant N_VERTICES is incorrect.");
    assert!(test.triangle_count() == n_triangles(3), "Constant N_TRIANGLES is incorrect.");
}

#[test]
fn edge_length() {
    edge_length_test(1);

    edge_length_test(2);

    edge_length_test(3);

    edge_length_test(4);
}

#[test]
fn vertex_index() {
    vertex_index_test(1, 0, 1, 0);

    vertex_index_test(2, 0, 1, 0);
    vertex_index_test(2, 1, 0, 0);
    vertex_index_test(2, 0, 0, 1);
    vertex_index_test(2, 1, 1, 0);

    vertex_index_test(3, 1, 1, 1);

    vertex_index_test(4, 2, 1, 1);
}

#[test]
fn vertex_interior_index() {
    vertex_index_test(1, 0, 1, 0);

    vertex_index_test(2, 0, 1, 0);

    vertex_index_test(3, 1, 0, 0);
    vertex_index_test(3, 0, 0, 1);
    vertex_index_test(3, 1, 1, 0);

    vertex_index_test(4, 1, 1, 1);
    vertex_index_test(4, 2, 1, 1);
}

#[test]
fn vertex_adjacency() {
    vertex_adjacency_test(1);

    vertex_adjacency_test(2);

    vertex_adjacency_test(3);

    vertex_adjacency_test(4);

    vertex_adjacency_test(5);
}

#[test]
fn row() {
    row_test(1, 0);

    row_test(2, 0);
    row_test(2, 1);

    row_test(3, 0);
    row_test(3, 1);
    row_test(3, 3);

    row_test(4, 0);
    row_test(4, 1);
    row_test(4, 3);
    row_test(4, 4);

    row_test(5, 0);
    row_test(5, 1);
    row_test(5, 3);
    row_test(5, 4);
    row_test(5, 5);
}

#[test]
fn level_zero_is_refused() {
    assert_eq!(SubdividedTriangle::new(0).err(), Some(GlobeError::InvalidSubdivisionLevel));
    assert!(SubdividedTriangle::new(1).is_ok());
}

#[test]
fn counts_follow_their_formulas() {
    assert_eq!(n_triangles(1), 1);
    assert_eq!(n_triangles(4), 16);
    assert_eq!(n_vertices(0), 1);
    assert_eq!(n_vertices(1), 3);
    assert_eq!(n_vertices(4), 15);
    assert_eq!(n_triangles_up(4), 10);
    assert_eq!(n_triangles_down(4), 6);
    assert_eq!(n_triangles_down(0), 0);
    assert_eq!(n_triangles_down(1), 0);
    assert_eq!(n_edges(4), 30);
    assert_eq!(n_triangles(65535), 4294836225);
}

#[test]
fn vertices_come_in_lexicographic_order() {
    let t = lattice(3);
    let expected = [
        (0, 0, 3),
        (0, 1, 2),
        (0, 2, 1),
        (0, 3, 0),
        (1, 0, 2),
        (1, 1, 1),
        (1, 2, 0),
        (2, 0, 1),
        (2, 1, 0),
        (3, 0, 0),
    ];
    for (i, (x, y, z)) in expected.iter().enumerate() {
        assert_eq!(t.vertex_denominator(i), LatticeVertex::new(*x, *y, *z));
        assert_eq!(t.vertex(i).inner(), LatticeVertex::new(*x, *y, *z));
        assert_eq!(t.vertex(i).denominator(), 3);
    }
}

#[test]
fn triangles_come_upward_first() {
    let t = lattice(3);
    let expected = [
        (4, 1, 0),
        (5, 2, 1),
        (6, 3, 2),
        (7, 5, 4),
        (8, 6, 5),
        (9, 8, 7),
        (1, 4, 5),
        (2, 5, 6),
        (5, 7, 8),
    ];
    for (i, (u, v, w)) in expected.iter().enumerate() {
        assert_eq!(t.triangle(i), Triangle::new(*u, *v, *w));
    }
    let corners = t.triangles();
    assert_eq!(corners.len(), 9);
    assert_eq!(corners[6].u.inner(), LatticeVertex::new(0, 1, 2));
    assert_eq!(corners[6].v.inner(), LatticeVertex::new(1, 0, 2));
    assert_eq!(corners[6].w.inner(), LatticeVertex::new(1, 1, 1));
}

#[test]
fn rows_interleave_upward_and_downward_triangles() {
    let t = lattice(3);
    assert_eq!(t.row(0), vec![0, 6, 1, 7, 2]);
    assert_eq!(t.row(1), vec![3, 8, 4]);
    assert_eq!(t.row(2), vec![5]);
    assert_eq!(t.row(3), Vec::<usize>::new());
}

#[test]
fn side_runs_and_corners() {
    let t = lattice(3);
    assert_eq!(t.uv(), vec![5, 8, 4, 7, 2]);
    assert_eq!(t.vw(), vec![2, 7, 1, 6, 0]);
    assert_eq!(t.wu(), vec![0, 6, 3, 8, 5]);
    assert_eq!(t.u(), 5);
    assert_eq!(t.v(), 2);
    assert_eq!(t.w(), 0);
    let one = lattice(1);
    assert_eq!(one.uv(), vec![0]);
    assert_eq!(one.vw(), vec![0]);
    assert_eq!(one.wu(), vec![0]);
}

#[test]
fn vertex_adjacency_of_level_two() {
    let t = lattice(2);
    assert_eq!(
        t.vertex_adjacency(),
        vec![(0, 1), (1, 2), (0, 3), (1, 4), (1, 3), (2, 4), (3, 4), (3, 5), (4, 5)]
    );
}

#[test]
fn vertex_index_closed_form() {
    assert_eq!(SubdividedTriangle::compute_vertex_index(4, LatticeVertex::new(2, 1, 1)), Some(10));
    assert_eq!(SubdividedTriangle::compute_vertex_index(4, LatticeVertex::new(4, 0, 0)), Some(14));
    assert_eq!(SubdividedTriangle::compute_vertex_index(4, LatticeVertex::new(0, 0, 4)), Some(0));
    assert_eq!(SubdividedTriangle::compute_vertex_index(4, LatticeVertex::new(2, 1, 2)), None);
    assert_eq!(SubdividedTriangle::compute_vertex_index(4, LatticeVertex::new(-1, 3, 2)), None);
    assert_eq!(SubdividedTriangle::compute_vertex_index_unchecked(4, LatticeVertex::new(1, 3, 0)), 8);
    let t = lattice(4);
    assert_eq!(t.vertex_index(LatticeVertex::new(3, 1, 0)), Some(13));
    assert_eq!(t.vertex_index_unchecked(LatticeVertex::new(3, 1, 0)), 13);
}

#[test]
fn interior_index_is_the_index_three_levels_below() {
    assert_eq!(SubdividedTriangle::compute_vertex_interior_index(3, LatticeVertex::new(1, 1, 1)), Some(0));
    assert_eq!(SubdividedTriangle::compute_vertex_interior_index(5, LatticeVertex::new(2, 1, 2)), Some(3));
    assert_eq!(SubdividedTriangle::compute_vertex_interior_index(5, LatticeVertex::new(3, 1, 1)), Some(5));
    assert_eq!(SubdividedTriangle::compute_vertex_interior_index(5, LatticeVertex::new(0, 1, 4)), None);
    assert_eq!(SubdividedTriangle::compute_vertex_interior_index(5, LatticeVertex::new(1, 1, 1)), None);
    assert_eq!(SubdividedTriangle::compute_vertex_interior_index_unchecked(5, LatticeVertex::new(1, 3, 1)), 2);
    let t = lattice(5);
    assert_eq!(t.vertex_interior_index(LatticeVertex::new(1, 2, 2)), Some(1));
    assert_eq!(t.vertex_interior_index_unchecked(LatticeVertex::new(1, 2, 2)), 1);
    for x in 1..4 {
        for y in 1..(5 - x) {
            let inner = lattice(2).vertex_index(LatticeVertex::new(x - 1, y - 1, 5 - x - y - 1));
            assert_eq!(t.vertex_interior_index(LatticeVertex::new(x, y, 5 - x - y)), inner);
        }
    }
}

#[test]
fn centroids_are_sums_of_corners() {
    let t = lattice(3);
    let centre = t.centroid(6);
    assert_eq!(centre.denominator(), 9);
    assert_eq!(centre.inner(), LatticeVertex::new(2, 2, 5));
    for i in 0..t.triangle_count() {
        let c = t.centroid(i);
        assert_eq!(c.inner().element_sum(), 9);
        assert!(c.inner().x >= 0 && c.inner().y >= 0 && c.inner().z >= 0);
    }
    assert_eq!(t.level(), 3);
}

#[test]
fn upward_triangles_come_before_downward_ones() {
    let t = lattice(3);
    assert_eq!(t.upward_triangle_indices(), vec![0, 1, 2, 3, 4, 5]);
    assert_eq!(t.downward_triangle_indices(), vec![6, 7, 8]);
    assert_eq!(t.upward_triangles().len(), 6);
    assert_eq!(t.upward_triangles()[3], Triangle::new(7, 5, 4));
    assert_eq!(t.downward_triangles(), vec![Triangle::new(1, 4, 5), Triangle::new(2, 5, 6), Triangle::new(5, 7, 8)]);
    assert_eq!(lattice(1).downward_triangle_indices(), Vec::<usize>::new());
}
