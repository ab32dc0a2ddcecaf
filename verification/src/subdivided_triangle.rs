//! A triangle cut into `n * n` small triangles on an integer lattice.

use vstd::prelude::*;
use crate::denominator::ImplicitDenominator;
use crate::error::GlobeError;
use crate::incidence::{lemma_edges_from_triangles, share_triangle};
use crate::lattice_math::{
    MAX_SUBDIVISIONS, downward_count, edge_count, lemma_counts, lemma_row_start_step,
    lemma_triangular_bounds, lemma_triangular_monotonic, lemma_triangular_step, lemma_vertex_at,
    lemma_vertex_at_index, lemma_vertex_index, lemma_vertex_index_bounds, row_start,
    triangle_count, triangular, upward_count, vertex_at, vertex_count, vertex_index,
};
use crate::lattice_model::{
    SubdivisionView, downward_index, downward_triangle, interior_index, is_lattice_edge,
    lattice_triangles, lattice_vertices, lemma_count_bounds, lemma_downward_index,
    lemma_triangle_corners, lemma_triangle_index_bounds, lemma_upward_index, row_run,
    subdivision, triangle_at, upward_index, upward_triangle, uv_run, vw_run, wu_run,
};
use crate::lattice_vertex::{LatticeVertex, lattice_point};
use crate::sequences::{interleave, interleaved, lemma_interleaved_alternates};
use crate::triangle::Triangle;

verus! {

/// The total number of triangles at subdivision level `n`.
pub fn n_triangles(n: u32) -> (count: usize)
    requires
        triangle_count(n as int) <= usize::MAX,
    ensures
        count == triangle_count(n as int),
{
    let wide: u64 = n as u64;
    assert(wide * wide <= 0xffff_ffff * 0xffff_ffff) by (nonlinear_arith)
        requires
            wide <= 0xffff_ffff,
    ;
    (wide * wide) as usize
}

/// The total number of vertices at subdivision level `n`.
pub fn n_vertices(n: u32) -> (count: usize)
    requires
        vertex_count(n as int) <= usize::MAX,
    ensures
        count == vertex_count(n as int),
{
    let a: u64 = n as u64 + 1;
    let b: u64 = n as u64 + 2;
    proof {
        lemma_counts(n as int);
        lemma_triangular_step(n as int + 1);
    }
    if a % 2 == 0 {
        let half: u64 = a / 2;
        assert(half * b <= 0x8000_0000 * 0x1_0000_0001 && 2 * (half * b) == a * b)
            by (nonlinear_arith)
            requires
                a == 2 * half,
                half <= 0x8000_0000,
                b <= 0x1_0000_0001,
        ;
        (half * b) as usize
    } else {
        let half: u64 = b / 2;
        assert(a * half <= 0xffff_ffff * 0x8000_0000 && 2 * (a * half) == a * b)
            by (nonlinear_arith)
            requires
                b == 2 * half,
                half <= 0x8000_0000,
                a <= 0xffff_ffff,
        ;
        (a * half) as usize
    }
}

/// The number of triangles at subdivision level `n` that point the same way
/// as the triangle they subdivide.
pub fn n_triangles_up(n: u32) -> (count: usize)
    requires
        upward_count(n as int) <= usize::MAX,
    ensures
        count == upward_count(n as int),
{
    let a: u64 = n as u64;
    let b: u64 = n as u64 + 1;
    assert(a * b <= 0xffff_ffff * 0x1_0000_0000) by (nonlinear_arith)
        requires
            a <= 0xffff_ffff,
            b <= 0x1_0000_0000,
    ;
    (a * b / 2) as usize
}

/// The number of triangles at subdivision level `n` that point the other
/// way. There is none at level 0.
pub fn n_triangles_down(n: u32) -> (count: usize)
    requires
        downward_count(n as int) <= usize::MAX,
    ensures
        count == downward_count(n as int),
{
    if n == 0 {
        assert(n as int * (n as int - 1) == 0) by (nonlinear_arith)
            requires
                n == 0,
        ;
        return 0;
    }
    let a: u64 = n as u64;
    let b: u64 = n as u64 - 1;
    assert(a * b <= 0xffff_ffff * 0xffff_fffe) by (nonlinear_arith)
        requires
            a <= 0xffff_ffff,
            b <= 0xffff_fffe,
    ;
    (a * b / 2) as usize
}

/// The number of edges between vertices at subdivision level `n`.
pub fn n_edges(n: u32) -> (count: usize)
    requires
        edge_count(n as int) <= usize::MAX,
    ensures
        count == edge_count(n as int),
{
    n_triangles_up(n) * 3
}

/// Where the edges that start in row `x` begin in the list of edges.
spec fn edge_base(n: int, x: int) -> int {
    3 * (triangular(n) - triangular(n - x))
}

/// Where an edge that begins in row `x` stands. The edges of a row come in
/// three runs: first those that join neighbours within the row, then those
/// that join a point with the one above it, then those that join a point
/// with the one above its predecessor. `run` says which run it is and `j`
/// the place in it.
spec fn edge_slot(n: int, x: int, run: int, j: int) -> int {
    if run == 0 {
        edge_base(n, x) + j
    } else if run == 1 {
        edge_base(n, x) + (n - x) + j
    } else {
        edge_base(n, x) + 2 * (n - x) + j
    }
}

/// The edge at place `j` of run `run` of row `x`.
spec fn edge_value(n: int, x: int, run: int, j: int) -> (usize, usize) {
    if run == 0 {
        ((row_start(n, x) + j) as usize, (row_start(n, x) + j + 1) as usize)
    } else if run == 1 {
        ((row_start(n, x) + j) as usize, (row_start(n, x + 1) + j) as usize)
    } else {
        ((row_start(n, x) + j + 1) as usize, (row_start(n, x + 1) + j) as usize)
    }
}

/// The place in the list of edges that belongs to the edge from `a` to `b`.
spec fn slot_of(n: int, a: int, b: int) -> int {
    let p = vertex_at(n, a);
    let q = vertex_at(n, b);
    if q.x == p.x {
        edge_slot(n, p.x as int, 0, p.y as int)
    } else if q.y == p.y {
        edge_slot(n, p.x as int, 1, p.y as int)
    } else {
        edge_slot(n, p.x as int, 2, p.y - 1)
    }
}

/// What the list of edges holds once the rows below `x` are done, and in
/// row `x` the first `j0`, `j1` and `j2` edges of the three runs.
spec fn edges_filled(
    n: int,
    edges: Seq<(usize, usize)>,
    x: int,
    j0: int,
    j1: int,
    j2: int,
) -> bool {
    &&& forall|k: int|
        0 <= k < edges.len() ==> is_lattice_edge(n, edges[k].0 as int, edges[k].1 as int)
            && slot_of(n, edges[k].0 as int, edges[k].1 as int) == k
    &&& forall|r: int, run: int, j: int|
        0 <= r && 0 <= run < 3 && 0 <= j < n - r && (r < x || (r == x && j < (if run == 0 {
            j0
        } else if run == 1 {
            j1
        } else {
            j2
        }))) ==> 0 <= #[trigger] edge_slot(n, r, run, j) < edges.len() && edges[edge_slot(
            n,
            r,
            run,
            j,
        )] == edge_value(n, r, run, j)
}

/// Appending the next edge of row `x` keeps the list of edges as described
/// by `edges_filled`.
proof fn lemma_edge_push(
    n: int,
    edges: Seq<(usize, usize)>,
    x: int,
    j0: int,
    j1: int,
    j2: int,
    run: int,
)
    requires
        1 <= n <= MAX_SUBDIVISIONS,
        0 <= x < n,
        0 <= run < 3,
        edges_filled(n, edges, x, j0, j1, j2),
        run == 0 ==> 0 <= j0 < n - x && j1 == 0 && j2 == 0 && edges.len() == edge_slot(
            n,
            x,
            0,
            j0,
        ),
        run == 1 ==> j0 == n - x && 0 <= j1 < n - x && j2 == 0 && edges.len() == edge_slot(
            n,
            x,
            1,
            j1,
        ),
        run == 2 ==> j0 == n - x && j1 == n - x && 0 <= j2 < n - x && edges.len() == edge_slot(
            n,
            x,
            2,
            j2,
        ),
    ensures
        run == 0 ==> edges_filled(n, edges.push(edge_value(n, x, 0, j0)), x, j0 + 1, j1, j2),
        run == 1 ==> edges_filled(n, edges.push(edge_value(n, x, 1, j1)), x, j0, j1 + 1, j2),
        run == 2 ==> edges_filled(n, edges.push(edge_value(n, x, 2, j2)), x, j0, j1, j2 + 1),
{
    let j = if run == 0 {
        j0
    } else if run == 1 {
        j1
    } else {
        j2
    };
    let value = edge_value(n, x, run, j);
    let next = edges.push(value);
    lemma_count_bounds(n);
    lemma_row_start_step(n, x);
    lemma_vertex_index(n, x, j);
    lemma_vertex_index(n, x, j + 1);
    lemma_vertex_index(n, x + 1, j);
    lemma_vertex_index_bounds(n, x, j);
    lemma_vertex_index_bounds(n, x, j + 1);
    lemma_vertex_at_index(n, x, j);
    lemma_vertex_at_index(n, x, j + 1);
    if x + 1 + j <= n {
        lemma_vertex_index_bounds(n, x + 1, j);
        lemma_vertex_at_index(n, x + 1, j);
    }
    assert(is_lattice_edge(n, value.0 as int, value.1 as int));
    assert(slot_of(n, value.0 as int, value.1 as int) == edges.len());
    assert forall|k: int| 0 <= k < next.len() implies is_lattice_edge(
        n,
        next[k].0 as int,
        next[k].1 as int,
    ) && slot_of(n, next[k].0 as int, next[k].1 as int) == k by {
        if k < edges.len() {
            assert(next[k] == edges[k]);
        }
    }
    let n0 = if run == 0 {
        j0 + 1
    } else {
        j0
    };
    let n1 = if run == 1 {
        j1 + 1
    } else {
        j1
    };
    let n2 = if run == 2 {
        j2 + 1
    } else {
        j2
    };
    assert forall|r: int, c: int, i: int|
        0 <= r && 0 <= c < 3 && 0 <= i < n - r && (r < x || (r == x && i < (if c == 0 {
            n0
        } else if c == 1 {
            n1
        } else {
            n2
        }))) implies 0 <= #[trigger] edge_slot(n, r, c, i) < next.len() && next[edge_slot(
        n,
        r,
        c,
        i,
    )] == edge_value(n, r, c, i) by {
        if r == x && c == run && i == j {
        } else {
            assert(0 <= edge_slot(n, r, c, i) < edges.len());
            assert(next[edge_slot(n, r, c, i)] == edges[edge_slot(n, r, c, i)]);
        }
    }
}

/// A list of edges that `edges_filled` describes to the end repeats nothing
/// and holds exactly the lattice edges.
proof fn lemma_edges_complete(n: int, edges: Seq<(usize, usize)>)
    requires
        1 <= n <= MAX_SUBDIVISIONS,
        edges_filled(n, edges, n, 0, 0, 0),
    ensures
        edges.no_duplicates(),
        forall|a: usize, b: usize|
            edges.contains((a, b)) <==> is_lattice_edge(n, a as int, b as int),
{
    assert forall|a: usize, b: usize| is_lattice_edge(n, a as int, b as int) implies edges.contains(
        (a, b),
    ) by {
        let p = vertex_at(n, a as int);
        let q = vertex_at(n, b as int);
        lemma_vertex_at(n, a as int);
        lemma_vertex_at(n, b as int);
        lemma_vertex_index(n, p.x as int, p.y as int);
        lemma_vertex_index(n, q.x as int, q.y as int);
        let x = p.x as int;
        let run: int = if q.x == p.x {
            0
        } else if q.y == p.y {
            1
        } else {
            2
        };
        let j: int = if run == 2 {
            p.y - 1
        } else {
            p.y as int
        };
        assert(0 <= edge_slot(n, x, run, j) < edges.len() && edges[edge_slot(n, x, run, j)]
            == edge_value(n, x, run, j));
        assert(edge_value(n, x, run, j) == (a, b));
    }
    assert forall|a: usize, b: usize| edges.contains((a, b)) implies is_lattice_edge(
        n,
        a as int,
        b as int,
    ) by {
        let k = choose|k: int| 0 <= k < edges.len() && edges[k] == (a, b);
        assert(is_lattice_edge(n, edges[k].0 as int, edges[k].1 as int));
    }
    assert forall|i: int, j: int| 0 <= i < edges.len() && 0 <= j < edges.len() && i != j implies edges[i]
        != edges[j] by {
        assert(slot_of(n, edges[i].0 as int, edges[i].1 as int) == i);
        assert(slot_of(n, edges[j].0 as int, edges[j].1 as int) == j);
    }
}

/// The index of `v` on level `n`, for a point known to belong to the level.
fn compute_vertex_index_unchecked(n: u32, v: LatticeVertex) -> (index: usize)
    requires
        n <= MAX_SUBDIVISIONS,
        v.on_level(n as int),
    ensures
        index == vertex_index(n as int, v.x as int, v.y as int),
        index < vertex_count(n as int),
{
    proof {
        lemma_vertex_index_bounds(n as int, v.x as int, v.y as int);
        lemma_count_bounds(n as int);
        let x = v.x as int;
        let f = 2 * (n as int + 1) + 1 - x;
        assert(0 <= x * f <= 8460 * 16923) by (nonlinear_arith)
            requires
                0 <= x <= 8460,
                0 <= f <= 16923,
        ;
    }
    let x_offset = (v.x * (2 * (n + 1) as i32 + 1 - v.x) / 2) as usize;
    let y_offset = v.y as usize;
    x_offset + y_offset
}

/// A triangle which has been subdivided `n` times, with its points in
/// integer barycentric coordinates.
#[derive(Clone, Debug)]
pub struct SubdividedTriangle {
    n: u32,
    vertices: Vec<LatticeVertex>,
    triangles: Vec<Triangle<usize>>,
}

impl View for SubdividedTriangle {
    type V = SubdivisionView;

    closed spec fn view(&self) -> SubdivisionView {
        SubdivisionView {
            level: self.n as int,
            vertices: self.vertices@,
            triangles: self.triangles@,
        }
    }
}

impl SubdividedTriangle {
    /// Whether this is the subdivision of a supported level.
    pub open spec fn wf(&self) -> bool {
        &&& 1 <= self@.level <= MAX_SUBDIVISIONS
        &&& self@ == subdivision(self@.level)
    }

    /// Subdivides a triangle `n` times. Level 0 is refused.
    pub fn new(n: u32) -> (result: Result<Self, GlobeError>)
        requires
            n <= MAX_SUBDIVISIONS,
        ensures
            result.is_err() <==> n == 0,
            result matches Err(e) ==> e == GlobeError::InvalidSubdivisionLevel,
            result matches Ok(t) ==> t.wf() && t@ == subdivision(n as int),
    {
        if n == 0 {
            return Err(GlobeError::InvalidSubdivisionLevel);
        }
        let level: i32 = n as i32;
        proof {
            lemma_count_bounds(n as int);
            lemma_counts(n as int);
        }
        let mut vertices: Vec<LatticeVertex> = Vec::new();
        let mut x: i32 = 0;
        proof {
            lemma_row_start_step(n as int, 0);
        }
        while x <= level
            invariant
                0 <= x <= level + 1,
                level == n,
                1 <= n <= MAX_SUBDIVISIONS,
                vertices@.len() == row_start(n as int, x as int),
                forall|i: int| 0 <= i < vertices@.len() ==> vertices@[i] == vertex_at(n as int, i),
            decreases level + 1 - x,
        {
            let mut y: i32 = 0;
            while y <= level - x
                invariant
                    0 <= x <= level,
                    0 <= y <= level - x + 1,
                    level == n,
                    1 <= n <= MAX_SUBDIVISIONS,
                    vertices@.len() == row_start(n as int, x as int) + y,
                    forall|i: int|
                        0 <= i < vertices@.len() ==> vertices@[i] == vertex_at(n as int, i),
                decreases level - x + 1 - y,
            {
                proof {
                    lemma_vertex_index(n as int, x as int, y as int);
                    lemma_vertex_at_index(n as int, x as int, y as int);
                }
                vertices.push(LatticeVertex::new(x, y, level - x - y));
                y = y + 1;
            }
            proof {
                lemma_row_start_step(n as int, x as int);
            }
            x = x + 1;
        }
        proof {
            lemma_row_start_step(n as int, n as int);
            assert(vertices@ =~= lattice_vertices(n as int));
        }
        let du = LatticeVertex::new(-1, 1, 0);
        let dv = LatticeVertex::new(-1, 0, 1);
        let mut triangles: Vec<Triangle<usize>> = Vec::new();
        let mut x: i32 = 1;
        proof {
            lemma_vertex_index(n as int, 1, 0);
            lemma_row_start_step(n as int, 0);
        }
        while x <= level
            invariant
                1 <= x <= level + 1,
                level == n,
                1 <= n <= MAX_SUBDIVISIONS,
                du == (LatticeVertex { x: -1i32, y: 1, z: 0 }),
                dv == (LatticeVertex { x: -1i32, y: 0, z: 1 }),
                triangles@.len() == row_start(n as int, x as int) - (n + 1),
                forall|i: int|
                    0 <= i < triangles@.len() ==> triangles@[i] == triangle_at(n as int, i),
            decreases level + 1 - x,
        {
            let mut y: i32 = 0;
            while y <= level - x
                invariant
                    1 <= x <= level,
                    0 <= y <= level - x + 1,
                    level == n,
                    1 <= n <= MAX_SUBDIVISIONS,
                    du == (LatticeVertex { x: -1i32, y: 1, z: 0 }),
                    dv == (LatticeVertex { x: -1i32, y: 0, z: 1 }),
                    triangles@.len() == row_start(n as int, x as int) + y - (n + 1),
                    forall|i: int|
                        0 <= i < triangles@.len() ==> triangles@[i] == triangle_at(n as int, i),
                decreases level - x + 1 - y,
            {
                let v = LatticeVertex::new(x, y, level - x - y);
                proof {
                    lemma_vertex_index(n as int, x as int, y as int);
                    lemma_vertex_at_index(n as int, x as int, y as int);
                    lemma_vertex_index_bounds(n as int, x as int, y as int);
                    lemma_counts(n as int);
                }
                let t = Triangle::new(
                    compute_vertex_index_unchecked(n, v),
                    compute_vertex_index_unchecked(n, v + du),
                    compute_vertex_index_unchecked(n, v + dv),
                );
                assert(t == upward_triangle(n as int, v));
                triangles.push(t);
                y = y + 1;
            }
            proof {
                lemma_row_start_step(n as int, x as int);
            }
            x = x + 1;
        }
        proof {
            lemma_row_start_step(n as int, n as int);
            lemma_counts(n as int);
            lemma_row_start_step(n as int - 2, 0);
        }
        let mut x: i32 = 0;
        while x < level
            invariant
                0 <= x <= level,
                level == n,
                1 <= n <= MAX_SUBDIVISIONS,
                du == (LatticeVertex { x: -1i32, y: 1, z: 0 }),
                dv == (LatticeVertex { x: -1i32, y: 0, z: 1 }),
                triangles@.len() == upward_count(n as int) + row_start(n as int - 2, x as int),
                forall|i: int|
                    0 <= i < triangles@.len() ==> triangles@[i] == triangle_at(n as int, i),
            decreases level - x,
        {
            let mut y: i32 = 1;
            while y < level - x
                invariant
                    0 <= x < level,
                    1 <= y <= if level - x >= 1 { level - x } else { 1 },
                    level == n,
                    1 <= n <= MAX_SUBDIVISIONS,
                    du == (LatticeVertex { x: -1i32, y: 1, z: 0 }),
                    dv == (LatticeVertex { x: -1i32, y: 0, z: 1 }),
                    triangles@.len() == upward_count(n as int) + row_start(
                        n as int - 2,
                        x as int,
                    ) + y - 1,
                    forall|i: int|
                        0 <= i < triangles@.len() ==> triangles@[i] == triangle_at(n as int, i),
                decreases level - x - y,
            {
                let v = LatticeVertex::new(x, y, level - x - y);
                proof {
                    lemma_vertex_index(n as int - 2, x as int, y as int - 1);
                    lemma_vertex_at_index(n as int - 2, x as int, y as int - 1);
                    lemma_vertex_index_bounds(n as int - 2, x as int, y as int - 1);
                    lemma_count_bounds(n as int);
                }
                let t = Triangle::new(
                    compute_vertex_index_unchecked(n, v),
                    compute_vertex_index_unchecked(n, v - du),
                    compute_vertex_index_unchecked(n, v - dv),
                );
                assert(t == downward_triangle(n as int, v));
                assert(v == lattice_point(n as int, x as int, y as int));
                triangles.push(t);
                y = y + 1;
            }
            proof {
                lemma_row_start_step(n as int - 2, x as int);
            }
            x = x + 1;
        }
        proof {
            lemma_row_start_step(n as int - 2, n as int - 1);
            lemma_row_start_step(n as int - 3, n as int - 1);
            lemma_counts(n as int);
            lemma_counts(n as int - 2);
            assert(triangles@ =~= lattice_triangles(n as int));
        }
        Ok(SubdividedTriangle { n, vertices, triangles })
    }

    /// The subdivision level.
    pub fn level(&self) -> (n: u32)
        ensures
            n == self@.level,
    {
        self.n
    }

    /// The number of points.
    pub fn vertex_count(&self) -> (count: usize)
        requires
            self.wf(),
        ensures
            count == vertex_count(self@.level),
            count == self@.vertices.len(),
    {
        self.vertices.len()
    }

    /// The number of triangles.
    pub fn triangle_count(&self) -> (count: usize)
        requires
            self.wf(),
        ensures
            count == triangle_count(self@.level),
            count == self@.triangles.len(),
    {
        self.triangles.len()
    }

    /// The point with index `i`, as a fraction over the level.
    pub fn vertex(&self, i: usize) -> (v: ImplicitDenominator<LatticeVertex>)
        requires
            self.wf(),
            i < vertex_count(self@.level),
        ensures
            v.numerator() == vertex_at(self@.level, i as int),
            v.over() == self@.level,
    {
        ImplicitDenominator::wrap(self.vertices[i], self.n)
    }

    /// The triangle with index `i`, as the indices of its corners.
    pub fn triangle(&self, i: usize) -> (t: Triangle<usize>)
        requires
            self.wf(),
            i < triangle_count(self@.level),
        ensures
            t == triangle_at(self@.level, i as int),
    {
        Triangle { u: self.triangles[i].u, v: self.triangles[i].v, w: self.triangles[i].w }
    }

    /// The indices of the upward triangles: they come first in the list of
    /// triangles.
    pub fn upward_triangle_indices(&self) -> (indices: Vec<usize>)
        requires
            self.wf(),
        ensures
            indices@ == Seq::new(upward_count(self@.level) as nat, |i: int| i as usize),
    {
        proof {
            lemma_count_bounds(self@.level);
        }
        let end = n_triangles_up(self.n);
        let mut indices: Vec<usize> = Vec::new();
        let mut i: usize = 0;
        while i < end
            invariant
                0 <= i <= end,
                indices@ == Seq::new(i as nat, |k: int| k as usize),
            decreases end - i,
        {
            indices.push(i);
            assert(indices@ =~= Seq::new((i + 1) as nat, |k: int| k as usize));
            i = i + 1;
        }
        indices
    }

    /// The indices of the downward triangles: they come after the upward
    /// ones in the list of triangles.
    pub fn downward_triangle_indices(&self) -> (indices: Vec<usize>)
        requires
            self.wf(),
        ensures
            indices@ == Seq::new(
                downward_count(self@.level) as nat,
                |i: int| (upward_count(self@.level) + i) as usize,
            ),
    {
        proof {
            lemma_count_bounds(self@.level);
            lemma_counts(self@.level);
        }
        let start = n_triangles_up(self.n);
        let end = n_triangles(self.n);
        let mut indices: Vec<usize> = Vec::new();
        let mut i: usize = start;
        while i < end
            invariant
                start <= i <= end,
                indices@ == Seq::new((i - start) as nat, |k: int| (start + k) as usize),
            decreases end - i,
        {
            indices.push(i);
            assert(indices@ =~= Seq::new((i + 1 - start) as nat, |k: int| (start + k) as usize));
            i = i + 1;
        }
        indices
    }

    /// The upward triangles, as the indices of their corners.
    pub fn upward_triangles(&self) -> (triangles: Vec<Triangle<usize>>)
        requires
            self.wf(),
        ensures
            triangles@ == self@.triangles.subrange(0, upward_count(self@.level)),
    {
        proof {
            lemma_count_bounds(self@.level);
            lemma_counts(self@.level);
        }
        let end = n_triangles_up(self.n);
        let mut triangles: Vec<Triangle<usize>> = Vec::new();
        let mut i: usize = 0;
        while i < end
            invariant
                self.wf(),
                0 <= i <= end,
                end == upward_count(self@.level),
                end <= self@.triangles.len(),
                triangles@ == self@.triangles.subrange(0, i as int),
            decreases end - i,
        {
            triangles.push(self.triangle(i));
            assert(triangles@ =~= self@.triangles.subrange(0, i + 1));
            i = i + 1;
        }
        triangles
    }

    /// The downward triangles, as the indices of their corners.
    pub fn downward_triangles(&self) -> (triangles: Vec<Triangle<usize>>)
        requires
            self.wf(),
        ensures
            triangles@ == self@.triangles.subrange(
                upward_count(self@.level),
                triangle_count(self@.level),
            ),
    {
        proof {
            lemma_count_bounds(self@.level);
            lemma_counts(self@.level);
        }
        let start = n_triangles_up(self.n);
        let end = n_triangles(self.n);
        let mut triangles: Vec<Triangle<usize>> = Vec::new();
        let mut i: usize = start;
        while i < end
            invariant
                self.wf(),
                start <= i <= end,
                start == upward_count(self@.level),
                end == triangle_count(self@.level),
                end == self@.triangles.len(),
                triangles@ == self@.triangles.subrange(start as int, i as int),
            decreases end - i,
        {
            triangles.push(self.triangle(i));
            assert(triangles@ =~= self@.triangles.subrange(start as int, i + 1));
            i = i + 1;
        }
        triangles
    }

    /// Indices of the upward triangles of row `i`, by ascending `y`.
    fn upward_row(&self, i: usize) -> (row: Vec<usize>)
        requires
            self.wf(),
        ensures
            row@.len() == if i < self@.level {
                self@.level - i
            } else {
                0
            },
            forall|j: int|
                0 <= j < row@.len() ==> row@[j] == upward_index(self@.level, i + 1, j),
    {
        let mut row: Vec<usize> = Vec::new();
        if i >= self.n as usize {
            return row;
        }
        let n = self.n as usize;
        let k = n - i;
        proof {
            lemma_count_bounds(n as int);
            lemma_counts(n as int);
            lemma_triangular_bounds(k as int);
            lemma_triangular_monotonic(k as int, n as int);
            lemma_triangular_step(k as int);
            assert(k * (k + 1) == 2 * triangular(k as int));
        }
        let start = n_triangles_up(self.n) - k * (k + 1) / 2;
        let end = start + k;
        let mut t = start;
        while t < end
            invariant
                start <= t <= end,
                end == start + k,
                row@.len() == t - start,
                forall|j: int| 0 <= j < row@.len() ==> row@[j] == start + j,
            decreases end - t,
        {
            row.push(t);
            t = t + 1;
        }
        proof {
            assert forall|j: int| 0 <= j < row@.len() implies row@[j] == upward_index(
                n as int,
                i + 1,
                j,
            ) by {
                lemma_upward_index(n as int, i + 1, j);
            }
        }
        row
    }

    /// Indices of the downward triangles of row `i`, by ascending `y`.
    fn downward_row(&self, i: usize) -> (row: Vec<usize>)
        requires
            self.wf(),
        ensures
            row@.len() == if i < self@.level - 1 {
                self@.level - 1 - i
            } else {
                0
            },
            forall|j: int|
                0 <= j < row@.len() ==> row@[j] == downward_index(self@.level, i as int, j + 1),
    {
        let mut row: Vec<usize> = Vec::new();
        if i >= self.n as usize - 1 {
            return row;
        }
        let n = self.n as usize;
        let k = n - 1 - i;
        proof {
            lemma_count_bounds(n as int);
            lemma_counts(n as int);
            lemma_triangular_bounds(k as int);
            lemma_triangular_monotonic(k as int, n as int - 1);
            lemma_triangular_step(k as int);
            assert(k * (k + 1) == 2 * triangular(k as int));
        }
        let start = n_triangles_up(self.n) + n_triangles_down(self.n) - k * (k + 1) / 2;
        let end = start + k;
        let mut t = start;
        while t < end
            invariant
                start <= t <= end,
                end == start + k,
                row@.len() == t - start,
                forall|j: int| 0 <= j < row@.len() ==> row@[j] == start + j,
            decreases end - t,
        {
            row.push(t);
            t = t + 1;
        }
        proof {
            assert forall|j: int| 0 <= j < row@.len() implies row@[j] == downward_index(
                n as int,
                i as int,
                j + 1,
            ) by {
                lemma_downward_index(n as int, i as int, j + 1);
            }
        }
        row
    }

    /// Indices of the triangles with a side on the line `x == i`, sorted by
    /// increasing `y` of their centres. There is none for `i` at or above the
    /// level.
    pub fn row(&self, i: usize) -> (row: Vec<usize>)
        requires
            self.wf(),
        ensures
            row@ == row_run(self@.level, i as int),
    {
        let up = self.upward_row(i);
        let down = self.downward_row(i);
        proof {
            lemma_interleaved_alternates(up@, down@);
            let both = interleaved(up@, down@);
            let run = row_run(self@.level, i as int);
            assert(both.len() == run.len());
            assert forall|k: int| 0 <= k < both.len() implies both[k] == run[k] by {
                if k % 2 == 0 {
                    assert(both[2 * (k / 2)] == up@[k / 2]);
                } else {
                    assert(both[2 * (k / 2) + 1] == down@[k / 2]);
                }
            }
            assert(both =~= run);
        }
        interleave(up, down)
    }

    /// The corners of every triangle, as fractions over the level.
    pub fn triangles(&self) -> (all: Vec<Triangle<ImplicitDenominator<LatticeVertex>>>)
        requires
            self.wf(),
        ensures
            all@.len() == triangle_count(self@.level),
            forall|i: int|
                #![trigger all@[i]]
                0 <= i < all@.len() ==> {
                    let t = triangle_at(self@.level, i);
                    &&& all@[i].u.numerator() == vertex_at(self@.level, t.u as int)
                    &&& all@[i].v.numerator() == vertex_at(self@.level, t.v as int)
                    &&& all@[i].w.numerator() == vertex_at(self@.level, t.w as int)
                    &&& all@[i].u.over() == self@.level
                    &&& all@[i].v.over() == self@.level
                    &&& all@[i].w.over() == self@.level
                },
    {
        let mut all: Vec<Triangle<ImplicitDenominator<LatticeVertex>>> = Vec::new();
        let count = self.triangles.len();
        let mut i: usize = 0;
        while i < count
            invariant
                self.wf(),
                count == triangle_count(self@.level),
                0 <= i <= count,
                all@.len() == i,
                forall|k: int|
                    #![trigger all@[k]]
                    0 <= k < all@.len() ==> {
                        let t = triangle_at(self@.level, k);
                        &&& all@[k].u.numerator() == vertex_at(self@.level, t.u as int)
                        &&& all@[k].v.numerator() == vertex_at(self@.level, t.v as int)
                        &&& all@[k].w.numerator() == vertex_at(self@.level, t.w as int)
                        &&& all@[k].u.over() == self@.level
                        &&& all@[k].v.over() == self@.level
                        &&& all@[k].w.over() == self@.level
                    },
            decreases count - i,
        {
            let t = self.triangle(i);
            proof {
                lemma_triangle_corners(self@.level, i as int);
            }
            all.push(Triangle::new(self.vertex(t.u), self.vertex(t.v), self.vertex(t.w)));
            i = i + 1;
        }
        all
    }

    /// Index of the triangle at corner `u`, the point `(n, 0, 0)`.
    pub fn u(&self) -> (index: usize)
        requires
            self.wf(),
        ensures
            index == upward_index(self@.level, self@.level, 0),
            index < upward_count(self@.level),
    {
        proof {
            lemma_upward_index(self@.level, self@.level, 0);
            lemma_triangle_index_bounds(self@.level, self@.level, 0);
            lemma_count_bounds(self@.level);
            assert(triangular(1) == 1);
        }
        n_triangles_up(self.n) - 1
    }

    /// Index of the triangle at corner `v`, the point `(0, n, 0)`.
    pub fn v(&self) -> (index: usize)
        requires
            self.wf(),
        ensures
            index == upward_index(self@.level, 1, self@.level - 1),
            index < upward_count(self@.level),
    {
        proof {
            lemma_upward_index(self@.level, 1, self@.level - 1);
            lemma_triangle_index_bounds(self@.level, 1, self@.level - 1);
            lemma_counts(self@.level);
        }
        self.n as usize - 1
    }

    /// Index of the triangle at corner `w`, the point `(0, 0, n)`.
    pub fn w(&self) -> (index: usize)
        requires
            self.wf(),
        ensures
            index == upward_index(self@.level, 1, 0),
            index < upward_count(self@.level),
    {
        proof {
            lemma_upward_index(self@.level, 1, 0);
            lemma_triangle_index_bounds(self@.level, 1, 0);
            lemma_counts(self@.level);
        }
        0
    }

    /// Indices of the triangles that touch the side `uv` (`z == 0`), from
    /// corner `u` to corner `v`: corner and side triangles in turn.
    pub fn uv(&self) -> (edge: Vec<usize>)
        requires
            self.wf(),
        ensures
            edge@ == uv_run(self@.level),
    {
        let n = self.n as usize;
        let ghost level = self@.level;
        let ghost run = uv_run(level);
        proof {
            lemma_count_bounds(level);
            lemma_counts(level);
        }
        let up = n_triangles_up(self.n);
        let all = n_triangles(self.n);
        let mut edge: Vec<usize> = vec![0usize; 2 * n - 1];
        let mut i: usize = 0;
        while i < n
            invariant
                self.wf(),
                level == self@.level,
                n == level,
                run == uv_run(level),
                up == upward_count(level),
                all == triangle_count(level),
                0 <= i <= n,
                edge@.len() == 2 * n - 1,
                forall|j: int| 0 <= j < i ==> #[trigger] edge@[2 * j] == run[2 * j],
            decreases n - i,
        {
            proof {
                lemma_upward_index(level, n - i, i as int);
                lemma_triangle_index_bounds(level, n - i, i as int);
                lemma_triangular_step(i as int);
                lemma_triangular_bounds(i as int);
                lemma_count_bounds(level);
                assert(i * (i + 1) == 2 * triangular(i as int));
                assert(i * (i + 1) <= 8460 * 8461) by (nonlinear_arith)
                    requires
                        0 <= i <= 8460,
                ;
                assert((2 * i) / 2 == i && (2 * i) % 2 == 0);
            }
            edge.set(2 * i, up - i * (i + 1) / 2 - 1);
            i = i + 1;
        }
        let mut i: usize = 0;
        while i < n - 1
            invariant
                self.wf(),
                level == self@.level,
                n == level,
                run == uv_run(level),
                up == upward_count(level),
                all == triangle_count(level),
                0 <= i <= n - 1,
                edge@.len() == 2 * n - 1,
                forall|j: int| 0 <= j < n ==> #[trigger] edge@[2 * j] == run[2 * j],
                forall|j: int| 0 <= j < i ==> #[trigger] edge@[2 * j + 1] == run[2 * j + 1],
            decreases n - 1 - i,
        {
            proof {
                lemma_downward_index(level, n - 2 - i, i + 1);
                lemma_triangle_index_bounds(level, n - 2 - i, i + 1);
                lemma_triangular_step(i as int);
                lemma_triangular_bounds(i as int);
                lemma_count_bounds(level);
                assert(i * (i + 1) == 2 * triangular(i as int));
                assert(i * (i + 1) <= 8460 * 8461) by (nonlinear_arith)
                    requires
                        0 <= i <= 8460,
                ;
                assert((2 * i + 1) / 2 == i && (2 * i + 1) % 2 == 1);
            }
            edge.set(2 * i + 1, all - i * (i + 1) / 2 - 1);
            i = i + 1;
        }
        proof {
            assert forall|k: int| 0 <= k < edge@.len() implies edge@[k] == run[k] by {
                if k % 2 == 0 {
                    assert(edge@[2 * (k / 2)] == run[2 * (k / 2)]);
                } else {
                    assert(edge@[2 * (k / 2) + 1] == run[2 * (k / 2) + 1]);
                }
            }
            assert(edge@ =~= run);
        }
        edge
    }

    /// Indices of the triangles that touch the side `vw` (`x == 0`), from
    /// corner `v` to corner `w`: corner and side triangles in turn.
    pub fn vw(&self) -> (edge: Vec<usize>)
        requires
            self.wf(),
        ensures
            edge@ == vw_run(self@.level),
    {
        let n = self.n as usize;
        let ghost level = self@.level;
        let ghost run = vw_run(level);
        proof {
            lemma_count_bounds(level);
            lemma_counts(level);
        }
        let up = n_triangles_up(self.n);
        let mut edge: Vec<usize> = vec![0usize; 2 * n - 1];
        let mut i: usize = 0;
        while i < n
            invariant
                self.wf(),
                level == self@.level,
                n == level,
                run == vw_run(level),
                up == upward_count(level),
                0 <= i <= n,
                edge@.len() == 2 * n - 1,
                forall|j: int| 0 <= j < i ==> #[trigger] edge@[2 * j] == run[2 * j],
            decreases n - i,
        {
            proof {
                lemma_upward_index(level, 1, n - 1 - i);
                lemma_triangle_index_bounds(level, 1, n - 1 - i);
                lemma_counts(level);
                assert((2 * i) / 2 == i && (2 * i) % 2 == 0);
            }
            edge.set(2 * i, (n - 1) - i);
            i = i + 1;
        }
        let mut i: usize = 0;
        while i < n - 1
            invariant
                self.wf(),
                level == self@.level,
                n == level,
                run == vw_run(level),
                up == upward_count(level),
                0 <= i <= n - 1,
                edge@.len() == 2 * n - 1,
                forall|j: int| 0 <= j < n ==> #[trigger] edge@[2 * j] == run[2 * j],
                forall|j: int| 0 <= j < i ==> #[trigger] edge@[2 * j + 1] == run[2 * j + 1],
            decreases n - 1 - i,
        {
            proof {
                lemma_downward_index(level, 0, n - 1 - i);
                lemma_triangle_index_bounds(level, 0, n - 1 - i);
                lemma_counts(level);
                lemma_count_bounds(level);
                assert((2 * i + 1) / 2 == i && (2 * i + 1) % 2 == 1);
            }
            edge.set(2 * i + 1, up + n - 2 - i);
            i = i + 1;
        }
        proof {
            assert forall|k: int| 0 <= k < edge@.len() implies edge@[k] == run[k] by {
                if k % 2 == 0 {
                    assert(edge@[2 * (k / 2)] == run[2 * (k / 2)]);
                } else {
                    assert(edge@[2 * (k / 2) + 1] == run[2 * (k / 2) + 1]);
                }
            }
            assert(edge@ =~= run);
        }
        edge
    }

    /// Indices of the triangles that touch the side `wu` (`y == 0`), from
    /// corner `w` to corner `u`: corner and side triangles in turn.
    pub fn wu(&self) -> (edge: Vec<usize>)
        requires
            self.wf(),
        ensures
            edge@ == wu_run(self@.level),
    {
        let n = self.n as usize;
        let ghost level = self@.level;
        let ghost run = wu_run(level);
        proof {
            lemma_count_bounds(level);
            lemma_counts(level);
        }
        let up = n_triangles_up(self.n);
        let all = n_triangles(self.n);
        let mut edge: Vec<usize> = vec![0usize; 2 * n - 1];
        let mut i: usize = 0;
        while i < n
            invariant
                self.wf(),
                level == self@.level,
                n == level,
                run == wu_run(level),
                up == upward_count(level),
                all == triangle_count(level),
                0 <= i <= n,
                edge@.len() == 2 * n - 1,
                forall|j: int| 0 <= j < i ==> #[trigger] edge@[2 * j] == run[2 * j],
            decreases n - i,
        {
            let k = n - 1 - i;
            proof {
                lemma_upward_index(level, i + 1, 0);
                lemma_triangle_index_bounds(level, i + 1, 0);
                lemma_triangular_step(k as int + 1);
                lemma_triangular_bounds(k as int + 1);
                lemma_triangular_monotonic(k as int + 1, level);
                lemma_count_bounds(level);
                assert((k + 1) * (k + 2) == 2 * triangular(k as int + 1));
                assert((k + 1) * (k + 2) <= 8460 * 8461) by (nonlinear_arith)
                    requires
                        0 <= k < 8460,
                ;
                assert((2 * i) / 2 == i && (2 * i) % 2 == 0);
            }
            edge.set(2 * i, up - (k + 1) * (k + 2) / 2);
            i = i + 1;
        }
        let mut i: usize = 1;
        while i < n
            invariant
                self.wf(),
                level == self@.level,
                n == level,
                run == wu_run(level),
                up == upward_count(level),
                all == triangle_count(level),
                1 <= i <= n,
                edge@.len() == 2 * n - 1,
                forall|j: int| 0 <= j < n ==> #[trigger] edge@[2 * j] == run[2 * j],
                forall|j: int| 0 <= j < i - 1 ==> #[trigger] edge@[2 * j + 1] == run[2 * j + 1],
            decreases n - i,
        {
            let k = n - 1 - i;
            proof {
                lemma_downward_index(level, i - 1, 1);
                lemma_triangle_index_bounds(level, i - 1, 1);
                lemma_triangular_step(k as int + 1);
                lemma_triangular_bounds(k as int + 1);
                lemma_triangular_monotonic(k as int + 1, level);
                lemma_count_bounds(level);
                assert((k + 1) * (k + 2) == 2 * triangular(k as int + 1));
                assert((k + 1) * (k + 2) <= 8460 * 8461) by (nonlinear_arith)
                    requires
                        0 <= k < 8460,
                ;
                assert((2 * (i - 1) + 1) / 2 == i - 1 && (2 * (i - 1) + 1) % 2 == 1);
            }
            edge.set(2 * i - 1, all - (k + 1) * (k + 2) / 2);
            assert(edge@[2 * (i - 1) + 1] == run[2 * (i - 1) + 1]);
            i = i + 1;
        }
        proof {
            assert forall|k: int| 0 <= k < edge@.len() implies edge@[k] == run[k] by {
                if k % 2 == 0 {
                    assert(edge@[2 * (k / 2)] == run[2 * (k / 2)]);
                } else {
                    assert(edge@[2 * (k / 2) + 1] == run[2 * (k / 2) + 1]);
                }
            }
            assert(edge@ =~= run);
        }
        edge
    }

    /// The index within the inner points of a point of level `n` that lies
    /// on none of the sides, and nothing for any other triple.
    pub fn compute_vertex_interior_index(n: u32, v: LatticeVertex) -> (index: Option<usize>)
        requires
            n <= MAX_SUBDIVISIONS,
        ensures
            index.is_some() <==> v.on_level(n as int) && v.is_interior(),
            index matches Some(i) ==> i == interior_index(n as int, v.x as int, v.y as int),
    {
        if v.x <= 0 || v.y <= 0 || v.z <= 0 || v.element_sum() != n as i64 {
            None
        } else {
            Some(Self::compute_vertex_interior_index_unchecked(n, v))
        }
    }

    /// The index within the inner points of a point known to lie on none of
    /// the sides of the triangle of level `n`.
    pub fn compute_vertex_interior_index_unchecked(n: u32, v: LatticeVertex) -> (index: usize)
        requires
            n <= MAX_SUBDIVISIONS,
            v.on_level(n as int),
            v.is_interior(),
        ensures
            index == interior_index(n as int, v.x as int, v.y as int),
            index < vertex_count(n as int - 3),
    {
        compute_vertex_index_unchecked(n - 3, LatticeVertex::new(v.x - 1, v.y - 1, v.z - 1))
    }

    /// The index of a point of level `n` in the list of points, and nothing
    /// for a triple that is no point of that level.
    pub fn compute_vertex_index(n: u32, v: LatticeVertex) -> (index: Option<usize>)
        requires
            n <= MAX_SUBDIVISIONS,
        ensures
            index.is_some() <==> v.on_level(n as int),
            index matches Some(i) ==> i == vertex_index(n as int, v.x as int, v.y as int) && i
                < vertex_count(n as int),
    {
        if v.x < 0 || v.y < 0 || v.z < 0 || v.element_sum() != n as i64 {
            None
        } else {
            Some(Self::compute_vertex_index_unchecked(n, v))
        }
    }

    /// The index of a point known to belong to level `n`.
    pub fn compute_vertex_index_unchecked(n: u32, v: LatticeVertex) -> (index: usize)
        requires
            n <= MAX_SUBDIVISIONS,
            v.on_level(n as int),
        ensures
            index == vertex_index(n as int, v.x as int, v.y as int),
            index < vertex_count(n as int),
    {
        compute_vertex_index_unchecked(n, v)
    }

    /// The index of `v` in this subdivision's list of points, if it is one.
    pub fn vertex_index(&self, v: LatticeVertex) -> (index: Option<usize>)
        requires
            self.wf(),
        ensures
            index.is_some() <==> v.on_level(self@.level),
            index matches Some(i) ==> i < vertex_count(self@.level) && self@.vertices[i as int]
                == v,
    {
        let index = Self::compute_vertex_index(self.n, v);
        proof {
            if v.on_level(self@.level) {
                lemma_vertex_at_index(self@.level, v.x as int, v.y as int);
            }
        }
        index
    }

    /// The index in this subdivision's list of points of a point known to
    /// belong to it.
    pub fn vertex_index_unchecked(&self, v: LatticeVertex) -> (index: usize)
        requires
            self.wf(),
            v.on_level(self@.level),
        ensures
            index == vertex_index(self@.level, v.x as int, v.y as int),
            index < vertex_count(self@.level),
            self@.vertices[index as int] == v,
    {
        proof {
            lemma_vertex_at_index(self@.level, v.x as int, v.y as int);
            lemma_vertex_index_bounds(self@.level, v.x as int, v.y as int);
        }
        compute_vertex_index_unchecked(self.n, v)
    }

    /// The index of `v` within the inner points of this subdivision, if it
    /// is one of them.
    pub fn vertex_interior_index(&self, v: LatticeVertex) -> (index: Option<usize>)
        requires
            self.wf(),
        ensures
            index.is_some() <==> v.on_level(self@.level) && v.is_interior(),
            index matches Some(i) ==> i == interior_index(self@.level, v.x as int, v.y as int),
    {
        Self::compute_vertex_interior_index(self.n, v)
    }

    /// The index within the inner points of this subdivision of a point
    /// known to be one of them.
    pub fn vertex_interior_index_unchecked(&self, v: LatticeVertex) -> (index: usize)
        requires
            self.wf(),
            v.on_level(self@.level),
            v.is_interior(),
        ensures
            index == interior_index(self@.level, v.x as int, v.y as int),
            index < vertex_count(self@.level - 3),
    {
        Self::compute_vertex_interior_index_unchecked(self.n, v)
    }

    /// The undirected edges between neighbouring points, each once and with
    /// the point of lower index first. They are the sides of the triangles.
    #[verifier::rlimit(30)]
    pub fn vertex_adjacency(&self) -> (edges: Vec<(usize, usize)>)
        requires
            self.wf(),
        ensures
            edges@.len() == edge_count(self@.level),
            edges@.no_duplicates(),
            forall|a: usize, b: usize|
                edges@.contains((a, b)) <==> is_lattice_edge(self@.level, a as int, b as int),
            forall|a: usize, b: usize|
                edges@.contains((a, b)) <==> share_triangle(self@.level, a as int, b as int),
    {
        let n = self.n as usize;
        let ghost level = self@.level;
        proof {
            lemma_count_bounds(level);
            lemma_counts(level);
        }
        let total = n_vertices(self.n);
        let mut edges: Vec<(usize, usize)> = Vec::new();
        let mut x: usize = 0;
        while x < n
            invariant
                self.wf(),
                level == self@.level,
                n == level,
                total == vertex_count(level),
                0 <= x <= n,
                edges@.len() == edge_base(level, x as int),
                edges_filled(level, edges@, x as int, 0, 0, 0),
            decreases n - x,
        {
            let l = n + 1 - x;
            proof {
                lemma_count_bounds(level);
                lemma_counts(level);
                lemma_triangular_step(l as int);
                lemma_triangular_step(level - x);
                lemma_triangular_bounds(l as int);
                lemma_triangular_monotonic(l as int, level + 1);
                lemma_triangular_monotonic(level - x, level);
                lemma_row_start_step(level, x as int);
                assert(l * (l + 1) == 2 * triangular(l as int));
                assert(l * (l + 1) <= 8461 * 8462) by (nonlinear_arith)
                    requires
                        0 <= l <= 8461,
                ;
            }
            let start = total - l * (l + 1) / 2;
            let end = start + l;
            let mut a = start;
            while a < end - 1
                invariant
                    self.wf(),
                    level == self@.level,
                    n == level,
                    0 <= x < n,
                    l == n + 1 - x,
                    start == row_start(level, x as int),
                    end == start + l,
                    start <= a <= end - 1,
                    edges@.len() == edge_slot(level, x as int, 0, a - start),
                    edges_filled(level, edges@, x as int, a - start, 0, 0),
                decreases end - 1 - a,
            {
                proof {
                    lemma_edge_push(level, edges@, x as int, a - start, 0, 0, 0);
                }
                edges.push((a, a + 1));
                a = a + 1;
            }
            let mut j: usize = 0;
            while j < l - 1
                invariant
                    self.wf(),
                    level == self@.level,
                    n == level,
                    0 <= x < n,
                    l == n + 1 - x,
                    start == row_start(level, x as int),
                    start + l == row_start(level, x + 1),
                    0 <= j <= l - 1,
                    edges@.len() == edge_slot(level, x as int, 1, j as int),
                    edges_filled(level, edges@, x as int, level - x, j as int, 0),
                decreases l - 1 - j,
            {
                proof {
                    lemma_edge_push(level, edges@, x as int, level - x, j as int, 0, 1);
                    lemma_vertex_index_bounds(level, x + 1, j as int);
                    lemma_vertex_index(level, x + 1, j as int);
                    lemma_count_bounds(level);
                }
                edges.push((start + j, start + l + j));
                j = j + 1;
            }
            let mut j: usize = 0;
            while j < l - 1
                invariant
                    self.wf(),
                    level == self@.level,
                    n == level,
                    0 <= x < n,
                    l == n + 1 - x,
                    start == row_start(level, x as int),
                    start + l == row_start(level, x + 1),
                    0 <= j <= l - 1,
                    edges@.len() == edge_slot(level, x as int, 2, j as int),
                    edges_filled(level, edges@, x as int, level - x, level - x, j as int),
                decreases l - 1 - j,
            {
                proof {
                    lemma_edge_push(level, edges@, x as int, level - x, level - x, j as int, 2);
                    lemma_vertex_index_bounds(level, x + 1, j as int);
                    lemma_vertex_index(level, x + 1, j as int);
                    lemma_count_bounds(level);
                }
                edges.push((start + 1 + j, start + l + j));
                j = j + 1;
            }
            proof {
                lemma_triangular_step(level - x - 1);
            }
            x = x + 1;
        }
        proof {
            assert(triangular(0) == 0);
            lemma_edges_complete(level, edges@);
            assert forall|a: usize, b: usize|
                is_lattice_edge(level, a as int, b as int) <==> share_triangle(
                    level,
                    a as int,
                    b as int,
                ) by {
                lemma_edges_from_triangles(level, a as int, b as int);
            }
        }
        edges
    }

    /// The centre of triangle `i` as a fraction over three times the level:
    /// the sum of its three corners. Its coordinates are the weights of the
    /// corners of the whole triangle at that centre; they are nonnegative and
    /// add up to the denominator.
    pub fn centroid(&self, i: usize) -> (centre: ImplicitDenominator<LatticeVertex>)
        requires
            self.wf(),
            i < triangle_count(self@.level),
        ensures
            centre.over() == 3 * self@.level,
            centre.numerator().on_level(3 * self@.level),
            centre.numerator() == vertex_at(self@.level, triangle_at(self@.level, i as int).u as int)
                .plus(vertex_at(self@.level, triangle_at(self@.level, i as int).v as int)).plus(
                vertex_at(self@.level, triangle_at(self@.level, i as int).w as int),
            ),
    {
        let t = self.triangle(i);
        proof {
            lemma_triangle_corners(self@.level, i as int);
            lemma_vertex_at(self@.level, t.u as int);
            lemma_vertex_at(self@.level, t.v as int);
            lemma_vertex_at(self@.level, t.w as int);
        }
        let sum = self.vertices[t.u] + self.vertices[t.v] + self.vertices[t.w];
        ImplicitDenominator::wrap(sum, 3 * self.n)
    }

    /// The integer barycentric coordinates of the point with index `i`.
    pub fn vertex_denominator(&self, i: usize) -> (v: LatticeVertex)
        requires
            self.wf(),
            i < vertex_count(self@.level),
        ensures
            v == vertex_at(self@.level, i as int),
    {
        self.vertex(i).inner()
    }
}

} // verus!
