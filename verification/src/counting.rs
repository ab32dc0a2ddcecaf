//! How many pairs of neighbouring faces there are.
//!
//! Every pair of neighbours comes from exactly one of these: a lattice edge
//! inside one of the twenty seed faces, or a step along one of the thirty
//! edges of the icosahedron.

use vstd::prelude::*;
use crate::consistency::{
    edge_of_side, edge_side_face, lemma_face_index_injective, point_of_window, side_of_run,
};
use crate::incidence::lemma_edges_from_triangles;
use crate::lattice_math::{
    MAX_SUBDIVISIONS, lemma_counts, lemma_triangular_bounds, lemma_triangular_step,
    lemma_vertex_at, lemma_vertex_at_index, lemma_vertex_index_bounds, vertex_at, vertex_count,
    vertex_index,
};
use crate::lattice_model::is_lattice_edge;
use crate::lattice_vertex::{LatticeVertex, lattice_point};
use crate::polyhedron::{
    face_count, face_index, face_list, is_adjacent, joined_faces, lemma_face_counts,
    lemma_face_index_bound, ordered,
};
use crate::sides::{
    chain_face, has_sector, is_first, lemma_chain, lemma_chain_faces, lemma_inner_common,
    lemma_share_seam_symmetric, place_on_edge, share_seam, share_within,
};

verus! {

/// Number of lattice edges of each of the three directions that run inside
/// a seed face, with a triangle of the seed face on either side.
pub open spec fn inner_count(n: int) -> int {
    vertex_count(n - 2)
}

/// The two ends of the `i`-th lattice edge of direction `run` inside a seed
/// face, the end with the lower index first. Direction 0 goes along a row,
/// direction 1 straight up to the next row, direction 2 up and back.
pub open spec fn inner_ends(n: int, run: int, i: int) -> (LatticeVertex, LatticeVertex) {
    let c = vertex_at(n - 2, i);
    if run == 0 {
        (lattice_point(n, c.x + 1, c.y as int), lattice_point(n, c.x + 1, c.y + 1))
    } else if run == 1 {
        (lattice_point(n, c.x as int, c.y + 1), lattice_point(n, c.x + 1, c.y + 1))
    } else {
        (lattice_point(n, c.x as int, c.y + 1), lattice_point(n, c.x + 1, c.y as int))
    }
}

/// The pairs of neighbours come in ninety blocks: three for each seed face,
/// one for each direction of its inner lattice edges, and then one for each
/// edge of the icosahedron. This is the length of block `g`.
pub open spec fn block_len(n: int, g: int) -> int {
    if g < 60 {
        inner_count(n)
    } else {
        n
    }
}

/// Entry `i` of block `g`.
pub open spec fn pair_of(n: int, g: int, i: int) -> (usize, usize) {
    if g < 60 {
        let ends = inner_ends(n, g % 3, i);
        ordered(face_index(n, g / 3, ends.0), face_index(n, g / 3, ends.1))
    } else {
        ordered(chain_face(n, g - 60, i), chain_face(n, g - 60, i + 1))
    }
}

/// Block `g`.
pub open spec fn block(n: int, g: int) -> Seq<(usize, usize)> {
    Seq::new(block_len(n, g) as nat, |i: int| pair_of(n, g, i))
}

/// The first `k` blocks, one after the other.
pub open spec fn blocks(n: int, k: int) -> Seq<(usize, usize)>
    decreases k,
{
    if k <= 0 {
        Seq::empty()
    } else {
        blocks(n, k - 1) + block(n, k - 1)
    }
}

/// The lattice edge behind an entry of one of the first sixty blocks: a
/// lattice edge with a triangle of the seed face on either side. The result
/// holds the indices of its two ends.
pub proof fn lemma_inner_generator(n: int, f: int, run: int, i: int) -> (ends: (int, int))
    requires
        1 <= n <= MAX_SUBDIVISIONS,
        0 <= f < 20,
        0 <= run < 3,
        0 <= i < inner_count(n),
    ensures
        is_lattice_edge(n, ends.0, ends.1),
        vertex_at(n, ends.0) == inner_ends(n, run, i).0,
        vertex_at(n, ends.1) == inner_ends(n, run, i).1,
        has_sector(n, vertex_at(n, ends.0).x as int, vertex_at(n, ends.0).y as int, run + 2),
        has_sector(n, vertex_at(n, ends.0).x as int, vertex_at(n, ends.0).y as int, run + 3),
        run == 0 ==> vertex_at(n, ends.1).x == vertex_at(n, ends.0).x,
        run == 1 ==> vertex_at(n, ends.1).x != vertex_at(n, ends.0).x && vertex_at(n, ends.1).y
            == vertex_at(n, ends.0).y,
        run == 2 ==> vertex_at(n, ends.1).x != vertex_at(n, ends.0).x && vertex_at(n, ends.1).y
            != vertex_at(n, ends.0).y,
        pair_of(n, 3 * f + run, i) == joined_faces(n, f, ends.0, ends.1),
{
    lemma_counts(n - 2);
    assert(n >= 2) by {
        if n == 1 {
            assert((n - 2 + 1) * (n - 2 + 2) == 0) by (nonlinear_arith)
                requires
                    n == 1,
            ;
        }
    }
    lemma_vertex_at(n - 2, i);
    let (p, q) = inner_ends(n, run, i);
    let a = vertex_index(n, p.x as int, p.y as int);
    let b = vertex_index(n, q.x as int, q.y as int);
    lemma_vertex_index_bounds(n, p.x as int, p.y as int);
    lemma_vertex_index_bounds(n, q.x as int, q.y as int);
    lemma_vertex_at_index(n, p.x as int, p.y as int);
    lemma_vertex_at_index(n, q.x as int, q.y as int);
    assert((3 * f + run) / 3 == f && (3 * f + run) % 3 == run);
    (a, b)
}

/// Each edge of the icosahedron is the edge under a side of the seed face on
/// its first side.
proof fn lemma_first_side(e: int)
    requires
        0 <= e < 30,
    ensures
        0 <= edge_side_face(e, true) < 20,
        0 <= edge_side_face(e, false) < 20,
        edge_side_face(e, true) != edge_side_face(e, false),
        0 <= side_of_run(e / 5, true) < 3,
        edge_of_side(edge_side_face(e, true), side_of_run(e / 5, true)) == e,
        is_first(edge_side_face(e, true), side_of_run(e / 5, true)),
{
}

/// Different edges of the icosahedron lie between different pairs of seed
/// faces.
proof fn lemma_edges_differ(e: int, other: int)
    requires
        0 <= e < 30,
        0 <= other < 30,
        edge_side_face(e, true) == edge_side_face(other, true) || edge_side_face(e, true)
            == edge_side_face(other, false),
        edge_side_face(e, false) == edge_side_face(other, true) || edge_side_face(e, false)
            == edge_side_face(other, false),
    ensures
        e == other,
{
}

/// The faces along an edge of the icosahedron are all different.
proof fn lemma_chain_faces_differ(n: int, e: int, m: int, k: int)
    requires
        1 <= n <= MAX_SUBDIVISIONS,
        0 <= e < 30,
        0 <= m < k <= n,
    ensures
        chain_face(n, e, m) != chain_face(n, e, k),
        0 <= chain_face(n, e, m) < face_count(n),
        0 <= chain_face(n, e, k) < face_count(n),
{
    lemma_face_counts(n);
    assert(0 <= e * (n - 1) <= 29 * (n - 1)) by (nonlinear_arith)
        requires
            0 <= e <= 29,
            0 <= n - 1,
    ;
    lemma_face_index_bound(n, 0, lattice_point(n, 0, 0));
    assert(face_count(n) >= 12 + 30 * (n - 1)) by {
        assert(10 * n * n + 2 >= 12 + 30 * (n - 1)) by (nonlinear_arith)
            requires
                n >= 1,
        ;
    }
}

/// The lattice edge behind an entry of one of the last thirty blocks: a
/// lattice edge along a side of the seed face on the first side of the edge
/// of the icosahedron. The result holds the seed face and the indices of
/// the two ends of the lattice edge.
pub proof fn lemma_seam_generator(n: int, e: int, m: int) -> (edge: (int, int, int))
    requires
        1 <= n <= MAX_SUBDIVISIONS,
        0 <= e < 30,
        0 <= m < n,
    ensures
        0 <= edge.0 < 20,
        is_lattice_edge(n, edge.1, edge.2),
        pair_of(n, 60 + e, m) == joined_faces(n, edge.0, edge.1, edge.2),
{
    let f = edge_side_face(e, true);
    let side = side_of_run(e / 5, true);
    lemma_first_side(e);
    lemma_chain_faces(n, f, side, m - 1);
    lemma_chain_faces(n, f, side, m);
    let p = point_of_window(n, side, m - 1);
    let q = point_of_window(n, side, m);
    let ip = vertex_index(n, p.x as int, p.y as int);
    let iq = vertex_index(n, q.x as int, q.y as int);
    lemma_vertex_index_bounds(n, p.x as int, p.y as int);
    lemma_vertex_index_bounds(n, q.x as int, q.y as int);
    lemma_vertex_at_index(n, p.x as int, p.y as int);
    lemma_vertex_at_index(n, q.x as int, q.y as int);
    lemma_chain_faces_differ(n, e, m, m + 1);
    if side == 2 {
        (f, ip, iq)
    } else {
        (f, iq, ip)
    }
}

/// Every entry of every block is a pair of neighbours.
pub proof fn lemma_pair_is_adjacent(n: int, g: int, i: int)
    requires
        1 <= n <= MAX_SUBDIVISIONS,
        0 <= g < 90,
        0 <= i < block_len(n, g),
    ensures
        is_adjacent(n, pair_of(n, g, i)),
{
    if g < 60 {
        let ends = lemma_inner_generator(n, g / 3, g % 3, i);
        assert(3 * (g / 3) + g % 3 == g);
        assert(pair_of(n, g, i) == joined_faces(n, g / 3, ends.0, ends.1));
    } else {
        let edge = lemma_seam_generator(n, g - 60, i);
        assert(pair_of(n, g, i) == joined_faces(n, edge.0, edge.1, edge.2));
    }
}

/// What the two faces of an entry have in common: for an entry of one of
/// the first sixty blocks it lies on the seed face of the block, for an
/// entry of one of the last thirty across the edge of the block.
pub proof fn lemma_block_shares(n: int, g: int, i: int)
    requires
        1 <= n <= MAX_SUBDIVISIONS,
        0 <= g < 90,
        0 <= i < block_len(n, g),
    ensures
        pair_of(n, g, i).0 < face_count(n),
        pair_of(n, g, i).1 < face_count(n),
        g < 60 ==> share_within(
            face_list(n)[pair_of(n, g, i).0 as int],
            face_list(n)[pair_of(n, g, i).1 as int],
            g / 3,
        ),
        g >= 60 ==> share_seam(
            face_list(n)[pair_of(n, g, i).0 as int],
            face_list(n)[pair_of(n, g, i).1 as int],
            g - 60,
        ),
{
    lemma_face_index_bound(n, 0, lattice_point(n, 0, 0));
    if g < 60 {
        let f = g / 3;
        let ends = lemma_inner_generator(n, f, g % 3, i);
        assert(3 * f + g % 3 == g);
        lemma_vertex_at(n, ends.0);
        lemma_vertex_at(n, ends.1);
        lemma_face_index_bound(n, f, vertex_at(n, ends.0));
        lemma_face_index_bound(n, f, vertex_at(n, ends.1));
        lemma_inner_common(n, f, ends.0, ends.1);
    } else {
        let e = g - 60;
        lemma_chain_faces_differ(n, e, i, i + 1);
        lemma_chain(n, e, i);
        let first = face_list(n)[chain_face(n, e, i)];
        let second = face_list(n)[chain_face(n, e, i + 1)];
        lemma_share_seam_symmetric(first, second, e);
    }
}

/// Different entries of the blocks are different pairs.
#[verifier::rlimit(30)]
pub proof fn lemma_generators_differ(n: int, g: int, i: int, h: int, j: int)
    requires
        1 <= n <= MAX_SUBDIVISIONS,
        0 <= g < 90,
        0 <= i < block_len(n, g),
        0 <= h < 90,
        0 <= j < block_len(n, h),
        pair_of(n, g, i) == pair_of(n, h, j),
    ensures
        g == h,
        i == j,
{
    lemma_block_shares(n, g, i);
    lemma_block_shares(n, h, j);
    let pair = pair_of(n, g, i);
    let first = face_list(n)[pair.0 as int];
    let second = face_list(n)[pair.1 as int];
    if g < 60 && h < 60 {
        let f = g / 3;
        let t = choose|t: int| #[trigger] first.contains((f, t)) && second.contains((f, t));
        assert(first.contains((f, t)) && second.contains((f, t)));
        assert(f == h / 3);
        lemma_same_face_generators(n, f, g % 3, i, h % 3, j);
        assert(3 * f + g % 3 == g);
        assert(3 * f + h % 3 == h);
    } else if g < 60 {
        let e = h - 60;
        lemma_first_side(e);
        let fa = edge_side_face(e, true);
        let fb = edge_side_face(e, false);
        let x = choose|t: int| #[trigger] first.contains((fa, t)) && second.contains((fa, t));
        let y = choose|t: int| #[trigger] first.contains((fb, t)) && second.contains((fb, t));
        assert(first.contains((fa, x)) && second.contains((fa, x)));
        assert(first.contains((fb, y)) && second.contains((fb, y)));
        assert(false);
    } else if h < 60 {
        let e = g - 60;
        lemma_first_side(e);
        let fa = edge_side_face(e, true);
        let fb = edge_side_face(e, false);
        let x = choose|t: int| #[trigger] first.contains((fa, t)) && second.contains((fa, t));
        let y = choose|t: int| #[trigger] first.contains((fb, t)) && second.contains((fb, t));
        assert(first.contains((fa, x)) && second.contains((fa, x)));
        assert(first.contains((fb, y)) && second.contains((fb, y)));
        assert(false);
    } else {
        let e = g - 60;
        let o = h - 60;
        lemma_first_side(e);
        lemma_first_side(o);
        let fa = edge_side_face(e, true);
        let fb = edge_side_face(e, false);
        let x = choose|t: int| #[trigger] first.contains((fa, t)) && second.contains((fa, t));
        let y = choose|t: int| #[trigger] first.contains((fb, t)) && second.contains((fb, t));
        assert(first.contains((fa, x)) && second.contains((fa, x)));
        assert(first.contains((fb, y)) && second.contains((fb, y)));
        lemma_edges_differ(e, o);
        lemma_face_index_bound(n, 0, lattice_point(n, 0, 0));
        assert(pair == ordered(chain_face(n, e, i), chain_face(n, e, i + 1)));
        assert(pair == ordered(chain_face(n, e, j), chain_face(n, e, j + 1)));
        if i < j {
            lemma_chain_faces_differ(n, e, i, j);
            lemma_chain_faces_differ(n, e, i, j + 1);
            lemma_chain_faces_differ(n, e, i, i + 1);
            lemma_chain_faces_differ(n, e, j, j + 1);
        } else if j < i {
            lemma_chain_faces_differ(n, e, j, i);
            lemma_chain_faces_differ(n, e, j, i + 1);
            lemma_chain_faces_differ(n, e, i, i + 1);
            lemma_chain_faces_differ(n, e, j, j + 1);
        }
    }
}

/// Different inner lattice edges of one seed face give different pairs.
#[verifier::rlimit(30)]
proof fn lemma_same_face_generators(n: int, f: int, run: int, i: int, other: int, j: int)
    requires
        1 <= n <= MAX_SUBDIVISIONS,
        0 <= f < 20,
        0 <= run < 3,
        0 <= other < 3,
        0 <= i < inner_count(n),
        0 <= j < inner_count(n),
        pair_of(n, 3 * f + run, i) == pair_of(n, 3 * f + other, j),
    ensures
        run == other,
        i == j,
{
    let one = lemma_inner_generator(n, f, run, i);
    let two = lemma_inner_generator(n, f, other, j);
    lemma_edges_from_triangles(n, one.0, one.1);
    lemma_edges_from_triangles(n, two.0, two.1);
    lemma_vertex_at(n, one.0);
    lemma_vertex_at(n, one.1);
    lemma_vertex_at(n, two.0);
    lemma_vertex_at(n, two.1);
    lemma_face_index_bound(n, f, vertex_at(n, one.0));
    lemma_face_index_bound(n, f, vertex_at(n, one.1));
    lemma_face_index_bound(n, f, vertex_at(n, two.0));
    lemma_face_index_bound(n, f, vertex_at(n, two.1));
    if one.0 != two.0 {
        lemma_face_index_injective(n, f, one.0, two.0);
    }
    if one.0 != two.1 {
        lemma_face_index_injective(n, f, one.0, two.1);
    }
    if one.1 != two.0 {
        lemma_face_index_injective(n, f, one.1, two.0);
    }
    if one.1 != two.1 {
        lemma_face_index_injective(n, f, one.1, two.1);
    }
    assert(one.0 == two.0 && one.1 == two.1);
    assert(run == other);
    lemma_counts(n - 2);
    lemma_vertex_at(n - 2, i);
    lemma_vertex_at(n - 2, j);
    assert(vertex_at(n - 2, i) == vertex_at(n - 2, j));
}

/// Every pair of neighbours is an entry of some block.
#[verifier::rlimit(30)]
pub proof fn lemma_generator_of(n: int, f: int, a: int, b: int) -> (entry: (int, int))
    requires
        1 <= n <= MAX_SUBDIVISIONS,
        0 <= f < 20,
        is_lattice_edge(n, a, b),
    ensures
        0 <= entry.0 < 90,
        0 <= entry.1 < block_len(n, entry.0),
        joined_faces(n, f, a, b) == pair_of(n, entry.0, entry.1),
{
    let p = vertex_at(n, a);
    let q = vertex_at(n, b);
    lemma_vertex_at(n, a);
    lemma_vertex_at(n, b);
    lemma_face_index_bound(n, f, p);
    lemma_face_index_bound(n, f, q);
    let d: int = if q.x == p.x {
        2
    } else if q.y == p.y {
        3
    } else {
        4
    };
    if has_sector(n, p.x as int, p.y as int, d) && has_sector(n, p.x as int, p.y as int, d + 1) {
        let run = d - 2;
        let cx: int = if run == 0 {
            p.x - 1
        } else {
            p.x as int
        };
        let cy: int = if run == 0 {
            p.y as int
        } else {
            p.y - 1
        };
        let i = vertex_index(n - 2, cx, cy);
        lemma_counts(n - 2);
        lemma_vertex_index_bounds(n - 2, cx, cy);
        lemma_vertex_at_index(n - 2, cx, cy);
        assert(inner_ends(n, run, i) == (p, q));
        assert((3 * f + run) / 3 == f && (3 * f + run) % 3 == run);
        (3 * f + run, i)
    } else {
        let side: int = if d == 2 {
            1
        } else if d == 3 {
            2
        } else {
            0
        };
        let wp: int = if d == 3 {
            p.x - 1
        } else if d == 2 {
            n - 1 - p.y
        } else {
            n - 1 - p.x
        };
        let wq: int = if d == 3 {
            wp + 1
        } else {
            wp - 1
        };
        assert(p == point_of_window(n, side, wp));
        assert(q == point_of_window(n, side, wq));
        lemma_chain_faces(n, f, side, wp);
        lemma_chain_faces(n, f, side, wq);
        let e = edge_of_side(f, side);
        let mp = place_on_edge(n, f, side, wp);
        let mq = place_on_edge(n, f, side, wq);
        let m = if mp < mq {
            mp
        } else {
            mq
        };
        lemma_chain_faces_differ(n, e, m, m + 1);
        (60 + e, m)
    }
}

/// Number of entries of the first `k` blocks.
pub open spec fn total_len(n: int, k: int) -> int {
    if k <= 60 {
        k * inner_count(n)
    } else {
        60 * inner_count(n) + (k - 60) * n
    }
}

/// Whether the pair is an entry of one of the first `k` blocks.
pub open spec fn in_blocks(n: int, k: int, pair: (usize, usize)) -> bool {
    exists|g: int, i: int|
        0 <= g < k && 0 <= i < block_len(n, g) && pair == #[trigger] pair_of(n, g, i)
}

/// The number of entries of the blocks.
pub proof fn lemma_blocks_len(n: int, k: int)
    requires
        1 <= n <= MAX_SUBDIVISIONS,
        0 <= k <= 90,
    ensures
        inner_count(n) >= 0,
        blocks(n, k).len() == total_len(n, k),
    decreases k,
{
    lemma_counts(n - 2);
    if n >= 2 {
        lemma_triangular_bounds(n - 1);
    } else {
        assert((n - 2 + 1) * (n - 2 + 2) == 0) by (nonlinear_arith)
            requires
                n == 1,
        ;
    }
    let t = inner_count(n);
    assert(0 * t == 0) by (nonlinear_arith);
    if k > 0 {
        lemma_blocks_len(n, k - 1);
        assert(k * t == (k - 1) * t + t) by (nonlinear_arith);
        assert((k - 60) * n == (k - 61) * n + n) by (nonlinear_arith);
        assert((60 - 60) * n == 0) by (nonlinear_arith);
        assert(block(n, k - 1).len() == block_len(n, k - 1));
    }
}

/// The entries of the blocks.
pub proof fn lemma_blocks_contain(n: int, k: int, pair: (usize, usize))
    requires
        1 <= n <= MAX_SUBDIVISIONS,
        0 <= k <= 90,
    ensures
        blocks(n, k).contains(pair) <==> in_blocks(n, k, pair),
    decreases k,
{
    lemma_blocks_len(n, k);
    if k > 0 {
        lemma_blocks_contain(n, k - 1, pair);
        let before = blocks(n, k - 1);
        let last = block(n, k - 1);
        let all = blocks(n, k);
        assert(all == before + last);
        if all.contains(pair) {
            let x = choose|x: int| 0 <= x < all.len() && all[x] == pair;
            if x < before.len() {
                assert(before[x] == pair);
                assert(before.contains(pair));
                let (g, i) = choose|g: int, i: int|
                    0 <= g < k - 1 && 0 <= i < block_len(n, g) && pair == #[trigger] pair_of(
                        n,
                        g,
                        i,
                    );
                assert(0 <= g < k && pair == pair_of(n, g, i));
            } else {
                let i = x - before.len();
                assert(last[i] == pair);
                assert(pair == pair_of(n, k - 1, i));
            }
        }
        if in_blocks(n, k, pair) {
            let (g, i) = choose|g: int, i: int|
                0 <= g < k && 0 <= i < block_len(n, g) && pair == #[trigger] pair_of(n, g, i);
            if g < k - 1 {
                assert(in_blocks(n, k - 1, pair));
                let x = choose|x: int| 0 <= x < before.len() && before[x] == pair;
                assert(all[x] == pair);
            } else {
                assert(last[i] == pair);
                assert(all[before.len() + i] == pair);
            }
        }
    }
}

/// No block repeats a pair, and no block repeats a pair of an earlier block.
proof fn lemma_block_is_new(n: int, k: int)
    requires
        1 <= n <= MAX_SUBDIVISIONS,
        0 <= k < 90,
    ensures
        block(n, k).no_duplicates(),
        forall|x: int, j: int|
            0 <= x < blocks(n, k).len() && 0 <= j < block(n, k).len() ==> blocks(n, k)[x]
                != block(n, k)[j],
{
    let before = blocks(n, k);
    let last = block(n, k);
    lemma_blocks_len(n, k);
    assert forall|i: int, j: int| 0 <= i < last.len() && 0 <= j < last.len() && i != j implies last[i]
        != last[j] by {
        if last[i] == last[j] {
            lemma_generators_differ(n, k, i, k, j);
        }
    }
    assert forall|x: int, j: int| 0 <= x < before.len() && 0 <= j < last.len() implies before[x]
        != last[j] by {
        if before[x] == last[j] {
            assert(before.contains(before[x]));
            lemma_blocks_contain(n, k, before[x]);
            let (g, i) = choose|g: int, i: int|
                0 <= g < k && 0 <= i < block_len(n, g) && before[x] == #[trigger] pair_of(n, g, i);
            lemma_generators_differ(n, g, i, k, j);
        }
    }
}

/// The blocks repeat nothing.
pub proof fn lemma_blocks(n: int, k: int)
    requires
        1 <= n <= MAX_SUBDIVISIONS,
        0 <= k <= 90,
    ensures
        blocks(n, k).len() == total_len(n, k),
        blocks(n, k).no_duplicates(),
        forall|pair: (usize, usize)| blocks(n, k).contains(pair) <==> in_blocks(n, k, pair),
    decreases k,
{
    lemma_blocks_len(n, k);
    assert forall|pair: (usize, usize)| blocks(n, k).contains(pair) <==> in_blocks(
        n,
        k,
        pair,
    ) by {
        lemma_blocks_contain(n, k, pair);
    }
    if k > 0 {
        lemma_blocks(n, k - 1);
        lemma_block_is_new(n, k - 1);
        vstd::seq_lib::lemma_no_dup_in_concat(blocks(n, k - 1), block(n, k - 1));
    }
}

/// There are `30 * n * n` pairs of neighbours: a list that holds each pair
/// of neighbours once has that length.
pub proof fn lemma_neighbour_count(n: int, listed: Seq<(usize, usize)>)
    requires
        1 <= n <= MAX_SUBDIVISIONS,
        listed.no_duplicates(),
        forall|pair: (usize, usize)| listed.contains(pair) <==> is_adjacent(n, pair),
    ensures
        listed.len() == 30 * n * n,
{
    lemma_blocks(n, 90);
    let all = blocks(n, 90);
    assert forall|pair: (usize, usize)| all.contains(pair) <==> is_adjacent(n, pair) by {
        if all.contains(pair) {
            assert(in_blocks(n, 90, pair));
            let (g, i) = choose|g: int, i: int|
                0 <= g < 90 && 0 <= i < block_len(n, g) && pair == #[trigger] pair_of(n, g, i);
            lemma_pair_is_adjacent(n, g, i);
        }
        if is_adjacent(n, pair) {
            let (f, a, b) = choose|f: int, a: int, b: int|
                0 <= f < 20 && is_lattice_edge(n, a, b) && pair == #[trigger] joined_faces(
                    n,
                    f,
                    a,
                    b,
                );
            let entry = lemma_generator_of(n, f, a, b);
            assert(pair == pair_of(n, entry.0, entry.1));
            assert(in_blocks(n, 90, pair));
        }
    }
    assert(listed.to_set() =~= all.to_set());
    listed.unique_seq_to_set();
    all.unique_seq_to_set();
    lemma_counts(n - 2);
    lemma_triangular_step(n - 1);
    let t = inner_count(n);
    assert(60 * t + 30 * n == 30 * n * n) by (nonlinear_arith)
        requires
            2 * t == (n - 1) * n,
    ;
}

} // verus!
