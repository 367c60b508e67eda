//! Vertex layout of the quadrilateralized spherical cube and the
//! nearest-neighbour lookup on it.
//!
//! A sphere of subdivision `s` has six faces, each a `2^s` by `2^s` grid of
//! vertices. Vertex `(x, y)` of face `f` has index `f * 4^s + z(x, y)`, where
//! `z` is the Morton code of the grid position. The two vertices no face owns,
//! the north and the south pole, come last: `6 * 4^s` and `6 * 4^s + 1`.

use vstd::prelude::*;
use vstd::arithmetic::power2::*;
use vstd::bits::*;
use crate::zorder::{
    interleave, even_bits, z_order_encode, z_order_decode, lemma_encode_inverts_decode,
    lemma_decode_inverts_encode, lemma_interleave_bound,
};

verus! {

/// Number of vertices along one edge of a face grid.
pub open spec fn side(s: nat) -> nat {
    pow2(s)
}

/// Largest grid coordinate on a face.
pub open spec fn grid_max(s: nat) -> nat {
    (pow2(s) - 1) as nat
}

/// Number of vertices a face owns (`4^s`); also the index distance between
/// two consecutive faces.
pub open spec fn face_size(s: nat) -> nat {
    pow2(2 * s)
}

/// Number of vertices of the sphere: six faces and the two poles.
pub open spec fn vertex_count(s: nat) -> nat {
    6 * face_size(s) + 2
}

/// Index of vertex `(x, y)` of face `f`.
pub open spec fn vid(f: nat, x: nat, y: nat, s: nat) -> nat {
    f * face_size(s) + interleave(x, y)
}

/// Index of the north pole (`k == 0`), the south pole (`k == 1`), or the
/// index one past the last vertex (`k == 2`), which marks a missing neighbour.
pub open spec fn pole(k: nat, s: nat) -> nat {
    6 * face_size(s) + k
}

/// The subdivisions on which the neighbour lookup is defined: at least one
/// subdivision, and every vertex index of the sphere (and the marker one past
/// the last) fits in a `usize`.
pub open spec fn valid_subdivision(s: nat) -> bool {
    1 <= s && vertex_count(s) <= usize::MAX
}

/// The vertex that index `v` names: the three bits above the index within
/// a face select the face (or the poles), the bits below are the index
/// within the face. A vertex of the sphere names itself.
#[verifier::opaque]
pub open spec fn named_vertex(v: nat, s: nat) -> nat {
    ((v / face_size(s)) % 8) * face_size(s) + v % face_size(s)
}

/// The four neighbours of a vertex: right, top, left and bottom.
pub type Neighbors = (nat, nat, nat, nat);

/// The neighbour in direction `d` (0: right, 1: top, 2: left, 3: bottom).
pub open spec fn toward(n: Neighbors, d: int) -> nat {
    if d == 0 {
        n.0
    } else if d == 1 {
        n.1
    } else if d == 2 {
        n.2
    } else {
        n.3
    }
}

/// Neighbours `[right, top, left, bottom]` of vertex `(x, y)` of face `f`.
/// Along the edges the neighbours lie on the adjacent faces, in the
/// orientation those faces have.
pub open spec fn face_neighbors(f: nat, x: nat, y: nat, s: nat) -> Neighbors {
    if f == 0 {
        face_0_neighbors(x, y, s)
    } else if f == 1 {
        face_1_neighbors(x, y, s)
    } else if f == 2 {
        face_2_neighbors(x, y, s)
    } else if f == 3 {
        face_3_neighbors(x, y, s)
    } else if f == 4 {
        face_4_neighbors(x, y, s)
    } else {
        face_5_neighbors(x, y, s)
    }
}

/// Neighbours `[right, top, left, bottom]` of vertex `(x, y)` of face 0.
#[verifier::opaque]
pub open spec fn face_0_neighbors(xn: nat, yn: nat, s: nat) -> Neighbors {
    let x = xn as int;
    let y = yn as int;
    let m = grid_max(s) as int;
    let v = |g: nat, a: int, b: int| vid(g, a as nat, b as nat, s);
    if x == 0 && y == 0 {
        (v(0, 1, 0), v(0, 0, 1), v(3, m as int, m - 1), v(5, 0, 0))
    } else if x == 0 && y == m {
        (v(0, 1, m as int), v(4, 0, m - 1), pole(0, s), v(0, 0, m - 1))
    } else if x == m && y == 0 {
        (v(2, 0, 0), v(0, m as int, 1), v(0, m - 1, 0), v(5, 0, m as int))
    } else if x == m && y == m {
        (pole(2, s), v(2, 0, m as int), v(0, m - 1, m as int), v(0, m as int, m - 1))
    } else if x == 0 {
        (v(0, 1, y as int), v(0, 0, y + 1), v(3, m as int, y + 1), v(0, 0, y - 1))
    } else if x == m {
        (v(2, 0, y as int), v(0, m as int, y + 1), v(0, m - 1, y as int), v(0, m as int, y - 1))
    } else if y == 0 {
        (v(0, x + 1, 0), v(0, x as int, 1), v(0, x - 1, 0), v(5, 0, x as int))
    } else if y == m {
        (v(0, x + 1, m as int), v(4, 0, m - x - 1), v(0, x - 1, m as int), v(0, x as int, m - 1))
    } else {
        grid_neighbors(0, xn, yn, s)
    }
}

/// Neighbours `[right, top, left, bottom]` of vertex `(x, y)` of face 1.
#[verifier::opaque]
pub open spec fn face_1_neighbors(xn: nat, yn: nat, s: nat) -> Neighbors {
    let x = xn as int;
    let y = yn as int;
    let m = grid_max(s) as int;
    let v = |g: nat, a: int, b: int| vid(g, a as nat, b as nat, s);
    if x == 0 && y == 0 {
        (v(1, 1, 0), v(1, 0, 1), pole(1, s), v(5, m as int, m - 1))
    } else if x == 0 && y == m {
        (v(1, 1, m as int), v(4, m as int, 0), v(2, m as int, y - 1), v(1, 0, m - 1))
    } else if x == m && y == 0 {
        (v(3, 0, 0), v(1, m as int, 1), v(1, m - 1, 0), pole(2, s))
    } else if x == m && y == m {
        (v(3, 0, m as int), v(4, m as int, m as int), v(1, m - 1, m as int), v(1, m as int, m - 1))
    } else if x == 0 {
        (v(1, 1, y as int), v(1, 0, y + 1), v(2, m as int, y - 1), v(1, 0, y - 1))
    } else if x == m {
        (v(3, 0, y as int), v(1, m as int, y + 1), v(1, m - 1, y as int), v(1, m as int, y - 1))
    } else if y == 0 {
        (v(1, x + 1, 0), v(1, x as int, 1), v(1, x - 1, 0), v(5, m as int, m - x - 1))
    } else if y == m {
        (v(1, x + 1, m as int), v(4, m as int, x as int), v(1, x - 1, m as int), v(1, x as int, m - 1))
    } else {
        grid_neighbors(1, xn, yn, s)
    }
}

/// Neighbours `[right, top, left, bottom]` of vertex `(x, y)` of face 2.
#[verifier::opaque]
pub open spec fn face_2_neighbors(xn: nat, yn: nat, s: nat) -> Neighbors {
    let x = xn as int;
    let y = yn as int;
    let m = grid_max(s) as int;
    let v = |g: nat, a: int, b: int| vid(g, a as nat, b as nat, s);
    if x == 0 && y == 0 {
        (v(2, 1, 0), v(2, 0, 1), v(0, m as int, 0), v(5, 1, m as int))
    } else if x == 0 && y == m {
        (v(2, 1, m as int), v(4, 0, 0), v(0, m as int, m as int), v(2, 0, m - 1))
    } else if x == m && y == 0 {
        (v(1, 0, 1), v(2, m as int, 1), v(2, m - 1, 0), pole(1, s))
    } else if x == m && y == m {
        (pole(2, s), v(4, m as int, 0), v(2, m - 1, m as int), v(2, m as int, m - 1))
    } else if x == 0 {
        (v(2, 1, y as int), v(2, 0, y + 1), v(0, m as int, y as int), v(2, 0, y - 1))
    } else if x == m {
        (v(1, 0, y + 1), v(2, m as int, y + 1), v(2, m - 1, y as int), v(2, m as int, y - 1))
    } else if y == 0 {
        (v(2, x + 1, 0), v(2, x as int, 1), v(2, x - 1, 0), v(5, x - 1, m as int))
    } else if y == m {
        (v(2, x + 1, m as int), v(4, x as int, 0), v(2, x - 1, m as int), v(2, x as int, m - 1))
    } else {
        grid_neighbors(2, xn, yn, s)
    }
}

/// Neighbours `[right, top, left, bottom]` of vertex `(x, y)` of face 3.
#[verifier::opaque]
pub open spec fn face_3_neighbors(xn: nat, yn: nat, s: nat) -> Neighbors {
    let x = xn as int;
    let y = yn as int;
    let m = grid_max(s) as int;
    let v = |g: nat, a: int, b: int| vid(g, a as nat, b as nat, s);
    if x == 0 && y == 0 {
        (v(3, 1, 0), v(3, 0, 1), v(1, m as int, 0), v(5, m as int, 0))
    } else if x == 0 && y == m {
        (v(3, 1, m as int), v(4, m - 1, m as int), v(1, m as int, m as int), v(3, 0, m - 1))
    } else if x == m && y == 0 {
        (v(5, 0, 0), v(3, m as int, 1), v(3, m - 1, 0), pole(2, s))
    } else if x == m && y == m {
        (v(0, 0, y - 1), pole(0, s), v(3, m - 1, m as int), v(3, m - 1, m as int))
    } else if x == 0 {
        (v(3, 1, y as int), v(3, 0, y + 1), v(1, m as int, y as int), v(3, 0, y - 1))
    } else if x == m {
        (v(0, 0, y - 1), v(3, m as int, y + 1), v(3, m - 1, y as int), v(3, m as int, y - 1))
    } else if y == 0 {
        (v(3, x + 1, 0), v(3, x as int, 1), v(3, x - 1, 0), v(5, m - x, 0))
    } else if y == m {
        (v(3, x + 1, m as int), v(4, m - x - 1, m as int), v(3, x - 1, m as int), v(3, x as int, m - 1))
    } else {
        grid_neighbors(3, xn, yn, s)
    }
}

/// Neighbours `[right, top, left, bottom]` of vertex `(x, y)` of face 4.
#[verifier::opaque]
pub open spec fn face_4_neighbors(xn: nat, yn: nat, s: nat) -> Neighbors {
    let x = xn as int;
    let y = yn as int;
    let m = grid_max(s) as int;
    let v = |g: nat, a: int, b: int| vid(g, a as nat, b as nat, s);
    if x == 0 && y == 0 {
        (v(4, 1, 0), v(4, 0, 1), v(0, m - 1, m as int), v(2, 0, m as int))
    } else if x == 0 && y == m {
        (v(4, 1, m as int), v(3, m - x - 1, m as int), pole(0, s), v(4, 0, m - 1))
    } else if x == m && y == 0 {
        (v(1, 0, m as int), v(4, m as int, 1), v(4, m - 1, 0), v(2, m as int, m as int))
    } else if x == m && y == m {
        (pole(2, s), v(1, m as int, m as int), v(4, m - 1, m as int), v(4, m as int, m - 1))
    } else if x == 0 {
        (v(4, 1, y as int), v(4, 0, y + 1), v(0, m - y - 1, m as int), v(4, 0, y - 1))
    } else if x == m {
        (v(1, y as int, m as int), v(4, m as int, y + 1), v(4, m - 1, y as int), v(4, m as int, y - 1))
    } else if y == 0 {
        (v(4, x + 1, 0), v(4, x as int, 1), v(4, x - 1, 0), v(2, x as int, m as int))
    } else if y == m {
        (v(4, x + 1, m as int), v(3, m - x - 1, m as int), v(4, x - 1, m as int), v(4, x as int, m - 1))
    } else {
        grid_neighbors(4, xn, yn, s)
    }
}

/// Neighbours `[right, top, left, bottom]` of vertex `(x, y)` of face 5.
#[verifier::opaque]
pub open spec fn face_5_neighbors(xn: nat, yn: nat, s: nat) -> Neighbors {
    let x = xn as int;
    let y = yn as int;
    let m = grid_max(s) as int;
    let v = |g: nat, a: int, b: int| vid(g, a as nat, b as nat, s);
    if x == 0 && y == 0 {
        (v(5, 1, 0), v(5, 0, 1), v(0, 0, 0), v(3, m as int, 0))
    } else if x == 0 && y == m {
        (v(5, 1, m as int), v(0, m as int, 0), v(0, m as int, 0), v(5, 0, m - 1))
    } else if x == m && y == 0 {
        (v(1, m - 1, 0), v(5, m as int, 1), v(5, m - 1, 0), v(3, 0, 0))
    } else if x == m && y == m {
        (pole(1, s), v(2, m - 1, 0), v(5, m - 1, m as int), v(5, m as int, m - 1))
    } else if x == 0 {
        (v(5, 1, y as int), v(5, 0, y + 1), v(0, y as int, 0), v(5, 0, y - 1))
    } else if x == m {
        (v(1, m - y - 1, 0), v(5, m as int, y + 1), v(5, m - 1, y as int), v(5, m as int, y - 1))
    } else if y == 0 {
        (v(5, x + 1, 0), v(5, x as int, 1), v(5, x - 1, 0), v(3, m - x, 0))
    } else if y == m {
        (v(5, x + 1, m as int), v(2, x - 1, 0), v(5, x - 1, m as int), v(5, x as int, m - 1))
    } else {
        grid_neighbors(5, xn, yn, s)
    }
}

/// Neighbours `[right, top, left, bottom]` of a vertex inside a face grid.
pub open spec fn grid_neighbors(f: nat, x: nat, y: nat, s: nat) -> Neighbors {
    (
        vid(f, x + 1, y, s),
        vid(f, x, y + 1, s),
        vid(f, (x - 1) as nat, y, s),
        vid(f, x, (y - 1) as nat, s),
    )
}

/// Neighbours `[right, top, left, bottom]` of the vertex with index `v`.
/// The poles border the corners of four faces.
pub open spec fn nearest_neighbors(v: nat, s: nat) -> Neighbors {
    let p = face_size(s);
    let f = v / p;
    let i = v % p;
    let m = grid_max(s);
    if f == 6 {
        if i == 0 {
            (pole(2, s), vid(0, 0, m, s), vid(3, m, m, s), vid(4, 0, m, s))
        } else {
            (vid(1, 0, 0, s), vid(2, m, 0, s), vid(5, m, m, s), vid(1, 0, 0, s))
        }
    } else {
        face_neighbors(f, even_bits(i), even_bits(i / 2), s)
    }
}


/// Sizes that follow from a valid subdivision: shift amounts stay below the
/// word size, `4^s` is the square of `2^s`, and grid coordinates up to the
/// largest one have Morton codes below `4^s`.
pub proof fn lemma_layout(s: nat)
    requires
        valid_subdivision(s),
    ensures
        2 * s + 2 < usize::BITS,
        s < 31,
        side(s) <= 0x4000_0000,
        side(s) >= 2,
        face_size(s) == side(s) * side(s),
        face_size(s) >= 4,
        grid_max(s) + 1 == side(s),
        forall|x: nat, y: nat|
            x <= grid_max(s) && y <= grid_max(s) ==> #[trigger] interleave(x, y) < face_size(s),
{
    vstd::layout::unsigned_int_max_values();
    lemma_pow2_adds(2 * s, 2);
    lemma2_to64();
    lemma2_to64_rest();
    if 2 * s + 2 >= usize::BITS {
        if 2 * s + 2 > usize::BITS {
            lemma_pow2_strictly_increases(usize::BITS as nat, 2 * s + 2);
        }
        assert(false);
    }
    assert(usize::BITS <= 64);
    lemma_pow2_adds(s, s);
    if s >= 31 {
        assert(false);
    }
    if s < 30 {
        lemma_pow2_strictly_increases(s, 30);
    }
    lemma_pow2_strictly_increases(0, s);
    lemma_pow2_strictly_increases(0, 2 * s);
    assert(face_size(s) >= 4) by {
        lemma_pow2_strictly_increases(1, 2 * s);
    }
    assert forall|x: nat, y: nat|
        x <= grid_max(s) && y <= grid_max(s) implies #[trigger] interleave(x, y) < face_size(s) by {
        lemma_interleave_bound(x, y, s);
    }
}

/// Why a sphere, or a lookup on it, was refused.
#[derive(Debug, Clone, Copy, PartialEq, Eq, Structural)]
pub enum SphereError {
    /// More subdivisions than the sphere supports (more than 15).
    TooManySubdivisions,
    /// No subdivision: the face grids would be single points.
    ZeroSubdivisions,
    /// A subdivision count at or beyond the number of bits of a `usize`.
    SubdivisionBeyondWordSize,
}

/// Away from the edges of a face, the neighbours are the four grid
/// neighbours on the same face.
proof fn lemma_interior_neighbors(f: nat, x: nat, y: nat, s: nat)
    requires
        f <= 5,
        0 < x < grid_max(s),
        0 < y < grid_max(s),
    ensures
        face_neighbors(f, x, y, s) == grid_neighbors(f, x, y, s),
{
    reveal(face_0_neighbors);
    reveal(face_1_neighbors);
    reveal(face_2_neighbors);
    reveal(face_3_neighbors);
    reveal(face_4_neighbors);
    reveal(face_5_neighbors);
}

/// The vertex `(x, y)` of a face has its neighbours from that face's row of
/// the table.
pub proof fn lemma_neighbors_of_vid(f: nat, x: nat, y: nat, s: nat)
    requires
        valid_subdivision(s),
        f <= 5,
        x <= grid_max(s),
        y <= grid_max(s),
    ensures
        vid(f, x, y, s) < vertex_count(s),
        nearest_neighbors(vid(f, x, y, s), s) == face_neighbors(f, x, y, s),
{
    lemma_layout(s);
    let p = face_size(s);
    let i = interleave(x, y);
    assert(i < p);
    vstd::arithmetic::mul::lemma_mul_inequality(f as int, 5, p as int);
    vstd::arithmetic::div_mod::lemma_fundamental_div_mod_converse(
        vid(f, x, y, s) as int,
        p as int,
        f as int,
        i as int,
    );
    lemma_decode_inverts_encode(x, y);
}

/// One step right from a vertex that is not in the last column stays on the
/// face, on the same row.
pub proof fn lemma_right_step(f: nat, x: nat, y: nat, s: nat)
    requires
        valid_subdivision(s),
        f <= 5,
        x < grid_max(s),
        y <= grid_max(s),
    ensures
        face_neighbors(f, x, y, s).0 == vid(f, x + 1, y, s),
{
    if f == 0 {
        reveal(face_0_neighbors);
    } else if f == 1 {
        reveal(face_1_neighbors);
    } else if f == 2 {
        reveal(face_2_neighbors);
    } else if f == 3 {
        reveal(face_3_neighbors);
    } else if f == 4 {
        reveal(face_4_neighbors);
    } else {
        reveal(face_5_neighbors);
    }
}

/// One step up from a vertex that is not in the top row stays on the face,
/// in the same column.
pub proof fn lemma_up_step(f: nat, x: nat, y: nat, s: nat)
    requires
        valid_subdivision(s),
        f <= 5,
        x <= grid_max(s),
        y < grid_max(s),
    ensures
        face_neighbors(f, x, y, s).1 == vid(f, x, y + 1, s),
{
    if f == 0 {
        reveal(face_0_neighbors);
    } else if f == 1 {
        reveal(face_1_neighbors);
    } else if f == 2 {
        reveal(face_2_neighbors);
    } else if f == 3 {
        reveal(face_3_neighbors);
    } else if f == 4 {
        reveal(face_4_neighbors);
    } else {
        reveal(face_5_neighbors);
    }
}

/// One step left from a vertex off the first column, and off the bottom and
/// top rows, stays on the face, on the same row.
pub proof fn lemma_left_step(f: nat, x: nat, y: nat, s: nat)
    requires
        f <= 5,
        0 < x <= grid_max(s),
        0 < y < grid_max(s),
    ensures
        face_neighbors(f, x, y, s).2 == vid(f, (x - 1) as nat, y, s),
{
    if f == 0 {
        reveal(face_0_neighbors);
    } else if f == 1 {
        reveal(face_1_neighbors);
    } else if f == 2 {
        reveal(face_2_neighbors);
    } else if f == 3 {
        reveal(face_3_neighbors);
    } else if f == 4 {
        reveal(face_4_neighbors);
    } else {
        reveal(face_5_neighbors);
    }
}

/// One step down from a vertex off the bottom row, and off the first and
/// last columns, stays on the face, in the same column.
pub proof fn lemma_down_step(f: nat, x: nat, y: nat, s: nat)
    requires
        f <= 5,
        0 < x < grid_max(s),
        0 < y <= grid_max(s),
    ensures
        face_neighbors(f, x, y, s).3 == vid(f, x, (y - 1) as nat, s),
{
    if f == 0 {
        reveal(face_0_neighbors);
    } else if f == 1 {
        reveal(face_1_neighbors);
    } else if f == 2 {
        reveal(face_2_neighbors);
    } else if f == 3 {
        reveal(face_3_neighbors);
    } else if f == 4 {
        reveal(face_4_neighbors);
    } else {
        reveal(face_5_neighbors);
    }
}

/// The neighbour relation is symmetric around a vertex inside a face: the
/// left neighbour of its right neighbour is the vertex itself, and likewise
/// right of left, bottom of top and top of bottom. Each neighbour is a
/// vertex of the sphere, so it names itself in `find_nearest_neighbors`.
pub proof fn lemma_neighbors_symmetric(f: nat, x: nat, y: nat, s: nat)
    requires
        valid_subdivision(s),
        f <= 5,
        0 < x < grid_max(s),
        0 < y < grid_max(s),
    ensures
        ({
            let v = vid(f, x, y, s);
            let n = nearest_neighbors(v, s);
            &&& n.0 < vertex_count(s) && named_vertex(n.0, s) == n.0
            &&& n.1 < vertex_count(s) && named_vertex(n.1, s) == n.1
            &&& n.2 < vertex_count(s) && named_vertex(n.2, s) == n.2
            &&& n.3 < vertex_count(s) && named_vertex(n.3, s) == n.3
            &&& toward(nearest_neighbors(n.0, s), 2) == v
            &&& toward(nearest_neighbors(n.1, s), 3) == v
            &&& toward(nearest_neighbors(n.2, s), 0) == v
            &&& toward(nearest_neighbors(n.3, s), 1) == v
        }),
{
    let v = vid(f, x, y, s);
    lemma_neighbors_of_vid(f, x, y, s);
    lemma_interior_neighbors(f, x, y, s);
    let xr = x + 1;
    let xl = (x - 1) as nat;
    let yu = y + 1;
    let yd = (y - 1) as nat;
    lemma_neighbors_of_vid(f, xr, y, s);
    lemma_neighbors_of_vid(f, xl, y, s);
    lemma_neighbors_of_vid(f, x, yu, s);
    lemma_neighbors_of_vid(f, x, yd, s);
    lemma_vertex_names_itself(vid(f, xr, y, s), s);
    lemma_vertex_names_itself(vid(f, xl, y, s), s);
    lemma_vertex_names_itself(vid(f, x, yu, s), s);
    lemma_vertex_names_itself(vid(f, x, yd, s), s);
    lemma_left_step(f, xr, y, s);
    lemma_right_step(f, xl, y, s);
    lemma_down_step(f, x, yu, s);
    lemma_up_step(f, x, yd, s);
}

/// The right neighbour of a vertex in the last column is a vertex of the
/// sphere, except at the top right corner of faces 0, 2 and 4.
pub proof fn lemma_right_edge(f: nat, y: nat, s: nat)
    requires
        valid_subdivision(s),
        f <= 5,
        y <= grid_max(s),
        f == 0 || f == 2 || f == 4 ==> y < grid_max(s),
    ensures
        face_neighbors(f, grid_max(s), y, s).0 < vertex_count(s),
{
    lemma_layout(s);
    let m = grid_max(s);
    let p = face_size(s);
    if f == 0 {
        reveal(face_0_neighbors);
        assert(interleave(0, y) < p);
    } else if f == 1 {
        reveal(face_1_neighbors);
        assert(interleave(0, y) < p);
        assert(interleave(0, m) < p);
        assert(interleave(0, 0) < p);
    } else if f == 2 {
        reveal(face_2_neighbors);
        assert(interleave(0, y + 1) < p);
        assert(interleave(0, 1) < p);
    } else if f == 3 {
        reveal(face_3_neighbors);
        assert(interleave(0, 0) < p);
        if y >= 1 {
            assert(interleave(0, (y - 1) as nat) < p);
        }
    } else if f == 4 {
        reveal(face_4_neighbors);
        assert(interleave(0, m) < p);
        assert(interleave(y, m) < p);
    } else {
        reveal(face_5_neighbors);
        assert(interleave((m - 1) as nat, 0) < p);
        if 0 < y < m {
            assert(interleave((m - y - 1) as nat, 0) < p);
        }
    }
}

/// Every vertex of a face, and every pole, has an index below the vertex
/// count.
pub proof fn lemma_vid_bound(s: nat)
    requires
        valid_subdivision(s),
    ensures
        forall|g: nat, a: nat, b: nat|
            g <= 5 && a <= grid_max(s) && b <= grid_max(s) ==> #[trigger] vid(g, a, b, s) < 6
                * face_size(s),
{
    lemma_layout(s);
    assert forall|g: nat, a: nat, b: nat|
        g <= 5 && a <= grid_max(s) && b <= grid_max(s) implies #[trigger] vid(g, a, b, s) < 6
            * face_size(s) by {
        vstd::arithmetic::mul::lemma_mul_inequality(g as int, 5, face_size(s) as int);
    }
}

/// The neighbour of vertex `v` in direction `d` is missing: one of the
/// corners that have only three neighbours, or the north pole, which borders
/// three faces.
pub open spec fn missing_neighbor(v: nat, d: int, s: nat) -> bool {
    let m = grid_max(s);
    ||| d == 0 && (v == vid(0, m, m, s) || v == vid(2, m, m, s) || v == vid(4, m, m, s) || v == pole(0, s))
    ||| d == 3 && (v == vid(1, m, 0, s) || v == vid(3, m, 0, s))
}

proof fn lemma_face_in_range(f: nat, x: nat, y: nat, d: int, s: nat)
    requires
        valid_subdivision(s),
        f <= 5,
        x <= grid_max(s),
        y <= grid_max(s),
        0 <= d < 4,
    ensures
        toward(face_neighbors(f, x, y, s), d) < vertex_count(s) || (toward(
            face_neighbors(f, x, y, s),
            d,
        ) == pole(2, s) && missing_neighbor(vid(f, x, y, s), d, s)),
{
    lemma_layout(s);
    lemma_vid_bound(s);
    if f == 0 {
        reveal(face_0_neighbors);
    } else if f == 1 {
        reveal(face_1_neighbors);
    } else if f == 2 {
        reveal(face_2_neighbors);
    } else if f == 3 {
        reveal(face_3_neighbors);
    } else if f == 4 {
        reveal(face_4_neighbors);
    } else {
        reveal(face_5_neighbors);
    }
}

/// Every neighbour of a vertex of the sphere is a vertex of the sphere, but
/// for the missing neighbours of the corners with only three neighbours and
/// of the north pole, which are reported as `pole(2, s)`, one past the last
/// vertex.
pub proof fn lemma_neighbors_on_sphere(v: nat, d: int, s: nat)
    requires
        valid_subdivision(s),
        v < vertex_count(s),
        0 <= d < 4,
    ensures
        toward(nearest_neighbors(v, s), d) < vertex_count(s) || (toward(nearest_neighbors(v, s), d)
            == pole(2, s) && missing_neighbor(v, d, s)),
{
    lemma_layout(s);
    lemma_vid_bound(s);
    let p = face_size(s);
    let f = v / p;
    let i = v % p;
    assert(f <= 6) by (nonlinear_arith)
        requires
            v < 6 * p + 2,
            p >= 4,
            f == v / p,
    ;
    if f <= 5 {
        let x = even_bits(i);
        let y = even_bits(i / 2);
        lemma_encode_inverts_decode(i);
        lemma_interleave_bound(x, y, s);
        vstd::arithmetic::div_mod::lemma_fundamental_div_mod(v as int, p as int);
        assert(v == f * p + i) by (nonlinear_arith)
            requires
                v == p * f + i,
        ;
        assert(v == vid(f, x, y, s));
        lemma_face_in_range(f, x, y, d, s);
    } else {
        vstd::arithmetic::div_mod::lemma_fundamental_div_mod(v as int, p as int);
        assert(v == 6 * p + i) by (nonlinear_arith)
            requires
                v == p * f + i,
                f == 6,
        ;
        assert(interleave(0, grid_max(s)) < p);
        assert(interleave(grid_max(s), grid_max(s)) < p);
        assert(interleave(grid_max(s), 0) < p);
    }
}

/// Shifting a face number left by `2 * s` gives the index of that face's
/// first vertex.
pub proof fn lemma_shift_facts(offset: usize, s: nat)
    requires
        valid_subdivision(s),
        offset == 2 * s,
    ensures
        2 * s + 2 < usize::BITS,
        face_size(s) >= 4,
        grid_max(s) + 1 == side(s),
        grid_max(s) >= 1,
        side(s) <= 0x4000_0000,
        forall|x: nat, y: nat|
            x <= grid_max(s) && y <= grid_max(s) ==> #[trigger] interleave(x, y) < face_size(s),
        (1usize << offset) == face_size(s),
        (2usize << offset) == 2 * face_size(s),
        (3usize << offset) == 3 * face_size(s),
        (4usize << offset) == 4 * face_size(s),
        (5usize << offset) == 5 * face_size(s),
        (6usize << offset) == 6 * face_size(s),
{
    lemma_layout(s);
    lemma_usize_shl_is_mul(1, offset);
    lemma_usize_shl_is_mul(2, offset);
    lemma_usize_shl_is_mul(3, offset);
    lemma_usize_shl_is_mul(4, offset);
    lemma_usize_shl_is_mul(5, offset);
    lemma_usize_shl_is_mul(6, offset);
}

/// The face bits and the index within the face of an index that names a
/// vertex are those of the vertex it names.
proof fn lemma_named_parts(v: nat, f: nat, i: nat, s: nat)
    requires
        valid_subdivision(s),
        f == (v / face_size(s)) % 8,
        i == v % face_size(s),
        named_vertex(v, s) < vertex_count(s),
    ensures
        f <= 6,
        f == 6 ==> i < 2,
        named_vertex(v, s) / face_size(s) == f,
        named_vertex(v, s) % face_size(s) == i,
{
    lemma_layout(s);
    reveal(named_vertex);
    let p = face_size(s);
    let named = named_vertex(v, s);
    assert(named == f * p + i);
    assert(i < p);
    assert(f <= 6) by (nonlinear_arith)
        requires
            named == f * p + i,
            named < 6 * p + 2,
            p >= 4,
    ;
    vstd::arithmetic::div_mod::lemma_fundamental_div_mod_converse(named as int, p as int, f as int, i as int);
}

/// A vertex of the sphere names itself.
pub proof fn lemma_vertex_names_itself(v: nat, s: nat)
    requires
        valid_subdivision(s),
        v < vertex_count(s),
    ensures
        named_vertex(v, s) == v,
{
    lemma_layout(s);
    reveal(named_vertex);
    let p = face_size(s);
    assert(v / p <= 6) by (nonlinear_arith)
        requires
            v < 6 * p + 2,
            p >= 4,
    ;
    assert((v / p) % 8 == v / p);
    vstd::arithmetic::div_mod::lemma_fundamental_div_mod(v as int, p as int);
    vstd::arithmetic::mul::lemma_mul_is_commutative((v / p) as int, p as int);
}

/// The border rows of the neighbour table for face 0; `None` inside the grid.
#[verifier::rlimit(100)]
fn neighbors_on_face_0(x: u32, y: u32, local_max: u32, offset: usize, Ghost(s): Ghost<nat>) -> (r: Option<[usize; 4]>)
    requires
        valid_subdivision(s),
        offset == 2 * s,
        local_max == grid_max(s),
        x <= local_max,
        y <= local_max,
    ensures
        r is Some <==> (x == 0 || y == 0 || x == local_max || y == local_max),
        r is Some ==> forall|k: int|
            0 <= k < 4 ==> (#[trigger] r->Some_0[k]) as nat == toward(face_neighbors(0, x as nat, y as nat, s), k),
{
    proof {
        lemma_shift_facts(offset, s);
        reveal(face_0_neighbors);
    }
    match (x, y) {
        (0, 0) => Some([z_order_encode(1, 0), z_order_encode(0, 1), (3 << offset) + z_order_encode(local_max, local_max - 1), (5 << offset) + 0]),
        (0, b) if b == local_max => Some([z_order_encode(1, local_max), (4 << offset) +  z_order_encode(0, local_max - 1), (6 << offset), z_order_encode(0, local_max - 1)]),
        (a, 0) if a == local_max => Some([(2 << offset) + 0, z_order_encode(local_max, 1), z_order_encode(local_max - 1, 0), (5 << offset) + z_order_encode(0, local_max)]),
        (a, b) if a == local_max && b == local_max => Some([(6 << offset) + 2, (2 << offset) + z_order_encode(0, local_max), z_order_encode(local_max - 1, local_max), z_order_encode(local_max, local_max - 1)]),
        (0, _) => Some([z_order_encode(1, y), z_order_encode(0, y + 1), (3 << offset) + z_order_encode(local_max, y + 1), z_order_encode(0, y - 1)]),
        (a, _) if a == local_max => Some([(2 << offset) + z_order_encode(0, y), z_order_encode(local_max, y + 1), z_order_encode(local_max - 1, y), z_order_encode(local_max, y - 1)]),
        (_, 0) => Some([z_order_encode(x + 1, 0), z_order_encode(x, 1), z_order_encode(x - 1, 0), (5 << offset) + z_order_encode(0, x)]),
        (_, b) if b == local_max => Some([z_order_encode(x + 1, local_max), (4 << offset) + z_order_encode(0, local_max - x - 1), z_order_encode(x - 1, local_max), z_order_encode(x, local_max - 1)]),
        _ => None,
    }
}

/// The border rows of the neighbour table for face 1; `None` inside the grid.
#[verifier::rlimit(100)]
fn neighbors_on_face_1(x: u32, y: u32, local_max: u32, offset: usize, Ghost(s): Ghost<nat>) -> (r: Option<[usize; 4]>)
    requires
        valid_subdivision(s),
        offset == 2 * s,
        local_max == grid_max(s),
        x <= local_max,
        y <= local_max,
    ensures
        r is Some <==> (x == 0 || y == 0 || x == local_max || y == local_max),
        r is Some ==> forall|k: int|
            0 <= k < 4 ==> (#[trigger] r->Some_0[k]) as nat == toward(face_neighbors(1, x as nat, y as nat, s), k),
{
    proof {
        lemma_shift_facts(offset, s);
        reveal(face_1_neighbors);
    }
    match (x, y) {
        (0, 0) => Some([(1 << offset) + z_order_encode(1, 0),(1 << offset) + z_order_encode(0, 1) ,(6 << offset) + 1, (5 << offset) + z_order_encode(local_max, local_max - 1)]),
        (0, b) if b == local_max => Some([(1 << offset) + z_order_encode(1, local_max), (4 << offset) + z_order_encode(local_max, 0),(2 << offset) + z_order_encode(local_max, y - 1), (1 << offset) + z_order_encode(0, local_max - 1)]),
        (a, 0) if a == local_max => Some([(3 << offset) + z_order_encode(0, 0), (1 << offset) + z_order_encode(local_max, 1), (1 << offset) + z_order_encode(local_max - 1, 0), (6 << offset) + 2]),
        (a, b) if a == local_max && b == local_max => Some([(3 << offset) + z_order_encode(0, local_max), (4 << offset) + z_order_encode(local_max, local_max), (1 << offset) + z_order_encode(local_max - 1, local_max), (1 << offset) + z_order_encode(local_max, local_max - 1)]),
        (0, _) => Some([(1 << offset) + z_order_encode(1, y), (1 << offset) + z_order_encode(0, y + 1), (2 << offset) + z_order_encode(local_max, y - 1), (1 << offset) + z_order_encode(0, y - 1)]),
        (a, _) if a == local_max => Some([(3 << offset) +z_order_encode(0, y), (1 << offset) + z_order_encode(local_max, y + 1), (1 << offset) + z_order_encode(local_max - 1, y), (1 << offset) + z_order_encode(local_max, y - 1)]),
        (_, 0) => Some([(1 << offset) + z_order_encode(x + 1, 0), (1 << offset) + z_order_encode(x, 1), (1 << offset) + z_order_encode(x - 1, 0), (5 << offset) + z_order_encode(local_max, local_max - x - 1)]),
        (_, b) if b == local_max => Some([(1 << offset) + z_order_encode(x + 1, local_max), (4 << offset) + z_order_encode(local_max, x), (1 << offset) + z_order_encode(x - 1, local_max), (1 << offset) + z_order_encode(x, local_max - 1)]),
        _ => None,
    }
}

/// The border rows of the neighbour table for face 2; `None` inside the grid.
#[verifier::rlimit(100)]
fn neighbors_on_face_2(x: u32, y: u32, local_max: u32, offset: usize, Ghost(s): Ghost<nat>) -> (r: Option<[usize; 4]>)
    requires
        valid_subdivision(s),
        offset == 2 * s,
        local_max == grid_max(s),
        x <= local_max,
        y <= local_max,
    ensures
        r is Some <==> (x == 0 || y == 0 || x == local_max || y == local_max),
        r is Some ==> forall|k: int|
            0 <= k < 4 ==> (#[trigger] r->Some_0[k]) as nat == toward(face_neighbors(2, x as nat, y as nat, s), k),
{
    proof {
        lemma_shift_facts(offset, s);
        reveal(face_2_neighbors);
    }
    match (x, y) {
        (0, 0) => Some([(2 << offset) + z_order_encode(1, 0), (2 << offset) + z_order_encode(0, 1), z_order_encode(local_max, 0), (5 << offset) + z_order_encode(1, local_max)]),
        (0, b) if b == local_max => Some([(2 << offset) + z_order_encode(1, local_max), (4 << offset), z_order_encode(local_max, local_max), (2 << offset) + z_order_encode(0,local_max - 1)]),
        (a, 0) if a == local_max => Some([(1 << offset) + z_order_encode(0, 1), (2 << offset) + z_order_encode(local_max, 1), (2 << offset) + z_order_encode(local_max - 1, 0), (6 << offset) + 1]),
        (a, b) if a == local_max && b == local_max => Some([(6 << offset) + 2, (4 << offset) + z_order_encode(local_max, 0), (2 << offset) + z_order_encode(local_max - 1, local_max), (2 << offset) + z_order_encode(local_max, local_max - 1)]),
        (0, _) => Some([(2 << offset) + z_order_encode(1, y), (2 << offset) + z_order_encode(0, y + 1), z_order_encode(local_max, y), (2 << offset) + z_order_encode(0, y - 1)]),
        (a, _) if a == local_max => Some([(1 << offset) + z_order_encode(0, y + 1), (2 << offset) + z_order_encode(local_max, y + 1), (2 << offset) + z_order_encode(local_max - 1, y), (2 << offset) + z_order_encode(local_max, y - 1)]),
        (_, 0) => Some([(2 << offset) + z_order_encode(x + 1, 0), (2 << offset) + z_order_encode(x, 1), (2 << offset) + z_order_encode(x - 1, 0), (5 << offset) + z_order_encode(x - 1, local_max)]),
        (_, b) if b == local_max => Some([(2 << offset) + z_order_encode(x + 1, local_max), (4 << offset) + z_order_encode(x, 0), (2 << offset) + z_order_encode(x - 1, local_max), (2 << offset) + z_order_encode(x, local_max - 1)]),
        _ => None,
    }
}

/// The border rows of the neighbour table for face 3; `None` inside the grid.
#[verifier::rlimit(100)]
fn neighbors_on_face_3(x: u32, y: u32, local_max: u32, offset: usize, Ghost(s): Ghost<nat>) -> (r: Option<[usize; 4]>)
    requires
        valid_subdivision(s),
        offset == 2 * s,
        local_max == grid_max(s),
        x <= local_max,
        y <= local_max,
    ensures
        r is Some <==> (x == 0 || y == 0 || x == local_max || y == local_max),
        r is Some ==> forall|k: int|
            0 <= k < 4 ==> (#[trigger] r->Some_0[k]) as nat == toward(face_neighbors(3, x as nat, y as nat, s), k),
{
    proof {
        lemma_shift_facts(offset, s);
        reveal(face_3_neighbors);
    }
    match (x, y) {
        (0, 0) => Some([(3 << offset) + z_order_encode(1, 0), (3 << offset) + z_order_encode(0, 1), (1 << offset) + z_order_encode(local_max, 0), (5 << offset) + z_order_encode(local_max, 0)]),
        (0, b) if b == local_max => Some([(3 << offset) + z_order_encode(1, local_max), (4 << offset) + z_order_encode(local_max - 1, local_max), (1 << offset) + z_order_encode(local_max, local_max), (3 << offset) + z_order_encode(0, local_max - 1)]),
        (a, 0) if a == local_max => Some([(5 << offset), (3 << offset) + z_order_encode(local_max, 1), (3 << offset) + z_order_encode(local_max - 1, 0), (6 << offset) + 2]),
        (a, b) if a == local_max && b == local_max => Some([z_order_encode(0, y - 1), (6 << offset), (3 << offset) + z_order_encode(local_max - 1, local_max), (3 << offset) + z_order_encode(local_max - 1, local_max)]),
        (0, _) => Some([(3 << offset) + z_order_encode(1, y), (3 << offset) + z_order_encode(0, y + 1), (1 << offset) + z_order_encode(local_max, y), (3 << offset) + z_order_encode(0, y - 1)]),
        (a, _) if a == local_max => Some([z_order_encode(0, y - 1), (3 << offset) + z_order_encode(local_max, y + 1), (3 << offset) + z_order_encode(local_max - 1, y), (3 << offset) + z_order_encode(local_max, y - 1)]),
        (_, 0) => Some([(3 << offset) + z_order_encode(x + 1, 0), (3 << offset) + z_order_encode(x, 1), (3 << offset) + z_order_encode(x - 1, 0), (5 << offset) + z_order_encode(local_max - x, 0)]),
        (_, b) if b == local_max => Some([(3 << offset) + z_order_encode(x + 1, local_max), (4 << offset) + z_order_encode(local_max - x - 1, local_max), (3 << offset) + z_order_encode(x - 1, local_max), (3 << offset) + z_order_encode(x, local_max - 1)]),
        _ => None,
    }
}

/// The border rows of the neighbour table for face 4; `None` inside the grid.
#[verifier::rlimit(100)]
fn neighbors_on_face_4(x: u32, y: u32, local_max: u32, offset: usize, Ghost(s): Ghost<nat>) -> (r: Option<[usize; 4]>)
    requires
        valid_subdivision(s),
        offset == 2 * s,
        local_max == grid_max(s),
        x <= local_max,
        y <= local_max,
    ensures
        r is Some <==> (x == 0 || y == 0 || x == local_max || y == local_max),
        r is Some ==> forall|k: int|
            0 <= k < 4 ==> (#[trigger] r->Some_0[k]) as nat == toward(face_neighbors(4, x as nat, y as nat, s), k),
{
    proof {
        lemma_shift_facts(offset, s);
        reveal(face_4_neighbors);
    }
    match (x, y) {
        (0, 0) => Some([(4 << offset) + z_order_encode(1, 0), (4 << offset) + z_order_encode(0, 1), z_order_encode(local_max - 1, local_max), (2 << offset) + z_order_encode(0, local_max)]),
        (0, b) if b == local_max => Some([(4 << offset) + z_order_encode(1, local_max), (3 << offset) + z_order_encode(local_max - x - 1, local_max), (6 << offset), (4 << offset) + z_order_encode(0, local_max - 1)]),
        (a, 0) if a == local_max => Some([(1 << offset) + z_order_encode(0, local_max), (4 << offset) + z_order_encode(local_max, 1), (4 << offset) + z_order_encode(local_max - 1, 0), (2 << offset) + z_order_encode(local_max, local_max)]),
        (a, b) if a == local_max && b == local_max => Some([(6 << offset) + 2, (1 << offset) + z_order_encode(local_max, local_max), (4 << offset) + z_order_encode(local_max - 1, local_max), (4 << offset) + z_order_encode(local_max, local_max - 1)]),
        (0, _) => Some([(4 << offset) + z_order_encode(1, y), (4 << offset) + z_order_encode(0, y + 1), z_order_encode(local_max - y - 1,local_max), (4 << offset) + z_order_encode(0, y - 1)]),
        (a, _) if a == local_max => Some([(1 << offset) + z_order_encode(y, local_max), (4 << offset) + z_order_encode(local_max, y + 1), (4 << offset) + z_order_encode(local_max - 1, y), (4 << offset) + z_order_encode(local_max, y - 1)]),
        (_, 0) => Some([(4 << offset) + z_order_encode(x + 1, 0), (4 << offset) + z_order_encode(x, 1), (4 << offset) + z_order_encode(x - 1, 0), (2 << offset) + z_order_encode(x, local_max)]),
        (_, b) if b == local_max => Some([(4 << offset) + z_order_encode(x + 1, local_max), (3 << offset) + z_order_encode(local_max - x - 1, local_max), (4 << offset) + z_order_encode(x - 1, local_max), (4 << offset) + z_order_encode(x, local_max - 1)]),
        _ => None,
    }
}

/// The border rows of the neighbour table for face 5; `None` inside the grid.
#[verifier::rlimit(100)]
fn neighbors_on_face_5(x: u32, y: u32, local_max: u32, offset: usize, Ghost(s): Ghost<nat>) -> (r: Option<[usize; 4]>)
    requires
        valid_subdivision(s),
        offset == 2 * s,
        local_max == grid_max(s),
        x <= local_max,
        y <= local_max,
    ensures
        r is Some <==> (x == 0 || y == 0 || x == local_max || y == local_max),
        r is Some ==> forall|k: int|
            0 <= k < 4 ==> (#[trigger] r->Some_0[k]) as nat == toward(face_neighbors(5, x as nat, y as nat, s), k),
{
    proof {
        lemma_shift_facts(offset, s);
        reveal(face_5_neighbors);
    }
    match (x, y) {
        (0, 0) => Some([(5 << offset) + z_order_encode(1, 0), (5 << offset) + z_order_encode(0, 1), 0, (3 << offset) + z_order_encode(local_max, 0)]),
        (0, b) if b == local_max => Some([(5 << offset) + z_order_encode(1, local_max), z_order_encode(local_max, 0), z_order_encode(local_max, 0), (5 << offset) + z_order_encode(0, local_max - 1)]),
        (a, 0) if a == local_max => Some([(1 << offset) + z_order_encode(local_max - 1, 0), (5 << offset) + z_order_encode(local_max, 1), (5 << offset) + z_order_encode(local_max - 1, 0), (3 << offset)]),
        (a, b) if a == local_max && b == local_max => Some([(6 << offset) + 1, (2 << offset) + z_order_encode(local_max - 1, 0), (5 << offset) + z_order_encode(local_max - 1, local_max), (5 << offset) + z_order_encode(local_max, local_max - 1)]),
        (0, _) => Some([(5 << offset) + z_order_encode(1, y), (5 << offset) + z_order_encode(0, y + 1), z_order_encode(y, 0), (5 << offset) + z_order_encode(0, y - 1)]),
        (a, _) if a == local_max => Some([(1 << offset) + z_order_encode(local_max - y - 1, 0), (5 << offset) + z_order_encode(local_max, y + 1), (5 << offset) + z_order_encode(local_max - 1, y), (5 << offset) + z_order_encode(local_max, y - 1)]),
        (_, 0) => Some([(5 << offset) + z_order_encode(x + 1, 0), (5 << offset) + z_order_encode(x, 1), (5 << offset) + z_order_encode(x - 1, 0), (3 << offset) + z_order_encode(local_max - x, 0)]),
        (_, b) if b == local_max => Some([(5 << offset) + z_order_encode(x + 1, local_max), (2 << offset) + z_order_encode(x - 1, 0), (5 << offset) + z_order_encode(x - 1, local_max), (5 << offset) + z_order_encode(x, local_max - 1)]),
        _ => None,
    }
}

/// Neighbours `[right, top, left, bottom]` of vertex `vert_index` on the
/// sphere of subdivision `subdivision`.
///
/// Corners of a face have only three neighbours: the missing one is reported
/// as `pole(2, s)`, one past the last vertex, or as a repetition of another.
/// The index is read as its face bits and its index within the face (see
/// `named_vertex`); every vertex of the sphere names itself.
#[verifier::rlimit(40)]
pub fn find_nearest_neighbors(vert_index: usize, subdivision: u32) -> (r: Result<[usize; 4], SphereError>)
    requires
        subdivision >= usize::BITS || (valid_subdivision(subdivision as nat) && named_vertex(
            vert_index as nat,
            subdivision as nat,
        ) < vertex_count(subdivision as nat)),
    ensures
        subdivision >= usize::BITS ==> r == Err::<[usize; 4], SphereError>(
            SphereError::SubdivisionBeyondWordSize,
        ),
        subdivision < usize::BITS ==> r is Ok && forall|k: int|
            0 <= k < 4 ==> (#[trigger] r->Ok_0[k]) as nat == toward(
                nearest_neighbors(named_vertex(vert_index as nat, subdivision as nat), subdivision as nat),
                k,
            ),
{
    if subdivision >= usize::BITS {
        return Err(SphereError::SubdivisionBeyondWordSize);
    }
    let ghost s = subdivision as nat;
    let ghost p = face_size(s);

    // Isolating relevant parameters
    let offset: usize = (2 * subdivision) as usize;
    proof {
        lemma_shift_facts(offset, s);
        lemma_usize_shr_is_div(vert_index, offset);
        lemma_usize_low_bits_mask_is_mod(vert_index, offset as nat);
        lemma_u32_shl_is_mul(1, subdivision);
    }
    let shifted: usize = vert_index >> offset;
    proof {
        assert(shifted & 0b111 == shifted % 8) by (bit_vector);
    }
    let mut face_id: usize = shifted & 0b111;
    let in_face_index: usize = vert_index & ((1 << offset) - 1);
    proof {
        lemma_named_parts(vert_index as nat, face_id as nat, in_face_index as nat, s);
    }
    let (x, y): (u32, u32) = z_order_decode(in_face_index);
    let local_max: u32 = (1u32 << subdivision) - 1;
    proof {
        lemma_encode_inverts_decode(in_face_index as nat);
        lemma_interleave_bound(x as nat, y as nat, s);
    }

    // Edges and corners lookup table (neighbors are [right, top, left, bottom])
    let border = match face_id {
        0 => neighbors_on_face_0(x, y, local_max, offset, Ghost(s)),
        1 => neighbors_on_face_1(x, y, local_max, offset, Ghost(s)),
        2 => neighbors_on_face_2(x, y, local_max, offset, Ghost(s)),
        3 => neighbors_on_face_3(x, y, local_max, offset, Ghost(s)),
        4 => neighbors_on_face_4(x, y, local_max, offset, Ghost(s)),
        5 => neighbors_on_face_5(x, y, local_max, offset, Ghost(s)),
        // the poles
        _ => {
            if in_face_index == 0 {
                Some([(6 << offset) + 2, z_order_encode(0, local_max), (3 << offset) + z_order_encode(local_max, local_max), (4 << offset) + z_order_encode(0, local_max)])
            } else {
                Some([(1 << offset), (2 << offset) + z_order_encode(local_max, 0), (5 << offset) + z_order_encode(local_max, local_max), (1 << offset)])
            }
        },
    };
    if let Some(neighbors) = border {
        return Ok(neighbors);
    }

    // Non-exception case
    proof {
        lemma_usize_shl_is_mul(face_id, offset);
        lemma_interior_neighbors(face_id as nat, x as nat, y as nat, s);
    }
    face_id = face_id << offset;
    return Ok([
        face_id + z_order_encode(x + 1, y),
        face_id + z_order_encode(x, y + 1),
        face_id + z_order_encode(x - 1, y),
        face_id + z_order_encode(x, y - 1),
    ]);
}

/// Whether `v` is among the four neighbours of `u`.
pub open spec fn neighbor_of(v: nat, u: nat, s: nat) -> bool {
    let n = nearest_neighbors(u, s);
    n.0 == v || n.1 == v || n.2 == v || n.3 == v
}

/// The entries of the neighbour table that do not point back: the left
/// neighbour of the first vertex of face 0, the right and top neighbours of
/// two vertices of the last column of face 3, the bottom neighbours of the
/// bottom row of face 2 (its corners aside), and the top neighbours of the
/// top row of face 5 (its first two vertices aside).
pub open spec fn one_way_at(f: nat, x: nat, y: nat, d: int, s: nat) -> bool {
    let m = grid_max(s);
    ||| f == 0 && x == 0 && y == 0 && d == 2
    ||| f == 3 && x == m && y == 1 && d == 0
    ||| f == 3 && x == m && y + 1 == m && d == 1
    ||| f == 2 && 1 <= x < m && y == 0 && d == 3
    ||| f == 5 && 2 <= x <= m && y == m && d == 1
}

/// `one_way_at` for the vertex with index `v`; the poles have none.
pub open spec fn one_way_neighbor(v: nat, d: int, s: nat) -> bool {
    let p = face_size(s);
    let i = v % p;
    v < 6 * p && one_way_at(v / p, even_bits(i), even_bits(i / 2), d, s)
}

/// The neighbours of the poles.
pub proof fn lemma_pole_neighbors(s: nat)
    requires
        valid_subdivision(s),
    ensures
        nearest_neighbors(pole(0, s), s) == (pole(2, s), vid(0, 0, grid_max(s), s), vid(3, grid_max(s), grid_max(s), s), vid(4, 0, grid_max(s), s)),
        nearest_neighbors(pole(1, s), s) == (vid(1, 0, 0, s), vid(2, grid_max(s), 0, s), vid(5, grid_max(s), grid_max(s), s), vid(1, 0, 0, s)),
{
    lemma_layout(s);
    let p = face_size(s);
    vstd::arithmetic::div_mod::lemma_fundamental_div_mod_converse((6 * p) as int, p as int, 6, 0);
    vstd::arithmetic::div_mod::lemma_fundamental_div_mod_converse((6 * p + 1) as int, p as int, 6, 1);
}

/// The table of neighbours of the face vertices, as `nearest_neighbors` gives it.
pub proof fn lemma_all_neighbors_of_vid(s: nat)
    requires
        valid_subdivision(s),
    ensures
        forall|g: nat, a: nat, b: nat|
            g <= 5 && a <= grid_max(s) && b <= grid_max(s) ==> #[trigger] nearest_neighbors(vid(g, a, b, s), s)
                == face_neighbors(g, a, b, s),
{
    assert forall|g: nat, a: nat, b: nat|
        g <= 5 && a <= grid_max(s) && b <= grid_max(s) implies #[trigger] nearest_neighbors(vid(g, a, b, s), s)
            == face_neighbors(g, a, b, s) by {
        lemma_neighbors_of_vid(g, a, b, s);
    }
}

// The neighbour table of each face, one direction at a time: the
// neighbour in that direction points back.
#[verifier::rlimit(60)]
proof fn lemma_mutual_0_0(x: nat, y: nat, s: nat)
    requires
        valid_subdivision(s),
        x <= grid_max(s),
        y <= grid_max(s),
        x == 0 || x == grid_max(s) || y == 0 || y == grid_max(s),
        !one_way_at(0, x, y, 0, s),
        toward(face_neighbors(0, x, y, s), 0) < vertex_count(s),
    ensures
        neighbor_of(vid(0, x, y, s), toward(face_neighbors(0, x, y, s), 0), s),
{
    lemma_layout(s);
    lemma_all_neighbors_of_vid(s);
    lemma_pole_neighbors(s);
    reveal(face_0_neighbors);
    reveal(face_2_neighbors);
}

#[verifier::rlimit(60)]
proof fn lemma_mutual_0_1(x: nat, y: nat, s: nat)
    requires
        valid_subdivision(s),
        x <= grid_max(s),
        y <= grid_max(s),
        x == 0 || x == grid_max(s) || y == 0 || y == grid_max(s),
        !one_way_at(0, x, y, 1, s),
        toward(face_neighbors(0, x, y, s), 1) < vertex_count(s),
    ensures
        neighbor_of(vid(0, x, y, s), toward(face_neighbors(0, x, y, s), 1), s),
{
    lemma_layout(s);
    lemma_all_neighbors_of_vid(s);
    reveal(face_0_neighbors);
    reveal(face_2_neighbors);
    reveal(face_4_neighbors);
}

#[verifier::rlimit(60)]
proof fn lemma_mutual_0_2(x: nat, y: nat, s: nat)
    requires
        valid_subdivision(s),
        x <= grid_max(s),
        y <= grid_max(s),
        x == 0 || x == grid_max(s) || y == 0 || y == grid_max(s),
        !one_way_at(0, x, y, 2, s),
        toward(face_neighbors(0, x, y, s), 2) < vertex_count(s),
    ensures
        neighbor_of(vid(0, x, y, s), toward(face_neighbors(0, x, y, s), 2), s),
{
    lemma_layout(s);
    lemma_all_neighbors_of_vid(s);
    lemma_pole_neighbors(s);
    reveal(face_0_neighbors);
    reveal(face_3_neighbors);
}

#[verifier::rlimit(60)]
proof fn lemma_mutual_0_3(x: nat, y: nat, s: nat)
    requires
        valid_subdivision(s),
        x <= grid_max(s),
        y <= grid_max(s),
        x == 0 || x == grid_max(s) || y == 0 || y == grid_max(s),
        !one_way_at(0, x, y, 3, s),
        toward(face_neighbors(0, x, y, s), 3) < vertex_count(s),
    ensures
        neighbor_of(vid(0, x, y, s), toward(face_neighbors(0, x, y, s), 3), s),
{
    lemma_layout(s);
    lemma_all_neighbors_of_vid(s);
    reveal(face_0_neighbors);
    reveal(face_5_neighbors);
}

#[verifier::rlimit(60)]
proof fn lemma_mutual_1_0(x: nat, y: nat, s: nat)
    requires
        valid_subdivision(s),
        x <= grid_max(s),
        y <= grid_max(s),
        x == 0 || x == grid_max(s) || y == 0 || y == grid_max(s),
        !one_way_at(1, x, y, 0, s),
        toward(face_neighbors(1, x, y, s), 0) < vertex_count(s),
    ensures
        neighbor_of(vid(1, x, y, s), toward(face_neighbors(1, x, y, s), 0), s),
{
    lemma_layout(s);
    lemma_all_neighbors_of_vid(s);
    reveal(face_1_neighbors);
    reveal(face_3_neighbors);
}

#[verifier::rlimit(60)]
proof fn lemma_mutual_1_1(x: nat, y: nat, s: nat)
    requires
        valid_subdivision(s),
        x <= grid_max(s),
        y <= grid_max(s),
        x == 0 || x == grid_max(s) || y == 0 || y == grid_max(s),
        !one_way_at(1, x, y, 1, s),
        toward(face_neighbors(1, x, y, s), 1) < vertex_count(s),
    ensures
        neighbor_of(vid(1, x, y, s), toward(face_neighbors(1, x, y, s), 1), s),
{
    lemma_layout(s);
    lemma_all_neighbors_of_vid(s);
    reveal(face_1_neighbors);
    reveal(face_4_neighbors);
}

#[verifier::rlimit(60)]
proof fn lemma_mutual_1_2(x: nat, y: nat, s: nat)
    requires
        valid_subdivision(s),
        x <= grid_max(s),
        y <= grid_max(s),
        x == 0 || x == grid_max(s) || y == 0 || y == grid_max(s),
        !one_way_at(1, x, y, 2, s),
        toward(face_neighbors(1, x, y, s), 2) < vertex_count(s),
    ensures
        neighbor_of(vid(1, x, y, s), toward(face_neighbors(1, x, y, s), 2), s),
{
    lemma_layout(s);
    lemma_all_neighbors_of_vid(s);
    lemma_pole_neighbors(s);
    reveal(face_1_neighbors);
    reveal(face_2_neighbors);
}

#[verifier::rlimit(60)]
proof fn lemma_mutual_1_3(x: nat, y: nat, s: nat)
    requires
        valid_subdivision(s),
        x <= grid_max(s),
        y <= grid_max(s),
        x == 0 || x == grid_max(s) || y == 0 || y == grid_max(s),
        !one_way_at(1, x, y, 3, s),
        toward(face_neighbors(1, x, y, s), 3) < vertex_count(s),
    ensures
        neighbor_of(vid(1, x, y, s), toward(face_neighbors(1, x, y, s), 3), s),
{
    lemma_layout(s);
    lemma_all_neighbors_of_vid(s);
    lemma_pole_neighbors(s);
    reveal(face_1_neighbors);
    reveal(face_5_neighbors);
}

#[verifier::rlimit(60)]
proof fn lemma_mutual_2_0(x: nat, y: nat, s: nat)
    requires
        valid_subdivision(s),
        x <= grid_max(s),
        y <= grid_max(s),
        x == 0 || x == grid_max(s) || y == 0 || y == grid_max(s),
        !one_way_at(2, x, y, 0, s),
        toward(face_neighbors(2, x, y, s), 0) < vertex_count(s),
    ensures
        neighbor_of(vid(2, x, y, s), toward(face_neighbors(2, x, y, s), 0), s),
{
    lemma_layout(s);
    lemma_all_neighbors_of_vid(s);
    lemma_pole_neighbors(s);
    reveal(face_1_neighbors);
    reveal(face_2_neighbors);
}

#[verifier::rlimit(60)]
proof fn lemma_mutual_2_1(x: nat, y: nat, s: nat)
    requires
        valid_subdivision(s),
        x <= grid_max(s),
        y <= grid_max(s),
        x == 0 || x == grid_max(s) || y == 0 || y == grid_max(s),
        !one_way_at(2, x, y, 1, s),
        toward(face_neighbors(2, x, y, s), 1) < vertex_count(s),
    ensures
        neighbor_of(vid(2, x, y, s), toward(face_neighbors(2, x, y, s), 1), s),
{
    lemma_layout(s);
    lemma_all_neighbors_of_vid(s);
    reveal(face_2_neighbors);
    reveal(face_4_neighbors);
}

#[verifier::rlimit(60)]
proof fn lemma_mutual_2_2(x: nat, y: nat, s: nat)
    requires
        valid_subdivision(s),
        x <= grid_max(s),
        y <= grid_max(s),
        x == 0 || x == grid_max(s) || y == 0 || y == grid_max(s),
        !one_way_at(2, x, y, 2, s),
        toward(face_neighbors(2, x, y, s), 2) < vertex_count(s),
    ensures
        neighbor_of(vid(2, x, y, s), toward(face_neighbors(2, x, y, s), 2), s),
{
    lemma_layout(s);
    lemma_all_neighbors_of_vid(s);
    reveal(face_0_neighbors);
    reveal(face_2_neighbors);
}

#[verifier::rlimit(60)]
proof fn lemma_mutual_2_3(x: nat, y: nat, s: nat)
    requires
        valid_subdivision(s),
        x <= grid_max(s),
        y <= grid_max(s),
        x == 0 || x == grid_max(s) || y == 0 || y == grid_max(s),
        !one_way_at(2, x, y, 3, s),
        toward(face_neighbors(2, x, y, s), 3) < vertex_count(s),
    ensures
        neighbor_of(vid(2, x, y, s), toward(face_neighbors(2, x, y, s), 3), s),
{
    lemma_layout(s);
    lemma_all_neighbors_of_vid(s);
    lemma_pole_neighbors(s);
    reveal(face_2_neighbors);
    reveal(face_5_neighbors);
}

#[verifier::rlimit(60)]
proof fn lemma_mutual_3_0(x: nat, y: nat, s: nat)
    requires
        valid_subdivision(s),
        x <= grid_max(s),
        y <= grid_max(s),
        x == 0 || x == grid_max(s) || y == 0 || y == grid_max(s),
        !one_way_at(3, x, y, 0, s),
        toward(face_neighbors(3, x, y, s), 0) < vertex_count(s),
    ensures
        neighbor_of(vid(3, x, y, s), toward(face_neighbors(3, x, y, s), 0), s),
{
    lemma_layout(s);
    lemma_all_neighbors_of_vid(s);
    reveal(face_0_neighbors);
    reveal(face_3_neighbors);
    reveal(face_5_neighbors);
}

#[verifier::rlimit(60)]
proof fn lemma_mutual_3_1(x: nat, y: nat, s: nat)
    requires
        valid_subdivision(s),
        x <= grid_max(s),
        y <= grid_max(s),
        x == 0 || x == grid_max(s) || y == 0 || y == grid_max(s),
        !one_way_at(3, x, y, 1, s),
        toward(face_neighbors(3, x, y, s), 1) < vertex_count(s),
    ensures
        neighbor_of(vid(3, x, y, s), toward(face_neighbors(3, x, y, s), 1), s),
{
    lemma_layout(s);
    lemma_all_neighbors_of_vid(s);
    lemma_pole_neighbors(s);
    reveal(face_3_neighbors);
    reveal(face_4_neighbors);
}

#[verifier::rlimit(60)]
proof fn lemma_mutual_3_2(x: nat, y: nat, s: nat)
    requires
        valid_subdivision(s),
        x <= grid_max(s),
        y <= grid_max(s),
        x == 0 || x == grid_max(s) || y == 0 || y == grid_max(s),
        !one_way_at(3, x, y, 2, s),
        toward(face_neighbors(3, x, y, s), 2) < vertex_count(s),
    ensures
        neighbor_of(vid(3, x, y, s), toward(face_neighbors(3, x, y, s), 2), s),
{
    lemma_layout(s);
    lemma_all_neighbors_of_vid(s);
    reveal(face_1_neighbors);
    reveal(face_3_neighbors);
}

#[verifier::rlimit(60)]
proof fn lemma_mutual_3_3(x: nat, y: nat, s: nat)
    requires
        valid_subdivision(s),
        x <= grid_max(s),
        y <= grid_max(s),
        x == 0 || x == grid_max(s) || y == 0 || y == grid_max(s),
        !one_way_at(3, x, y, 3, s),
        toward(face_neighbors(3, x, y, s), 3) < vertex_count(s),
    ensures
        neighbor_of(vid(3, x, y, s), toward(face_neighbors(3, x, y, s), 3), s),
{
    lemma_layout(s);
    lemma_all_neighbors_of_vid(s);
    lemma_pole_neighbors(s);
    reveal(face_3_neighbors);
    reveal(face_5_neighbors);
}

#[verifier::rlimit(60)]
proof fn lemma_mutual_4_0(x: nat, y: nat, s: nat)
    requires
        valid_subdivision(s),
        x <= grid_max(s),
        y <= grid_max(s),
        x == 0 || x == grid_max(s) || y == 0 || y == grid_max(s),
        !one_way_at(4, x, y, 0, s),
        toward(face_neighbors(4, x, y, s), 0) < vertex_count(s),
    ensures
        neighbor_of(vid(4, x, y, s), toward(face_neighbors(4, x, y, s), 0), s),
{
    lemma_layout(s);
    lemma_all_neighbors_of_vid(s);
    lemma_pole_neighbors(s);
    reveal(face_1_neighbors);
    reveal(face_4_neighbors);
}

#[verifier::rlimit(60)]
proof fn lemma_mutual_4_1(x: nat, y: nat, s: nat)
    requires
        valid_subdivision(s),
        x <= grid_max(s),
        y <= grid_max(s),
        x == 0 || x == grid_max(s) || y == 0 || y == grid_max(s),
        !one_way_at(4, x, y, 1, s),
        toward(face_neighbors(4, x, y, s), 1) < vertex_count(s),
    ensures
        neighbor_of(vid(4, x, y, s), toward(face_neighbors(4, x, y, s), 1), s),
{
    lemma_layout(s);
    lemma_all_neighbors_of_vid(s);
    reveal(face_1_neighbors);
    reveal(face_3_neighbors);
    reveal(face_4_neighbors);
}

#[verifier::rlimit(60)]
proof fn lemma_mutual_4_2(x: nat, y: nat, s: nat)
    requires
        valid_subdivision(s),
        x <= grid_max(s),
        y <= grid_max(s),
        x == 0 || x == grid_max(s) || y == 0 || y == grid_max(s),
        !one_way_at(4, x, y, 2, s),
        toward(face_neighbors(4, x, y, s), 2) < vertex_count(s),
    ensures
        neighbor_of(vid(4, x, y, s), toward(face_neighbors(4, x, y, s), 2), s),
{
    lemma_layout(s);
    lemma_all_neighbors_of_vid(s);
    lemma_pole_neighbors(s);
    reveal(face_0_neighbors);
    reveal(face_4_neighbors);
}

#[verifier::rlimit(60)]
proof fn lemma_mutual_4_3(x: nat, y: nat, s: nat)
    requires
        valid_subdivision(s),
        x <= grid_max(s),
        y <= grid_max(s),
        x == 0 || x == grid_max(s) || y == 0 || y == grid_max(s),
        !one_way_at(4, x, y, 3, s),
        toward(face_neighbors(4, x, y, s), 3) < vertex_count(s),
    ensures
        neighbor_of(vid(4, x, y, s), toward(face_neighbors(4, x, y, s), 3), s),
{
    lemma_layout(s);
    lemma_all_neighbors_of_vid(s);
    reveal(face_2_neighbors);
    reveal(face_4_neighbors);
}

#[verifier::rlimit(60)]
proof fn lemma_mutual_5_0(x: nat, y: nat, s: nat)
    requires
        valid_subdivision(s),
        x <= grid_max(s),
        y <= grid_max(s),
        x == 0 || x == grid_max(s) || y == 0 || y == grid_max(s),
        !one_way_at(5, x, y, 0, s),
        toward(face_neighbors(5, x, y, s), 0) < vertex_count(s),
    ensures
        neighbor_of(vid(5, x, y, s), toward(face_neighbors(5, x, y, s), 0), s),
{
    lemma_layout(s);
    lemma_all_neighbors_of_vid(s);
    lemma_pole_neighbors(s);
    reveal(face_1_neighbors);
    reveal(face_5_neighbors);
}

#[verifier::rlimit(60)]
proof fn lemma_mutual_5_1(x: nat, y: nat, s: nat)
    requires
        valid_subdivision(s),
        x <= grid_max(s),
        y <= grid_max(s),
        x == 0 || x == grid_max(s) || y == 0 || y == grid_max(s),
        !one_way_at(5, x, y, 1, s),
        toward(face_neighbors(5, x, y, s), 1) < vertex_count(s),
    ensures
        neighbor_of(vid(5, x, y, s), toward(face_neighbors(5, x, y, s), 1), s),
{
    lemma_layout(s);
    lemma_all_neighbors_of_vid(s);
    reveal(face_0_neighbors);
    reveal(face_2_neighbors);
    reveal(face_5_neighbors);
}

#[verifier::rlimit(60)]
proof fn lemma_mutual_5_2(x: nat, y: nat, s: nat)
    requires
        valid_subdivision(s),
        x <= grid_max(s),
        y <= grid_max(s),
        x == 0 || x == grid_max(s) || y == 0 || y == grid_max(s),
        !one_way_at(5, x, y, 2, s),
        toward(face_neighbors(5, x, y, s), 2) < vertex_count(s),
    ensures
        neighbor_of(vid(5, x, y, s), toward(face_neighbors(5, x, y, s), 2), s),
{
    lemma_layout(s);
    lemma_all_neighbors_of_vid(s);
    reveal(face_0_neighbors);
    reveal(face_5_neighbors);
}

#[verifier::rlimit(60)]
proof fn lemma_mutual_5_3(x: nat, y: nat, s: nat)
    requires
        valid_subdivision(s),
        x <= grid_max(s),
        y <= grid_max(s),
        x == 0 || x == grid_max(s) || y == 0 || y == grid_max(s),
        !one_way_at(5, x, y, 3, s),
        toward(face_neighbors(5, x, y, s), 3) < vertex_count(s),
    ensures
        neighbor_of(vid(5, x, y, s), toward(face_neighbors(5, x, y, s), 3), s),
{
    lemma_layout(s);
    lemma_all_neighbors_of_vid(s);
    reveal(face_3_neighbors);
    reveal(face_5_neighbors);
}

/// A neighbour of vertex `(x, y)` of face `f` that is a vertex of the sphere
/// has `(x, y)` among its own neighbours, away from the one-way entries.
proof fn lemma_mutual_on_face(f: nat, x: nat, y: nat, d: int, s: nat)
    requires
        valid_subdivision(s),
        f <= 5,
        x <= grid_max(s),
        y <= grid_max(s),
        0 <= d < 4,
        !one_way_at(f, x, y, d, s),
        toward(face_neighbors(f, x, y, s), d) < vertex_count(s),
    ensures
        neighbor_of(vid(f, x, y, s), toward(face_neighbors(f, x, y, s), d), s),
{
    if 0 < x < grid_max(s) && 0 < y < grid_max(s) {
        lemma_neighbors_of_vid(f, x, y, s);
        lemma_neighbors_symmetric(f, x, y, s);
    } else if f == 0 && d == 0 {
        lemma_mutual_0_0(x, y, s);
    } else if f == 0 && d == 1 {
        lemma_mutual_0_1(x, y, s);
    } else if f == 0 && d == 2 {
        lemma_mutual_0_2(x, y, s);
    } else if f == 0 && d == 3 {
        lemma_mutual_0_3(x, y, s);
    } else if f == 1 && d == 0 {
        lemma_mutual_1_0(x, y, s);
    } else if f == 1 && d == 1 {
        lemma_mutual_1_1(x, y, s);
    } else if f == 1 && d == 2 {
        lemma_mutual_1_2(x, y, s);
    } else if f == 1 && d == 3 {
        lemma_mutual_1_3(x, y, s);
    } else if f == 2 && d == 0 {
        lemma_mutual_2_0(x, y, s);
    } else if f == 2 && d == 1 {
        lemma_mutual_2_1(x, y, s);
    } else if f == 2 && d == 2 {
        lemma_mutual_2_2(x, y, s);
    } else if f == 2 && d == 3 {
        lemma_mutual_2_3(x, y, s);
    } else if f == 3 && d == 0 {
        lemma_mutual_3_0(x, y, s);
    } else if f == 3 && d == 1 {
        lemma_mutual_3_1(x, y, s);
    } else if f == 3 && d == 2 {
        lemma_mutual_3_2(x, y, s);
    } else if f == 3 && d == 3 {
        lemma_mutual_3_3(x, y, s);
    } else if f == 4 && d == 0 {
        lemma_mutual_4_0(x, y, s);
    } else if f == 4 && d == 1 {
        lemma_mutual_4_1(x, y, s);
    } else if f == 4 && d == 2 {
        lemma_mutual_4_2(x, y, s);
    } else if f == 4 && d == 3 {
        lemma_mutual_4_3(x, y, s);
    } else if f == 5 && d == 0 {
        lemma_mutual_5_0(x, y, s);
    } else if f == 5 && d == 1 {
        lemma_mutual_5_1(x, y, s);
    } else if f == 5 && d == 2 {
        lemma_mutual_5_2(x, y, s);
    } else if f == 5 && d == 3 {
        lemma_mutual_5_3(x, y, s);
    }
}

/// Adjacency is mutual: when the neighbour `u` of vertex `v` in direction `d`
/// is a vertex of the sphere (the missing neighbour of a three-neighbour
/// corner is not), `v` is among the four neighbours of `u`. This holds at
/// every entry of the table but the one-way ones that `one_way_neighbor`
/// lists.
pub proof fn lemma_neighbors_mutual(v: nat, d: int, s: nat)
    requires
        valid_subdivision(s),
        v < vertex_count(s),
        0 <= d < 4,
        !one_way_neighbor(v, d, s),
        toward(nearest_neighbors(v, s), d) < vertex_count(s),
    ensures
        neighbor_of(v, toward(nearest_neighbors(v, s), d), s),
{
    lemma_layout(s);
    let p = face_size(s);
    if v < 6 * p {
        let f = v / p;
        let i = v % p;
        let x = even_bits(i);
        let y = even_bits(i / 2);
        lemma_encode_inverts_decode(i);
        lemma_interleave_bound(x, y, s);
        assert(f < 6) by (nonlinear_arith)
            requires
                v < 6 * p,
                f == v / p,
                p > 0,
        ;
        assert(v == vid(f, x, y, s)) by {
            vstd::arithmetic::div_mod::lemma_fundamental_div_mod(v as int, p as int);
            vstd::arithmetic::mul::lemma_mul_is_commutative(f as int, p as int);
        }
        lemma_mutual_on_face(f, x, y, d, s);
    } else if v == pole(0, s) {
        lemma_mutual_north(d, s);
    } else {
        lemma_mutual_south(d, s);
    }
}

/// The neighbours of the north pole have it among theirs.
proof fn lemma_mutual_north(d: int, s: nat)
    requires
        valid_subdivision(s),
        0 <= d < 4,
        toward(nearest_neighbors(pole(0, s), s), d) < vertex_count(s),
    ensures
        neighbor_of(pole(0, s), toward(nearest_neighbors(pole(0, s), s), d), s),
{
    lemma_layout(s);
    lemma_pole_neighbors(s);
    let m = grid_max(s);
    lemma_neighbors_of_vid(0, 0, m, s);
    lemma_neighbors_of_vid(3, m, m, s);
    lemma_neighbors_of_vid(4, 0, m, s);
    reveal(face_0_neighbors);
    reveal(face_3_neighbors);
    reveal(face_4_neighbors);
}

/// The neighbours of the south pole have it among theirs.
proof fn lemma_mutual_south(d: int, s: nat)
    requires
        valid_subdivision(s),
        0 <= d < 4,
    ensures
        neighbor_of(pole(1, s), toward(nearest_neighbors(pole(1, s), s), d), s),
{
    lemma_layout(s);
    lemma_pole_neighbors(s);
    let m = grid_max(s);
    lemma_neighbors_of_vid(1, 0, 0, s);
    lemma_neighbors_of_vid(2, m, 0, s);
    lemma_neighbors_of_vid(5, m, m, s);
    reveal(face_1_neighbors);
    reveal(face_2_neighbors);
    reveal(face_5_neighbors);
}

/// Index of vertex `(x, y)` of face `face` on the sphere of subdivision
/// `subdivision`: the face number above the Morton code of the coordinates.
pub fn face_vertex_index(face: usize, x: u32, y: u32, subdivision: u32) -> (r: usize)
    requires
        valid_subdivision(subdivision as nat),
        face <= 5,
        x <= grid_max(subdivision as nat),
        y <= grid_max(subdivision as nat),
    ensures
        r == vid(face as nat, x as nat, y as nat, subdivision as nat),
{
    let ghost s = subdivision as nat;
    proof {
        lemma_layout(s);
    }
    let offset: usize = (2 * subdivision) as usize;
    proof {
        lemma_shift_facts(offset, s);
        lemma_vid_bound(s);
        lemma_usize_shl_is_mul(face, offset);
        vstd::arithmetic::mul::lemma_mul_is_commutative(face as int, face_size(s) as int);
        assert(interleave(x as nat, y as nat) < face_size(s));
        vstd::arithmetic::mul::lemma_mul_inequality(face as int, 5, face_size(s) as int);
    }
    (face << offset) + z_order_encode(x, y)
}

/// Color of the vertices of face `f`: faces 0 and 1 tinted red, 2 and 3
/// green, 4 and 5 blue (channel `f / 2` at 170, the others at 0).
pub open spec fn face_tint(f: nat, channel: int) -> u8 {
    if f <= 5 && channel == f / 2 {
        170
    } else {
        0
    }
}

/// The RGBA color of the vertices of face `face`.
pub fn face_rgba(face: usize) -> (r: [u8; 4])
    ensures
        forall|i: int| 0 <= i < 4 ==> #[trigger] r@[i] == face_tint(face as nat, i),
{
    let mut rgba: [u8; 4] = [0, 0, 0, 0];
    if face == 0 || face == 1 {
        rgba[0] = 170;
    } else if face == 2 || face == 3 {
        rgba[1] = 170;
    } else if face == 4 || face == 5 {
        rgba[2] = 170;
    }
    rgba
}

} // verus!
