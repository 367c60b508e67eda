//! The index buffer of the quadrilateralized spherical cube: two
//! counter-clockwise triangles per grid cell, face by face and row by row.

use vstd::prelude::*;
use vstd::arithmetic::div_mod::lemma_fundamental_div_mod_converse;
use vstd::arithmetic::mul::{
    lemma_mul_inequality, lemma_mul_is_associative, lemma_mul_is_commutative,
    lemma_mul_is_distributive_add,
};
use crate::sphere::{
    SphereError, find_nearest_neighbors, nearest_neighbors, valid_subdivision, vertex_count,
    lemma_layout, face_size, side, grid_max, vid, pole, face_neighbors, toward,
    lemma_shift_facts, lemma_neighbors_of_vid, lemma_right_step, lemma_up_step, lemma_right_edge,
    lemma_neighbors_on_sphere, missing_neighbor, lemma_vid_bound, face_5_neighbors,
    lemma_vertex_names_itself, face_0_neighbors, face_1_neighbors, face_2_neighbors,
    face_3_neighbors, face_4_neighbors, lemma_pole_neighbors, lemma_all_neighbors_of_vid,
};
use crate::zorder::{
    interleave, even_bits, lemma_decode_inverts_encode, lemma_encode_inverts_decode,
    lemma_interleave_bound, z_order_encode,
};

verus! {

/// The vertex reached from `start` after `k` steps in direction `dir`
/// (0: right, 1: top, 2: left, 3: bottom).
pub open spec fn walk(start: nat, dir: int, k: nat, s: nat) -> nat
    decreases k,
{
    if k == 0 {
        start
    } else {
        toward(nearest_neighbors(walk(start, dir, (k - 1) as nat, s), s), dir)
    }
}

/// Entry `j` (0 to 5) of cell `k` of a strip of `len` cells.
///
/// The strip follows the vertices `w_0 = start, w_1, ...` reached by steps
/// in direction `rd`; `t_k` is the neighbour of `w_k` in direction `td`
/// (direction `ld` for the last vertex of the strip). Cell `k` holds the
/// triangles `(w_k, w_k+1, t_k)` and `(t_k, w_k+1, t_k+1)`, or, in a
/// flipped strip, the same triangles with the opposite winding.
pub open spec fn strip_value(
    start: nat,
    rd: int,
    td: int,
    ld: int,
    flipped: bool,
    len: nat,
    k: nat,
    j: nat,
    s: nat,
) -> u32 {
    let w = walk(start, rd, k, s);
    let w1 = walk(start, rd, k + 1, s);
    let t = toward(nearest_neighbors(w, s), td);
    let t1 = toward(nearest_neighbors(w1, s), if k + 1 == len { ld } else { td });
    let tri: Seq<nat> = if flipped {
        seq![w, t, w1, t, t1, w1]
    } else {
        seq![w, w1, t, t, w1, t1]
    };
    tri[j as int] as u32
}

/// Number of entries of the index buffer: six faces of `4^s` cells of two
/// triangles each.
pub open spec fn index_count(s: nat) -> nat {
    36 * face_size(s)
}

/// Entry `j` of the six entries of the extra cell that closes face 0 at the
/// north pole (`f == 0`) or face 2 at the south pole (`f == 2`).
pub open spec fn pole_cell(f: nat, j: nat, s: nat) -> u32 {
    let m = grid_max(s);
    let cell: Seq<nat> = if f == 0 {
        seq![pole(0, s), vid(0, 0, m, s), vid(4, 0, m, s), vid(4, 0, m, s), vid(0, 0, m, s), vid(4, 0, (m - 1) as nat, s)]
    } else {
        seq![pole(1, s), vid(1, 0, 0, s), vid(2, m, 0, s), vid(2, m, 0, s), vid(1, 0, 0, s), vid(1, 0, 1, s)]
    };
    cell[j as int] as u32
}

/// Entry `j` of cell `k` of row `y` in the part of the index buffer that
/// belongs to face `f`.
///
/// Each row of a face is a strip along the row (right steps, top
/// neighbours). The last cell of the top rows of faces 0 and 2 is the cell
/// that closes the face at a pole. Face 4 has no last column and no top row
/// of its own; their places hold the strips along the left column and the
/// bottom row of face 5, the bottom row wound the other way round.
pub open spec fn face_slot(f: nat, y: nat, k: nat, j: nat, s: nat) -> u32 {
    let e = side(s);
    let m = grid_max(s);
    if f == 0 || f == 2 {
        if y < m {
            strip_value(vid(f, 0, y, s), 0, 1, 1, false, e, k, j, s)
        } else if k < m {
            strip_value(vid(f, 0, m, s), 0, 1, 1, false, m, k, j, s)
        } else {
            pole_cell(f, j, s)
        }
    } else if f == 1 {
        strip_value(vid(1, 0, y, s), 0, 1, 1, false, e, k, j, s)
    } else if f == 3 {
        strip_value(vid(3, 0, y, s), 0, 1, if y == 0 { 2 } else { 1 }, false, e, k, j, s)
    } else if f == 4 {
        if y < m {
            if k < m {
                strip_value(vid(4, 0, y, s), 0, 1, 1, false, m, k, j, s)
            } else {
                strip_value(vid(5, 0, 0, s), 1, 2, 2, false, m, y, j, s)
            }
        } else {
            strip_value(vid(5, 0, 0, s), 0, 3, 0, true, e, k, j, s)
        }
    } else {
        strip_value(vid(5, 0, y, s), 0, 1, if y == m { 1 } else { 2 }, false, e, k, j, s)
    }
}

/// Entry `i` of the index buffer of the sphere of subdivision `s`: the
/// buffer holds the faces one after the other, each face row by row, each
/// row cell by cell, six entries per cell.
pub open spec fn index_slot(s: nat, i: nat) -> u32 {
    let p = face_size(s);
    let e = side(s);
    let f = i / (6 * p);
    let r = i % (6 * p);
    let y = r / (6 * e);
    let c = r % (6 * e);
    face_slot(f, y, c / 6, c % 6, s)
}

/// Position of entry `j` of cell `k` of a strip whose cells start `stride`
/// apart from `base`.
pub open spec fn strip_pos(base: nat, stride: nat, k: nat, j: nat) -> int {
    (base + stride * k + j) as int
}

/// Whether position `i` holds an entry of that strip.
pub open spec fn in_strip(i: int, base: nat, stride: nat, len: nat) -> bool {
    &&& base <= i
    &&& (i - base) / (stride as int) < len
    &&& (i - base) % (stride as int) < 6
}

proof fn lemma_strip_pos(base: nat, stride: nat, len: nat, k: nat, j: nat)
    requires
        6 <= stride,
        k < len,
        j < 6,
    ensures
        (strip_pos(base, stride, k, j) - base) / (stride as int) == k,
        (strip_pos(base, stride, k, j) - base) % (stride as int) == j,
        in_strip(strip_pos(base, stride, k, j), base, stride, len),
        strip_pos(base, stride, k, j) < base + stride * (len - 1) + 6,
{
    lemma_mul_is_commutative(stride as int, k as int);
    lemma_mul_is_commutative(stride as int, (len - 1) as int);
    lemma_mul_inequality(k as int, (len - 1) as int, stride as int);
    lemma_fundamental_div_mod_converse((stride * k + j) as int, stride as int, k as int, j as int);
}

proof fn lemma_strip_pos_all(base: nat, stride: nat, len: nat)
    requires
        6 <= stride,
    ensures
        forall|k: nat, j: nat|
            k < len && j < 6 ==> {
                &&& (#[trigger] strip_pos(base, stride, k, j) - base) / (stride as int) == k
                &&& (strip_pos(base, stride, k, j) - base) % (stride as int) == j
                &&& in_strip(strip_pos(base, stride, k, j), base, stride, len)
                &&& strip_pos(base, stride, k, j) < base + stride * (len - 1) + 6
            },
{
    assert forall|k: nat, j: nat| k < len && j < 6 implies {
        &&& (#[trigger] strip_pos(base, stride, k, j) - base) / (stride as int) == k
        &&& (strip_pos(base, stride, k, j) - base) % (stride as int) == j
        &&& in_strip(strip_pos(base, stride, k, j), base, stride, len)
        &&& strip_pos(base, stride, k, j) < base + stride * (len - 1) + 6
    } by {
        lemma_strip_pos(base, stride, len, k, j);
    }
}

/// Entry `j` of cell `k` of row `y` of face `f` sits at
/// `6 * 4^s * f + 6 * 2^s * y + 6 * k + j`.
proof fn lemma_index_slot(s: nat, f: nat, y: nat, k: nat, j: nat)
    requires
        valid_subdivision(s),
        f < 6,
        y < side(s),
        k < side(s),
        j < 6,
    ensures
        6 * face_size(s) * f + 6 * side(s) * y + 6 * k + j < index_count(s),
        index_slot(s, 6 * face_size(s) * f + 6 * side(s) * y + 6 * k + j) == face_slot(f, y, k, j, s),
{
    lemma_layout(s);
    let p = face_size(s);
    let e = side(s);
    let r = 6 * e * y + 6 * k + j;
    let i = 6 * p * f + r;
    let e6: int = (6 * e) as int;
    let p6: int = (6 * p) as int;
    lemma_mul_inequality(y as int, (e - 1) as int, e6);
    lemma_mul_is_commutative(y as int, e6);
    lemma_mul_is_commutative((e - 1) as int, e6);
    lemma_mul_is_distributive_add(e6, (e - 1) as int, 1);
    lemma_mul_is_associative(6, e as int, e as int);
    assert(r < 6 * p);
    lemma_mul_inequality(f as int, 5, p6);
    lemma_mul_is_commutative(5, p6);
    lemma_mul_is_commutative(f as int, p6);
    lemma_fundamental_div_mod_converse(i as int, p6, f as int, r as int);
    lemma_fundamental_div_mod_converse(r as int, e6, y as int, (6 * k + j) as int);
    lemma_fundamental_div_mod_converse((6 * k + j) as int, 6, k as int, j as int);
}

/// Walking right from the first vertex of a row of a face visits the row in
/// order.
proof fn lemma_walk_row(f: nat, y: nat, k: nat, s: nat)
    requires
        valid_subdivision(s),
        f <= 5,
        y <= grid_max(s),
        k <= grid_max(s),
    ensures
        walk(vid(f, 0, y, s), 0, k, s) == vid(f, k, y, s),
    decreases k,
{
    if k > 0 {
        lemma_walk_row(f, y, (k - 1) as nat, s);
        lemma_neighbors_of_vid(f, (k - 1) as nat, y, s);
        lemma_right_step(f, (k - 1) as nat, y, s);
    }
}

/// Walking up from the bottom vertex of a column of a face visits the column
/// in order.
proof fn lemma_walk_column(f: nat, x: nat, k: nat, s: nat)
    requires
        valid_subdivision(s),
        f <= 5,
        x <= grid_max(s),
        k <= grid_max(s),
    ensures
        walk(vid(f, x, 0, s), 1, k, s) == vid(f, x, k, s),
    decreases k,
{
    if k > 0 {
        lemma_walk_column(f, x, (k - 1) as nat, s);
        lemma_neighbors_of_vid(f, x, (k - 1) as nat, s);
        lemma_up_step(f, x, (k - 1) as nat, s);
    }
}

/// Every vertex a row strip of a face visits is a vertex of the sphere; a
/// strip over the whole row also visits the right neighbour of its last
/// vertex.
proof fn lemma_row_strip_walk(f: nat, y: nat, len: nat, s: nat)
    requires
        valid_subdivision(s),
        f <= 5,
        y <= grid_max(s),
        len <= side(s),
        len == side(s) && (f == 0 || f == 2 || f == 4) ==> y < grid_max(s),
    ensures
        forall|k: nat| k <= len ==> #[trigger] walk(vid(f, 0, y, s), 0, k, s) < vertex_count(s),
{
    lemma_layout(s);
    assert forall|k: nat| k <= len implies #[trigger] walk(vid(f, 0, y, s), 0, k, s) < vertex_count(s) by {
        if k <= grid_max(s) {
            lemma_walk_row(f, y, k, s);
            lemma_neighbors_of_vid(f, k, y, s);
        } else {
            let m = grid_max(s);
            lemma_walk_row(f, y, m, s);
            lemma_neighbors_of_vid(f, m, y, s);
            lemma_right_edge(f, y, s);
        }
    }
}

/// Every vertex a column strip of a face visits, short of the top row, is a
/// vertex of the sphere.
proof fn lemma_column_strip_walk(f: nat, x: nat, len: nat, s: nat)
    requires
        valid_subdivision(s),
        f <= 5,
        x <= grid_max(s),
        len <= grid_max(s),
    ensures
        forall|k: nat| k <= len ==> #[trigger] walk(vid(f, x, 0, s), 1, k, s) < vertex_count(s),
{
    assert forall|k: nat| k <= len implies #[trigger] walk(vid(f, x, 0, s), 1, k, s) < vertex_count(s) by {
        lemma_walk_column(f, x, k, s);
        lemma_neighbors_of_vid(f, x, k, s);
    }
}

/// Once the cells of row `y` of face `f` hold their entries, the entries
/// of the buffer are right up to the end of that row.
proof fn lemma_extend_row(s: nat, f: nat, y: nat, ind: Seq<u32>)
    requires
        valid_subdivision(s),
        f < 6,
        y < side(s),
        forall|k: nat, j: nat|
            k < side(s) && j < 6 ==> ind[#[trigger] strip_pos(row_start(f, y, s), 6, k, j)]
                == face_slot(f, y, k, j, s),
        forall|i: int| 0 <= i < row_start(f, y, s) ==> ind[i] == index_slot(s, i as nat),
    ensures
        forall|i: int| 0 <= i < row_start(f, y + 1, s) ==> ind[i] == index_slot(s, i as nat),
{
    let base = row_start(f, y, s);
    lemma_mul_is_distributive_add(6 * side(s) as int, y as int, 1);
    assert forall|i: int| 0 <= i < row_start(f, y + 1, s) implies ind[i] == index_slot(
        s,
        i as nat,
    ) by {
        if i >= base {
            let k = ((i - base) / 6) as nat;
            let j = ((i - base) % 6) as nat;
            assert(strip_pos(base, 6, k, j) == i);
            lemma_index_slot(s, f, y, k, j);
        }
    }
}

/// Once every cell of rows `0 .. y_end` of face `f` holds its entries, the
/// entries of the buffer are right up to the end of those rows.
proof fn lemma_extend_rows(s: nat, f: nat, y_end: nat, ind: Seq<u32>)
    requires
        valid_subdivision(s),
        f < 6,
        y_end <= side(s),
        forall|y: nat, k: nat, j: nat|
            y < y_end && k < side(s) && j < 6 ==> ind[#[trigger] strip_pos(
                row_start(f, y, s),
                6,
                k,
                j,
            )] == face_slot(f, y, k, j, s),
        forall|i: int| 0 <= i < row_start(f, 0, s) ==> ind[i] == index_slot(s, i as nat),
    ensures
        forall|i: int| 0 <= i < row_start(f, y_end, s) ==> ind[i] == index_slot(s, i as nat),
    decreases y_end,
{
    if y_end > 0 {
        let y = (y_end - 1) as nat;
        lemma_extend_rows(s, f, y, ind);
        assert forall|k: nat, j: nat| k < side(s) && j < 6 implies ind[#[trigger] strip_pos(
            row_start(f, y, s),
            6,
            k,
            j,
        )] == face_slot(f, y, k, j, s) by {
            assert(ind[strip_pos(row_start(f, y, s), 6, k, j)] == face_slot(f, y, k, j, s));
        }
        lemma_extend_row(s, f, y, ind);
    }
}

/// Writes the `len` cells of a strip (see `strip_value`) at
/// `base`, `base + stride`, ... and leaves every other entry alone.
#[verifier::rlimit(60)]
fn write_strip(
    ind: &mut Vec<u32>,
    base: usize,
    stride: usize,
    start: usize,
    len: usize,
    right_dir: usize,
    top_dir: usize,
    last_top_dir: usize,
    flipped: bool,
    subdivision: u32,
)
    requires
        valid_subdivision(subdivision as nat),
        6 <= stride,
        1 <= len,
        right_dir < 4,
        top_dir < 4,
        last_top_dir < 4,
        base + stride * (len - 1) + 6 <= old(ind)@.len(),
        forall|k: nat|
            k <= len ==> #[trigger] walk(start as nat, right_dir as int, k, subdivision as nat)
                < vertex_count(subdivision as nat),
    ensures
        final(ind)@.len() == old(ind)@.len(),
        forall|k: nat, j: nat|
            k < len && j < 6 ==> final(ind)@[#[trigger] strip_pos(base as nat, stride as nat, k, j)]
                == strip_value(
                start as nat,
                right_dir as int,
                top_dir as int,
                last_top_dir as int,
                flipped,
                len as nat,
                k,
                j,
                subdivision as nat,
            ),
        forall|i: int|
            0 <= i < final(ind)@.len() && !in_strip(i, base as nat, stride as nat, len as nat) ==> final(ind)@[i]
                == old(ind)@[i],
{
    let ghost s = subdivision as nat;
    let ghost rd = right_dir as int;
    let ghost td = top_dir as int;
    let ghost ld = last_top_dir as int;
    let ghost b = base as nat;
    let ghost st = stride as nat;
    proof {
        lemma_layout(s);
        lemma_mul_inequality(0, (len - 1) as int, stride as int);
        lemma_mul_is_commutative((len - 1) as int, stride as int);
    }
    let total: usize = ind.len();
    proof {
        lemma_strip_pos_all(b, st, len as nat);
    }
    assert(walk(start as nat, rd, 0, s) == start);
    assert(walk(start as nat, rd, 1, s) < vertex_count(s));

    // Row initialization and first triangle
    proof {
        lemma_vertex_names_itself(start as nat, s);
    }
    let mut neighbors: [usize; 4] = find_nearest_neighbors(start, subdivision).unwrap();
    let mut right: usize = neighbors[right_dir];
    let mut top: usize = neighbors[top_dir];
    proof {
        lemma_strip_pos(b, st, len as nat, 0, 0);
        lemma_strip_pos(b, st, len as nat, 0, 1);
        lemma_strip_pos(b, st, len as nat, 0, 2);
    }
    // A flipped strip is wound the other way round
    let (second, third) = if flipped { (top, right) } else { (right, top) };
    ind.set(base, start as u32);
    ind.set(base + 1, second as u32);
    ind.set(base + 2, third as u32);
    let mut topleft: usize = top;
    let mut pos: usize = base;
    let mut x: usize = 1;
    // Fill the inner triangles of the strip
    while x < len
        invariant
            1 <= x <= len,
            pos == base + stride * (x - 1),
            base + stride * (len - 1) + 6 <= ind@.len(),
            ind@.len() == old(ind)@.len(),
            ind@.len() == total,
            subdivision < usize::BITS,
            valid_subdivision(s),
            6 <= stride,
            right_dir < 4,
            top_dir < 4,
            s == subdivision as nat,
            rd == right_dir as int,
            td == top_dir as int,
            b == base as nat,
            st == stride as nat,
            right as nat == walk(start as nat, rd, x as nat, s),
            topleft as nat == toward(nearest_neighbors(walk(start as nat, rd, (x - 1) as nat, s), s), td),
            forall|k: nat|
                k <= len ==> #[trigger] walk(start as nat, rd, k, s) < vertex_count(s),
            forall|k: nat, j: nat|
                (k < x && j < 3) || (k + 1 < x && j < 6) ==> ind@[#[trigger] strip_pos(b, st, k, j)]
                    == strip_value(start as nat, rd, td, ld, flipped, len as nat, k, j, s),
            forall|i: int|
                0 <= i < ind@.len() && !in_strip(i, b, st, len as nat) ==> ind@[i] == old(ind)@[i],
        decreases len - x,
    {
        let ghost prev = ind@;
        let current: usize = right;
        proof {
            lemma_vertex_names_itself(current as nat, s);
        }
        neighbors = find_nearest_neighbors(current, subdivision).unwrap();
        right = neighbors[right_dir];
        top = neighbors[top_dir];
        proof {
            lemma_strip_pos_all(b, st, len as nat);
            assert(right as nat == walk(start as nat, rd, (x + 1) as nat, s));
            assert(top as nat == toward(nearest_neighbors(walk(start as nat, rd, x as nat, s), s), td));
            lemma_mul_inequality(x as int, (len - 1) as int, stride as int);
            lemma_mul_is_commutative(x as int, stride as int);
            lemma_mul_is_commutative((len - 1) as int, stride as int);
            lemma_mul_inequality((x - 1) as int, (len - 1) as int, stride as int);
            lemma_mul_is_commutative((x - 1) as int, stride as int);
            lemma_mul_is_distributive_add(stride as int, (x - 1) as int, 1);
            lemma_strip_pos(b, st, len as nat, (x - 1) as nat, 3);
            lemma_strip_pos(b, st, len as nat, (x - 1) as nat, 4);
            lemma_strip_pos(b, st, len as nat, (x - 1) as nat, 5);
            lemma_strip_pos(b, st, len as nat, x as nat, 0);
            lemma_strip_pos(b, st, len as nat, x as nat, 1);
            lemma_strip_pos(b, st, len as nat, x as nat, 2);
        }
        let (second, third) = if flipped { (top, current) } else { (current, top) };
        ind.set(pos + 3, topleft as u32);
        ind.set(pos + 4, second as u32);
        ind.set(pos + 5, third as u32);
        pos = pos + stride;
        let (second, third) = if flipped { (top, right) } else { (right, top) };
        ind.set(pos, current as u32);
        ind.set(pos + 1, second as u32);
        ind.set(pos + 2, third as u32);
        proof {
            let k1 = (x - 1) as nat;
            assert(pos - stride + 3 == strip_pos(b, st, k1, 3));
            assert(ind@[pos - stride + 3] == topleft as u32);
            assert(pos - stride + 4 == strip_pos(b, st, k1, 4));
            assert(pos - stride + 5 == strip_pos(b, st, k1, 5));
            assert(pos + 0 == strip_pos(b, st, x as nat, 0));
            assert(pos + 1 == strip_pos(b, st, x as nat, 1));
            assert(pos + 2 == strip_pos(b, st, x as nat, 2));
            assert(strip_value(start as nat, rd, td, ld, flipped, len as nat, k1, 3, s) == (toward(nearest_neighbors(walk(start as nat, rd, k1, s), s), td)) as u32);
            assert(ind@[strip_pos(b, st, (x - 1) as nat, 3)] == strip_value(start as nat, rd, td, ld, flipped, len as nat, (x - 1) as nat, 3, s));
            assert(ind@[strip_pos(b, st, (x - 1) as nat, 4)] == strip_value(start as nat, rd, td, ld, flipped, len as nat, (x - 1) as nat, 4, s));
            assert(ind@[strip_pos(b, st, (x - 1) as nat, 5)] == strip_value(start as nat, rd, td, ld, flipped, len as nat, (x - 1) as nat, 5, s));
            assert(ind@[strip_pos(b, st, x as nat, 0)] == strip_value(start as nat, rd, td, ld, flipped, len as nat, x as nat, 0, s));
            assert(ind@[strip_pos(b, st, x as nat, 1)] == strip_value(start as nat, rd, td, ld, flipped, len as nat, x as nat, 1, s));
            assert(ind@[strip_pos(b, st, x as nat, 2)] == strip_value(start as nat, rd, td, ld, flipped, len as nat, x as nat, 2, s));
            assert forall|k: nat, j: nat|
                (k < x + 1 && j < 3) || (k < x && j < 6) implies ind@[#[trigger] strip_pos(b, st, k, j)]
                    == strip_value(start as nat, rd, td, ld, flipped, len as nat, k, j, s) by {
                if (k == x - 1 && j >= 3) || k == x {
                } else {
                    lemma_strip_pos(b, st, len as nat, k, j);
                    assert(ind@[strip_pos(b, st, k, j)] == prev[strip_pos(b, st, k, j)]);
                }
            }
        }
        topleft = top;
        x = x + 1;
    }
    // Last triangle
    let ghost prev = ind@;
    let current: usize = right;
    proof {
        lemma_vertex_names_itself(current as nat, s);
    }
    neighbors = find_nearest_neighbors(current, subdivision).unwrap();
    top = neighbors[last_top_dir];
    proof {
        lemma_strip_pos(b, st, len as nat, (len - 1) as nat, 3);
        lemma_strip_pos(b, st, len as nat, (len - 1) as nat, 4);
        lemma_strip_pos(b, st, len as nat, (len - 1) as nat, 5);
    }
    let (second, third) = if flipped { (top, current) } else { (current, top) };
    ind.set(pos + 3, topleft as u32);
    ind.set(pos + 4, second as u32);
    ind.set(pos + 5, third as u32);
    proof {
        let kl = (len - 1) as nat;
        assert(pos + 3 == strip_pos(b, st, kl, 3));
        assert(pos + 4 == strip_pos(b, st, kl, 4));
        assert(pos + 5 == strip_pos(b, st, kl, 5));
        assert forall|k: nat, j: nat| k < len && j < 6 implies ind@[#[trigger] strip_pos(b, st, k, j)]
            == strip_value(start as nat, rd, td, ld, flipped, len as nat, k, j, s) by {
            if k == kl && j >= 3 {
            } else {
                lemma_strip_pos(b, st, len as nat, k, j);
                lemma_strip_pos(b, st, len as nat, kl, 3);
                lemma_strip_pos(b, st, len as nat, kl, 4);
                lemma_strip_pos(b, st, len as nat, kl, 5);
                assert(strip_pos(b, st, k, j) != strip_pos(b, st, kl, 3));
                assert(strip_pos(b, st, k, j) != strip_pos(b, st, kl, 4));
                assert(strip_pos(b, st, k, j) != strip_pos(b, st, kl, 5));
                assert(ind@[strip_pos(b, st, k, j)] == prev[strip_pos(b, st, k, j)]);
            }
        }
    }
}

/// Position at which row `y` of face `f` starts in the index buffer.
pub open spec fn row_start(f: nat, y: nat, s: nat) -> nat {
    6 * face_size(s) * f + 6 * side(s) * y
}

proof fn lemma_row_start(f: nat, y: nat, s: nat, face: int, edge: int)
    requires
        valid_subdivision(s),
        f <= 5,
        y <= side(s),
        face == f * face_size(s),
        edge == side(s),
    ensures
        6 * face + 6 * y * edge == row_start(f, y, s),
        6 * y <= 6 * edge,
        6 * edge <= 6 * face_size(s),
        row_start(f, y, s) <= 6 * face_size(s) * f + 6 * face_size(s),
        6 * face_size(s) * f + 6 * face_size(s) <= index_count(s),
        row_start(f, y + 1, s) == row_start(f, y, s) + 6 * edge,
        y == side(s) ==> row_start(f, y, s) == row_start(f + 1, 0, s),
{
    lemma_layout(s);
    let p = face_size(s) as int;
    let e = side(s) as int;
    assert(6 * face + 6 * y * edge == 6 * p * f + 6 * e * y) by (nonlinear_arith)
        requires
            face == f * p,
            edge == e,
    ;
    assert(6 * e * y <= 6 * p) by (nonlinear_arith)
        requires
            y <= e,
            p == e * e,
            0 <= y,
    ;
    assert(6 * p * f + 6 * p == 6 * p * (f + 1)) by (nonlinear_arith);
    assert(6 * p * f + 6 * p <= 36 * p) by (nonlinear_arith)
        requires
            f <= 5,
            p >= 0,
    ;
    assert(6 * e * (y + 1) == 6 * e * y + 6 * e) by (nonlinear_arith);
    assert(6 * e * e == 6 * p) by (nonlinear_arith)
        requires
            p == e * e,
    ;
    assert(e <= p) by (nonlinear_arith)
        requires
            p == e * e,
            e >= 2,
    ;
}

/// Later rows of a face start later in the buffer.
proof fn lemma_row_start_mono(f: nat, y1: nat, y2: nat, s: nat)
    requires
        y1 <= y2,
    ensures
        row_start(f, y1, s) <= row_start(f, y2, s),
{
    lemma_mul_inequality(y1 as int, y2 as int, (6 * side(s)) as int);
    lemma_mul_is_commutative(y1 as int, (6 * side(s)) as int);
    lemma_mul_is_commutative(y2 as int, (6 * side(s)) as int);
}

/// The extra cell of the top row of face `f` sits where its last cell
/// would: `6 * (2^s - 1 + 1) * 2^s - 6` entries into the face.
proof fn lemma_pole_cell_pos(f: nat, s: nat, face: int, edge: int)
    requires
        valid_subdivision(s),
        f <= 5,
        face == f * face_size(s),
        edge == side(s),
    ensures
        6 * face + 6 * (edge - 1 + 1) * edge - 6 == strip_pos(
            row_start(f, grid_max(s), s),
            6,
            grid_max(s),
            0,
        ),
        6 * (edge - 1 + 1) * edge - 6 >= 6 * (edge - 1) * edge,
        6 * (edge - 1 + 1) * edge == 6 * face_size(s),
{
    lemma_layout(s);
    let p = face_size(s) as int;
    let e = side(s) as int;
    assert(6 * face + 6 * (edge - 1 + 1) * edge - 6 == 6 * p * f + 6 * e * (e - 1) + 6 * (e - 1))
        by (nonlinear_arith)
        requires
            face == f * p,
            edge == e,
            p == e * e,
    ;
    assert(6 * (edge - 1 + 1) * edge - 6 >= 6 * (edge - 1) * edge) by (nonlinear_arith)
        requires
            edge >= 2,
    ;
    assert(6 * (edge - 1 + 1) * edge == 6 * p) by (nonlinear_arith)
        requires
            edge == e,
            p == e * e,
    ;
}

/// Entries `0 .. n` of `ind` are those of the index buffer of the sphere of
/// subdivision `s`.
pub open spec fn filled_up_to(ind: Seq<u32>, s: nat, n: nat) -> bool {
    forall|i: int| 0 <= i < n ==> ind[i] == index_slot(s, i as nat)
}

/// What every step of filling the index buffer needs to know.
pub open spec fn fill_state(s: nat, edge_size: usize, offset: usize, len: nat) -> bool {
    &&& valid_subdivision(s)
    &&& edge_size == side(s)
    &&& offset == 2 * s
    &&& index_count(s) <= len
}

/// Writes the rows `0 .. rows` of face `f` as full strips along the row
/// whose last triangle takes its third corner from direction `1` on every
/// row but row 0 of face 3 (direction 2) and the top row of face 5
/// (direction 1 instead of 2).
fn write_face_rows(ind: &mut Vec<u32>, f: usize, rows: usize, subdivision: u32, edge_size: usize, offset: usize)
    requires
        fill_state(subdivision as nat, edge_size, offset, old(ind)@.len()),
        f == 0 || f == 1 || f == 2 || f == 3 || f == 5,
        rows <= edge_size,
        f == 0 || f == 2 ==> rows < edge_size,
        filled_up_to(old(ind)@, subdivision as nat, row_start(f as nat, 0, subdivision as nat)),
    ensures
        final(ind)@.len() == old(ind)@.len(),
        filled_up_to(final(ind)@, subdivision as nat, row_start(f as nat, rows as nat, subdivision as nat)),
        forall|i: int|
            index_count(subdivision as nat) <= i < old(ind)@.len() ==> final(ind)@[i] == old(ind)@[i],
{
    let ghost s = subdivision as nat;
    let ghost orig = ind@;
    let total: usize = ind.len();
    proof {
        lemma_shift_facts(offset, s);
        vstd::bits::lemma_usize_shl_is_mul(f, offset);
    }
    let face: usize = f << offset;
    let mut y: usize = 0;
    while y < rows
        invariant
            fill_state(s, edge_size, offset, total as nat),
            s == subdivision as nat,
            f == 0 || f == 1 || f == 2 || f == 3 || f == 5,
            rows <= edge_size,
            f == 0 || f == 2 ==> rows < edge_size,
            face == f * face_size(s),
            y <= rows,
            ind@.len() == total,
            orig.len() == total,
            filled_up_to(ind@, s, row_start(f as nat, y as nat, s)),
            forall|i: int| index_count(s) <= i < total ==> ind@[i] == orig[i],
        decreases rows - y,
    {
        let ghost fy = (f as nat, y as nat);
        proof {
            lemma_layout(s);
            lemma_row_start(f as nat, y as nat, s, face as int, edge_size as int);
            lemma_row_start(f as nat, (y + 1) as nat, s, face as int, edge_size as int);
            lemma_row_strip_walk(f as nat, y as nat, edge_size as nat, s);
            lemma_interleave_bound(0, y as nat, s);
        }
        let start = face + z_order_encode(0, y as u32);
        assert(start as nat == vid(f as nat, 0, y as nat, s));
        assert(6 * face + 6 * y * edge_size == row_start(f as nat, y as nat, s));
        assert(row_start(f as nat, (y + 1) as nat, s) == row_start(f as nat, y as nat, s) + 6 * edge_size);
        assert(row_start(f as nat, (y + 1) as nat, s) <= index_count(s));
        // Last triangle of a row: face 3 meets face 4 sideways on its first
        // row, face 5 meets face 2 on its top row
        let last_top_dir: usize = if f == 3 && y == 0 {
            2
        } else if f == 5 && y != edge_size - 1 {
            2
        } else {
            1
        };
        write_strip(ind, 6 * face + 6 * y * edge_size, 6, start, edge_size, 0, 1, last_top_dir, false, subdivision);
        proof {
            let base = (6 * face + 6 * y * edge_size) as nat;
            assert forall|k: nat, j: nat| k < side(s) && j < 6 implies ind@[#[trigger] strip_pos(
                row_start(f as nat, y as nat, s), 6, k, j)] == face_slot(f as nat, y as nat, k, j, s) by {
                assert(strip_pos(row_start(f as nat, y as nat, s), 6, k, j) == strip_pos(base, 6, k, j));
            }
            assert forall|i: int| 0 <= i < row_start(f as nat, y as nat, s) implies ind@[i] == index_slot(s, i as nat) by {
                assert(!in_strip(i, base, 6, edge_size as nat));
            }
            assert forall|i: int| index_count(s) <= i < total implies ind@[i] == orig[i] by {
                assert(!in_strip(i, base, 6, edge_size as nat));
            }
            lemma_extend_row(s, f as nat, y as nat, ind@);
        }
        y = y + 1;
    }
}

/// Writes the top row of face 0 (`f == 0`) or face 2 (`f == 2`): a strip
/// along the row short of its last cell, then the cell that closes the face
/// at the north or the south pole.
#[verifier::rlimit(80)]
fn write_pole_row(ind: &mut Vec<u32>, f: usize, subdivision: u32, edge_size: usize, offset: usize)
    requires
        fill_state(subdivision as nat, edge_size, offset, old(ind)@.len()),
        f == 0 || f == 2,
        filled_up_to(
            old(ind)@,
            subdivision as nat,
            row_start(f as nat, grid_max(subdivision as nat), subdivision as nat),
        ),
    ensures
        final(ind)@.len() == old(ind)@.len(),
        filled_up_to(final(ind)@, subdivision as nat, row_start((f + 1) as nat, 0, subdivision as nat)),
        forall|i: int|
            index_count(subdivision as nat) <= i < old(ind)@.len() ==> final(ind)@[i] == old(ind)@[i],
{
    let ghost s = subdivision as nat;
    let ghost m = grid_max(s);
    let ghost orig = ind@;
    let total: usize = ind.len();
    proof {
        lemma_layout(s);
        lemma_shift_facts(offset, s);
        vstd::bits::lemma_usize_shl_is_mul(f, offset);
    }
    let face: usize = f << offset;
    let current_y: usize = edge_size - 1;
    proof {
        if f == 0 {
            assert(face == 0);
        } else {
            assert(face == 2 * face_size(s));
        }
        lemma_row_start(f as nat, current_y as nat, s, face as int, edge_size as int);
        lemma_row_start(f as nat, edge_size as nat, s, face as int, edge_size as int);
        lemma_row_strip_walk(f as nat, current_y as nat, (edge_size - 1) as nat, s);
        lemma_interleave_bound(0, current_y as nat, s);
        lemma_interleave_bound(0, (current_y - 1) as nat, s);
        lemma_interleave_bound(current_y as nat, 0, s);
        lemma_interleave_bound(0, 1, s);
        lemma_pole_cell_pos(f as nat, s, face as int, edge_size as int);
    }
    let start = face + z_order_encode(0, current_y as u32);
    assert(start as nat == vid(f as nat, 0, current_y as nat, s));
    assert(6 * face <= 12 * face_size(s));
    let base: usize = 6 * face + 6 * current_y * edge_size;
    write_strip(ind, base, 6, start, edge_size - 1, 0, 1, 1, false, subdivision);
    let ghost after_strip = ind@;
    let cell: usize = 6 * face + 6 * (current_y + 1) * edge_size - 6;
    if f == 0 {
        // Extra square near north
        ind.set(cell, (6usize << offset) as u32);
        ind.set(cell + 1, (z_order_encode(0, (edge_size - 1) as u32)) as u32);
        ind.set(cell + 2, ((4usize << offset) + z_order_encode(0, (edge_size - 1) as u32)) as u32);
        ind.set(cell + 3, ((4usize << offset) + z_order_encode(0, (edge_size - 1) as u32)) as u32);
        ind.set(cell + 4, (z_order_encode(0, (edge_size - 1) as u32)) as u32);
        ind.set(cell + 5, ((4usize << offset) + z_order_encode(0, (edge_size - 2) as u32)) as u32);
        proof {
            assert((6usize << offset) == pole(0, s));
            assert(ind@[cell as int] == ((6usize << offset) as u32));
            assert(ind@[cell as int] == pole_cell(0, 0, s));
            assert(ind@[cell + 1] == pole_cell(0, 1, s));
            assert(ind@[cell + 2] == pole_cell(0, 2, s));
            assert(ind@[cell + 3] == pole_cell(0, 3, s));
            assert(ind@[cell + 4] == pole_cell(0, 4, s));
            assert(ind@[cell + 5] == pole_cell(0, 5, s));
        }
    } else {
        // Extra square near south
        ind.set(cell, ((6usize << offset) + 1) as u32);
        ind.set(cell + 1, (1usize << offset) as u32);
        ind.set(cell + 2, ((2usize << offset) + z_order_encode((edge_size - 1) as u32, 0)) as u32);
        ind.set(cell + 3, ((2usize << offset) + z_order_encode((edge_size - 1) as u32, 0)) as u32);
        ind.set(cell + 4, (1usize << offset) as u32);
        ind.set(cell + 5, ((1usize << offset) + z_order_encode(0, 1)) as u32);
        proof {
            assert(ind@[cell as int] == pole_cell(2, 0, s));
            assert(ind@[cell + 1] == pole_cell(2, 1, s));
            assert(ind@[cell + 2] == pole_cell(2, 2, s));
            assert(ind@[cell + 3] == pole_cell(2, 3, s));
            assert(ind@[cell + 4] == pole_cell(2, 4, s));
            assert(ind@[cell + 5] == pole_cell(2, 5, s));
        }
    }
    proof {
        let ry = row_start(f as nat, m, s);
        assert(ry == base);
        assert forall|k: nat, j: nat| k < side(s) && j < 6 implies ind@[#[trigger] strip_pos(
            ry, 6, k, j)] == face_slot(f as nat, m, k, j, s) by {
            if k < m {
                assert(after_strip[strip_pos(ry, 6, k, j)] == face_slot(f as nat, m, k, j, s));
                assert(ind@[strip_pos(ry, 6, k, j)] == after_strip[strip_pos(ry, 6, k, j)]);
            } else {
                assert(strip_pos(ry, 6, k, j) == cell + j);
            }
        }
        assert forall|i: int| index_count(s) <= i < orig.len() implies ind@[i] == orig[i] by {
            assert(!in_strip(i, base as nat, 6, (edge_size - 1) as nat));
        }
        assert forall|i: int| 0 <= i < ry implies ind@[i] == index_slot(s, i as nat) by {
            assert(!in_strip(i, base as nat, 6, (edge_size - 1) as nat));
        }
        lemma_extend_row(s, f as nat, m, ind@);
    }
}

/// The strip along the left column of face 5, stored in the last cells of
/// the rows of face 4, leaves the other cells of those rows alone.
proof fn lemma_column_frame(s: nat, y: nat, k: nat, j: nat)
    requires
        valid_subdivision(s),
        y < grid_max(s),
        k < grid_max(s),
        j < 6,
    ensures
        !in_strip(
            strip_pos(row_start(4, y, s), 6, k, j),
            row_start(4, 0, s) + 6 * grid_max(s),
            6 * side(s),
            grid_max(s),
        ),
{
    lemma_layout(s);
    let e = side(s) as int;
    let m = grid_max(s) as int;
    let base = row_start(4, 0, s) + 6 * m;
    let i = strip_pos(row_start(4, y, s), 6, k, j);
    assert(i == row_start(4, 0, s) + 6 * e * y + 6 * k + j);
    if y > 0 {
        assert(i - base == (y - 1) * (6 * e) + (6 + 6 * k + j)) by (nonlinear_arith)
            requires
                i == row_start(4, 0, s) + 6 * e * y + 6 * k + j,
                base == row_start(4, 0, s) + 6 * m,
                m == e - 1,
        ;
        lemma_fundamental_div_mod_converse(i - base, 6 * e, y - 1, (6 + 6 * k + j) as int);
    }
}

/// Writes the part of the index buffer that belongs to face 4: its rows
/// short of their last cell, the strip along the left column of face 5 in
/// the last cells, and the strip along the bottom row of face 5, wound the
/// other way round, in place of the top row.
#[verifier::rlimit(80)]
fn write_face_4(ind: &mut Vec<u32>, subdivision: u32, edge_size: usize, offset: usize)
    requires
        fill_state(subdivision as nat, edge_size, offset, old(ind)@.len()),
        filled_up_to(old(ind)@, subdivision as nat, row_start(4, 0, subdivision as nat)),
    ensures
        final(ind)@.len() == old(ind)@.len(),
        filled_up_to(final(ind)@, subdivision as nat, row_start(5, 0, subdivision as nat)),
        forall|i: int|
            index_count(subdivision as nat) <= i < old(ind)@.len() ==> final(ind)@[i] == old(ind)@[i],
{
    let ghost s = subdivision as nat;
    let ghost m = grid_max(s);
    let ghost orig = ind@;
    let total: usize = ind.len();
    proof {
        lemma_layout(s);
        lemma_shift_facts(offset, s);
    }
    let face: usize = 4usize << offset;
    let mut y: usize = 0;
    while y < edge_size - 1
        invariant
            fill_state(s, edge_size, offset, total as nat),
            s == subdivision as nat,
            m == grid_max(s),
            face == 4 * face_size(s),
            y < edge_size,
            ind@.len() == total,
            orig.len() == total,
            filled_up_to(ind@, s, row_start(4, 0, s)),
            forall|yy: nat, k: nat, j: nat|
                yy < y && k < m && j < 6 ==> ind@[#[trigger] strip_pos(row_start(4, yy, s), 6, k, j)]
                    == face_slot(4, yy, k, j, s),
            forall|i: int| index_count(s) <= i < total ==> ind@[i] == orig[i],
        decreases edge_size - y,
    {
        let ghost prev = ind@;
        proof {
            lemma_layout(s);
            lemma_row_start(4, y as nat, s, face as int, edge_size as int);
            lemma_row_start(4, 0, s, face as int, edge_size as int);
            lemma_row_strip_walk(4, y as nat, (edge_size - 1) as nat, s);
            lemma_interleave_bound(0, y as nat, s);
        }
        let start = face + z_order_encode(0, y as u32);
        assert(start as nat == vid(4, 0, y as nat, s));
        let base: usize = 6 * face + 6 * y * edge_size;
        write_strip(ind, base, 6, start, edge_size - 1, 0, 1, 1, false, subdivision);
        proof {
            assert forall|yy: nat, k: nat, j: nat|
                yy < y + 1 && k < m && j < 6 implies ind@[#[trigger] strip_pos(row_start(4, yy, s), 6, k, j)]
                    == face_slot(4, yy, k, j, s) by {
                if yy == y {
                    assert(strip_pos(row_start(4, yy, s), 6, k, j) == strip_pos(base as nat, 6, k, j));
                } else {
                    lemma_row_start(4, yy, s, face as int, edge_size as int);
                    lemma_row_start_mono(4, yy + 1, y as nat, s);
                    assert(strip_pos(row_start(4, yy, s), 6, k, j) < base);
                    assert(!in_strip(strip_pos(row_start(4, yy, s), 6, k, j), base as nat, 6, m));
                }
            }
            assert forall|i: int| 0 <= i < row_start(4, 0, s) implies ind@[i] == index_slot(s, i as nat) by {
                assert(!in_strip(i, base as nat, 6, m));
            }
            assert forall|i: int| index_count(s) <= i < total implies ind@[i] == orig[i] by {
                assert(!in_strip(i, base as nat, 6, m));
            }
        }
        y = y + 1;
    }
    // Extra lines left and bottom of face 5, stored in the space of face 4
    // Left column, in the last cells of the rows
    let current_vertex: usize = 5usize << offset;
    proof {
        lemma_row_start(4, 0, s, face as int, edge_size as int);
        lemma_column_strip_walk(5, 0, m, s);
        assert(current_vertex as nat == vid(5, 0, 0, s));
        assert(6 * face + 6 * (edge_size - 1) + 6 * edge_size * (m - 1) + 6 <= 6 * face + 6 * face_size(s))
            by (nonlinear_arith)
            requires
                edge_size == m + 1,
                face_size(s) == edge_size * edge_size,
                m >= 1,
        ;
    }
    let column_base: usize = 6 * face + 6 * (edge_size - 1);
    let ghost before_column = ind@;
    write_strip(ind, column_base, 6 * edge_size, current_vertex, edge_size - 1, 1, 2, 2, false, subdivision);
    proof {
        assert forall|yy: nat, k: nat, j: nat|
            yy < m && k < side(s) && j < 6 implies ind@[#[trigger] strip_pos(row_start(4, yy, s), 6, k, j)]
                == face_slot(4, yy, k, j, s) by {
            lemma_row_start(4, yy, s, face as int, edge_size as int);
            if k < m {
                lemma_column_frame(s, yy, k, j);
                assert(before_column[strip_pos(row_start(4, yy, s), 6, k, j)] == face_slot(4, yy, k, j, s));
            } else {
                assert(strip_pos(row_start(4, yy, s), 6, k, j) == strip_pos(column_base as nat, (6 * edge_size) as nat, yy, j));
            }
        }
        assert forall|i: int| 0 <= i < row_start(4, 0, s) implies ind@[i] == index_slot(s, i as nat) by {
            assert(!in_strip(i, column_base as nat, (6 * edge_size) as nat, m));
        }
        assert forall|i: int| index_count(s) <= i < total implies ind@[i] == orig[i] by {
            lemma_row_start(4, edge_size as nat, s, face as int, edge_size as int);
            if in_strip(i, column_base as nat, (6 * edge_size) as nat, m) {
                let k = (i - column_base) / (6 * edge_size as int);
                let j = (i - column_base) % (6 * edge_size as int);
                vstd::arithmetic::div_mod::lemma_fundamental_div_mod(i - column_base, 6 * edge_size as int);
                assert(i < 6 * face + 6 * face_size(s)) by (nonlinear_arith)
                    requires
                        i == column_base + (6 * edge_size) * k + j,
                        0 <= k < m,
                        0 <= j < 6,
                        column_base == 6 * face + 6 * (edge_size - 1),
                        edge_size == m + 1,
                        face_size(s) == edge_size * edge_size,
                ;
            }
        }
    }
    // Bottom row, wound the other way round, in the top row
    let current_y: usize = edge_size - 1;
    proof {
        lemma_row_start(4, current_y as nat, s, face as int, edge_size as int);
        lemma_row_start(4, edge_size as nat, s, face as int, edge_size as int);
        lemma_row_strip_walk(5, 0, edge_size as nat, s);
    }
    let bottom_base: usize = 6 * face + 6 * current_y * edge_size;
    let ghost before_bottom = ind@;
    write_strip(ind, bottom_base, 6, current_vertex, edge_size, 0, 3, 0, true, subdivision);
    proof {
        assert forall|yy: nat, k: nat, j: nat|
            yy < side(s) && k < side(s) && j < 6 implies ind@[#[trigger] strip_pos(row_start(4, yy, s), 6, k, j)]
                == face_slot(4, yy, k, j, s) by {
            lemma_row_start(4, yy, s, face as int, edge_size as int);
            if yy < m {
                lemma_row_start_mono(4, yy + 1, m, s);
                assert(strip_pos(row_start(4, yy, s), 6, k, j) < bottom_base);
                assert(!in_strip(strip_pos(row_start(4, yy, s), 6, k, j), bottom_base as nat, 6, edge_size as nat));
                assert(before_bottom[strip_pos(row_start(4, yy, s), 6, k, j)] == face_slot(4, yy, k, j, s));
            } else {
                assert(strip_pos(row_start(4, yy, s), 6, k, j) == strip_pos(bottom_base as nat, 6, k, j));
            }
        }
        assert forall|i: int| 0 <= i < row_start(4, 0, s) implies ind@[i] == index_slot(s, i as nat) by {
            assert(!in_strip(i, bottom_base as nat, 6, edge_size as nat));
        }
        assert forall|i: int| index_count(s) <= i < total implies ind@[i] == orig[i] by {
            assert(!in_strip(i, bottom_base as nat, 6, edge_size as nat));
        }
        lemma_extend_rows(s, 4, side(s), ind@);
    }
}

/// A strip entry is a vertex of the sphere when the strip's vertices and
/// the neighbours it takes are.
proof fn lemma_strip_entry_on_sphere(
    start: nat,
    rd: int,
    td: int,
    ld: int,
    flipped: bool,
    len: nat,
    k: nat,
    j: nat,
    s: nat,
)
    requires
        j < 6,
        vertex_count(s) <= 0x1_0000_0000,
        walk(start, rd, k, s) < vertex_count(s),
        walk(start, rd, k + 1, s) < vertex_count(s),
        toward(nearest_neighbors(walk(start, rd, k, s), s), td) < vertex_count(s),
        toward(
            nearest_neighbors(walk(start, rd, k + 1, s), s),
            if k + 1 == len { ld } else { td },
        ) < vertex_count(s),
    ensures
        (strip_value(start, rd, td, ld, flipped, len, k, j, s) as nat) < vertex_count(s),
{
}

/// The vertices of the face grids lie in the index range of their face.
proof fn lemma_vid_range(g: nat, a: nat, b: nat, s: nat)
    requires
        valid_subdivision(s),
        a <= grid_max(s),
        b <= grid_max(s),
    ensures
        g * face_size(s) <= vid(g, a, b, s) < g * face_size(s) + face_size(s),
{
    lemma_layout(s);
}

/// Every entry of a strip along a row of a face, with its third corners
/// taken upward and the last one upward or leftward, is a vertex.
proof fn lemma_row_strip_on_sphere(f: nat, y: nat, len: nat, ld: int, k: nat, j: nat, s: nat)
    requires
        valid_subdivision(s),
        vertex_count(s) <= 0x1_0000_0000,
        f <= 5,
        y <= grid_max(s),
        len == grid_max(s) || len == side(s),
        len == side(s) && (f == 0 || f == 2 || f == 4) ==> y < grid_max(s),
        ld == 1 || ld == 2,
        k < len,
        j < 6,
    ensures
        (strip_value(vid(f, 0, y, s), 0, 1, ld, false, len, k, j, s) as nat) < vertex_count(s),
{
    lemma_layout(s);
    let start = vid(f, 0, y, s);
    lemma_row_strip_walk(f, y, len, s);
    assert(walk(start, 0, k, s) < vertex_count(s));
    assert(walk(start, 0, k + 1, s) < vertex_count(s));
    lemma_neighbors_on_sphere(walk(start, 0, k, s), 1, s);
    lemma_neighbors_on_sphere(walk(start, 0, k + 1, s), 1, s);
    lemma_neighbors_on_sphere(walk(start, 0, k + 1, s), ld, s);
    lemma_strip_entry_on_sphere(start, 0, 1, ld, false, len, k, j, s);
}

/// The entries of the face-4 cells are vertices of the sphere.
proof fn lemma_face_4_on_sphere(y: nat, k: nat, j: nat, s: nat)
    requires
        valid_subdivision(s),
        vertex_count(s) <= 0x1_0000_0000,
        y < side(s),
        k < side(s),
        j < 6,
    ensures
        (face_slot(4, y, k, j, s) as nat) < vertex_count(s),
{
    lemma_layout(s);
    lemma_vid_bound(s);
    let e = side(s);
    let m = grid_max(s);
    if y < m {
        if k < m {
            lemma_row_strip_on_sphere(4, y, m, 1, k, j, s);
        } else {
            let start = vid(5, 0, 0, s);
            lemma_column_strip_walk(5, 0, m, s);
            assert(walk(start, 1, y, s) < vertex_count(s));
            assert(walk(start, 1, y + 1, s) < vertex_count(s));
            lemma_neighbors_on_sphere(walk(start, 1, y, s), 2, s);
            lemma_neighbors_on_sphere(walk(start, 1, y + 1, s), 2, s);
            lemma_strip_entry_on_sphere(start, 1, 2, 2, false, m, y, j, s);
        }
    } else {
        let start = vid(5, 0, 0, s);
        lemma_row_strip_walk(5, 0, e, s);
        assert(walk(start, 0, k, s) < vertex_count(s));
        assert(walk(start, 0, k + 1, s) < vertex_count(s));
        lemma_walk_row(5, 0, k, s);
        lemma_vid_range(5, k, 0, s);
        lemma_vid_range(1, m, 0, s);
        lemma_vid_range(3, m, 0, s);
        lemma_neighbors_on_sphere(walk(start, 0, k, s), 3, s);
        if k + 1 < e {
            lemma_walk_row(5, 0, k + 1, s);
            lemma_vid_range(5, k + 1, 0, s);
            lemma_neighbors_on_sphere(walk(start, 0, k + 1, s), 3, s);
        } else {
            lemma_walk_row(5, 0, m, s);
            lemma_neighbors_of_vid(5, m, 0, s);
            reveal(face_5_neighbors);
            assert(walk(start, 0, k + 1, s) == vid(1, (m - 1) as nat, 0, s));
            lemma_vid_range(1, (m - 1) as nat, 0, s);
            lemma_vid_range(0, m, m, s);
            lemma_vid_range(2, m, m, s);
            lemma_vid_range(4, m, m, s);
            lemma_neighbors_on_sphere(walk(start, 0, k + 1, s), 0, s);
        }
        lemma_strip_entry_on_sphere(start, 0, 3, 0, true, e, k, j, s);
    }
}

/// The entries of every cell of every face are vertices of the sphere.
proof fn lemma_face_slot_on_sphere(f: nat, y: nat, k: nat, j: nat, s: nat)
    requires
        valid_subdivision(s),
        vertex_count(s) <= 0x1_0000_0000,
        f < 6,
        y < side(s),
        k < side(s),
        j < 6,
    ensures
        (face_slot(f, y, k, j, s) as nat) < vertex_count(s),
{
    lemma_layout(s);
    lemma_vid_bound(s);
    let e = side(s);
    let m = grid_max(s);
    if f == 0 || f == 2 {
        if y < m {
            lemma_row_strip_on_sphere(f, y, e, 1, k, j, s);
        } else if k < m {
            lemma_row_strip_on_sphere(f, m, m, 1, k, j, s);
        } else {
            assert(interleave(0, (m - 1) as nat) < face_size(s));
        }
    } else if f == 1 {
        lemma_row_strip_on_sphere(1, y, e, 1, k, j, s);
    } else if f == 3 {
        lemma_row_strip_on_sphere(3, y, e, if y == 0 { 2 } else { 1 }, k, j, s);
    } else if f == 4 {
        lemma_face_4_on_sphere(y, k, j, s);
    } else {
        lemma_row_strip_on_sphere(5, y, e, if y == m { 1 } else { 2 }, k, j, s);
    }
}

/// Every entry of the index buffer is the index of a vertex of the sphere
/// (the sphere having fewer than `2^32` vertices, so that indices fit the
/// buffer's entries).
pub proof fn lemma_indices_on_sphere(s: nat, i: nat)
    requires
        valid_subdivision(s),
        vertex_count(s) <= 0x1_0000_0000,
        i < index_count(s),
    ensures
        (index_slot(s, i) as nat) < vertex_count(s),
{
    lemma_layout(s);
    let p = face_size(s);
    let e = side(s);
    let f = i / (6 * p);
    let r = i % (6 * p);
    let y = r / (6 * e);
    let c = r % (6 * e);
    let k = c / 6;
    let j = c % 6;
    assert(f < 6) by (nonlinear_arith)
        requires
            i < 36 * p,
            f == i / (6 * p),
            p > 0,
    ;
    assert(y < e) by (nonlinear_arith)
        requires
            r < 6 * p,
            y == r / (6 * e),
            p == e * e,
            e > 0,
    ;
    assert(k < e) by (nonlinear_arith)
        requires
            c < 6 * e,
            k == c / 6,
    ;
    assert(index_slot(s, i) == face_slot(f, y, k, j, s));
    lemma_face_slot_on_sphere(f, y, k, j, s);
}

/// The first entry of cell `x` of a row strip is vertex `(x, y)`.
proof fn lemma_row_cell_start(f: nat, y: nat, x: nat, ld: int, len: nat, s: nat)
    requires
        valid_subdivision(s),
        vertex_count(s) <= 0x1_0000_0000,
        f < 6,
        x <= grid_max(s),
        y <= grid_max(s),
        x < len,
    ensures
        strip_value(vid(f, 0, y, s), 0, 1, ld, false, len, x, 0, s) as nat == vid(f, x, y, s),
{
    lemma_walk_row(f, y, x, s);
    lemma_neighbors_of_vid(f, x, y, s);
    let w = walk(vid(f, 0, y, s), 0, x, s);
    let w1 = walk(vid(f, 0, y, s), 0, x + 1, s);
    let t = toward(nearest_neighbors(w, s), 1);
    let t1 = toward(nearest_neighbors(w1, s), if x + 1 == len { ld } else { 1 });
    assert(seq![w, w1, t, t, w1, t1][0] == w);
}

/// The second entry of the last cell of a row strip of `grid_max` cells is
/// the last vertex of the row.
proof fn lemma_row_cell_end(f: nat, y: nat, ld: int, s: nat)
    requires
        valid_subdivision(s),
        vertex_count(s) <= 0x1_0000_0000,
        f < 6,
        y <= grid_max(s),
    ensures
        strip_value(vid(f, 0, y, s), 0, 1, ld, false, grid_max(s), (grid_max(s) - 1) as nat, 1, s) as nat
            == vid(f, grid_max(s), y, s),
{
    lemma_layout(s);
    let m = grid_max(s);
    let k = (m - 1) as nat;
    lemma_walk_row(f, y, m, s);
    lemma_neighbors_of_vid(f, m, y, s);
    let w = walk(vid(f, 0, y, s), 0, k, s);
    let w1 = walk(vid(f, 0, y, s), 0, k + 1, s);
    let t = toward(nearest_neighbors(w, s), 1);
    let t1 = toward(nearest_neighbors(w1, s), ld);
    assert(k + 1 == m);
    assert(seq![w, w1, t, t, w1, t1][1] == w1);
}

/// The vertices of the top row of face 4 are the upper corners of the cells
/// of the row below.
proof fn lemma_face_4_top(x: nat, s: nat) -> (r: (nat, nat))
    requires
        valid_subdivision(s),
        vertex_count(s) <= 0x1_0000_0000,
        x <= grid_max(s),
    ensures
        r.0 < grid_max(s),
        r.1 < 6,
        strip_value(vid(4, 0, (grid_max(s) - 1) as nat, s), 0, 1, 1, false, grid_max(s), r.0, r.1, s) as nat
            == vid(4, x, grid_max(s), s),
{
    lemma_layout(s);
    let m = grid_max(s);
    let yb = (m - 1) as nat;
    let start = vid(4, 0, yb, s);
    lemma_neighbors_of_vid(4, x, m, s);
    if x < m {
        lemma_walk_row(4, yb, x, s);
        lemma_neighbors_of_vid(4, x, yb, s);
        lemma_up_step(4, x, yb, s);
        let w = walk(start, 0, x, s);
        let w1 = walk(start, 0, x + 1, s);
        let t = toward(nearest_neighbors(w, s), 1);
        let t1 = toward(nearest_neighbors(w1, s), 1);
        assert(t == vid(4, x, m, s));
        assert(seq![w, w1, t, t, w1, t1][2] == t);
        (x, 2)
    } else {
        let k = (m - 1) as nat;
        lemma_walk_row(4, yb, m, s);
        lemma_neighbors_of_vid(4, m, yb, s);
        lemma_up_step(4, m, yb, s);
        let w = walk(start, 0, k, s);
        let w1 = walk(start, 0, k + 1, s);
        let t = toward(nearest_neighbors(w, s), 1);
        let t1 = toward(nearest_neighbors(w1, s), 1);
        assert(k + 1 == m);
        assert(t1 == vid(4, m, m, s));
        assert(seq![w, w1, t, t, w1, t1][5] == t1);
        (k, 5)
    }
}

/// The cell `(row, cell, entry)` of face `f` whose entry is vertex `(x, y)`
/// of that face.
proof fn lemma_cell_of_vertex(f: nat, x: nat, y: nat, s: nat) -> (r: (nat, nat, nat))
    requires
        valid_subdivision(s),
        vertex_count(s) <= 0x1_0000_0000,
        f < 6,
        x <= grid_max(s),
        y <= grid_max(s),
    ensures
        r.0 < side(s),
        r.1 < side(s),
        r.2 < 6,
        face_slot(f, r.0, r.1, r.2, s) as nat == vid(f, x, y, s),
{
    lemma_layout(s);
    let m = grid_max(s);
    let e = side(s);
    if f == 4 && y == m {
        let (k, j) = lemma_face_4_top(x, s);
        ((m - 1) as nat, k, j)
    } else if x == m && (f == 4 || y == m && (f == 0 || f == 2)) {
        lemma_row_cell_end(f, y, 1, s);
        (y, (m - 1) as nat, 1)
    } else {
        if f == 0 || f == 2 || f == 4 {
            if y < m {
                if f == 4 {
                    lemma_row_cell_start(f, y, x, 1, m, s);
                } else {
                    lemma_row_cell_start(f, y, x, 1, e, s);
                }
            } else {
                lemma_row_cell_start(f, m, x, 1, m, s);
            }
        } else if f == 3 {
            lemma_row_cell_start(f, y, x, if y == 0 { 2 } else { 1 }, e, s);
        } else if f == 5 {
            lemma_row_cell_start(f, y, x, if y == m { 1 } else { 2 }, e, s);
        } else {
            lemma_row_cell_start(f, y, x, 1, e, s);
        }
        (y, x, 0)
    }
}

/// Every vertex of the sphere is a corner of some triangle of the index
/// buffer (the sphere having at most `2^32` vertices, so that indices fit
/// the buffer's entries).
pub proof fn lemma_every_vertex_indexed(s: nat, v: nat)
    requires
        valid_subdivision(s),
        vertex_count(s) <= 0x1_0000_0000,
        v < vertex_count(s),
    ensures
        exists|i: nat| i < index_count(s) && #[trigger] index_slot(s, i) as nat == v,
{
    lemma_layout(s);
    let p = face_size(s);
    let m = grid_max(s);
    if v >= 6 * p {
        let f: nat = if v == pole(0, s) { 0 } else { 2 };
        lemma_index_slot(s, f, m, m, 0);
        let i = 6 * p * f + 6 * side(s) * m + 6 * m;
        assert(index_slot(s, i) as nat == v);
    } else {
        let f = v / p;
        let z = v % p;
        let x = even_bits(z);
        let y = even_bits(z / 2);
        lemma_encode_inverts_decode(z);
        lemma_interleave_bound(x, y, s);
        assert(f < 6) by (nonlinear_arith)
            requires
                v < 6 * p,
                f == v / p,
                p > 0,
        ;
        assert(v == vid(f, x, y, s)) by {
            vstd::arithmetic::div_mod::lemma_fundamental_div_mod(v as int, p as int);
            vstd::arithmetic::mul::lemma_mul_is_commutative(f as int, p as int);
        }
        let (yy, k, j) = lemma_cell_of_vertex(f, x, y, s);
        lemma_index_slot(s, f, yy, k, j);
        let i = 6 * p * f + 6 * side(s) * yy + 6 * k + j;
        assert(index_slot(s, i) as nat == v);
    }
}

/// Fills the index buffer of the sphere of subdivision `subdivision`: see
/// `index_slot` for the entry at each position. Entries past the end of the
/// index buffer are left alone.
pub fn make_sphere_indices(ind: &mut Vec<u32>, subdivision: u32)
    requires
        1 <= subdivision,
        index_count(subdivision as nat) <= old(ind)@.len(),
    ensures
        final(ind)@.len() == old(ind)@.len(),
        forall|i: int|
            0 <= i < index_count(subdivision as nat) ==> final(ind)@[i] == index_slot(
                subdivision as nat,
                i as nat,
            ),
        forall|i: int|
            index_count(subdivision as nat) <= i < old(ind)@.len() ==> final(ind)@[i] == old(
                ind,
            )@[i],
{
    let ghost s = subdivision as nat;
    let total: usize = ind.len();
    proof {
        vstd::arithmetic::power2::lemma_pow2_pos(2 * s);
        assert(valid_subdivision(s));
        lemma_layout(s);
        vstd::bits::lemma_usize_shl_is_mul(1, subdivision as usize);
    }
    let edge_size: usize = 1usize << subdivision;
    let offset: usize = (2 * subdivision) as usize;
    // Face 0, without its top row
    write_face_rows(ind, 0, edge_size - 1, subdivision, edge_size, offset);
    write_pole_row(ind, 0, subdivision, edge_size, offset);
    // Face 1
    write_face_rows(ind, 1, edge_size, subdivision, edge_size, offset);
    proof {
        assert(row_start(1, side(s), s) == row_start(2, 0, s)) by {
            lemma_row_start(1, side(s), s, face_size(s) as int, side(s) as int);
        }
    }
    // Face 2
    write_face_rows(ind, 2, edge_size - 1, subdivision, edge_size, offset);
    write_pole_row(ind, 2, subdivision, edge_size, offset);
    // Face 3
    write_face_rows(ind, 3, edge_size, subdivision, edge_size, offset);
    proof {
        assert(row_start(3, side(s), s) == row_start(4, 0, s)) by {
            lemma_row_start(3, side(s), s, (3 * face_size(s)) as int, side(s) as int);
        }
    }
    // Face 4, and the left column and bottom row of face 5
    write_face_4(ind, subdivision, edge_size, offset);
    // Face 5
    write_face_rows(ind, 5, edge_size, subdivision, edge_size, offset);
    proof {
        assert(row_start(5, side(s), s) == index_count(s)) by {
            lemma_row_start(5, side(s), s, (5 * face_size(s)) as int, side(s) as int);
        }
    }
}

/// Whether directed edge `(a, b)` is an edge of triangle `t` of the index
/// buffer, whose corners are entries `3t`, `3t + 1` and `3t + 2` in that
/// (counter-clockwise) order.
pub open spec fn triangle_has_edge(s: nat, t: nat, a: u32, b: u32) -> bool {
    let e0 = index_slot(s, 3 * t);
    let e1 = index_slot(s, 3 * t + 1);
    let e2 = index_slot(s, 3 * t + 2);
    (e0 == a && e1 == b) || (e1 == a && e2 == b) || (e2 == a && e0 == b)
}

/// Whether some triangle of the index buffer has the directed edge `(a, b)`.
pub open spec fn buffer_has_edge(s: nat, a: u32, b: u32) -> bool {
    exists|t: nat| t < 12 * face_size(s) && #[trigger] triangle_has_edge(s, t, a, b)
}

/// The number of triangle `h` (0 or 1) of cell `k` of row `y` in the part of
/// the index buffer that belongs to face `f`.
pub open spec fn cell_triangle(f: nat, y: nat, k: nat, h: nat, s: nat) -> nat {
    2 * face_size(s) * f + 2 * side(s) * y + 2 * k + h
}

/// `face_slot`, kept folded in proofs that only compare entries.
#[verifier::opaque]
spec fn slot(f: nat, y: nat, k: nat, j: nat, s: nat) -> u32 {
    face_slot(f, y, k, j, s)
}

/// Whether directed edge `(a, b)` is an edge of triangle `h` of that cell,
/// read off the cell's entries.
spec fn cell_has_edge(f: nat, y: nat, k: nat, h: nat, a: u32, b: u32, s: nat) -> bool {
    let e0 = slot(f, y, k, 3 * h, s);
    let e1 = slot(f, y, k, 3 * h + 1, s);
    let e2 = slot(f, y, k, 3 * h + 2, s);
    (e0 == a && e1 == b) || (e1 == a && e2 == b) || (e2 == a && e0 == b)
}

/// The triangles of a cell are triangles of the buffer.
proof fn lemma_cell_triangle(f: nat, y: nat, k: nat, h: nat, a: u32, b: u32, s: nat)
    requires
        valid_subdivision(s),
        f < 6,
        y < side(s),
        k < side(s),
        h < 2,
    ensures
        cell_triangle(f, y, k, h, s) < 12 * face_size(s),
        triangle_has_edge(s, cell_triangle(f, y, k, h, s), a, b) == cell_has_edge(f, y, k, h, a, b, s),
{
    lemma_layout(s);
    reveal(slot);
    let p = face_size(s);
    let e = side(s);
    let t = cell_triangle(f, y, k, h, s);
    assert(3 * t == 6 * p * f + 6 * e * y + 6 * k + 3 * h) by (nonlinear_arith)
        requires
            t == 2 * p * f + 2 * e * y + 2 * k + h,
    ;
    lemma_index_slot(s, f, y, k, 3 * h);
    lemma_index_slot(s, f, y, k, 3 * h + 1);
    lemma_index_slot(s, f, y, k, 3 * h + 2);
    assert(t < 12 * p) by (nonlinear_arith)
        requires
            t == 2 * p * f + 2 * e * y + 2 * k + h,
            f < 6,
            y < e,
            k < e,
            h < 2,
            p == e * e,
    ;
}

/// A cell triangle with edge `(a, b)` puts that edge in the buffer.
proof fn lemma_cell_edge(f: nat, y: nat, k: nat, h: nat, a: u32, b: u32, s: nat)
    requires
        valid_subdivision(s),
        f < 6,
        y < side(s),
        k < side(s),
        h < 2,
        cell_has_edge(f, y, k, h, a, b, s),
    ensures
        buffer_has_edge(s, a, b),
{
    lemma_cell_triangle(f, y, k, h, a, b, s);
    let t = cell_triangle(f, y, k, h, s);
    assert(triangle_has_edge(s, t, a, b));
}

/// The six entries of a strip cell.
proof fn lemma_strip_entries(start: nat, rd: int, td: int, ld: int, flipped: bool, len: nat, k: nat, s: nat)
    ensures
        ({
            let w = walk(start, rd, k, s);
            let w1 = walk(start, rd, k + 1, s);
            let t = toward(nearest_neighbors(w, s), td);
            let t1 = toward(nearest_neighbors(w1, s), if k + 1 == len { ld } else { td });
            let tri: Seq<nat> = if flipped {
                seq![w, t, w1, t, t1, w1]
            } else {
                seq![w, w1, t, t, w1, t1]
            };
            &&& strip_value(start, rd, td, ld, flipped, len, k, 0, s) == tri[0] as u32
            &&& strip_value(start, rd, td, ld, flipped, len, k, 1, s) == tri[1] as u32
            &&& strip_value(start, rd, td, ld, flipped, len, k, 2, s) == tri[2] as u32
            &&& strip_value(start, rd, td, ld, flipped, len, k, 3, s) == tri[3] as u32
            &&& strip_value(start, rd, td, ld, flipped, len, k, 4, s) == tri[4] as u32
            &&& strip_value(start, rd, td, ld, flipped, len, k, 5, s) == tri[5] as u32
        }),
{
}

/// Along the bottom row of face 5, and the bottom neighbours of that row on
/// face 3, in the opposite direction.
proof fn lemma_bottom_row_5(k: nat, s: nat)
    requires
        valid_subdivision(s),
        k <= grid_max(s),
    ensures
        walk(vid(5, 0, 0, s), 0, k, s) == vid(5, k, 0, s),
        toward(nearest_neighbors(vid(5, k, 0, s), s), 3) == vid(3, (grid_max(s) - k) as nat, 0, s),
{
    lemma_layout(s);
    lemma_walk_row(5, 0, k, s);
    lemma_neighbors_of_vid(5, k, 0, s);
    reveal(face_5_neighbors);
}

/// The vertices one step past the bottom rows of faces 1, 3 and 5.
proof fn lemma_row_0_ends(s: nat)
    requires
        valid_subdivision(s),
    ensures
        walk(vid(5, 0, 0, s), 0, side(s), s) == vid(1, (grid_max(s) - 1) as nat, 0, s),
        walk(vid(3, 0, 0, s), 0, side(s), s) == vid(5, 0, 0, s),
        walk(vid(1, 0, 0, s), 0, side(s), s) == vid(3, 0, 0, s),
        toward(nearest_neighbors(vid(1, (grid_max(s) - 1) as nat, 0, s), s), 0) == vid(1, grid_max(s), 0, s),
{
    lemma_layout(s);
    let m = grid_max(s);
    lemma_walk_row(5, 0, m, s);
    lemma_walk_row(3, 0, m, s);
    lemma_walk_row(1, 0, m, s);
    lemma_neighbors_of_vid(5, m, 0, s);
    lemma_neighbors_of_vid(3, m, 0, s);
    lemma_neighbors_of_vid(1, m, 0, s);
    lemma_neighbors_of_vid(1, (m - 1) as nat, 0, s);
    lemma_right_step(1, (m - 1) as nat, 0, s);
    reveal(face_5_neighbors);
    reveal(face_3_neighbors);
    reveal(face_1_neighbors);
    assert(side(s) == m + 1);
}

/// The vertex one step right of vertex `(j, 0)` of face `f` (1, 3 or 5),
/// across the face edge after the last column.
spec fn row_0_next(f: nat, j: nat, s: nat) -> nat {
    if j < grid_max(s) {
        vid(f, j + 1, 0, s)
    } else if f == 5 {
        vid(1, (grid_max(s) - 1) as nat, 0, s)
    } else if f == 3 {
        vid(5, 0, 0, s)
    } else {
        vid(3, 0, 0, s)
    }
}

/// Cell `j` of the bottom row of faces 1, 3 and 5 starts with the edge from
/// vertex `(j, 0)` to the next vertex of the row.
proof fn lemma_row_0_cell(f: nat, j: nat, s: nat)
    requires
        valid_subdivision(s),
        f == 1 || f == 3 || f == 5,
        j <= grid_max(s),
    ensures
        slot(f, 0, j, 0, s) == vid(f, j, 0, s) as u32,
        slot(f, 0, j, 1, s) == row_0_next(f, j, s) as u32,
{
    reveal(slot);
    lemma_layout(s);
    let ld: int = if f == 5 { 2 } else { if f == 3 { 2 } else { 1 } };
    lemma_strip_entries(vid(f, 0, 0, s), 0, 1, ld, false, side(s), j, s);
    lemma_walk_row(f, 0, j, s);
    lemma_row_0_ends(s);
    if j < grid_max(s) {
        lemma_walk_row(f, 0, j + 1, s);
    }
}

/// The vertex after `(k, 0)` along the strip of the bottom row of face 5,
/// and the bottom neighbour the strip takes there.
spec fn seam_next(k: nat, s: nat) -> nat {
    if k < grid_max(s) {
        vid(5, k + 1, 0, s)
    } else {
        vid(1, (grid_max(s) - 1) as nat, 0, s)
    }
}

spec fn seam_next_below(k: nat, s: nat) -> nat {
    if k < grid_max(s) {
        vid(3, (grid_max(s) - k - 1) as nat, 0, s)
    } else {
        vid(1, grid_max(s), 0, s)
    }
}

/// The entries of cell `k` of the strip along the bottom row of face 5: the
/// triangles `(w, t, w1)` and `(t, t1, w1)`, wound clockwise in the face's
/// own frame since the strip takes the neighbours below the row.
proof fn lemma_seam_cell(k: nat, s: nat)
    requires
        valid_subdivision(s),
        k <= grid_max(s),
    ensures
        slot(4, grid_max(s), k, 0, s) == vid(5, k, 0, s) as u32,
        slot(4, grid_max(s), k, 1, s) == vid(3, (grid_max(s) - k) as nat, 0, s) as u32,
        slot(4, grid_max(s), k, 2, s) == seam_next(k, s) as u32,
        slot(4, grid_max(s), k, 3, s) == vid(3, (grid_max(s) - k) as nat, 0, s) as u32,
        slot(4, grid_max(s), k, 4, s) == seam_next_below(k, s) as u32,
        slot(4, grid_max(s), k, 5, s) == seam_next(k, s) as u32,
{
    reveal(slot);
    lemma_layout(s);
    let m = grid_max(s);
    let start = vid(5, 0, 0, s);
    lemma_strip_entries(start, 0, 3, 0, true, side(s), k, s);
    lemma_bottom_row_5(k, s);
    lemma_row_0_ends(s);
    if k < m {
        lemma_bottom_row_5(k + 1, s);
    }
}

/// The strip along the bottom row of face 5 (the last row of face 4's part
/// of the index buffer) is glued with opposite orientation to the rest of
/// the sphere: every directed edge of its triangles is traversed the other
/// way by a triangle of the buffer. This holds for each cell of the strip,
/// at every subdivision.
#[verifier::rlimit(50)]
pub proof fn lemma_face_5_bottom_seam_closed(k: nat, h: nat, a: u32, b: u32, s: nat)
    requires
        valid_subdivision(s),
        k <= grid_max(s),
        h < 2,
        triangle_has_edge(s, cell_triangle(4, grid_max(s), k, h, s), a, b),
    ensures
        buffer_has_edge(s, b, a),
{
    lemma_layout(s);
    let m = grid_max(s);
    lemma_cell_triangle(4, m, k, h, a, b, s);
    lemma_seam_cell(k, s);
    let w = vid(5, k, 0, s) as u32;
    let t = vid(3, (m - k) as nat, 0, s) as u32;
    let w1 = seam_next(k, s) as u32;
    let t1 = seam_next_below(k, s) as u32;
    if h == 0 {
        if w == a && t == b {
            if k > 0 {
                lemma_seam_cell((k - 1) as nat, s);
                lemma_cell_edge(4, m, (k - 1) as nat, 1, b, a, s);
            } else {
                lemma_row_0_cell(3, m, s);
                lemma_cell_edge(3, 0, m, 0, b, a, s);
            }
        } else if t == a && w1 == b {
            lemma_cell_edge(4, m, k, 1, b, a, s);
        } else {
            lemma_row_0_cell(5, k, s);
            lemma_cell_edge(5, 0, k, 0, b, a, s);
        }
    } else {
        if t == a && t1 == b {
            if k < m {
                lemma_row_0_cell(3, (m - k - 1) as nat, s);
                lemma_cell_edge(3, 0, (m - k - 1) as nat, 0, b, a, s);
            } else {
                lemma_row_0_cell(1, m, s);
                lemma_cell_edge(1, 0, m, 0, b, a, s);
            }
        } else if t1 == a && w1 == b {
            if k < m {
                lemma_seam_cell(k + 1, s);
                lemma_cell_edge(4, m, k + 1, 0, b, a, s);
            } else {
                lemma_row_0_cell(1, (m - 1) as nat, s);
                lemma_cell_edge(1, 0, (m - 1) as nat, 0, b, a, s);
            }
        } else {
            lemma_cell_edge(4, m, k, 0, b, a, s);
        }
    }
}

/// The entries of the cells that close faces 0 and 2 at the poles.
proof fn lemma_cap_cell(f: nat, s: nat)
    requires
        valid_subdivision(s),
        f == 0 || f == 2,
    ensures
        forall|j: nat| j < 6 ==> #[trigger] slot(f, grid_max(s), grid_max(s), j, s) == pole_cell(f, j, s),
{
    reveal(slot);
    lemma_layout(s);
}

/// Cells of the top row of face 3 next to the north pole.
proof fn lemma_north_cells_3(s: nat)
    requires
        valid_subdivision(s),
    ensures
        slot(3, grid_max(s), grid_max(s), 3, s) == pole(0, s) as u32,
        slot(3, grid_max(s), grid_max(s), 4, s) == vid(0, 0, (grid_max(s) - 1) as nat, s) as u32,
        slot(3, grid_max(s), grid_max(s), 5, s) == vid(0, 0, grid_max(s), s) as u32,
        slot(3, grid_max(s), (grid_max(s) - 1) as nat, 3, s) == vid(4, 0, grid_max(s), s) as u32,
        slot(3, grid_max(s), (grid_max(s) - 1) as nat, 4, s) == vid(3, grid_max(s), grid_max(s), s) as u32,
        slot(3, grid_max(s), (grid_max(s) - 1) as nat, 5, s) == pole(0, s) as u32,
{
    reveal(slot);
    lemma_layout(s);
    let m = grid_max(s);
    let start = vid(3, 0, m, s);
    lemma_strip_entries(start, 0, 1, 1, false, side(s), m, s);
    lemma_strip_entries(start, 0, 1, 1, false, side(s), (m - 1) as nat, s);
    lemma_walk_row(3, m, m, s);
    lemma_walk_row(3, m, (m - 1) as nat, s);
    lemma_neighbors_of_vid(3, m, m, s);
    lemma_neighbors_of_vid(3, (m - 1) as nat, m, s);
    lemma_neighbors_of_vid(0, 0, (m - 1) as nat, s);
    lemma_up_step(0, 0, (m - 1) as nat, s);
    reveal(face_3_neighbors);
}

/// The first cells of the top row of face 0 and of the row below the top of
/// face 4, next to the north pole.
proof fn lemma_north_cells_0_4(s: nat)
    requires
        valid_subdivision(s),
    ensures
        slot(0, grid_max(s), 0, 0, s) == vid(0, 0, grid_max(s), s) as u32,
        slot(0, grid_max(s), 0, 2, s) == vid(4, 0, (grid_max(s) - 1) as nat, s) as u32,
        slot(4, (grid_max(s) - 1) as nat, 0, 0, s) == vid(4, 0, (grid_max(s) - 1) as nat, s) as u32,
        slot(4, (grid_max(s) - 1) as nat, 0, 2, s) == vid(4, 0, grid_max(s), s) as u32,
{
    reveal(slot);
    lemma_layout(s);
    let m = grid_max(s);
    lemma_strip_entries(vid(0, 0, m, s), 0, 1, 1, false, m, 0, s);
    lemma_strip_entries(vid(4, 0, (m - 1) as nat, s), 0, 1, 1, false, m, 0, s);
    lemma_neighbors_of_vid(0, 0, m, s);
    lemma_neighbors_of_vid(4, 0, (m - 1) as nat, s);
    lemma_up_step(4, 0, (m - 1) as nat, s);
    reveal(face_0_neighbors);
}

/// The last cell of the row below the top of face 5, next to the south pole.
proof fn lemma_south_cell_5_below(s: nat)
    requires
        valid_subdivision(s),
    ensures
        slot(5, (grid_max(s) - 1) as nat, grid_max(s), 3, s) == vid(5, grid_max(s), grid_max(s), s) as u32,
        slot(5, (grid_max(s) - 1) as nat, grid_max(s), 4, s) == vid(1, 0, 0, s) as u32,
        slot(5, (grid_max(s) - 1) as nat, grid_max(s), 5, s) == pole(1, s) as u32,
{
    reveal(slot);
    lemma_layout(s);
    let m = grid_max(s);
    let y = (m - 1) as nat;
    lemma_strip_entries(vid(5, 0, y, s), 0, 1, 2, false, side(s), m, s);
    lemma_walk_row(5, y, m, s);
    lemma_neighbors_of_vid(5, m, y, s);
    lemma_neighbors_of_vid(1, 0, 0, s);
    lemma_up_step(5, m, y, s);
    assert(toward(nearest_neighbors(vid(5, m, y, s), s), 0) == vid(1, 0, 0, s)) by {
        reveal(face_5_neighbors);
    }
    assert(toward(nearest_neighbors(vid(1, 0, 0, s), s), 2) == pole(1, s)) by {
        reveal(face_1_neighbors);
    }
}

/// The last cell of the top row of face 5, next to the south pole.
proof fn lemma_south_cell_5_top(s: nat)
    requires
        valid_subdivision(s),
    ensures
        slot(5, grid_max(s), grid_max(s), 3, s) == vid(2, (grid_max(s) - 1) as nat, 0, s) as u32,
        slot(5, grid_max(s), grid_max(s), 4, s) == pole(1, s) as u32,
        slot(5, grid_max(s), grid_max(s), 5, s) == vid(2, grid_max(s), 0, s) as u32,
{
    reveal(slot);
    lemma_layout(s);
    let m = grid_max(s);
    lemma_strip_entries(vid(5, 0, m, s), 0, 1, 1, false, side(s), m, s);
    lemma_walk_row(5, m, m, s);
    lemma_neighbors_of_vid(5, m, m, s);
    lemma_pole_neighbors(s);
    assert(toward(nearest_neighbors(vid(5, m, m, s), s), 0) == pole(1, s)) by {
        reveal(face_5_neighbors);
    }
    assert(toward(nearest_neighbors(vid(5, m, m, s), s), 1) == vid(2, (m - 1) as nat, 0, s)) by {
        reveal(face_5_neighbors);
    }
}

/// The first cell of the bottom row of face 1 and the last cell of the bottom
/// row of face 2, next to the south pole.
proof fn lemma_south_cells_1_2(s: nat)
    requires
        valid_subdivision(s),
    ensures
        slot(1, 0, 0, 0, s) == vid(1, 0, 0, s) as u32,
        slot(1, 0, 0, 2, s) == vid(1, 0, 1, s) as u32,
        slot(2, 0, grid_max(s), 0, s) == vid(2, grid_max(s), 0, s) as u32,
        slot(2, 0, grid_max(s), 1, s) == vid(1, 0, 1, s) as u32,
{
    reveal(slot);
    lemma_layout(s);
    let m = grid_max(s);
    lemma_strip_entries(vid(1, 0, 0, s), 0, 1, 1, false, side(s), 0, s);
    lemma_strip_entries(vid(2, 0, 0, s), 0, 1, 1, false, side(s), m, s);
    lemma_neighbors_of_vid(1, 0, 0, s);
    lemma_up_step(1, 0, 0, s);
    lemma_walk_row(2, 0, m, s);
    lemma_neighbors_of_vid(2, m, 0, s);
    reveal(face_2_neighbors);
}

/// The cells that close the sphere at the north pole (face 0's part of the
/// buffer, `f == 0`) and at the south pole (face 2's part, `f == 2`) are
/// glued with opposite orientation to the rest of the sphere: every directed
/// edge of their triangles is traversed the other way by a triangle of the
/// buffer, at every subdivision.
#[verifier::rlimit(50)]
pub proof fn lemma_pole_caps_closed(f: nat, h: nat, a: u32, b: u32, s: nat)
    requires
        valid_subdivision(s),
        f == 0 || f == 2,
        h < 2,
        triangle_has_edge(s, cell_triangle(f, grid_max(s), grid_max(s), h, s), a, b),
    ensures
        buffer_has_edge(s, b, a),
{
    lemma_layout(s);
    let m = grid_max(s);
    lemma_cell_triangle(f, m, m, h, a, b, s);
    lemma_cap_cell(f, s);
    let e0 = slot(f, m, m, 3 * h, s);
    let e1 = slot(f, m, m, 3 * h + 1, s);
    let e2 = slot(f, m, m, 3 * h + 2, s);
    assert(e0 == pole_cell(f, 3 * h, s));
    assert(e1 == pole_cell(f, 3 * h + 1, s));
    assert(e2 == pole_cell(f, 3 * h + 2, s));
    let other: nat = (1 - h) as nat;
    assert(slot(f, m, m, 3 * other, s) == pole_cell(f, 3 * other, s));
    assert(slot(f, m, m, 3 * other + 1, s) == pole_cell(f, 3 * other + 1, s));
    assert(slot(f, m, m, 3 * other + 2, s) == pole_cell(f, 3 * other + 2, s));
    if f == 0 {
        lemma_north_cells_3(s);
        lemma_north_cells_0_4(s);
        if h == 0 {
            if e0 == a && e1 == b {
                lemma_cell_edge(3, m, m, 1, b, a, s);
            } else if e1 == a && e2 == b {
                lemma_cell_edge(0, m, m, 1, b, a, s);
            } else {
                lemma_cell_edge(3, m, (m - 1) as nat, 1, b, a, s);
            }
        } else {
            if e0 == a && e1 == b {
                lemma_cell_edge(0, m, m, 0, b, a, s);
            } else if e1 == a && e2 == b {
                lemma_cell_edge(0, m, 0, 0, b, a, s);
            } else {
                lemma_cell_edge(4, (m - 1) as nat, 0, 0, b, a, s);
            }
        }
    } else {
        lemma_south_cell_5_below(s);
        lemma_south_cell_5_top(s);
        lemma_south_cells_1_2(s);
        if h == 0 {
            if e0 == a && e1 == b {
                lemma_cell_edge(5, (m - 1) as nat, m, 1, b, a, s);
            } else if e1 == a && e2 == b {
                lemma_cell_edge(2, m, m, 1, b, a, s);
            } else {
                lemma_cell_edge(5, m, m, 1, b, a, s);
            }
        } else {
            if e0 == a && e1 == b {
                lemma_cell_edge(2, m, m, 0, b, a, s);
            } else if e1 == a && e2 == b {
                lemma_cell_edge(1, 0, 0, 0, b, a, s);
            } else {
                lemma_cell_edge(2, 0, m, 0, b, a, s);
            }
        }
    }
}

/// The strip parameters of row `y` of face `f` (for rows that are strips
/// along the row of that face): the direction taken at the last vertex, and
/// the number of cells.
spec fn row_last_dir(f: nat, y: nat, s: nat) -> int {
    if f == 3 {
        if y == 0 { 2 } else { 1 }
    } else if f == 5 {
        if y == grid_max(s) { 1 } else { 2 }
    } else {
        1
    }
}

spec fn row_len(f: nat, y: nat, s: nat) -> nat {
    if f == 4 || ((f == 0 || f == 2) && y == grid_max(s)) {
        grid_max(s)
    } else {
        side(s)
    }
}

/// Cell `k` of row `y` of face `f`, away from the last column and the top
/// row, is the square `(k, y)`, `(k + 1, y)`, `(k, y + 1)`, `(k + 1, y + 1)`
/// of that face cut into `(w, w1, t)` and `(t, w1, t1)`.
proof fn lemma_inner_cell(f: nat, y: nat, k: nat, s: nat)
    requires
        valid_subdivision(s),
        f < 6,
        y < grid_max(s),
        k + 1 < grid_max(s),
    ensures
        slot(f, y, k, 0, s) == vid(f, k, y, s) as u32,
        slot(f, y, k, 1, s) == vid(f, k + 1, y, s) as u32,
        slot(f, y, k, 2, s) == vid(f, k, y + 1, s) as u32,
        slot(f, y, k, 3, s) == vid(f, k, y + 1, s) as u32,
        slot(f, y, k, 4, s) == vid(f, k + 1, y, s) as u32,
        slot(f, y, k, 5, s) == vid(f, k + 1, y + 1, s) as u32,
{
    reveal(slot);
    lemma_layout(s);
    lemma_strip_entries(vid(f, 0, y, s), 0, 1, row_last_dir(f, y, s), false, row_len(f, y, s), k, s);
    lemma_walk_row(f, y, k, s);
    lemma_walk_row(f, y, k + 1, s);
    lemma_neighbors_of_vid(f, k, y, s);
    lemma_neighbors_of_vid(f, k + 1, y, s);
    lemma_up_step(f, k, y, s);
    lemma_up_step(f, k + 1, y, s);
}

/// Cell `k` of row `y` of face `f`, away from the last column, starts with
/// the edge from `(k, y)` to `(k + 1, y)`; also on the top rows, except
/// face 4's, whose place holds another strip.
proof fn lemma_row_cell_edge(f: nat, y: nat, k: nat, s: nat)
    requires
        valid_subdivision(s),
        f < 6,
        y <= grid_max(s),
        f == 4 ==> y < grid_max(s),
        k < grid_max(s),
    ensures
        slot(f, y, k, 0, s) == vid(f, k, y, s) as u32,
        slot(f, y, k, 1, s) == vid(f, k + 1, y, s) as u32,
{
    reveal(slot);
    lemma_layout(s);
    lemma_strip_entries(vid(f, 0, y, s), 0, 1, row_last_dir(f, y, s), false, row_len(f, y, s), k, s);
    lemma_walk_row(f, y, k, s);
    lemma_walk_row(f, y, k + 1, s);
}

/// Inside each face, the triangles are glued with opposite orientation:
/// every directed edge of a triangle of a cell that touches no edge of the
/// face (nor, on face 4, the row below the top) is traversed the other way
/// by a triangle of the buffer, at every subdivision.
#[verifier::rlimit(50)]
pub proof fn lemma_face_inner_cells_closed(f: nat, y: nat, k: nat, h: nat, a: u32, b: u32, s: nat)
    requires
        valid_subdivision(s),
        f < 6,
        1 <= y < grid_max(s),
        f == 4 ==> y + 1 < grid_max(s),
        1 <= k,
        k + 2 <= grid_max(s),
        h < 2,
        triangle_has_edge(s, cell_triangle(f, y, k, h, s), a, b),
    ensures
        buffer_has_edge(s, b, a),
{
    lemma_layout(s);
    lemma_cell_triangle(f, y, k, h, a, b, s);
    lemma_inner_cell(f, y, k, s);
    let w = vid(f, k, y, s) as u32;
    let w1 = vid(f, k + 1, y, s) as u32;
    let t = vid(f, k, y + 1, s) as u32;
    let t1 = vid(f, k + 1, y + 1, s) as u32;
    if h == 0 {
        if w == a && w1 == b {
            lemma_inner_cell(f, (y - 1) as nat, k, s);
            lemma_cell_edge(f, (y - 1) as nat, k, 1, b, a, s);
        } else if w1 == a && t == b {
            lemma_cell_edge(f, y, k, 1, b, a, s);
        } else {
            lemma_inner_cell(f, y, (k - 1) as nat, s);
            lemma_cell_edge(f, y, (k - 1) as nat, 1, b, a, s);
        }
    } else {
        if t == a && w1 == b {
            lemma_cell_edge(f, y, k, 0, b, a, s);
        } else if w1 == a && t1 == b {
            if k + 2 < grid_max(s) {
                lemma_inner_cell(f, y, k + 1, s);
            } else {
                lemma_last_inner_cell_start(f, y, k + 1, s);
            }
            lemma_cell_edge(f, y, k + 1, 0, b, a, s);
        } else {
            lemma_row_cell_edge(f, y + 1, k, s);
            lemma_cell_edge(f, y + 1, k, 0, b, a, s);
        }
    }
}

/// The cell before the last column of a row below the top starts with the
/// triangle `(k, y)`, `(k + 1, y)`, `(k, y + 1)`.
proof fn lemma_last_inner_cell_start(f: nat, y: nat, k: nat, s: nat)
    requires
        valid_subdivision(s),
        f < 6,
        y < grid_max(s),
        k < grid_max(s),
    ensures
        slot(f, y, k, 0, s) == vid(f, k, y, s) as u32,
        slot(f, y, k, 1, s) == vid(f, k + 1, y, s) as u32,
        slot(f, y, k, 2, s) == vid(f, k, y + 1, s) as u32,
        slot(f, y, k, 3, s) == vid(f, k, y + 1, s) as u32,
{
    reveal(slot);
    lemma_layout(s);
    lemma_strip_entries(vid(f, 0, y, s), 0, 1, row_last_dir(f, y, s), false, row_len(f, y, s), k, s);
    lemma_walk_row(f, y, k, s);
    lemma_walk_row(f, y, k + 1, s);
    lemma_neighbors_of_vid(f, k, y, s);
    lemma_up_step(f, k, y, s);
}

/// Cell `y` of the strip up the left column of face 5 (the last column of
/// face 4's part of the index buffer): the square `(0, y)`, `(0, y + 1)` of
/// face 5 and `(y, 0)`, `(y + 1, 0)` of face 0, which borders it there.
proof fn lemma_column_cell(y: nat, s: nat)
    requires
        valid_subdivision(s),
        y < grid_max(s),
    ensures
        slot(4, y, grid_max(s), 0, s) == vid(5, 0, y, s) as u32,
        slot(4, y, grid_max(s), 1, s) == vid(5, 0, y + 1, s) as u32,
        slot(4, y, grid_max(s), 2, s) == vid(0, y, 0, s) as u32,
        slot(4, y, grid_max(s), 3, s) == vid(0, y, 0, s) as u32,
        slot(4, y, grid_max(s), 4, s) == vid(5, 0, y + 1, s) as u32,
        slot(4, y, grid_max(s), 5, s) == vid(0, y + 1, 0, s) as u32,
{
    reveal(slot);
    lemma_layout(s);
    let m = grid_max(s);
    lemma_strip_entries(vid(5, 0, 0, s), 1, 2, 2, false, m, y, s);
    lemma_walk_column(5, 0, y, s);
    lemma_walk_column(5, 0, y + 1, s);
    lemma_neighbors_of_vid(5, 0, y, s);
    lemma_neighbors_of_vid(5, 0, y + 1, s);
    reveal(face_5_neighbors);
}

/// The first cell of each row of face 5 starts with the triangle from
/// `(0, y)` to its top neighbour, which is vertex `(m, 0)` of face 0 on
/// the top row.
proof fn lemma_face_5_first_cell(y: nat, s: nat)
    requires
        valid_subdivision(s),
        y <= grid_max(s),
    ensures
        slot(5, y, 0, 0, s) == vid(5, 0, y, s) as u32,
        slot(5, y, 0, 2, s) == (if y < grid_max(s) {
            vid(5, 0, y + 1, s)
        } else {
            vid(0, grid_max(s), 0, s)
        }) as u32,
{
    reveal(slot);
    lemma_layout(s);
    lemma_strip_entries(vid(5, 0, y, s), 0, 1, row_last_dir(5, y, s), false, side(s), 0, s);
    lemma_neighbors_of_vid(5, 0, y, s);
    reveal(face_5_neighbors);
}

/// The last cell of the bottom row of face 3 ends on vertex `(0, 0)` of
/// face 5 and its left neighbour, vertex `(0, 0)` of face 0.
proof fn lemma_face_3_bottom_last_cell(s: nat)
    requires
        valid_subdivision(s),
    ensures
        slot(3, 0, grid_max(s), 4, s) == vid(5, 0, 0, s) as u32,
        slot(3, 0, grid_max(s), 5, s) == vid(0, 0, 0, s) as u32,
{
    reveal(slot);
    lemma_layout(s);
    let m = grid_max(s);
    lemma_strip_entries(vid(3, 0, 0, s), 0, 1, 2, false, side(s), m, s);
    lemma_row_0_ends(s);
    assert(m + 1 == side(s));
    assert(walk(vid(3, 0, 0, s), 0, m + 1, s) == vid(5, 0, 0, s));
    lemma_neighbors_of_vid(5, 0, 0, s);
    assert(toward(nearest_neighbors(vid(5, 0, 0, s), s), 2) == vid(0, 0, 0, s)) by {
        reveal(face_5_neighbors);
    }
}

/// The strip up the left column of face 5 (the last column of face 4's part
/// of the index buffer) is glued with opposite orientation to the rest of
/// the sphere: every directed edge of its triangles is traversed the other
/// way by a triangle of the buffer, at every subdivision.
#[verifier::rlimit(50)]
pub proof fn lemma_face_5_left_column_closed(y: nat, h: nat, a: u32, b: u32, s: nat)
    requires
        valid_subdivision(s),
        y < grid_max(s),
        h < 2,
        triangle_has_edge(s, cell_triangle(4, y, grid_max(s), h, s), a, b),
    ensures
        buffer_has_edge(s, b, a),
{
    lemma_layout(s);
    let m = grid_max(s);
    lemma_cell_triangle(4, y, m, h, a, b, s);
    lemma_column_cell(y, s);
    let w = vid(5, 0, y, s) as u32;
    let w1 = vid(5, 0, y + 1, s) as u32;
    let t = vid(0, y, 0, s) as u32;
    let t1 = vid(0, y + 1, 0, s) as u32;
    if h == 0 {
        if w == a && w1 == b {
            lemma_face_5_first_cell(y, s);
            lemma_cell_edge(5, y, 0, 0, b, a, s);
        } else if w1 == a && t == b {
            lemma_cell_edge(4, y, m, 1, b, a, s);
        } else if y > 0 {
            lemma_column_cell((y - 1) as nat, s);
            lemma_cell_edge(4, (y - 1) as nat, m, 1, b, a, s);
        } else {
            lemma_face_3_bottom_last_cell(s);
            lemma_cell_edge(3, 0, m, 1, b, a, s);
        }
    } else {
        if t == a && w1 == b {
            lemma_cell_edge(4, y, m, 0, b, a, s);
        } else if w1 == a && t1 == b {
            if y + 1 < m {
                lemma_column_cell(y + 1, s);
                lemma_cell_edge(4, y + 1, m, 0, b, a, s);
            } else {
                lemma_face_5_first_cell(m, s);
                lemma_cell_edge(5, m, 0, 0, b, a, s);
            }
        } else {
            lemma_row_cell_edge(0, 0, y, s);
            lemma_cell_edge(0, 0, y, 0, b, a, s);
        }
    }
}

/// The end of the last cell of row `y` of face 5 (below the top row): the
/// vertex right of `(m, y)`, on the bottom row of face 1, and its left
/// neighbour.
proof fn lemma_face_5_last_cell(y: nat, s: nat)
    requires
        valid_subdivision(s),
        y + 2 <= grid_max(s),
    ensures
        slot(5, y, grid_max(s), 4, s) == vid(1, (grid_max(s) - y - 1) as nat, 0, s) as u32,
        slot(5, y, grid_max(s), 5, s) == vid(1, (grid_max(s) - y - 2) as nat, 0, s) as u32,
{
    reveal(slot);
    lemma_layout(s);
    let m = grid_max(s);
    let x = (m - y - 1) as nat;
    lemma_strip_entries(vid(5, 0, y, s), 0, 1, 2, false, side(s), m, s);
    lemma_walk_row(5, y, m, s);
    lemma_neighbors_of_vid(5, m, y, s);
    lemma_neighbors_of_vid(1, x, 0, s);
    assert(toward(nearest_neighbors(vid(5, m, y, s), s), 0) == vid(1, x, 0, s)) by {
        reveal(face_5_neighbors);
    }
    assert(toward(nearest_neighbors(vid(1, x, 0, s), s), 2) == vid(1, (x - 1) as nat, 0, s)) by {
        reveal(face_1_neighbors);
    }
}

/// Cell `j` of the top row of face 5 has above it vertices `(j - 1, 0)` and
/// `(j, 0)` of face 2.
proof fn lemma_face_5_top_cell(j: nat, s: nat)
    requires
        valid_subdivision(s),
        1 <= j,
        j + 1 <= grid_max(s),
    ensures
        slot(5, grid_max(s), j, 3, s) == vid(2, (j - 1) as nat, 0, s) as u32,
        slot(5, grid_max(s), j, 5, s) == vid(2, j, 0, s) as u32,
{
    reveal(slot);
    lemma_layout(s);
    let m = grid_max(s);
    lemma_strip_entries(vid(5, 0, m, s), 0, 1, 1, false, side(s), j, s);
    lemma_walk_row(5, m, j, s);
    lemma_walk_row(5, m, j + 1, s);
    lemma_neighbors_of_vid(5, j, m, s);
    lemma_neighbors_of_vid(5, j + 1, m, s);
    reveal(face_5_neighbors);
}

/// Cell `k` of the top row of face 2 has above it vertices `(k, 0)` and
/// `(k + 1, 0)` of face 4.
proof fn lemma_face_2_top_cell(k: nat, s: nat)
    requires
        valid_subdivision(s),
        k + 1 < grid_max(s),
    ensures
        slot(2, grid_max(s), k, 3, s) == vid(4, k, 0, s) as u32,
        slot(2, grid_max(s), k, 5, s) == vid(4, k + 1, 0, s) as u32,
{
    reveal(slot);
    lemma_layout(s);
    let m = grid_max(s);
    lemma_strip_entries(vid(2, 0, m, s), 0, 1, 1, false, m, k, s);
    lemma_walk_row(2, m, k, s);
    lemma_walk_row(2, m, k + 1, s);
    lemma_neighbors_of_vid(2, k, m, s);
    lemma_neighbors_of_vid(2, k + 1, m, s);
    reveal(face_2_neighbors);
}

/// The bottom row of every face is glued with opposite orientation to the
/// face below it and to the rest of the face: every directed edge of a
/// triangle of a cell of the bottom row (away from the first and the last
/// two columns) is traversed the other way by a triangle of the buffer, at
/// every subdivision.
#[verifier::rlimit(50)]
pub proof fn lemma_bottom_rows_closed(f: nat, k: nat, h: nat, a: u32, b: u32, s: nat)
    requires
        valid_subdivision(s),
        f < 6,
        1 <= k,
        k + 2 <= grid_max(s),
        h < 2,
        triangle_has_edge(s, cell_triangle(f, 0, k, h, s), a, b),
    ensures
        buffer_has_edge(s, b, a),
{
    lemma_layout(s);
    let m = grid_max(s);
    lemma_cell_triangle(f, 0, k, h, a, b, s);
    lemma_inner_cell(f, 0, k, s);
    let w = vid(f, k, 0, s) as u32;
    let w1 = vid(f, k + 1, 0, s) as u32;
    let t = vid(f, k, 1, s) as u32;
    let t1 = vid(f, k + 1, 1, s) as u32;
    if h == 0 {
        if w == a && w1 == b {
            if f == 0 {
                lemma_column_cell(k, s);
                lemma_cell_edge(4, k, m, 1, b, a, s);
            } else if f == 1 {
                let y = (m - k - 2) as nat;
                lemma_face_5_last_cell(y, s);
                lemma_cell_edge(5, y, m, 1, b, a, s);
            } else if f == 2 {
                lemma_face_5_top_cell(k + 1, s);
                lemma_cell_edge(5, m, k + 1, 1, b, a, s);
            } else if f == 3 {
                lemma_seam_cell((m - k - 1) as nat, s);
                lemma_cell_edge(4, m, (m - k - 1) as nat, 1, b, a, s);
            } else if f == 4 {
                lemma_face_2_top_cell(k, s);
                lemma_cell_edge(2, m, k, 1, b, a, s);
            } else {
                lemma_seam_cell(k, s);
                lemma_cell_edge(4, m, k, 0, b, a, s);
            }
        } else if w1 == a && t == b {
            lemma_cell_edge(f, 0, k, 1, b, a, s);
        } else {
            lemma_inner_cell(f, 0, (k - 1) as nat, s);
            lemma_cell_edge(f, 0, (k - 1) as nat, 1, b, a, s);
        }
    } else {
        if t == a && w1 == b {
            lemma_cell_edge(f, 0, k, 0, b, a, s);
        } else if w1 == a && t1 == b {
            if k + 2 < m {
                lemma_inner_cell(f, 0, k + 1, s);
            } else {
                lemma_last_inner_cell_start(f, 0, k + 1, s);
            }
            lemma_cell_edge(f, 0, k + 1, 0, b, a, s);
        } else {
            lemma_inner_cell(f, 1, k, s);
            lemma_cell_edge(f, 1, k, 0, b, a, s);
        }
    }
}

/// The end of the last cell of row `y` of faces 0 to 3 (below the top row):
/// the vertex right of `(m, y)`, on the first column of the face to the
/// right, and the vertex above it.
proof fn lemma_last_cell_end(f: nat, y: nat, s: nat)
    requires
        valid_subdivision(s),
        f < 4,
        f == 3 ==> 1 <= y,
        y < grid_max(s),
        f == 2 ==> y + 1 < grid_max(s),
    ensures
        slot(f, y, grid_max(s), 4, s) == (if f == 0 {
            vid(2, 0, y, s)
        } else if f == 1 {
            vid(3, 0, y, s)
        } else if f == 2 {
            vid(1, 0, y + 1, s)
        } else {
            vid(0, 0, (y - 1) as nat, s)
        }) as u32,
        slot(f, y, grid_max(s), 5, s) == (if f == 0 {
            vid(2, 0, y + 1, s)
        } else if f == 1 {
            vid(3, 0, y + 1, s)
        } else if f == 2 {
            vid(1, 0, y + 2, s)
        } else {
            vid(0, 0, y, s)
        }) as u32,
{
    reveal(slot);
    lemma_layout(s);
    let m = grid_max(s);
    lemma_strip_entries(vid(f, 0, y, s), 0, 1, row_last_dir(f, y, s), false, side(s), m, s);
    lemma_walk_row(f, y, m, s);
    lemma_neighbors_of_vid(f, m, y, s);
    let g: nat = if f == 0 { 2 } else if f == 1 { 3 } else if f == 2 { 1 } else { 0 };
    let yy: nat = if f == 2 { y + 1 } else if f == 3 { (y - 1) as nat } else { y };
    lemma_neighbors_of_vid(g, 0, yy, s);
    lemma_up_step(g, 0, yy, s);
    if f == 0 {
        reveal(face_0_neighbors);
    } else if f == 1 {
        reveal(face_1_neighbors);
    } else if f == 2 {
        reveal(face_2_neighbors);
    } else {
        reveal(face_3_neighbors);
    }
}

/// Cell `j` of the top row of face 0 has above it vertices `(0, m - j - 1)`
/// and `(0, m - j - 2)` of face 4.
proof fn lemma_face_0_top_cell(j: nat, s: nat)
    requires
        valid_subdivision(s),
        j + 1 < grid_max(s),
    ensures
        slot(0, grid_max(s), j, 3, s) == vid(4, 0, (grid_max(s) - j - 1) as nat, s) as u32,
        slot(0, grid_max(s), j, 5, s) == vid(4, 0, (grid_max(s) - j - 2) as nat, s) as u32,
{
    reveal(slot);
    lemma_layout(s);
    let m = grid_max(s);
    lemma_strip_entries(vid(0, 0, m, s), 0, 1, 1, false, m, j, s);
    lemma_walk_row(0, m, j, s);
    lemma_walk_row(0, m, j + 1, s);
    lemma_neighbors_of_vid(0, j, m, s);
    lemma_neighbors_of_vid(0, j + 1, m, s);
    reveal(face_0_neighbors);
}

/// The first column of every face is glued with opposite orientation to
/// the face on its left and to the rest of the face: every directed edge of
/// a triangle of a cell of the first column (away from the bottom row and
/// the two top rows) is traversed the other way by a triangle of the
/// buffer, at every subdivision.
#[verifier::rlimit(50)]
pub proof fn lemma_left_columns_closed(f: nat, y: nat, h: nat, a: u32, b: u32, s: nat)
    requires
        valid_subdivision(s),
        f < 6,
        1 <= y,
        y + 2 <= grid_max(s),
        h < 2,
        triangle_has_edge(s, cell_triangle(f, y, 0, h, s), a, b),
    ensures
        buffer_has_edge(s, b, a),
{
    lemma_layout(s);
    let m = grid_max(s);
    lemma_cell_triangle(f, y, 0, h, a, b, s);
    lemma_inner_cell(f, y, 0, s);
    let w = vid(f, 0, y, s) as u32;
    let w1 = vid(f, 1, y, s) as u32;
    let t = vid(f, 0, y + 1, s) as u32;
    let t1 = vid(f, 1, y + 1, s) as u32;
    if h == 0 {
        if w == a && w1 == b {
            lemma_inner_cell(f, (y - 1) as nat, 0, s);
            lemma_cell_edge(f, (y - 1) as nat, 0, 1, b, a, s);
        } else if w1 == a && t == b {
            lemma_cell_edge(f, y, 0, 1, b, a, s);
        } else {
            if f == 0 {
                lemma_last_cell_end(3, y + 1, s);
                lemma_cell_edge(3, y + 1, m, 1, b, a, s);
            } else if f == 1 {
                lemma_last_cell_end(2, (y - 1) as nat, s);
                lemma_cell_edge(2, (y - 1) as nat, m, 1, b, a, s);
            } else if f == 2 {
                lemma_last_cell_end(0, y, s);
                lemma_cell_edge(0, y, m, 1, b, a, s);
            } else if f == 3 {
                lemma_last_cell_end(1, y, s);
                lemma_cell_edge(1, y, m, 1, b, a, s);
            } else if f == 4 {
                let j = (m - y - 2) as nat;
                lemma_face_0_top_cell(j, s);
                lemma_cell_edge(0, m, j, 1, b, a, s);
            } else {
                lemma_column_cell(y, s);
                lemma_cell_edge(4, y, m, 0, b, a, s);
            }
        }
    } else {
        if t == a && w1 == b {
            lemma_cell_edge(f, y, 0, 0, b, a, s);
        } else if w1 == a && t1 == b {
            lemma_last_inner_cell_start(f, y, 1, s);
            lemma_cell_edge(f, y, 1, 0, b, a, s);
        } else {
            lemma_row_cell_edge(f, y + 1, 0, s);
            lemma_cell_edge(f, y + 1, 0, 0, b, a, s);
        }
    }
}

/// The vertex right of the last vertex `(m, y)` of row `y` of face `f`
/// (0, 1, 2, 3 or 5), on the face to the right.
spec fn right_of_row(f: nat, y: nat, s: nat) -> nat {
    if f == 0 {
        vid(2, 0, y, s)
    } else if f == 1 {
        vid(3, 0, y, s)
    } else if f == 2 {
        vid(1, 0, y + 1, s)
    } else if f == 3 {
        vid(0, 0, (y - 1) as nat, s)
    } else {
        vid(1, (grid_max(s) - y - 1) as nat, 0, s)
    }
}

/// Cell `k` of row `y` just before the last column, on faces other than 4:
/// the square `(k, y)`, `(k + 1, y)`, `(k, y + 1)`, `(k + 1, y + 1)`.
proof fn lemma_penultimate_cell(f: nat, y: nat, s: nat)
    requires
        valid_subdivision(s),
        f < 6,
        f != 4,
        y < grid_max(s),
    ensures
        slot(f, y, (grid_max(s) - 1) as nat, 0, s) == vid(f, (grid_max(s) - 1) as nat, y, s) as u32,
        slot(f, y, (grid_max(s) - 1) as nat, 1, s) == vid(f, grid_max(s), y, s) as u32,
        slot(f, y, (grid_max(s) - 1) as nat, 2, s) == vid(f, (grid_max(s) - 1) as nat, y + 1, s) as u32,
        slot(f, y, (grid_max(s) - 1) as nat, 3, s) == vid(f, (grid_max(s) - 1) as nat, y + 1, s) as u32,
        slot(f, y, (grid_max(s) - 1) as nat, 4, s) == vid(f, grid_max(s), y, s) as u32,
        slot(f, y, (grid_max(s) - 1) as nat, 5, s) == vid(f, grid_max(s), y + 1, s) as u32,
{
    reveal(slot);
    lemma_layout(s);
    let m = grid_max(s);
    let k = (m - 1) as nat;
    lemma_strip_entries(vid(f, 0, y, s), 0, 1, row_last_dir(f, y, s), false, side(s), k, s);
    lemma_walk_row(f, y, k, s);
    lemma_walk_row(f, y, m, s);
    lemma_neighbors_of_vid(f, k, y, s);
    lemma_neighbors_of_vid(f, m, y, s);
    lemma_up_step(f, k, y, s);
    lemma_up_step(f, m, y, s);
}

/// The last cell of row `y` (below the top) of faces 0, 1, 2, 3 and 5 starts
/// with the triangle `(m, y)`, the vertex right of it, `(m, y + 1)`.
proof fn lemma_last_cell_start(f: nat, y: nat, s: nat)
    requires
        valid_subdivision(s),
        f < 6,
        f != 4,
        y < grid_max(s),
    ensures
        slot(f, y, grid_max(s), 0, s) == vid(f, grid_max(s), y, s) as u32,
        slot(f, y, grid_max(s), 1, s) == toward(nearest_neighbors(vid(f, grid_max(s), y, s), s), 0) as u32,
        slot(f, y, grid_max(s), 2, s) == vid(f, grid_max(s), y + 1, s) as u32,
        slot(f, y, grid_max(s), 3, s) == vid(f, grid_max(s), y + 1, s) as u32,
{
    reveal(slot);
    lemma_layout(s);
    let m = grid_max(s);
    lemma_strip_entries(vid(f, 0, y, s), 0, 1, row_last_dir(f, y, s), false, side(s), m, s);
    lemma_walk_row(f, y, m, s);
    lemma_neighbors_of_vid(f, m, y, s);
    lemma_up_step(f, m, y, s);
}

/// The vertex right of the last vertex of a row, across the face edge.
proof fn lemma_right_of_row(f: nat, y: nat, s: nat)
    requires
        valid_subdivision(s),
        f < 6,
        f != 4,
        f == 3 ==> 1 <= y,
        y < grid_max(s),
    ensures
        toward(nearest_neighbors(vid(f, grid_max(s), y, s), s), 0) == right_of_row(f, y, s),
{
    lemma_layout(s);
    lemma_neighbors_of_vid(f, grid_max(s), y, s);
    if f == 0 {
        reveal(face_0_neighbors);
    } else if f == 1 {
        reveal(face_1_neighbors);
    } else if f == 2 {
        reveal(face_2_neighbors);
    } else if f == 3 {
        reveal(face_3_neighbors);
    } else {
        reveal(face_5_neighbors);
    }
}

/// The end of the last cell of row `y` of face `f` (0, 1, 2, 3 or 5): the
/// vertex right of `(m, y)` and the one right of `(m, y + 1)`.
proof fn lemma_last_cell_end_any(f: nat, y: nat, s: nat)
    requires
        valid_subdivision(s),
        f < 6,
        f != 4,
        y + 2 <= grid_max(s),
    ensures
        f != 3 || y >= 1 ==> slot(f, y, grid_max(s), 4, s) == right_of_row(f, y, s) as u32,
        slot(f, y, grid_max(s), 5, s) == right_of_row(f, y + 1, s) as u32,
{
    if f == 5 {
        lemma_face_5_last_cell(y, s);
    } else if f == 3 && y == 0 {
        lemma_face_3_bottom_last_cell(s);
    } else {
        lemma_last_cell_end(f, y, s);
    }
}

/// The last two columns of faces 0, 1, 2, 3 and 5 are glued with opposite
/// orientation to the face on their right and to the rest of the face:
/// every directed edge of a triangle of a cell of the last two columns
/// (away from the bottom row and the two top rows) is traversed the other
/// way by a triangle of the buffer, at every subdivision.
#[verifier::rlimit(50)]
pub proof fn lemma_last_columns_closed(f: nat, y: nat, k: nat, h: nat, a: u32, b: u32, s: nat)
    requires
        valid_subdivision(s),
        f < 6,
        f != 4,
        1 <= y,
        y + 2 <= grid_max(s),
        k + 1 == grid_max(s) || k == grid_max(s),
        h < 2,
        triangle_has_edge(s, cell_triangle(f, y, k, h, s), a, b),
    ensures
        buffer_has_edge(s, b, a),
{
    lemma_layout(s);
    let m = grid_max(s);
    lemma_cell_triangle(f, y, k, h, a, b, s);
    if k == m {
        lemma_last_cell_start(f, y, s);
        lemma_right_of_row(f, y, s);
        lemma_last_cell_end_any(f, y, s);
        let w = vid(f, m, y, s) as u32;
        let w1 = right_of_row(f, y, s) as u32;
        let t = vid(f, m, y + 1, s) as u32;
        let t1 = right_of_row(f, y + 1, s) as u32;
        if h == 0 {
            if w == a && w1 == b {
                lemma_last_cell_start(f, (y - 1) as nat, s);
                lemma_last_cell_end_any(f, (y - 1) as nat, s);
                lemma_cell_edge(f, (y - 1) as nat, m, 1, b, a, s);
            } else if w1 == a && t == b {
                lemma_cell_edge(f, y, m, 1, b, a, s);
            } else {
                lemma_penultimate_cell(f, y, s);
                lemma_cell_edge(f, y, (m - 1) as nat, 1, b, a, s);
            }
        } else {
            if t == a && w1 == b {
                lemma_cell_edge(f, y, m, 0, b, a, s);
            } else if w1 == a && t1 == b {
                if f == 0 {
                    lemma_inner_cell(2, y, 0, s);
                    lemma_cell_edge(2, y, 0, 0, b, a, s);
                } else if f == 1 {
                    lemma_inner_cell(3, y, 0, s);
                    lemma_cell_edge(3, y, 0, 0, b, a, s);
                } else if f == 2 {
                    lemma_inner_cell(1, y + 1, 0, s);
                    lemma_cell_edge(1, y + 1, 0, 0, b, a, s);
                } else if f == 3 {
                    lemma_inner_cell(0, (y - 1) as nat, 0, s);
                    lemma_cell_edge(0, (y - 1) as nat, 0, 0, b, a, s);
                } else {
                    let x = (m - y - 2) as nat;
                    lemma_row_cell_edge(1, 0, x, s);
                    lemma_cell_edge(1, 0, x, 0, b, a, s);
                }
            } else {
                lemma_last_cell_start(f, y + 1, s);
                lemma_right_of_row(f, y + 1, s);
                lemma_cell_edge(f, y + 1, m, 0, b, a, s);
            }
        }
    } else {
        lemma_penultimate_cell(f, y, s);
        let w = vid(f, k, y, s) as u32;
        let w1 = vid(f, m, y, s) as u32;
        let t = vid(f, k, y + 1, s) as u32;
        let t1 = vid(f, m, y + 1, s) as u32;
        if h == 0 {
            if w == a && w1 == b {
                lemma_penultimate_cell(f, (y - 1) as nat, s);
                lemma_cell_edge(f, (y - 1) as nat, k, 1, b, a, s);
            } else if w1 == a && t == b {
                lemma_cell_edge(f, y, k, 1, b, a, s);
            } else {
                lemma_inner_cell(f, y, (m - 2) as nat, s);
                lemma_cell_edge(f, y, (m - 2) as nat, 1, b, a, s);
            }
        } else {
            if t == a && w1 == b {
                lemma_cell_edge(f, y, k, 0, b, a, s);
            } else if w1 == a && t1 == b {
                lemma_last_cell_start(f, y, s);
                lemma_cell_edge(f, y, m, 0, b, a, s);
            } else {
                lemma_row_cell_edge(f, y + 1, k, s);
                lemma_cell_edge(f, y + 1, k, 0, b, a, s);
            }
        }
    }
}

/// The top neighbour of vertex `(x, m)` on the top row of face `f` (0, 1, 2,
/// 3 or 5), on the face above.
spec fn above_top_row(f: nat, x: nat, s: nat) -> nat {
    let m = grid_max(s);
    if f == 0 {
        vid(4, 0, (m - x - 1) as nat, s)
    } else if f == 1 {
        vid(4, m, x, s)
    } else if f == 2 {
        vid(4, x, 0, s)
    } else if f == 3 {
        vid(4, (m - x - 1) as nat, m, s)
    } else {
        vid(2, (x - 1) as nat, 0, s)
    }
}

/// The top neighbours of the top row of faces 0, 1, 2, 3 and 5.
proof fn lemma_above_top_row(f: nat, x: nat, s: nat)
    requires
        valid_subdivision(s),
        f < 6,
        f != 4,
        1 <= x || f != 5,
        x + 1 <= grid_max(s),
    ensures
        toward(nearest_neighbors(vid(f, x, grid_max(s), s), s), 1) == above_top_row(f, x, s),
{
    lemma_layout(s);
    lemma_neighbors_of_vid(f, x, grid_max(s), s);
    if f == 0 {
        reveal(face_0_neighbors);
    } else if f == 1 {
        reveal(face_1_neighbors);
    } else if f == 2 {
        reveal(face_2_neighbors);
    } else if f == 3 {
        reveal(face_3_neighbors);
    } else {
        reveal(face_5_neighbors);
    }
}

/// Cell `k` of the top row of faces 0, 1, 2, 3 and 5 starts with the
/// triangle `(k, m)`, `(k + 1, m)` and the top neighbour of `(k, m)`.
proof fn lemma_top_cell_start(f: nat, k: nat, s: nat)
    requires
        valid_subdivision(s),
        f < 6,
        f != 4,
        1 <= k || f != 5,
        k + 1 <= grid_max(s),
    ensures
        slot(f, grid_max(s), k, 0, s) == vid(f, k, grid_max(s), s) as u32,
        slot(f, grid_max(s), k, 1, s) == vid(f, k + 1, grid_max(s), s) as u32,
        slot(f, grid_max(s), k, 2, s) == above_top_row(f, k, s) as u32,
        slot(f, grid_max(s), k, 3, s) == above_top_row(f, k, s) as u32,
{
    reveal(slot);
    lemma_layout(s);
    let m = grid_max(s);
    lemma_strip_entries(vid(f, 0, m, s), 0, 1, row_last_dir(f, m, s), false, row_len(f, m, s), k, s);
    lemma_walk_row(f, m, k, s);
    lemma_walk_row(f, m, k + 1, s);
    lemma_above_top_row(f, k, s);
}

/// Cell `k` of the top row of faces 0, 1, 2, 3 and 5, before the last two
/// columns, ends with `(k + 1, m)` and its top neighbour.
proof fn lemma_top_cell_end(f: nat, k: nat, s: nat)
    requires
        valid_subdivision(s),
        f < 6,
        f != 4,
        k + 2 <= grid_max(s),
    ensures
        slot(f, grid_max(s), k, 4, s) == vid(f, k + 1, grid_max(s), s) as u32,
        slot(f, grid_max(s), k, 5, s) == above_top_row(f, k + 1, s) as u32,
{
    reveal(slot);
    lemma_layout(s);
    let m = grid_max(s);
    lemma_strip_entries(vid(f, 0, m, s), 0, 1, row_last_dir(f, m, s), false, row_len(f, m, s), k, s);
    lemma_walk_row(f, m, k + 1, s);
    lemma_above_top_row(f, k + 1, s);
}

/// The end of the last cell of row `y` of face 4: `(m, y)` and `(m, y + 1)`.
proof fn lemma_face_4_row_end(y: nat, s: nat)
    requires
        valid_subdivision(s),
        y < grid_max(s),
    ensures
        slot(4, y, (grid_max(s) - 1) as nat, 4, s) == vid(4, grid_max(s), y, s) as u32,
        slot(4, y, (grid_max(s) - 1) as nat, 5, s) == vid(4, grid_max(s), y + 1, s) as u32,
{
    reveal(slot);
    lemma_layout(s);
    let m = grid_max(s);
    lemma_strip_entries(vid(4, 0, y, s), 0, 1, 1, false, m, (m - 1) as nat, s);
    lemma_walk_row(4, y, m, s);
    lemma_neighbors_of_vid(4, m, y, s);
    lemma_up_step(4, m, y, s);
}

/// The two top rows of the faces are glued with opposite orientation to the
/// face above them and to the rest of the face: every directed edge of a
/// triangle of a cell of the row below the top (on every face) or of the top
/// row (on faces other than 4, whose top row holds another strip), away
/// from the first and the last two columns, is traversed the other way by a
/// triangle of the buffer, at every subdivision.
pub proof fn lemma_top_rows_closed(f: nat, y: nat, k: nat, h: nat, a: u32, b: u32, s: nat)
    requires
        valid_subdivision(s),
        f < 6,
        y + 1 == grid_max(s) || (y == grid_max(s) && f != 4),
        1 <= k,
        k + 2 <= grid_max(s),
        h < 2,
        triangle_has_edge(s, cell_triangle(f, y, k, h, s), a, b),
    ensures
        buffer_has_edge(s, b, a),
{
    if y == grid_max(s) {
        lemma_top_row_closed(f, y, k, h, a, b, s);
    } else {
        lemma_below_top_row_closed(f, y, k, h, a, b, s);
    }
}

#[verifier::rlimit(50)]
proof fn lemma_below_top_row_closed(f: nat, y: nat, k: nat, h: nat, a: u32, b: u32, s: nat)
    requires
        valid_subdivision(s),
        f < 6,
        y + 1 == grid_max(s),
        1 <= k,
        k + 2 <= grid_max(s),
        h < 2,
        triangle_has_edge(s, cell_triangle(f, y, k, h, s), a, b),
    ensures
        buffer_has_edge(s, b, a),
{
    lemma_layout(s);
    let m = grid_max(s);
    lemma_cell_triangle(f, y, k, h, a, b, s);
    lemma_inner_cell(f, y, k, s);
    let w = vid(f, k, y, s) as u32;
    let w1 = vid(f, k + 1, y, s) as u32;
    let t = vid(f, k, m, s) as u32;
    let t1 = vid(f, k + 1, m, s) as u32;
    if h == 0 {
        if w == a && w1 == b {
            lemma_inner_cell(f, (y - 1) as nat, k, s);
            lemma_cell_edge(f, (y - 1) as nat, k, 1, b, a, s);
        } else if w1 == a && t == b {
            lemma_cell_edge(f, y, k, 1, b, a, s);
        } else {
            lemma_inner_cell(f, y, (k - 1) as nat, s);
            lemma_cell_edge(f, y, (k - 1) as nat, 1, b, a, s);
        }
    } else {
        if t == a && w1 == b {
            lemma_cell_edge(f, y, k, 0, b, a, s);
        } else if w1 == a && t1 == b {
            if k + 2 < m {
                lemma_inner_cell(f, y, k + 1, s);
            } else {
                lemma_last_inner_cell_start(f, y, k + 1, s);
            }
            lemma_cell_edge(f, y, k + 1, 0, b, a, s);
        } else if f != 4 {
            lemma_top_cell_start(f, k, s);
            lemma_cell_edge(f, m, k, 0, b, a, s);
        } else {
            let j = (m - k - 2) as nat;
            lemma_top_cell_start(3, j, s);
            lemma_top_cell_end(3, j, s);
            lemma_cell_edge(3, m, j, 1, b, a, s);
        }
    }
}

#[verifier::rlimit(50)]
proof fn lemma_top_row_closed(f: nat, y: nat, k: nat, h: nat, a: u32, b: u32, s: nat)
    requires
        valid_subdivision(s),
        f < 6,
        y == grid_max(s),
        f != 4,
        1 <= k,
        k + 2 <= grid_max(s),
        h < 2,
        triangle_has_edge(s, cell_triangle(f, y, k, h, s), a, b),
    ensures
        buffer_has_edge(s, b, a),
{
    lemma_layout(s);
    let m = grid_max(s);
    lemma_cell_triangle(f, y, k, h, a, b, s);
    lemma_top_cell_start(f, k, s);
    lemma_top_cell_end(f, k, s);
    let w = vid(f, k, m, s) as u32;
    let w1 = vid(f, k + 1, m, s) as u32;
    let t = above_top_row(f, k, s) as u32;
    let t1 = above_top_row(f, k + 1, s) as u32;
    if h == 0 {
        if w == a && w1 == b {
            lemma_inner_cell(f, (m - 1) as nat, k, s);
            lemma_cell_edge(f, (m - 1) as nat, k, 1, b, a, s);
        } else if w1 == a && t == b {
            lemma_cell_edge(f, m, k, 1, b, a, s);
        } else {
            lemma_top_cell_end(f, (k - 1) as nat, s);
            lemma_cell_edge(f, m, (k - 1) as nat, 1, b, a, s);
        }
    } else {
        if t == a && w1 == b {
            lemma_cell_edge(f, m, k, 0, b, a, s);
        } else if w1 == a && t1 == b {
            lemma_top_cell_start(f, k + 1, s);
            lemma_cell_edge(f, m, k + 1, 0, b, a, s);
        } else if f == 0 {
            let y2 = (m - k - 2) as nat;
            lemma_inner_cell(4, y2, 0, s);
            lemma_cell_edge(4, y2, 0, 0, b, a, s);
        } else if f == 1 {
            lemma_face_4_row_end(k, s);
            lemma_cell_edge(4, k, (m - 1) as nat, 1, b, a, s);
        } else if f == 2 {
            lemma_row_cell_edge(4, 0, k, s);
            lemma_cell_edge(4, 0, k, 0, b, a, s);
        } else if f == 3 {
            let k2 = (m - k - 2) as nat;
            lemma_inner_cell(4, (m - 1) as nat, k2, s);
            lemma_cell_edge(4, (m - 1) as nat, k2, 1, b, a, s);
        } else {
            lemma_row_cell_edge(2, 0, (k - 1) as nat, s);
            lemma_cell_edge(2, 0, (k - 1) as nat, 0, b, a, s);
        }
    }

}

/// The column of face 4 before its last (the last column of face 4's own
/// strips) is glued with opposite orientation to the top row of face 1 and to
/// the rest of the face: every directed edge of a triangle of its cells
/// (away from the bottom row and the two top rows) is traversed the other
/// way by a triangle of the buffer, at every subdivision.
#[verifier::rlimit(50)]
pub proof fn lemma_face_4_last_cells_closed(y: nat, h: nat, a: u32, b: u32, s: nat)
    requires
        valid_subdivision(s),
        1 <= y,
        y + 2 <= grid_max(s),
        h < 2,
        triangle_has_edge(s, cell_triangle(4, y, (grid_max(s) - 1) as nat, h, s), a, b),
    ensures
        buffer_has_edge(s, b, a),
{
    lemma_layout(s);
    let m = grid_max(s);
    let k = (m - 1) as nat;
    lemma_cell_triangle(4, y, k, h, a, b, s);
    lemma_last_inner_cell_start(4, y, k, s);
    lemma_face_4_row_end(y, s);
    let w = vid(4, k, y, s) as u32;
    let w1 = vid(4, m, y, s) as u32;
    let t = vid(4, k, y + 1, s) as u32;
    let t1 = vid(4, m, y + 1, s) as u32;
    if h == 0 {
        if w == a && w1 == b {
            lemma_last_inner_cell_start(4, (y - 1) as nat, k, s);
            lemma_face_4_row_end((y - 1) as nat, s);
            lemma_cell_edge(4, (y - 1) as nat, k, 1, b, a, s);
        } else if w1 == a && t == b {
            lemma_cell_edge(4, y, k, 1, b, a, s);
        } else {
            lemma_inner_cell(4, y, (m - 2) as nat, s);
            lemma_cell_edge(4, y, (m - 2) as nat, 1, b, a, s);
        }
    } else {
        if t == a && w1 == b {
            lemma_cell_edge(4, y, k, 0, b, a, s);
        } else if w1 == a && t1 == b {
            lemma_top_cell_start(1, y, s);
            lemma_top_cell_end(1, y, s);
            lemma_cell_edge(1, m, y, 1, b, a, s);
        } else {
            lemma_row_cell_edge(4, y + 1, k, s);
            lemma_cell_edge(4, y + 1, k, 0, b, a, s);
        }
    }
}

/// The vertex after `(k, y)` along the strip of row `y` of face `f`: the
/// next vertex of the row, or across the face edge after the last column.
spec fn row_next(f: nat, y: nat, k: nat, s: nat) -> nat {
    if k < grid_max(s) {
        vid(f, k + 1, y, s)
    } else {
        toward(nearest_neighbors(vid(f, grid_max(s), y, s), s), 0)
    }
}

/// The entries of cell `k` of a row strip of face `f`: the triangles
/// `(w, w1, t)` and `(t, w1, t1)` with `w = (k, y)`, `w1` the next vertex of
/// the row, `t` the top neighbour of `w` and `t1` that of `w1` (or, at the
/// end of the strip, its neighbour in the strip's last direction).
proof fn lemma_row_cell_values(f: nat, y: nat, k: nat, s: nat)
    requires
        valid_subdivision(s),
        f < 6,
        y <= grid_max(s),
        k < row_len(f, y, s),
        !(f == 4 && y == grid_max(s)),
    ensures
        slot(f, y, k, 0, s) == vid(f, k, y, s) as u32,
        slot(f, y, k, 1, s) == row_next(f, y, k, s) as u32,
        slot(f, y, k, 2, s) == toward(nearest_neighbors(vid(f, k, y, s), s), 1) as u32,
        slot(f, y, k, 3, s) == toward(nearest_neighbors(vid(f, k, y, s), s), 1) as u32,
        slot(f, y, k, 4, s) == row_next(f, y, k, s) as u32,
        slot(f, y, k, 5, s) == toward(
            nearest_neighbors(row_next(f, y, k, s), s),
            if k + 1 == row_len(f, y, s) { row_last_dir(f, y, s) } else { 1 },
        ) as u32,
{
    reveal(slot);
    lemma_layout(s);
    let m = grid_max(s);
    lemma_strip_entries(vid(f, 0, y, s), 0, 1, row_last_dir(f, y, s), false, row_len(f, y, s), k, s);
    lemma_walk_row(f, y, k, s);
    if k < m {
        lemma_walk_row(f, y, k + 1, s);
    }
}

/// The entries of the cells that close faces 0 and 2 at the poles, one by one.
proof fn lemma_cap_values(f: nat, s: nat)
    requires
        valid_subdivision(s),
        f == 0 || f == 2,
    ensures
        f == 0 ==> {
            &&& slot(0, grid_max(s), grid_max(s), 0, s) == pole(0, s) as u32
            &&& slot(0, grid_max(s), grid_max(s), 1, s) == vid(0, 0, grid_max(s), s) as u32
            &&& slot(0, grid_max(s), grid_max(s), 2, s) == vid(4, 0, grid_max(s), s) as u32
            &&& slot(0, grid_max(s), grid_max(s), 3, s) == vid(4, 0, grid_max(s), s) as u32
            &&& slot(0, grid_max(s), grid_max(s), 4, s) == vid(0, 0, grid_max(s), s) as u32
            &&& slot(0, grid_max(s), grid_max(s), 5, s) == vid(4, 0, (grid_max(s) - 1) as nat, s) as u32
        },
        f == 2 ==> {
            &&& slot(2, grid_max(s), grid_max(s), 0, s) == pole(1, s) as u32
            &&& slot(2, grid_max(s), grid_max(s), 1, s) == vid(1, 0, 0, s) as u32
            &&& slot(2, grid_max(s), grid_max(s), 2, s) == vid(2, grid_max(s), 0, s) as u32
            &&& slot(2, grid_max(s), grid_max(s), 3, s) == vid(2, grid_max(s), 0, s) as u32
            &&& slot(2, grid_max(s), grid_max(s), 4, s) == vid(1, 0, 0, s) as u32
            &&& slot(2, grid_max(s), grid_max(s), 5, s) == vid(1, 0, 1, s) as u32
        },
{
    lemma_cap_cell(f, s);
    assert(slot(f, grid_max(s), grid_max(s), 0, s) == pole_cell(f, 0, s));
    assert(slot(f, grid_max(s), grid_max(s), 1, s) == pole_cell(f, 1, s));
    assert(slot(f, grid_max(s), grid_max(s), 2, s) == pole_cell(f, 2, s));
    assert(slot(f, grid_max(s), grid_max(s), 3, s) == pole_cell(f, 3, s));
    assert(slot(f, grid_max(s), grid_max(s), 4, s) == pole_cell(f, 4, s));
    assert(slot(f, grid_max(s), grid_max(s), 5, s) == pole_cell(f, 5, s));
}

/// Near the corners of the faces, where the strips of three faces and the
/// poles meet, the triangles are glued with opposite orientation too: every
/// directed edge of a triangle of a cell in the first, the last two rows or
/// columns' corner blocks of a face is traversed the other way by a triangle
/// of the buffer (from 2 subdivisions on, where those blocks are apart).
#[verifier::rlimit(50)]
pub proof fn lemma_corner_cells_closed(f: nat, y: nat, k: nat, h: nat, a: u32, b: u32, s: nat)
    requires
        valid_subdivision(s),
        3 <= grid_max(s),
        f < 6,
        y == 0 || y + 1 == grid_max(s) || y == grid_max(s),
        k == 0 || k + 1 == grid_max(s) || k == grid_max(s),
        !(f == 4 && (y == grid_max(s) || k == grid_max(s))),
        !((f == 0 || f == 2) && y == grid_max(s) && k == grid_max(s)),
        h < 2,
        triangle_has_edge(s, cell_triangle(f, y, k, h, s), a, b),
    ensures
        buffer_has_edge(s, b, a),
{
    lemma_layout(s);
    lemma_cell_triangle(f, y, k, h, a, b, s);
    if f == 0 && y == 0 && k == 0 && h == 0 {
        lemma_corner_0_0_first_0(a, b, s);
    } else if f == 0 && y == 0 && k == 0 && h == 1 {
        lemma_corner_0_0_first_1(a, b, s);
    } else if f == 0 && y == 0 && k == (grid_max(s) - 1) as nat && h == 0 {
        lemma_corner_0_0_before_last_0(a, b, s);
    } else if f == 0 && y == 0 && k == (grid_max(s) - 1) as nat && h == 1 {
        lemma_corner_0_0_before_last_1(a, b, s);
    } else if f == 0 && y == 0 && k == grid_max(s) && h == 0 {
        lemma_corner_0_0_last_0(a, b, s);
    } else if f == 0 && y == 0 && k == grid_max(s) && h == 1 {
        lemma_corner_0_0_last_1(a, b, s);
    } else if f == 0 && y == (grid_max(s) - 1) as nat && k == 0 && h == 0 {
        lemma_corner_0_below_first_0(a, b, s);
    } else if f == 0 && y == (grid_max(s) - 1) as nat && k == 0 && h == 1 {
        lemma_corner_0_below_first_1(a, b, s);
    } else if f == 0 && y == (grid_max(s) - 1) as nat && k == (grid_max(s) - 1) as nat && h == 0 {
        lemma_corner_0_below_before_last_0(a, b, s);
    } else if f == 0 && y == (grid_max(s) - 1) as nat && k == (grid_max(s) - 1) as nat && h == 1 {
        lemma_corner_0_below_before_last_1(a, b, s);
    } else if f == 0 && y == (grid_max(s) - 1) as nat && k == grid_max(s) && h == 0 {
        lemma_corner_0_below_last_0(a, b, s);
    } else if f == 0 && y == (grid_max(s) - 1) as nat && k == grid_max(s) && h == 1 {
        lemma_corner_0_below_last_1(a, b, s);
    } else if f == 0 && y == grid_max(s) && k == 0 && h == 0 {
        lemma_corner_0_top_first_0(a, b, s);
    } else if f == 0 && y == grid_max(s) && k == 0 && h == 1 {
        lemma_corner_0_top_first_1(a, b, s);
    } else if f == 0 && y == grid_max(s) && k == (grid_max(s) - 1) as nat && h == 0 {
        lemma_corner_0_top_before_last_0(a, b, s);
    } else if f == 0 && y == grid_max(s) && k == (grid_max(s) - 1) as nat && h == 1 {
        lemma_corner_0_top_before_last_1(a, b, s);
    } else if f == 1 && y == 0 && k == 0 && h == 0 {
        lemma_corner_1_0_first_0(a, b, s);
    } else if f == 1 && y == 0 && k == 0 && h == 1 {
        lemma_corner_1_0_first_1(a, b, s);
    } else if f == 1 && y == 0 && k == (grid_max(s) - 1) as nat && h == 0 {
        lemma_corner_1_0_before_last_0(a, b, s);
    } else if f == 1 && y == 0 && k == (grid_max(s) - 1) as nat && h == 1 {
        lemma_corner_1_0_before_last_1(a, b, s);
    } else if f == 1 && y == 0 && k == grid_max(s) && h == 0 {
        lemma_corner_1_0_last_0(a, b, s);
    } else if f == 1 && y == 0 && k == grid_max(s) && h == 1 {
        lemma_corner_1_0_last_1(a, b, s);
    } else if f == 1 && y == (grid_max(s) - 1) as nat && k == 0 && h == 0 {
        lemma_corner_1_below_first_0(a, b, s);
    } else if f == 1 && y == (grid_max(s) - 1) as nat && k == 0 && h == 1 {
        lemma_corner_1_below_first_1(a, b, s);
    } else if f == 1 && y == (grid_max(s) - 1) as nat && k == (grid_max(s) - 1) as nat && h == 0 {
        lemma_corner_1_below_before_last_0(a, b, s);
    } else if f == 1 && y == (grid_max(s) - 1) as nat && k == (grid_max(s) - 1) as nat && h == 1 {
        lemma_corner_1_below_before_last_1(a, b, s);
    } else if f == 1 && y == (grid_max(s) - 1) as nat && k == grid_max(s) && h == 0 {
        lemma_corner_1_below_last_0(a, b, s);
    } else if f == 1 && y == (grid_max(s) - 1) as nat && k == grid_max(s) && h == 1 {
        lemma_corner_1_below_last_1(a, b, s);
    } else if f == 1 && y == grid_max(s) && k == 0 && h == 0 {
        lemma_corner_1_top_first_0(a, b, s);
    } else if f == 1 && y == grid_max(s) && k == 0 && h == 1 {
        lemma_corner_1_top_first_1(a, b, s);
    } else if f == 1 && y == grid_max(s) && k == (grid_max(s) - 1) as nat && h == 0 {
        lemma_corner_1_top_before_last_0(a, b, s);
    } else if f == 1 && y == grid_max(s) && k == (grid_max(s) - 1) as nat && h == 1 {
        lemma_corner_1_top_before_last_1(a, b, s);
    } else if f == 1 && y == grid_max(s) && k == grid_max(s) && h == 0 {
        lemma_corner_1_top_last_0(a, b, s);
    } else if f == 1 && y == grid_max(s) && k == grid_max(s) && h == 1 {
        lemma_corner_1_top_last_1(a, b, s);
    } else if f == 2 && y == 0 && k == 0 && h == 0 {
        lemma_corner_2_0_first_0(a, b, s);
    } else if f == 2 && y == 0 && k == 0 && h == 1 {
        lemma_corner_2_0_first_1(a, b, s);
    } else if f == 2 && y == 0 && k == (grid_max(s) - 1) as nat && h == 0 {
        lemma_corner_2_0_before_last_0(a, b, s);
    } else if f == 2 && y == 0 && k == (grid_max(s) - 1) as nat && h == 1 {
        lemma_corner_2_0_before_last_1(a, b, s);
    } else if f == 2 && y == 0 && k == grid_max(s) && h == 0 {
        lemma_corner_2_0_last_0(a, b, s);
    } else if f == 2 && y == 0 && k == grid_max(s) && h == 1 {
        lemma_corner_2_0_last_1(a, b, s);
    } else if f == 2 && y == (grid_max(s) - 1) as nat && k == 0 && h == 0 {
        lemma_corner_2_below_first_0(a, b, s);
    } else if f == 2 && y == (grid_max(s) - 1) as nat && k == 0 && h == 1 {
        lemma_corner_2_below_first_1(a, b, s);
    } else if f == 2 && y == (grid_max(s) - 1) as nat && k == (grid_max(s) - 1) as nat && h == 0 {
        lemma_corner_2_below_before_last_0(a, b, s);
    } else if f == 2 && y == (grid_max(s) - 1) as nat && k == (grid_max(s) - 1) as nat && h == 1 {
        lemma_corner_2_below_before_last_1(a, b, s);
    } else if f == 2 && y == (grid_max(s) - 1) as nat && k == grid_max(s) && h == 0 {
        lemma_corner_2_below_last_0(a, b, s);
    } else if f == 2 && y == (grid_max(s) - 1) as nat && k == grid_max(s) && h == 1 {
        lemma_corner_2_below_last_1(a, b, s);
    } else if f == 2 && y == grid_max(s) && k == 0 && h == 0 {
        lemma_corner_2_top_first_0(a, b, s);
    } else if f == 2 && y == grid_max(s) && k == 0 && h == 1 {
        lemma_corner_2_top_first_1(a, b, s);
    } else if f == 2 && y == grid_max(s) && k == (grid_max(s) - 1) as nat && h == 0 {
        lemma_corner_2_top_before_last_0(a, b, s);
    } else if f == 2 && y == grid_max(s) && k == (grid_max(s) - 1) as nat && h == 1 {
        lemma_corner_2_top_before_last_1(a, b, s);
    } else if f == 3 && y == 0 && k == 0 && h == 0 {
        lemma_corner_3_0_first_0(a, b, s);
    } else if f == 3 && y == 0 && k == 0 && h == 1 {
        lemma_corner_3_0_first_1(a, b, s);
    } else if f == 3 && y == 0 && k == (grid_max(s) - 1) as nat && h == 0 {
        lemma_corner_3_0_before_last_0(a, b, s);
    } else if f == 3 && y == 0 && k == (grid_max(s) - 1) as nat && h == 1 {
        lemma_corner_3_0_before_last_1(a, b, s);
    } else if f == 3 && y == 0 && k == grid_max(s) && h == 0 {
        lemma_corner_3_0_last_0(a, b, s);
    } else if f == 3 && y == 0 && k == grid_max(s) && h == 1 {
        lemma_corner_3_0_last_1(a, b, s);
    } else if f == 3 && y == (grid_max(s) - 1) as nat && k == 0 && h == 0 {
        lemma_corner_3_below_first_0(a, b, s);
    } else if f == 3 && y == (grid_max(s) - 1) as nat && k == 0 && h == 1 {
        lemma_corner_3_below_first_1(a, b, s);
    } else if f == 3 && y == (grid_max(s) - 1) as nat && k == (grid_max(s) - 1) as nat && h == 0 {
        lemma_corner_3_below_before_last_0(a, b, s);
    } else if f == 3 && y == (grid_max(s) - 1) as nat && k == (grid_max(s) - 1) as nat && h == 1 {
        lemma_corner_3_below_before_last_1(a, b, s);
    } else if f == 3 && y == (grid_max(s) - 1) as nat && k == grid_max(s) && h == 0 {
        lemma_corner_3_below_last_0(a, b, s);
    } else if f == 3 && y == (grid_max(s) - 1) as nat && k == grid_max(s) && h == 1 {
        lemma_corner_3_below_last_1(a, b, s);
    } else if f == 3 && y == grid_max(s) && k == 0 && h == 0 {
        lemma_corner_3_top_first_0(a, b, s);
    } else if f == 3 && y == grid_max(s) && k == 0 && h == 1 {
        lemma_corner_3_top_first_1(a, b, s);
    } else if f == 3 && y == grid_max(s) && k == (grid_max(s) - 1) as nat && h == 0 {
        lemma_corner_3_top_before_last_0(a, b, s);
    } else if f == 3 && y == grid_max(s) && k == (grid_max(s) - 1) as nat && h == 1 {
        lemma_corner_3_top_before_last_1(a, b, s);
    } else if f == 3 && y == grid_max(s) && k == grid_max(s) && h == 0 {
        lemma_corner_3_top_last_0(a, b, s);
    } else if f == 3 && y == grid_max(s) && k == grid_max(s) && h == 1 {
        lemma_corner_3_top_last_1(a, b, s);
    } else if f == 4 && y == 0 && k == 0 && h == 0 {
        lemma_corner_4_0_first_0(a, b, s);
    } else if f == 4 && y == 0 && k == 0 && h == 1 {
        lemma_corner_4_0_first_1(a, b, s);
    } else if f == 4 && y == 0 && k == (grid_max(s) - 1) as nat && h == 0 {
        lemma_corner_4_0_before_last_0(a, b, s);
    } else if f == 4 && y == 0 && k == (grid_max(s) - 1) as nat && h == 1 {
        lemma_corner_4_0_before_last_1(a, b, s);
    } else if f == 4 && y == (grid_max(s) - 1) as nat && k == 0 && h == 0 {
        lemma_corner_4_below_first_0(a, b, s);
    } else if f == 4 && y == (grid_max(s) - 1) as nat && k == 0 && h == 1 {
        lemma_corner_4_below_first_1(a, b, s);
    } else if f == 4 && y == (grid_max(s) - 1) as nat && k == (grid_max(s) - 1) as nat && h == 0 {
        lemma_corner_4_below_before_last_0(a, b, s);
    } else if f == 4 && y == (grid_max(s) - 1) as nat && k == (grid_max(s) - 1) as nat && h == 1 {
        lemma_corner_4_below_before_last_1(a, b, s);
    } else if f == 5 && y == 0 && k == 0 && h == 0 {
        lemma_corner_5_0_first_0(a, b, s);
    } else if f == 5 && y == 0 && k == 0 && h == 1 {
        lemma_corner_5_0_first_1(a, b, s);
    } else if f == 5 && y == 0 && k == (grid_max(s) - 1) as nat && h == 0 {
        lemma_corner_5_0_before_last_0(a, b, s);
    } else if f == 5 && y == 0 && k == (grid_max(s) - 1) as nat && h == 1 {
        lemma_corner_5_0_before_last_1(a, b, s);
    } else if f == 5 && y == 0 && k == grid_max(s) && h == 0 {
        lemma_corner_5_0_last_0(a, b, s);
    } else if f == 5 && y == 0 && k == grid_max(s) && h == 1 {
        lemma_corner_5_0_last_1(a, b, s);
    } else if f == 5 && y == (grid_max(s) - 1) as nat && k == 0 && h == 0 {
        lemma_corner_5_below_first_0(a, b, s);
    } else if f == 5 && y == (grid_max(s) - 1) as nat && k == 0 && h == 1 {
        lemma_corner_5_below_first_1(a, b, s);
    } else if f == 5 && y == (grid_max(s) - 1) as nat && k == (grid_max(s) - 1) as nat && h == 0 {
        lemma_corner_5_below_before_last_0(a, b, s);
    } else if f == 5 && y == (grid_max(s) - 1) as nat && k == (grid_max(s) - 1) as nat && h == 1 {
        lemma_corner_5_below_before_last_1(a, b, s);
    } else if f == 5 && y == (grid_max(s) - 1) as nat && k == grid_max(s) && h == 0 {
        lemma_corner_5_below_last_0(a, b, s);
    } else if f == 5 && y == (grid_max(s) - 1) as nat && k == grid_max(s) && h == 1 {
        lemma_corner_5_below_last_1(a, b, s);
    } else if f == 5 && y == grid_max(s) && k == 0 && h == 0 {
        lemma_corner_5_top_first_0(a, b, s);
    } else if f == 5 && y == grid_max(s) && k == 0 && h == 1 {
        lemma_corner_5_top_first_1(a, b, s);
    } else if f == 5 && y == grid_max(s) && k == (grid_max(s) - 1) as nat && h == 0 {
        lemma_corner_5_top_before_last_0(a, b, s);
    } else if f == 5 && y == grid_max(s) && k == (grid_max(s) - 1) as nat && h == 1 {
        lemma_corner_5_top_before_last_1(a, b, s);
    } else if f == 5 && y == grid_max(s) && k == grid_max(s) && h == 0 {
        lemma_corner_5_top_last_0(a, b, s);
    } else if f == 5 && y == grid_max(s) && k == grid_max(s) && h == 1 {
        lemma_corner_5_top_last_1(a, b, s);
    }
}

#[verifier::rlimit(50)]
proof fn lemma_corner_0_0_first_0(a: u32, b: u32, s: nat)
    requires
        valid_subdivision(s),
        3 <= grid_max(s),
        cell_has_edge(0, 0, 0, 0, a, b, s),
    ensures
        buffer_has_edge(s, b, a),
{
    lemma_layout(s);
    let m = grid_max(s);
    lemma_all_neighbors_of_vid(s);
    lemma_pole_neighbors(s);
    lemma_row_cell_values(0, 0, 0, s);
    lemma_column_cell(0, s);
    lemma_row_cell_values(3, 1, m, s);
    reveal(face_0_neighbors);
    reveal(face_1_neighbors);
    reveal(face_2_neighbors);
    reveal(face_3_neighbors);
    reveal(face_4_neighbors);
    reveal(face_5_neighbors);
    if slot(0, 0, 0, 0, s) == a && slot(0, 0, 0, 1, s) == b {
        lemma_cell_edge(4, 0, m, 1, b, a, s);
    } else if slot(0, 0, 0, 1, s) == a && slot(0, 0, 0, 2, s) == b {
        lemma_cell_edge(0, 0, 0, 1, b, a, s);
    } else {
        lemma_cell_edge(3, 1, m, 1, b, a, s);
    }
}

#[verifier::rlimit(50)]
proof fn lemma_corner_0_0_first_1(a: u32, b: u32, s: nat)
    requires
        valid_subdivision(s),
        3 <= grid_max(s),
        cell_has_edge(0, 0, 0, 1, a, b, s),
    ensures
        buffer_has_edge(s, b, a),
{
    lemma_layout(s);
    let m = grid_max(s);
    lemma_all_neighbors_of_vid(s);
    lemma_pole_neighbors(s);
    lemma_row_cell_values(0, 0, 0, s);
    lemma_row_cell_values(0, 0, 1, s);
    lemma_row_cell_values(0, 1, 0, s);
    reveal(face_0_neighbors);
    reveal(face_1_neighbors);
    reveal(face_2_neighbors);
    reveal(face_3_neighbors);
    reveal(face_4_neighbors);
    reveal(face_5_neighbors);
    if slot(0, 0, 0, 3, s) == a && slot(0, 0, 0, 4, s) == b {
        lemma_cell_edge(0, 0, 0, 0, b, a, s);
    } else if slot(0, 0, 0, 4, s) == a && slot(0, 0, 0, 5, s) == b {
        lemma_cell_edge(0, 0, 1, 0, b, a, s);
    } else {
        lemma_cell_edge(0, 1, 0, 0, b, a, s);
    }
}

#[verifier::rlimit(50)]
proof fn lemma_corner_0_0_before_last_0(a: u32, b: u32, s: nat)
    requires
        valid_subdivision(s),
        3 <= grid_max(s),
        cell_has_edge(0, 0, (grid_max(s) - 1) as nat, 0, a, b, s),
    ensures
        buffer_has_edge(s, b, a),
{
    lemma_layout(s);
    let m = grid_max(s);
    lemma_all_neighbors_of_vid(s);
    lemma_pole_neighbors(s);
    lemma_row_cell_values(0, 0, (m - 1) as nat, s);
    lemma_column_cell((m - 1) as nat, s);
    lemma_row_cell_values(0, 0, (m - 2) as nat, s);
    reveal(face_0_neighbors);
    reveal(face_1_neighbors);
    reveal(face_2_neighbors);
    reveal(face_3_neighbors);
    reveal(face_4_neighbors);
    reveal(face_5_neighbors);
    if slot(0, 0, (m - 1) as nat, 0, s) == a && slot(0, 0, (m - 1) as nat, 1, s) == b {
        lemma_cell_edge(4, (m - 1) as nat, m, 1, b, a, s);
    } else if slot(0, 0, (m - 1) as nat, 1, s) == a && slot(0, 0, (m - 1) as nat, 2, s) == b {
        lemma_cell_edge(0, 0, (m - 1) as nat, 1, b, a, s);
    } else {
        lemma_cell_edge(0, 0, (m - 2) as nat, 1, b, a, s);
    }
}

#[verifier::rlimit(50)]
proof fn lemma_corner_0_0_before_last_1(a: u32, b: u32, s: nat)
    requires
        valid_subdivision(s),
        3 <= grid_max(s),
        cell_has_edge(0, 0, (grid_max(s) - 1) as nat, 1, a, b, s),
    ensures
        buffer_has_edge(s, b, a),
{
    lemma_layout(s);
    let m = grid_max(s);
    lemma_all_neighbors_of_vid(s);
    lemma_pole_neighbors(s);
    lemma_row_cell_values(0, 0, (m - 1) as nat, s);
    lemma_row_cell_values(0, 0, m, s);
    lemma_row_cell_values(0, 1, (m - 1) as nat, s);
    reveal(face_0_neighbors);
    reveal(face_1_neighbors);
    reveal(face_2_neighbors);
    reveal(face_3_neighbors);
    reveal(face_4_neighbors);
    reveal(face_5_neighbors);
    if slot(0, 0, (m - 1) as nat, 3, s) == a && slot(0, 0, (m - 1) as nat, 4, s) == b {
        lemma_cell_edge(0, 0, (m - 1) as nat, 0, b, a, s);
    } else if slot(0, 0, (m - 1) as nat, 4, s) == a && slot(0, 0, (m - 1) as nat, 5, s) == b {
        lemma_cell_edge(0, 0, m, 0, b, a, s);
    } else {
        lemma_cell_edge(0, 1, (m - 1) as nat, 0, b, a, s);
    }
}

#[verifier::rlimit(50)]
proof fn lemma_corner_0_0_last_0(a: u32, b: u32, s: nat)
    requires
        valid_subdivision(s),
        3 <= grid_max(s),
        cell_has_edge(0, 0, grid_max(s), 0, a, b, s),
    ensures
        buffer_has_edge(s, b, a),
{
    lemma_layout(s);
    let m = grid_max(s);
    lemma_all_neighbors_of_vid(s);
    lemma_pole_neighbors(s);
    lemma_row_cell_values(0, 0, m, s);
    lemma_row_cell_values(5, m, 0, s);
    lemma_row_cell_values(0, 0, (m - 1) as nat, s);
    reveal(face_0_neighbors);
    reveal(face_1_neighbors);
    reveal(face_2_neighbors);
    reveal(face_3_neighbors);
    reveal(face_4_neighbors);
    reveal(face_5_neighbors);
    if slot(0, 0, m, 0, s) == a && slot(0, 0, m, 1, s) == b {
        lemma_cell_edge(5, m, 0, 1, b, a, s);
    } else if slot(0, 0, m, 1, s) == a && slot(0, 0, m, 2, s) == b {
        lemma_cell_edge(0, 0, m, 1, b, a, s);
    } else {
        lemma_cell_edge(0, 0, (m - 1) as nat, 1, b, a, s);
    }
}

#[verifier::rlimit(50)]
proof fn lemma_corner_0_0_last_1(a: u32, b: u32, s: nat)
    requires
        valid_subdivision(s),
        3 <= grid_max(s),
        cell_has_edge(0, 0, grid_max(s), 1, a, b, s),
    ensures
        buffer_has_edge(s, b, a),
{
    lemma_layout(s);
    let m = grid_max(s);
    lemma_all_neighbors_of_vid(s);
    lemma_pole_neighbors(s);
    lemma_row_cell_values(0, 0, m, s);
    lemma_row_cell_values(2, 0, 0, s);
    lemma_row_cell_values(0, 1, m, s);
    reveal(face_0_neighbors);
    reveal(face_1_neighbors);
    reveal(face_2_neighbors);
    reveal(face_3_neighbors);
    reveal(face_4_neighbors);
    reveal(face_5_neighbors);
    if slot(0, 0, m, 3, s) == a && slot(0, 0, m, 4, s) == b {
        lemma_cell_edge(0, 0, m, 0, b, a, s);
    } else if slot(0, 0, m, 4, s) == a && slot(0, 0, m, 5, s) == b {
        lemma_cell_edge(2, 0, 0, 0, b, a, s);
    } else {
        lemma_cell_edge(0, 1, m, 0, b, a, s);
    }
}

#[verifier::rlimit(50)]
proof fn lemma_corner_0_below_first_0(a: u32, b: u32, s: nat)
    requires
        valid_subdivision(s),
        3 <= grid_max(s),
        cell_has_edge(0, (grid_max(s) - 1) as nat, 0, 0, a, b, s),
    ensures
        buffer_has_edge(s, b, a),
{
    lemma_layout(s);
    let m = grid_max(s);
    lemma_all_neighbors_of_vid(s);
    lemma_pole_neighbors(s);
    lemma_row_cell_values(0, (m - 1) as nat, 0, s);
    lemma_row_cell_values(0, (m - 2) as nat, 0, s);
    lemma_row_cell_values(3, m, m, s);
    reveal(face_0_neighbors);
    reveal(face_1_neighbors);
    reveal(face_2_neighbors);
    reveal(face_3_neighbors);
    reveal(face_4_neighbors);
    reveal(face_5_neighbors);
    if slot(0, (m - 1) as nat, 0, 0, s) == a && slot(0, (m - 1) as nat, 0, 1, s) == b {
        lemma_cell_edge(0, (m - 2) as nat, 0, 1, b, a, s);
    } else if slot(0, (m - 1) as nat, 0, 1, s) == a && slot(0, (m - 1) as nat, 0, 2, s) == b {
        lemma_cell_edge(0, (m - 1) as nat, 0, 1, b, a, s);
    } else {
        lemma_cell_edge(3, m, m, 1, b, a, s);
    }
}

#[verifier::rlimit(50)]
proof fn lemma_corner_0_below_first_1(a: u32, b: u32, s: nat)
    requires
        valid_subdivision(s),
        3 <= grid_max(s),
        cell_has_edge(0, (grid_max(s) - 1) as nat, 0, 1, a, b, s),
    ensures
        buffer_has_edge(s, b, a),
{
    lemma_layout(s);
    let m = grid_max(s);
    lemma_all_neighbors_of_vid(s);
    lemma_pole_neighbors(s);
    lemma_row_cell_values(0, (m - 1) as nat, 0, s);
    lemma_row_cell_values(0, (m - 1) as nat, 1, s);
    lemma_row_cell_values(0, m, 0, s);
    reveal(face_0_neighbors);
    reveal(face_1_neighbors);
    reveal(face_2_neighbors);
    reveal(face_3_neighbors);
    reveal(face_4_neighbors);
    reveal(face_5_neighbors);
    if slot(0, (m - 1) as nat, 0, 3, s) == a && slot(0, (m - 1) as nat, 0, 4, s) == b {
        lemma_cell_edge(0, (m - 1) as nat, 0, 0, b, a, s);
    } else if slot(0, (m - 1) as nat, 0, 4, s) == a && slot(0, (m - 1) as nat, 0, 5, s) == b {
        lemma_cell_edge(0, (m - 1) as nat, 1, 0, b, a, s);
    } else {
        lemma_cell_edge(0, m, 0, 0, b, a, s);
    }
}

#[verifier::rlimit(50)]
proof fn lemma_corner_0_below_before_last_0(a: u32, b: u32, s: nat)
    requires
        valid_subdivision(s),
        3 <= grid_max(s),
        cell_has_edge(0, (grid_max(s) - 1) as nat, (grid_max(s) - 1) as nat, 0, a, b, s),
    ensures
        buffer_has_edge(s, b, a),
{
    lemma_layout(s);
    let m = grid_max(s);
    lemma_all_neighbors_of_vid(s);
    lemma_pole_neighbors(s);
    lemma_row_cell_values(0, (m - 1) as nat, (m - 1) as nat, s);
    lemma_row_cell_values(0, (m - 2) as nat, (m - 1) as nat, s);
    lemma_row_cell_values(0, (m - 1) as nat, (m - 2) as nat, s);
    reveal(face_0_neighbors);
    reveal(face_1_neighbors);
    reveal(face_2_neighbors);
    reveal(face_3_neighbors);
    reveal(face_4_neighbors);
    reveal(face_5_neighbors);
    if slot(0, (m - 1) as nat, (m - 1) as nat, 0, s) == a && slot(0, (m - 1) as nat, (m - 1) as nat, 1, s) == b {
        lemma_cell_edge(0, (m - 2) as nat, (m - 1) as nat, 1, b, a, s);
    } else if slot(0, (m - 1) as nat, (m - 1) as nat, 1, s) == a && slot(0, (m - 1) as nat, (m - 1) as nat, 2, s) == b {
        lemma_cell_edge(0, (m - 1) as nat, (m - 1) as nat, 1, b, a, s);
    } else {
        lemma_cell_edge(0, (m - 1) as nat, (m - 2) as nat, 1, b, a, s);
    }
}

#[verifier::rlimit(50)]
proof fn lemma_corner_0_below_before_last_1(a: u32, b: u32, s: nat)
    requires
        valid_subdivision(s),
        3 <= grid_max(s),
        cell_has_edge(0, (grid_max(s) - 1) as nat, (grid_max(s) - 1) as nat, 1, a, b, s),
    ensures
        buffer_has_edge(s, b, a),
{
    lemma_layout(s);
    let m = grid_max(s);
    lemma_all_neighbors_of_vid(s);
    lemma_pole_neighbors(s);
    lemma_row_cell_values(0, (m - 1) as nat, (m - 1) as nat, s);
    lemma_row_cell_values(0, (m - 1) as nat, m, s);
    lemma_row_cell_values(0, m, (m - 1) as nat, s);
    reveal(face_0_neighbors);
    reveal(face_1_neighbors);
    reveal(face_2_neighbors);
    reveal(face_3_neighbors);
    reveal(face_4_neighbors);
    reveal(face_5_neighbors);
    if slot(0, (m - 1) as nat, (m - 1) as nat, 3, s) == a && slot(0, (m - 1) as nat, (m - 1) as nat, 4, s) == b {
        lemma_cell_edge(0, (m - 1) as nat, (m - 1) as nat, 0, b, a, s);
    } else if slot(0, (m - 1) as nat, (m - 1) as nat, 4, s) == a && slot(0, (m - 1) as nat, (m - 1) as nat, 5, s) == b {
        lemma_cell_edge(0, (m - 1) as nat, m, 0, b, a, s);
    } else {
        lemma_cell_edge(0, m, (m - 1) as nat, 0, b, a, s);
    }
}

#[verifier::rlimit(50)]
proof fn lemma_corner_0_below_last_0(a: u32, b: u32, s: nat)
    requires
        valid_subdivision(s),
        3 <= grid_max(s),
        cell_has_edge(0, (grid_max(s) - 1) as nat, grid_max(s), 0, a, b, s),
    ensures
        buffer_has_edge(s, b, a),
{
    lemma_layout(s);
    let m = grid_max(s);
    lemma_all_neighbors_of_vid(s);
    lemma_pole_neighbors(s);
    lemma_row_cell_values(0, (m - 1) as nat, m, s);
    lemma_row_cell_values(0, (m - 2) as nat, m, s);
    lemma_row_cell_values(0, (m - 1) as nat, (m - 1) as nat, s);
    reveal(face_0_neighbors);
    reveal(face_1_neighbors);
    reveal(face_2_neighbors);
    reveal(face_3_neighbors);
    reveal(face_4_neighbors);
    reveal(face_5_neighbors);
    if slot(0, (m - 1) as nat, m, 0, s) == a && slot(0, (m - 1) as nat, m, 1, s) == b {
        lemma_cell_edge(0, (m - 2) as nat, m, 1, b, a, s);
    } else if slot(0, (m - 1) as nat, m, 1, s) == a && slot(0, (m - 1) as nat, m, 2, s) == b {
        lemma_cell_edge(0, (m - 1) as nat, m, 1, b, a, s);
    } else {
        lemma_cell_edge(0, (m - 1) as nat, (m - 1) as nat, 1, b, a, s);
    }
}

#[verifier::rlimit(50)]
proof fn lemma_corner_0_below_last_1(a: u32, b: u32, s: nat)
    requires
        valid_subdivision(s),
        3 <= grid_max(s),
        cell_has_edge(0, (grid_max(s) - 1) as nat, grid_max(s), 1, a, b, s),
    ensures
        buffer_has_edge(s, b, a),
{
    lemma_layout(s);
    let m = grid_max(s);
    lemma_all_neighbors_of_vid(s);
    lemma_pole_neighbors(s);
    lemma_row_cell_values(0, (m - 1) as nat, m, s);
    lemma_row_cell_values(2, (m - 1) as nat, 0, s);
    lemma_row_cell_values(0, m, (m - 1) as nat, s);
    reveal(face_0_neighbors);
    reveal(face_1_neighbors);
    reveal(face_2_neighbors);
    reveal(face_3_neighbors);
    reveal(face_4_neighbors);
    reveal(face_5_neighbors);
    if slot(0, (m - 1) as nat, m, 3, s) == a && slot(0, (m - 1) as nat, m, 4, s) == b {
        lemma_cell_edge(0, (m - 1) as nat, m, 0, b, a, s);
    } else if slot(0, (m - 1) as nat, m, 4, s) == a && slot(0, (m - 1) as nat, m, 5, s) == b {
        lemma_cell_edge(2, (m - 1) as nat, 0, 0, b, a, s);
    } else {
        lemma_cell_edge(0, m, (m - 1) as nat, 1, b, a, s);
    }
}

#[verifier::rlimit(100)]
proof fn lemma_corner_0_top_first_0(a: u32, b: u32, s: nat)
    requires
        valid_subdivision(s),
        3 <= grid_max(s),
        cell_has_edge(0, grid_max(s), 0, 0, a, b, s),
    ensures
        buffer_has_edge(s, b, a),
{
    lemma_layout(s);
    let m = grid_max(s);
    lemma_all_neighbors_of_vid(s);
    lemma_pole_neighbors(s);
    lemma_row_cell_values(0, m, 0, s);
    lemma_row_cell_values(0, (m - 1) as nat, 0, s);
    lemma_cap_values(0, s);
    reveal(face_0_neighbors);
    reveal(face_1_neighbors);
    reveal(face_2_neighbors);
    reveal(face_3_neighbors);
    reveal(face_4_neighbors);
    reveal(face_5_neighbors);
    if slot(0, m, 0, 0, s) == a && slot(0, m, 0, 1, s) == b {
        lemma_cell_edge(0, (m - 1) as nat, 0, 1, b, a, s);
    } else if slot(0, m, 0, 1, s) == a && slot(0, m, 0, 2, s) == b {
        lemma_cell_edge(0, m, 0, 1, b, a, s);
    } else {
        lemma_cell_edge(0, m, m, 1, b, a, s);
    }
}

#[verifier::rlimit(50)]
proof fn lemma_corner_0_top_first_1(a: u32, b: u32, s: nat)
    requires
        valid_subdivision(s),
        3 <= grid_max(s),
        cell_has_edge(0, grid_max(s), 0, 1, a, b, s),
    ensures
        buffer_has_edge(s, b, a),
{
    lemma_layout(s);
    let m = grid_max(s);
    lemma_all_neighbors_of_vid(s);
    lemma_pole_neighbors(s);
    lemma_row_cell_values(0, m, 0, s);
    lemma_row_cell_values(0, m, 1, s);
    lemma_row_cell_values(4, (m - 2) as nat, 0, s);
    reveal(face_0_neighbors);
    reveal(face_1_neighbors);
    reveal(face_2_neighbors);
    reveal(face_3_neighbors);
    reveal(face_4_neighbors);
    reveal(face_5_neighbors);
    if slot(0, m, 0, 3, s) == a && slot(0, m, 0, 4, s) == b {
        lemma_cell_edge(0, m, 0, 0, b, a, s);
    } else if slot(0, m, 0, 4, s) == a && slot(0, m, 0, 5, s) == b {
        lemma_cell_edge(0, m, 1, 0, b, a, s);
    } else {
        lemma_cell_edge(4, (m - 2) as nat, 0, 0, b, a, s);
    }
}

#[verifier::rlimit(50)]
proof fn lemma_corner_0_top_before_last_0(a: u32, b: u32, s: nat)
    requires
        valid_subdivision(s),
        3 <= grid_max(s),
        cell_has_edge(0, grid_max(s), (grid_max(s) - 1) as nat, 0, a, b, s),
    ensures
        buffer_has_edge(s, b, a),
{
    lemma_layout(s);
    let m = grid_max(s);
    lemma_all_neighbors_of_vid(s);
    lemma_pole_neighbors(s);
    lemma_row_cell_values(0, m, (m - 1) as nat, s);
    lemma_row_cell_values(0, (m - 1) as nat, (m - 1) as nat, s);
    lemma_row_cell_values(0, m, (m - 2) as nat, s);
    reveal(face_0_neighbors);
    reveal(face_1_neighbors);
    reveal(face_2_neighbors);
    reveal(face_3_neighbors);
    reveal(face_4_neighbors);
    reveal(face_5_neighbors);
    if slot(0, m, (m - 1) as nat, 0, s) == a && slot(0, m, (m - 1) as nat, 1, s) == b {
        lemma_cell_edge(0, (m - 1) as nat, (m - 1) as nat, 1, b, a, s);
    } else if slot(0, m, (m - 1) as nat, 1, s) == a && slot(0, m, (m - 1) as nat, 2, s) == b {
        lemma_cell_edge(0, m, (m - 1) as nat, 1, b, a, s);
    } else {
        lemma_cell_edge(0, m, (m - 2) as nat, 1, b, a, s);
    }
}

#[verifier::rlimit(50)]
proof fn lemma_corner_0_top_before_last_1(a: u32, b: u32, s: nat)
    requires
        valid_subdivision(s),
        3 <= grid_max(s),
        cell_has_edge(0, grid_max(s), (grid_max(s) - 1) as nat, 1, a, b, s),
    ensures
        buffer_has_edge(s, b, a),
{
    lemma_layout(s);
    let m = grid_max(s);
    lemma_all_neighbors_of_vid(s);
    lemma_pole_neighbors(s);
    lemma_row_cell_values(0, m, (m - 1) as nat, s);
    lemma_row_cell_values(0, (m - 1) as nat, m, s);
    lemma_row_cell_values(2, m, 0, s);
    reveal(face_0_neighbors);
    reveal(face_1_neighbors);
    reveal(face_2_neighbors);
    reveal(face_3_neighbors);
    reveal(face_4_neighbors);
    reveal(face_5_neighbors);
    if slot(0, m, (m - 1) as nat, 3, s) == a && slot(0, m, (m - 1) as nat, 4, s) == b {
        lemma_cell_edge(0, m, (m - 1) as nat, 0, b, a, s);
    } else if slot(0, m, (m - 1) as nat, 4, s) == a && slot(0, m, (m - 1) as nat, 5, s) == b {
        lemma_cell_edge(0, (m - 1) as nat, m, 1, b, a, s);
    } else {
        lemma_cell_edge(2, m, 0, 0, b, a, s);
    }
}

#[verifier::rlimit(100)]
proof fn lemma_corner_1_0_first_0(a: u32, b: u32, s: nat)
    requires
        valid_subdivision(s),
        3 <= grid_max(s),
        cell_has_edge(1, 0, 0, 0, a, b, s),
    ensures
        buffer_has_edge(s, b, a),
{
    lemma_layout(s);
    let m = grid_max(s);
    lemma_all_neighbors_of_vid(s);
    lemma_pole_neighbors(s);
    lemma_row_cell_values(1, 0, 0, s);
    lemma_row_cell_values(5, (m - 2) as nat, m, s);
    lemma_cap_values(2, s);
    reveal(face_0_neighbors);
    reveal(face_1_neighbors);
    reveal(face_2_neighbors);
    reveal(face_3_neighbors);
    reveal(face_4_neighbors);
    reveal(face_5_neighbors);
    if slot(1, 0, 0, 0, s) == a && slot(1, 0, 0, 1, s) == b {
        lemma_cell_edge(5, (m - 2) as nat, m, 1, b, a, s);
    } else if slot(1, 0, 0, 1, s) == a && slot(1, 0, 0, 2, s) == b {
        lemma_cell_edge(1, 0, 0, 1, b, a, s);
    } else {
        lemma_cell_edge(2, m, m, 1, b, a, s);
    }
}

#[verifier::rlimit(50)]
proof fn lemma_corner_1_0_first_1(a: u32, b: u32, s: nat)
    requires
        valid_subdivision(s),
        3 <= grid_max(s),
        cell_has_edge(1, 0, 0, 1, a, b, s),
    ensures
        buffer_has_edge(s, b, a),
{
    lemma_layout(s);
    let m = grid_max(s);
    lemma_all_neighbors_of_vid(s);
    lemma_pole_neighbors(s);
    lemma_row_cell_values(1, 0, 0, s);
    lemma_row_cell_values(1, 0, 1, s);
    lemma_row_cell_values(1, 1, 0, s);
    reveal(face_0_neighbors);
    reveal(face_1_neighbors);
    reveal(face_2_neighbors);
    reveal(face_3_neighbors);
    reveal(face_4_neighbors);
    reveal(face_5_neighbors);
    if slot(1, 0, 0, 3, s) == a && slot(1, 0, 0, 4, s) == b {
        lemma_cell_edge(1, 0, 0, 0, b, a, s);
    } else if slot(1, 0, 0, 4, s) == a && slot(1, 0, 0, 5, s) == b {
        lemma_cell_edge(1, 0, 1, 0, b, a, s);
    } else {
        lemma_cell_edge(1, 1, 0, 0, b, a, s);
    }
}

#[verifier::rlimit(50)]
proof fn lemma_corner_1_0_before_last_0(a: u32, b: u32, s: nat)
    requires
        valid_subdivision(s),
        3 <= grid_max(s),
        cell_has_edge(1, 0, (grid_max(s) - 1) as nat, 0, a, b, s),
    ensures
        buffer_has_edge(s, b, a),
{
    lemma_layout(s);
    let m = grid_max(s);
    lemma_all_neighbors_of_vid(s);
    lemma_pole_neighbors(s);
    lemma_row_cell_values(1, 0, (m - 1) as nat, s);
    lemma_seam_cell(m, s);
    lemma_row_cell_values(1, 0, (m - 2) as nat, s);
    reveal(face_0_neighbors);
    reveal(face_1_neighbors);
    reveal(face_2_neighbors);
    reveal(face_3_neighbors);
    reveal(face_4_neighbors);
    reveal(face_5_neighbors);
    if slot(1, 0, (m - 1) as nat, 0, s) == a && slot(1, 0, (m - 1) as nat, 1, s) == b {
        lemma_cell_edge(4, m, m, 1, b, a, s);
    } else if slot(1, 0, (m - 1) as nat, 1, s) == a && slot(1, 0, (m - 1) as nat, 2, s) == b {
        lemma_cell_edge(1, 0, (m - 1) as nat, 1, b, a, s);
    } else {
        lemma_cell_edge(1, 0, (m - 2) as nat, 1, b, a, s);
    }
}

#[verifier::rlimit(50)]
proof fn lemma_corner_1_0_before_last_1(a: u32, b: u32, s: nat)
    requires
        valid_subdivision(s),
        3 <= grid_max(s),
        cell_has_edge(1, 0, (grid_max(s) - 1) as nat, 1, a, b, s),
    ensures
        buffer_has_edge(s, b, a),
{
    lemma_layout(s);
    let m = grid_max(s);
    lemma_all_neighbors_of_vid(s);
    lemma_pole_neighbors(s);
    lemma_row_cell_values(1, 0, (m - 1) as nat, s);
    lemma_row_cell_values(1, 0, m, s);
    lemma_row_cell_values(1, 1, (m - 1) as nat, s);
    reveal(face_0_neighbors);
    reveal(face_1_neighbors);
    reveal(face_2_neighbors);
    reveal(face_3_neighbors);
    reveal(face_4_neighbors);
    reveal(face_5_neighbors);
    if slot(1, 0, (m - 1) as nat, 3, s) == a && slot(1, 0, (m - 1) as nat, 4, s) == b {
        lemma_cell_edge(1, 0, (m - 1) as nat, 0, b, a, s);
    } else if slot(1, 0, (m - 1) as nat, 4, s) == a && slot(1, 0, (m - 1) as nat, 5, s) == b {
        lemma_cell_edge(1, 0, m, 0, b, a, s);
    } else {
        lemma_cell_edge(1, 1, (m - 1) as nat, 0, b, a, s);
    }
}

#[verifier::rlimit(50)]
proof fn lemma_corner_1_0_last_0(a: u32, b: u32, s: nat)
    requires
        valid_subdivision(s),
        3 <= grid_max(s),
        cell_has_edge(1, 0, grid_max(s), 0, a, b, s),
    ensures
        buffer_has_edge(s, b, a),
{
    lemma_layout(s);
    let m = grid_max(s);
    lemma_all_neighbors_of_vid(s);
    lemma_pole_neighbors(s);
    lemma_row_cell_values(1, 0, m, s);
    lemma_seam_cell(m, s);
    lemma_row_cell_values(1, 0, (m - 1) as nat, s);
    reveal(face_0_neighbors);
    reveal(face_1_neighbors);
    reveal(face_2_neighbors);
    reveal(face_3_neighbors);
    reveal(face_4_neighbors);
    reveal(face_5_neighbors);
    if slot(1, 0, m, 0, s) == a && slot(1, 0, m, 1, s) == b {
        lemma_cell_edge(4, m, m, 1, b, a, s);
    } else if slot(1, 0, m, 1, s) == a && slot(1, 0, m, 2, s) == b {
        lemma_cell_edge(1, 0, m, 1, b, a, s);
    } else {
        lemma_cell_edge(1, 0, (m - 1) as nat, 1, b, a, s);
    }
}

#[verifier::rlimit(50)]
proof fn lemma_corner_1_0_last_1(a: u32, b: u32, s: nat)
    requires
        valid_subdivision(s),
        3 <= grid_max(s),
        cell_has_edge(1, 0, grid_max(s), 1, a, b, s),
    ensures
        buffer_has_edge(s, b, a),
{
    lemma_layout(s);
    let m = grid_max(s);
    lemma_all_neighbors_of_vid(s);
    lemma_pole_neighbors(s);
    lemma_row_cell_values(1, 0, m, s);
    lemma_row_cell_values(3, 0, 0, s);
    lemma_row_cell_values(1, 1, m, s);
    reveal(face_0_neighbors);
    reveal(face_1_neighbors);
    reveal(face_2_neighbors);
    reveal(face_3_neighbors);
    reveal(face_4_neighbors);
    reveal(face_5_neighbors);
    if slot(1, 0, m, 3, s) == a && slot(1, 0, m, 4, s) == b {
        lemma_cell_edge(1, 0, m, 0, b, a, s);
    } else if slot(1, 0, m, 4, s) == a && slot(1, 0, m, 5, s) == b {
        lemma_cell_edge(3, 0, 0, 0, b, a, s);
    } else {
        lemma_cell_edge(1, 1, m, 0, b, a, s);
    }
}

#[verifier::rlimit(50)]
proof fn lemma_corner_1_below_first_0(a: u32, b: u32, s: nat)
    requires
        valid_subdivision(s),
        3 <= grid_max(s),
        cell_has_edge(1, (grid_max(s) - 1) as nat, 0, 0, a, b, s),
    ensures
        buffer_has_edge(s, b, a),
{
    lemma_layout(s);
    let m = grid_max(s);
    lemma_all_neighbors_of_vid(s);
    lemma_pole_neighbors(s);
    lemma_row_cell_values(1, (m - 1) as nat, 0, s);
    lemma_row_cell_values(1, (m - 2) as nat, 0, s);
    lemma_row_cell_values(2, (m - 2) as nat, m, s);
    reveal(face_0_neighbors);
    reveal(face_1_neighbors);
    reveal(face_2_neighbors);
    reveal(face_3_neighbors);
    reveal(face_4_neighbors);
    reveal(face_5_neighbors);
    if slot(1, (m - 1) as nat, 0, 0, s) == a && slot(1, (m - 1) as nat, 0, 1, s) == b {
        lemma_cell_edge(1, (m - 2) as nat, 0, 1, b, a, s);
    } else if slot(1, (m - 1) as nat, 0, 1, s) == a && slot(1, (m - 1) as nat, 0, 2, s) == b {
        lemma_cell_edge(1, (m - 1) as nat, 0, 1, b, a, s);
    } else {
        lemma_cell_edge(2, (m - 2) as nat, m, 1, b, a, s);
    }
}

#[verifier::rlimit(50)]
proof fn lemma_corner_1_below_first_1(a: u32, b: u32, s: nat)
    requires
        valid_subdivision(s),
        3 <= grid_max(s),
        cell_has_edge(1, (grid_max(s) - 1) as nat, 0, 1, a, b, s),
    ensures
        buffer_has_edge(s, b, a),
{
    lemma_layout(s);
    let m = grid_max(s);
    lemma_all_neighbors_of_vid(s);
    lemma_pole_neighbors(s);
    lemma_row_cell_values(1, (m - 1) as nat, 0, s);
    lemma_row_cell_values(1, (m - 1) as nat, 1, s);
    lemma_row_cell_values(1, m, 0, s);
    reveal(face_0_neighbors);
    reveal(face_1_neighbors);
    reveal(face_2_neighbors);
    reveal(face_3_neighbors);
    reveal(face_4_neighbors);
    reveal(face_5_neighbors);
    if slot(1, (m - 1) as nat, 0, 3, s) == a && slot(1, (m - 1) as nat, 0, 4, s) == b {
        lemma_cell_edge(1, (m - 1) as nat, 0, 0, b, a, s);
    } else if slot(1, (m - 1) as nat, 0, 4, s) == a && slot(1, (m - 1) as nat, 0, 5, s) == b {
        lemma_cell_edge(1, (m - 1) as nat, 1, 0, b, a, s);
    } else {
        lemma_cell_edge(1, m, 0, 0, b, a, s);
    }
}

#[verifier::rlimit(50)]
proof fn lemma_corner_1_below_before_last_0(a: u32, b: u32, s: nat)
    requires
        valid_subdivision(s),
        3 <= grid_max(s),
        cell_has_edge(1, (grid_max(s) - 1) as nat, (grid_max(s) - 1) as nat, 0, a, b, s),
    ensures
        buffer_has_edge(s, b, a),
{
    lemma_layout(s);
    let m = grid_max(s);
    lemma_all_neighbors_of_vid(s);
    lemma_pole_neighbors(s);
    lemma_row_cell_values(1, (m - 1) as nat, (m - 1) as nat, s);
    lemma_row_cell_values(1, (m - 2) as nat, (m - 1) as nat, s);
    lemma_row_cell_values(1, (m - 1) as nat, (m - 2) as nat, s);
    reveal(face_0_neighbors);
    reveal(face_1_neighbors);
    reveal(face_2_neighbors);
    reveal(face_3_neighbors);
    reveal(face_4_neighbors);
    reveal(face_5_neighbors);
    if slot(1, (m - 1) as nat, (m - 1) as nat, 0, s) == a && slot(1, (m - 1) as nat, (m - 1) as nat, 1, s) == b {
        lemma_cell_edge(1, (m - 2) as nat, (m - 1) as nat, 1, b, a, s);
    } else if slot(1, (m - 1) as nat, (m - 1) as nat, 1, s) == a && slot(1, (m - 1) as nat, (m - 1) as nat, 2, s) == b {
        lemma_cell_edge(1, (m - 1) as nat, (m - 1) as nat, 1, b, a, s);
    } else {
        lemma_cell_edge(1, (m - 1) as nat, (m - 2) as nat, 1, b, a, s);
    }
}

#[verifier::rlimit(50)]
proof fn lemma_corner_1_below_before_last_1(a: u32, b: u32, s: nat)
    requires
        valid_subdivision(s),
        3 <= grid_max(s),
        cell_has_edge(1, (grid_max(s) - 1) as nat, (grid_max(s) - 1) as nat, 1, a, b, s),
    ensures
        buffer_has_edge(s, b, a),
{
    lemma_layout(s);
    let m = grid_max(s);
    lemma_all_neighbors_of_vid(s);
    lemma_pole_neighbors(s);
    lemma_row_cell_values(1, (m - 1) as nat, (m - 1) as nat, s);
    lemma_row_cell_values(1, (m - 1) as nat, m, s);
    lemma_row_cell_values(1, m, (m - 1) as nat, s);
    reveal(face_0_neighbors);
    reveal(face_1_neighbors);
    reveal(face_2_neighbors);
    reveal(face_3_neighbors);
    reveal(face_4_neighbors);
    reveal(face_5_neighbors);
    if slot(1, (m - 1) as nat, (m - 1) as nat, 3, s) == a && slot(1, (m - 1) as nat, (m - 1) as nat, 4, s) == b {
        lemma_cell_edge(1, (m - 1) as nat, (m - 1) as nat, 0, b, a, s);
    } else if slot(1, (m - 1) as nat, (m - 1) as nat, 4, s) == a && slot(1, (m - 1) as nat, (m - 1) as nat, 5, s) == b {
        lemma_cell_edge(1, (m - 1) as nat, m, 0, b, a, s);
    } else {
        lemma_cell_edge(1, m, (m - 1) as nat, 0, b, a, s);
    }
}

#[verifier::rlimit(50)]
proof fn lemma_corner_1_below_last_0(a: u32, b: u32, s: nat)
    requires
        valid_subdivision(s),
        3 <= grid_max(s),
        cell_has_edge(1, (grid_max(s) - 1) as nat, grid_max(s), 0, a, b, s),
    ensures
        buffer_has_edge(s, b, a),
{
    lemma_layout(s);
    let m = grid_max(s);
    lemma_all_neighbors_of_vid(s);
    lemma_pole_neighbors(s);
    lemma_row_cell_values(1, (m - 1) as nat, m, s);
    lemma_row_cell_values(1, (m - 2) as nat, m, s);
    lemma_row_cell_values(1, (m - 1) as nat, (m - 1) as nat, s);
    reveal(face_0_neighbors);
    reveal(face_1_neighbors);
    reveal(face_2_neighbors);
    reveal(face_3_neighbors);
    reveal(face_4_neighbors);
    reveal(face_5_neighbors);
    if slot(1, (m - 1) as nat, m, 0, s) == a && slot(1, (m - 1) as nat, m, 1, s) == b {
        lemma_cell_edge(1, (m - 2) as nat, m, 1, b, a, s);
    } else if slot(1, (m - 1) as nat, m, 1, s) == a && slot(1, (m - 1) as nat, m, 2, s) == b {
        lemma_cell_edge(1, (m - 1) as nat, m, 1, b, a, s);
    } else {
        lemma_cell_edge(1, (m - 1) as nat, (m - 1) as nat, 1, b, a, s);
    }
}

#[verifier::rlimit(50)]
proof fn lemma_corner_1_below_last_1(a: u32, b: u32, s: nat)
    requires
        valid_subdivision(s),
        3 <= grid_max(s),
        cell_has_edge(1, (grid_max(s) - 1) as nat, grid_max(s), 1, a, b, s),
    ensures
        buffer_has_edge(s, b, a),
{
    lemma_layout(s);
    let m = grid_max(s);
    lemma_all_neighbors_of_vid(s);
    lemma_pole_neighbors(s);
    lemma_row_cell_values(1, (m - 1) as nat, m, s);
    lemma_row_cell_values(3, (m - 1) as nat, 0, s);
    lemma_row_cell_values(1, m, m, s);
    reveal(face_0_neighbors);
    reveal(face_1_neighbors);
    reveal(face_2_neighbors);
    reveal(face_3_neighbors);
    reveal(face_4_neighbors);
    reveal(face_5_neighbors);
    if slot(1, (m - 1) as nat, m, 3, s) == a && slot(1, (m - 1) as nat, m, 4, s) == b {
        lemma_cell_edge(1, (m - 1) as nat, m, 0, b, a, s);
    } else if slot(1, (m - 1) as nat, m, 4, s) == a && slot(1, (m - 1) as nat, m, 5, s) == b {
        lemma_cell_edge(3, (m - 1) as nat, 0, 0, b, a, s);
    } else {
        lemma_cell_edge(1, m, m, 0, b, a, s);
    }
}

#[verifier::rlimit(50)]
proof fn lemma_corner_1_top_first_0(a: u32, b: u32, s: nat)
    requires
        valid_subdivision(s),
        3 <= grid_max(s),
        cell_has_edge(1, grid_max(s), 0, 0, a, b, s),
    ensures
        buffer_has_edge(s, b, a),
{
    lemma_layout(s);
    let m = grid_max(s);
    lemma_all_neighbors_of_vid(s);
    lemma_pole_neighbors(s);
    lemma_row_cell_values(1, m, 0, s);
    lemma_row_cell_values(1, (m - 1) as nat, 0, s);
    lemma_row_cell_values(2, (m - 1) as nat, m, s);
    reveal(face_0_neighbors);
    reveal(face_1_neighbors);
    reveal(face_2_neighbors);
    reveal(face_3_neighbors);
    reveal(face_4_neighbors);
    reveal(face_5_neighbors);
    if slot(1, m, 0, 0, s) == a && slot(1, m, 0, 1, s) == b {
        lemma_cell_edge(1, (m - 1) as nat, 0, 1, b, a, s);
    } else if slot(1, m, 0, 1, s) == a && slot(1, m, 0, 2, s) == b {
        lemma_cell_edge(1, m, 0, 1, b, a, s);
    } else {
        lemma_cell_edge(2, (m - 1) as nat, m, 1, b, a, s);
    }
}

#[verifier::rlimit(50)]
proof fn lemma_corner_1_top_first_1(a: u32, b: u32, s: nat)
    requires
        valid_subdivision(s),
        3 <= grid_max(s),
        cell_has_edge(1, grid_max(s), 0, 1, a, b, s),
    ensures
        buffer_has_edge(s, b, a),
{
    lemma_layout(s);
    let m = grid_max(s);
    lemma_all_neighbors_of_vid(s);
    lemma_pole_neighbors(s);
    lemma_row_cell_values(1, m, 0, s);
    lemma_row_cell_values(1, m, 1, s);
    lemma_row_cell_values(4, 0, (m - 1) as nat, s);
    reveal(face_0_neighbors);
    reveal(face_1_neighbors);
    reveal(face_2_neighbors);
    reveal(face_3_neighbors);
    reveal(face_4_neighbors);
    reveal(face_5_neighbors);
    if slot(1, m, 0, 3, s) == a && slot(1, m, 0, 4, s) == b {
        lemma_cell_edge(1, m, 0, 0, b, a, s);
    } else if slot(1, m, 0, 4, s) == a && slot(1, m, 0, 5, s) == b {
        lemma_cell_edge(1, m, 1, 0, b, a, s);
    } else {
        lemma_cell_edge(4, 0, (m - 1) as nat, 1, b, a, s);
    }
}

#[verifier::rlimit(50)]
proof fn lemma_corner_1_top_before_last_0(a: u32, b: u32, s: nat)
    requires
        valid_subdivision(s),
        3 <= grid_max(s),
        cell_has_edge(1, grid_max(s), (grid_max(s) - 1) as nat, 0, a, b, s),
    ensures
        buffer_has_edge(s, b, a),
{
    lemma_layout(s);
    let m = grid_max(s);
    lemma_all_neighbors_of_vid(s);
    lemma_pole_neighbors(s);
    lemma_row_cell_values(1, m, (m - 1) as nat, s);
    lemma_row_cell_values(1, (m - 1) as nat, (m - 1) as nat, s);
    lemma_row_cell_values(1, m, (m - 2) as nat, s);
    reveal(face_0_neighbors);
    reveal(face_1_neighbors);
    reveal(face_2_neighbors);
    reveal(face_3_neighbors);
    reveal(face_4_neighbors);
    reveal(face_5_neighbors);
    if slot(1, m, (m - 1) as nat, 0, s) == a && slot(1, m, (m - 1) as nat, 1, s) == b {
        lemma_cell_edge(1, (m - 1) as nat, (m - 1) as nat, 1, b, a, s);
    } else if slot(1, m, (m - 1) as nat, 1, s) == a && slot(1, m, (m - 1) as nat, 2, s) == b {
        lemma_cell_edge(1, m, (m - 1) as nat, 1, b, a, s);
    } else {
        lemma_cell_edge(1, m, (m - 2) as nat, 1, b, a, s);
    }
}

#[verifier::rlimit(50)]
proof fn lemma_corner_1_top_before_last_1(a: u32, b: u32, s: nat)
    requires
        valid_subdivision(s),
        3 <= grid_max(s),
        cell_has_edge(1, grid_max(s), (grid_max(s) - 1) as nat, 1, a, b, s),
    ensures
        buffer_has_edge(s, b, a),
{
    lemma_layout(s);
    let m = grid_max(s);
    lemma_all_neighbors_of_vid(s);
    lemma_pole_neighbors(s);
    lemma_row_cell_values(1, m, (m - 1) as nat, s);
    lemma_row_cell_values(1, m, m, s);
    lemma_row_cell_values(4, (m - 1) as nat, (m - 1) as nat, s);
    reveal(face_0_neighbors);
    reveal(face_1_neighbors);
    reveal(face_2_neighbors);
    reveal(face_3_neighbors);
    reveal(face_4_neighbors);
    reveal(face_5_neighbors);
    if slot(1, m, (m - 1) as nat, 3, s) == a && slot(1, m, (m - 1) as nat, 4, s) == b {
        lemma_cell_edge(1, m, (m - 1) as nat, 0, b, a, s);
    } else if slot(1, m, (m - 1) as nat, 4, s) == a && slot(1, m, (m - 1) as nat, 5, s) == b {
        lemma_cell_edge(1, m, m, 0, b, a, s);
    } else {
        lemma_cell_edge(4, (m - 1) as nat, (m - 1) as nat, 1, b, a, s);
    }
}

#[verifier::rlimit(50)]
proof fn lemma_corner_1_top_last_0(a: u32, b: u32, s: nat)
    requires
        valid_subdivision(s),
        3 <= grid_max(s),
        cell_has_edge(1, grid_max(s), grid_max(s), 0, a, b, s),
    ensures
        buffer_has_edge(s, b, a),
{
    lemma_layout(s);
    let m = grid_max(s);
    lemma_all_neighbors_of_vid(s);
    lemma_pole_neighbors(s);
    lemma_row_cell_values(1, m, m, s);
    lemma_row_cell_values(1, (m - 1) as nat, m, s);
    lemma_row_cell_values(1, m, (m - 1) as nat, s);
    reveal(face_0_neighbors);
    reveal(face_1_neighbors);
    reveal(face_2_neighbors);
    reveal(face_3_neighbors);
    reveal(face_4_neighbors);
    reveal(face_5_neighbors);
    if slot(1, m, m, 0, s) == a && slot(1, m, m, 1, s) == b {
        lemma_cell_edge(1, (m - 1) as nat, m, 1, b, a, s);
    } else if slot(1, m, m, 1, s) == a && slot(1, m, m, 2, s) == b {
        lemma_cell_edge(1, m, m, 1, b, a, s);
    } else {
        lemma_cell_edge(1, m, (m - 1) as nat, 1, b, a, s);
    }
}

#[verifier::rlimit(50)]
proof fn lemma_corner_1_top_last_1(a: u32, b: u32, s: nat)
    requires
        valid_subdivision(s),
        3 <= grid_max(s),
        cell_has_edge(1, grid_max(s), grid_max(s), 1, a, b, s),
    ensures
        buffer_has_edge(s, b, a),
{
    lemma_layout(s);
    let m = grid_max(s);
    lemma_all_neighbors_of_vid(s);
    lemma_pole_neighbors(s);
    lemma_row_cell_values(1, m, m, s);
    lemma_row_cell_values(3, m, 0, s);
    lemma_row_cell_values(4, (m - 1) as nat, (m - 1) as nat, s);
    reveal(face_0_neighbors);
    reveal(face_1_neighbors);
    reveal(face_2_neighbors);
    reveal(face_3_neighbors);
    reveal(face_4_neighbors);
    reveal(face_5_neighbors);
    if slot(1, m, m, 3, s) == a && slot(1, m, m, 4, s) == b {
        lemma_cell_edge(1, m, m, 0, b, a, s);
    } else if slot(1, m, m, 4, s) == a && slot(1, m, m, 5, s) == b {
        lemma_cell_edge(3, m, 0, 0, b, a, s);
    } else {
        lemma_cell_edge(4, (m - 1) as nat, (m - 1) as nat, 1, b, a, s);
    }
}

#[verifier::rlimit(50)]
proof fn lemma_corner_2_0_first_0(a: u32, b: u32, s: nat)
    requires
        valid_subdivision(s),
        3 <= grid_max(s),
        cell_has_edge(2, 0, 0, 0, a, b, s),
    ensures
        buffer_has_edge(s, b, a),
{
    lemma_layout(s);
    let m = grid_max(s);
    lemma_all_neighbors_of_vid(s);
    lemma_pole_neighbors(s);
    lemma_row_cell_values(2, 0, 0, s);
    lemma_row_cell_values(5, m, 1, s);
    lemma_row_cell_values(0, 0, m, s);
    reveal(face_0_neighbors);
    reveal(face_1_neighbors);
    reveal(face_2_neighbors);
    reveal(face_3_neighbors);
    reveal(face_4_neighbors);
    reveal(face_5_neighbors);
    if slot(2, 0, 0, 0, s) == a && slot(2, 0, 0, 1, s) == b {
        lemma_cell_edge(5, m, 1, 1, b, a, s);
    } else if slot(2, 0, 0, 1, s) == a && slot(2, 0, 0, 2, s) == b {
        lemma_cell_edge(2, 0, 0, 1, b, a, s);
    } else {
        lemma_cell_edge(0, 0, m, 1, b, a, s);
    }
}

#[verifier::rlimit(50)]
proof fn lemma_corner_2_0_first_1(a: u32, b: u32, s: nat)
    requires
        valid_subdivision(s),
        3 <= grid_max(s),
        cell_has_edge(2, 0, 0, 1, a, b, s),
    ensures
        buffer_has_edge(s, b, a),
{
    lemma_layout(s);
    let m = grid_max(s);
    lemma_all_neighbors_of_vid(s);
    lemma_pole_neighbors(s);
    lemma_row_cell_values(2, 0, 0, s);
    lemma_row_cell_values(2, 0, 1, s);
    lemma_row_cell_values(2, 1, 0, s);
    reveal(face_0_neighbors);
    reveal(face_1_neighbors);
    reveal(face_2_neighbors);
    reveal(face_3_neighbors);
    reveal(face_4_neighbors);
    reveal(face_5_neighbors);
    if slot(2, 0, 0, 3, s) == a && slot(2, 0, 0, 4, s) == b {
        lemma_cell_edge(2, 0, 0, 0, b, a, s);
    } else if slot(2, 0, 0, 4, s) == a && slot(2, 0, 0, 5, s) == b {
        lemma_cell_edge(2, 0, 1, 0, b, a, s);
    } else {
        lemma_cell_edge(2, 1, 0, 0, b, a, s);
    }
}

#[verifier::rlimit(50)]
proof fn lemma_corner_2_0_before_last_0(a: u32, b: u32, s: nat)
    requires
        valid_subdivision(s),
        3 <= grid_max(s),
        cell_has_edge(2, 0, (grid_max(s) - 1) as nat, 0, a, b, s),
    ensures
        buffer_has_edge(s, b, a),
{
    lemma_layout(s);
    let m = grid_max(s);
    lemma_all_neighbors_of_vid(s);
    lemma_pole_neighbors(s);
    lemma_row_cell_values(2, 0, (m - 1) as nat, s);
    lemma_row_cell_values(5, m, m, s);
    lemma_row_cell_values(2, 0, (m - 2) as nat, s);
    reveal(face_0_neighbors);
    reveal(face_1_neighbors);
    reveal(face_2_neighbors);
    reveal(face_3_neighbors);
    reveal(face_4_neighbors);
    reveal(face_5_neighbors);
    if slot(2, 0, (m - 1) as nat, 0, s) == a && slot(2, 0, (m - 1) as nat, 1, s) == b {
        lemma_cell_edge(5, m, m, 1, b, a, s);
    } else if slot(2, 0, (m - 1) as nat, 1, s) == a && slot(2, 0, (m - 1) as nat, 2, s) == b {
        lemma_cell_edge(2, 0, (m - 1) as nat, 1, b, a, s);
    } else {
        lemma_cell_edge(2, 0, (m - 2) as nat, 1, b, a, s);
    }
}

#[verifier::rlimit(50)]
proof fn lemma_corner_2_0_before_last_1(a: u32, b: u32, s: nat)
    requires
        valid_subdivision(s),
        3 <= grid_max(s),
        cell_has_edge(2, 0, (grid_max(s) - 1) as nat, 1, a, b, s),
    ensures
        buffer_has_edge(s, b, a),
{
    lemma_layout(s);
    let m = grid_max(s);
    lemma_all_neighbors_of_vid(s);
    lemma_pole_neighbors(s);
    lemma_row_cell_values(2, 0, (m - 1) as nat, s);
    lemma_row_cell_values(2, 0, m, s);
    lemma_row_cell_values(2, 1, (m - 1) as nat, s);
    reveal(face_0_neighbors);
    reveal(face_1_neighbors);
    reveal(face_2_neighbors);
    reveal(face_3_neighbors);
    reveal(face_4_neighbors);
    reveal(face_5_neighbors);
    if slot(2, 0, (m - 1) as nat, 3, s) == a && slot(2, 0, (m - 1) as nat, 4, s) == b {
        lemma_cell_edge(2, 0, (m - 1) as nat, 0, b, a, s);
    } else if slot(2, 0, (m - 1) as nat, 4, s) == a && slot(2, 0, (m - 1) as nat, 5, s) == b {
        lemma_cell_edge(2, 0, m, 0, b, a, s);
    } else {
        lemma_cell_edge(2, 1, (m - 1) as nat, 0, b, a, s);
    }
}

#[verifier::rlimit(100)]
proof fn lemma_corner_2_0_last_0(a: u32, b: u32, s: nat)
    requires
        valid_subdivision(s),
        3 <= grid_max(s),
        cell_has_edge(2, 0, grid_max(s), 0, a, b, s),
    ensures
        buffer_has_edge(s, b, a),
{
    lemma_layout(s);
    let m = grid_max(s);
    lemma_all_neighbors_of_vid(s);
    lemma_pole_neighbors(s);
    lemma_row_cell_values(2, 0, m, s);
    lemma_cap_values(2, s);
    lemma_row_cell_values(2, 0, (m - 1) as nat, s);
    reveal(face_0_neighbors);
    reveal(face_1_neighbors);
    reveal(face_2_neighbors);
    reveal(face_3_neighbors);
    reveal(face_4_neighbors);
    reveal(face_5_neighbors);
    if slot(2, 0, m, 0, s) == a && slot(2, 0, m, 1, s) == b {
        lemma_cell_edge(2, m, m, 1, b, a, s);
    } else if slot(2, 0, m, 1, s) == a && slot(2, 0, m, 2, s) == b {
        lemma_cell_edge(2, 0, m, 1, b, a, s);
    } else {
        lemma_cell_edge(2, 0, (m - 1) as nat, 1, b, a, s);
    }
}

#[verifier::rlimit(50)]
proof fn lemma_corner_2_0_last_1(a: u32, b: u32, s: nat)
    requires
        valid_subdivision(s),
        3 <= grid_max(s),
        cell_has_edge(2, 0, grid_max(s), 1, a, b, s),
    ensures
        buffer_has_edge(s, b, a),
{
    lemma_layout(s);
    let m = grid_max(s);
    lemma_all_neighbors_of_vid(s);
    lemma_pole_neighbors(s);
    lemma_row_cell_values(2, 0, m, s);
    lemma_row_cell_values(1, 1, 0, s);
    lemma_row_cell_values(2, 1, m, s);
    reveal(face_0_neighbors);
    reveal(face_1_neighbors);
    reveal(face_2_neighbors);
    reveal(face_3_neighbors);
    reveal(face_4_neighbors);
    reveal(face_5_neighbors);
    if slot(2, 0, m, 3, s) == a && slot(2, 0, m, 4, s) == b {
        lemma_cell_edge(2, 0, m, 0, b, a, s);
    } else if slot(2, 0, m, 4, s) == a && slot(2, 0, m, 5, s) == b {
        lemma_cell_edge(1, 1, 0, 0, b, a, s);
    } else {
        lemma_cell_edge(2, 1, m, 0, b, a, s);
    }
}

#[verifier::rlimit(50)]
proof fn lemma_corner_2_below_first_0(a: u32, b: u32, s: nat)
    requires
        valid_subdivision(s),
        3 <= grid_max(s),
        cell_has_edge(2, (grid_max(s) - 1) as nat, 0, 0, a, b, s),
    ensures
        buffer_has_edge(s, b, a),
{
    lemma_layout(s);
    let m = grid_max(s);
    lemma_all_neighbors_of_vid(s);
    lemma_pole_neighbors(s);
    lemma_row_cell_values(2, (m - 1) as nat, 0, s);
    lemma_row_cell_values(2, (m - 2) as nat, 0, s);
    lemma_row_cell_values(0, (m - 1) as nat, m, s);
    reveal(face_0_neighbors);
    reveal(face_1_neighbors);
    reveal(face_2_neighbors);
    reveal(face_3_neighbors);
    reveal(face_4_neighbors);
    reveal(face_5_neighbors);
    if slot(2, (m - 1) as nat, 0, 0, s) == a && slot(2, (m - 1) as nat, 0, 1, s) == b {
        lemma_cell_edge(2, (m - 2) as nat, 0, 1, b, a, s);
    } else if slot(2, (m - 1) as nat, 0, 1, s) == a && slot(2, (m - 1) as nat, 0, 2, s) == b {
        lemma_cell_edge(2, (m - 1) as nat, 0, 1, b, a, s);
    } else {
        lemma_cell_edge(0, (m - 1) as nat, m, 1, b, a, s);
    }
}

#[verifier::rlimit(50)]
proof fn lemma_corner_2_below_first_1(a: u32, b: u32, s: nat)
    requires
        valid_subdivision(s),
        3 <= grid_max(s),
        cell_has_edge(2, (grid_max(s) - 1) as nat, 0, 1, a, b, s),
    ensures
        buffer_has_edge(s, b, a),
{
    lemma_layout(s);
    let m = grid_max(s);
    lemma_all_neighbors_of_vid(s);
    lemma_pole_neighbors(s);
    lemma_row_cell_values(2, (m - 1) as nat, 0, s);
    lemma_row_cell_values(2, (m - 1) as nat, 1, s);
    lemma_row_cell_values(2, m, 0, s);
    reveal(face_0_neighbors);
    reveal(face_1_neighbors);
    reveal(face_2_neighbors);
    reveal(face_3_neighbors);
    reveal(face_4_neighbors);
    reveal(face_5_neighbors);
    if slot(2, (m - 1) as nat, 0, 3, s) == a && slot(2, (m - 1) as nat, 0, 4, s) == b {
        lemma_cell_edge(2, (m - 1) as nat, 0, 0, b, a, s);
    } else if slot(2, (m - 1) as nat, 0, 4, s) == a && slot(2, (m - 1) as nat, 0, 5, s) == b {
        lemma_cell_edge(2, (m - 1) as nat, 1, 0, b, a, s);
    } else {
        lemma_cell_edge(2, m, 0, 0, b, a, s);
    }
}

#[verifier::rlimit(50)]
proof fn lemma_corner_2_below_before_last_0(a: u32, b: u32, s: nat)
    requires
        valid_subdivision(s),
        3 <= grid_max(s),
        cell_has_edge(2, (grid_max(s) - 1) as nat, (grid_max(s) - 1) as nat, 0, a, b, s),
    ensures
        buffer_has_edge(s, b, a),
{
    lemma_layout(s);
    let m = grid_max(s);
    lemma_all_neighbors_of_vid(s);
    lemma_pole_neighbors(s);
    lemma_row_cell_values(2, (m - 1) as nat, (m - 1) as nat, s);
    lemma_row_cell_values(2, (m - 2) as nat, (m - 1) as nat, s);
    lemma_row_cell_values(2, (m - 1) as nat, (m - 2) as nat, s);
    reveal(face_0_neighbors);
    reveal(face_1_neighbors);
    reveal(face_2_neighbors);
    reveal(face_3_neighbors);
    reveal(face_4_neighbors);
    reveal(face_5_neighbors);
    if slot(2, (m - 1) as nat, (m - 1) as nat, 0, s) == a && slot(2, (m - 1) as nat, (m - 1) as nat, 1, s) == b {
        lemma_cell_edge(2, (m - 2) as nat, (m - 1) as nat, 1, b, a, s);
    } else if slot(2, (m - 1) as nat, (m - 1) as nat, 1, s) == a && slot(2, (m - 1) as nat, (m - 1) as nat, 2, s) == b {
        lemma_cell_edge(2, (m - 1) as nat, (m - 1) as nat, 1, b, a, s);
    } else {
        lemma_cell_edge(2, (m - 1) as nat, (m - 2) as nat, 1, b, a, s);
    }
}

#[verifier::rlimit(50)]
proof fn lemma_corner_2_below_before_last_1(a: u32, b: u32, s: nat)
    requires
        valid_subdivision(s),
        3 <= grid_max(s),
        cell_has_edge(2, (grid_max(s) - 1) as nat, (grid_max(s) - 1) as nat, 1, a, b, s),
    ensures
        buffer_has_edge(s, b, a),
{
    lemma_layout(s);
    let m = grid_max(s);
    lemma_all_neighbors_of_vid(s);
    lemma_pole_neighbors(s);
    lemma_row_cell_values(2, (m - 1) as nat, (m - 1) as nat, s);
    lemma_row_cell_values(2, (m - 1) as nat, m, s);
    lemma_row_cell_values(2, m, (m - 1) as nat, s);
    reveal(face_0_neighbors);
    reveal(face_1_neighbors);
    reveal(face_2_neighbors);
    reveal(face_3_neighbors);
    reveal(face_4_neighbors);
    reveal(face_5_neighbors);
    if slot(2, (m - 1) as nat, (m - 1) as nat, 3, s) == a && slot(2, (m - 1) as nat, (m - 1) as nat, 4, s) == b {
        lemma_cell_edge(2, (m - 1) as nat, (m - 1) as nat, 0, b, a, s);
    } else if slot(2, (m - 1) as nat, (m - 1) as nat, 4, s) == a && slot(2, (m - 1) as nat, (m - 1) as nat, 5, s) == b {
        lemma_cell_edge(2, (m - 1) as nat, m, 0, b, a, s);
    } else {
        lemma_cell_edge(2, m, (m - 1) as nat, 0, b, a, s);
    }
}

#[verifier::rlimit(50)]
proof fn lemma_corner_2_below_last_0(a: u32, b: u32, s: nat)
    requires
        valid_subdivision(s),
        3 <= grid_max(s),
        cell_has_edge(2, (grid_max(s) - 1) as nat, grid_max(s), 0, a, b, s),
    ensures
        buffer_has_edge(s, b, a),
{
    lemma_layout(s);
    let m = grid_max(s);
    lemma_all_neighbors_of_vid(s);
    lemma_pole_neighbors(s);
    lemma_row_cell_values(2, (m - 1) as nat, m, s);
    lemma_row_cell_values(2, (m - 2) as nat, m, s);
    lemma_row_cell_values(2, (m - 1) as nat, (m - 1) as nat, s);
    reveal(face_0_neighbors);
    reveal(face_1_neighbors);
    reveal(face_2_neighbors);
    reveal(face_3_neighbors);
    reveal(face_4_neighbors);
    reveal(face_5_neighbors);
    if slot(2, (m - 1) as nat, m, 0, s) == a && slot(2, (m - 1) as nat, m, 1, s) == b {
        lemma_cell_edge(2, (m - 2) as nat, m, 1, b, a, s);
    } else if slot(2, (m - 1) as nat, m, 1, s) == a && slot(2, (m - 1) as nat, m, 2, s) == b {
        lemma_cell_edge(2, (m - 1) as nat, m, 1, b, a, s);
    } else {
        lemma_cell_edge(2, (m - 1) as nat, (m - 1) as nat, 1, b, a, s);
    }
}

#[verifier::rlimit(50)]
proof fn lemma_corner_2_below_last_1(a: u32, b: u32, s: nat)
    requires
        valid_subdivision(s),
        3 <= grid_max(s),
        cell_has_edge(2, (grid_max(s) - 1) as nat, grid_max(s), 1, a, b, s),
    ensures
        buffer_has_edge(s, b, a),
{
    lemma_layout(s);
    let m = grid_max(s);
    lemma_all_neighbors_of_vid(s);
    lemma_pole_neighbors(s);
    lemma_row_cell_values(2, (m - 1) as nat, m, s);
    lemma_row_cell_values(1, m, 0, s);
    lemma_row_cell_values(2, m, (m - 1) as nat, s);
    reveal(face_0_neighbors);
    reveal(face_1_neighbors);
    reveal(face_2_neighbors);
    reveal(face_3_neighbors);
    reveal(face_4_neighbors);
    reveal(face_5_neighbors);
    if slot(2, (m - 1) as nat, m, 3, s) == a && slot(2, (m - 1) as nat, m, 4, s) == b {
        lemma_cell_edge(2, (m - 1) as nat, m, 0, b, a, s);
    } else if slot(2, (m - 1) as nat, m, 4, s) == a && slot(2, (m - 1) as nat, m, 5, s) == b {
        lemma_cell_edge(1, m, 0, 0, b, a, s);
    } else {
        lemma_cell_edge(2, m, (m - 1) as nat, 1, b, a, s);
    }
}

#[verifier::rlimit(50)]
proof fn lemma_corner_2_top_first_0(a: u32, b: u32, s: nat)
    requires
        valid_subdivision(s),
        3 <= grid_max(s),
        cell_has_edge(2, grid_max(s), 0, 0, a, b, s),
    ensures
        buffer_has_edge(s, b, a),
{
    lemma_layout(s);
    let m = grid_max(s);
    lemma_all_neighbors_of_vid(s);
    lemma_pole_neighbors(s);
    lemma_row_cell_values(2, m, 0, s);
    lemma_row_cell_values(2, (m - 1) as nat, 0, s);
    lemma_row_cell_values(0, m, (m - 1) as nat, s);
    reveal(face_0_neighbors);
    reveal(face_1_neighbors);
    reveal(face_2_neighbors);
    reveal(face_3_neighbors);
    reveal(face_4_neighbors);
    reveal(face_5_neighbors);
    if slot(2, m, 0, 0, s) == a && slot(2, m, 0, 1, s) == b {
        lemma_cell_edge(2, (m - 1) as nat, 0, 1, b, a, s);
    } else if slot(2, m, 0, 1, s) == a && slot(2, m, 0, 2, s) == b {
        lemma_cell_edge(2, m, 0, 1, b, a, s);
    } else {
        lemma_cell_edge(0, m, (m - 1) as nat, 1, b, a, s);
    }
}

#[verifier::rlimit(50)]
proof fn lemma_corner_2_top_first_1(a: u32, b: u32, s: nat)
    requires
        valid_subdivision(s),
        3 <= grid_max(s),
        cell_has_edge(2, grid_max(s), 0, 1, a, b, s),
    ensures
        buffer_has_edge(s, b, a),
{
    lemma_layout(s);
    let m = grid_max(s);
    lemma_all_neighbors_of_vid(s);
    lemma_pole_neighbors(s);
    lemma_row_cell_values(2, m, 0, s);
    lemma_row_cell_values(2, m, 1, s);
    lemma_row_cell_values(4, 0, 0, s);
    reveal(face_0_neighbors);
    reveal(face_1_neighbors);
    reveal(face_2_neighbors);
    reveal(face_3_neighbors);
    reveal(face_4_neighbors);
    reveal(face_5_neighbors);
    if slot(2, m, 0, 3, s) == a && slot(2, m, 0, 4, s) == b {
        lemma_cell_edge(2, m, 0, 0, b, a, s);
    } else if slot(2, m, 0, 4, s) == a && slot(2, m, 0, 5, s) == b {
        lemma_cell_edge(2, m, 1, 0, b, a, s);
    } else {
        lemma_cell_edge(4, 0, 0, 0, b, a, s);
    }
}

#[verifier::rlimit(50)]
proof fn lemma_corner_2_top_before_last_0(a: u32, b: u32, s: nat)
    requires
        valid_subdivision(s),
        3 <= grid_max(s),
        cell_has_edge(2, grid_max(s), (grid_max(s) - 1) as nat, 0, a, b, s),
    ensures
        buffer_has_edge(s, b, a),
{
    lemma_layout(s);
    let m = grid_max(s);
    lemma_all_neighbors_of_vid(s);
    lemma_pole_neighbors(s);
    lemma_row_cell_values(2, m, (m - 1) as nat, s);
    lemma_row_cell_values(2, (m - 1) as nat, (m - 1) as nat, s);
    lemma_row_cell_values(2, m, (m - 2) as nat, s);
    reveal(face_0_neighbors);
    reveal(face_1_neighbors);
    reveal(face_2_neighbors);
    reveal(face_3_neighbors);
    reveal(face_4_neighbors);
    reveal(face_5_neighbors);
    if slot(2, m, (m - 1) as nat, 0, s) == a && slot(2, m, (m - 1) as nat, 1, s) == b {
        lemma_cell_edge(2, (m - 1) as nat, (m - 1) as nat, 1, b, a, s);
    } else if slot(2, m, (m - 1) as nat, 1, s) == a && slot(2, m, (m - 1) as nat, 2, s) == b {
        lemma_cell_edge(2, m, (m - 1) as nat, 1, b, a, s);
    } else {
        lemma_cell_edge(2, m, (m - 2) as nat, 1, b, a, s);
    }
}

#[verifier::rlimit(50)]
proof fn lemma_corner_2_top_before_last_1(a: u32, b: u32, s: nat)
    requires
        valid_subdivision(s),
        3 <= grid_max(s),
        cell_has_edge(2, grid_max(s), (grid_max(s) - 1) as nat, 1, a, b, s),
    ensures
        buffer_has_edge(s, b, a),
{
    lemma_layout(s);
    let m = grid_max(s);
    lemma_all_neighbors_of_vid(s);
    lemma_pole_neighbors(s);
    lemma_row_cell_values(2, m, (m - 1) as nat, s);
    lemma_row_cell_values(2, (m - 1) as nat, m, s);
    lemma_row_cell_values(4, 0, (m - 1) as nat, s);
    reveal(face_0_neighbors);
    reveal(face_1_neighbors);
    reveal(face_2_neighbors);
    reveal(face_3_neighbors);
    reveal(face_4_neighbors);
    reveal(face_5_neighbors);
    if slot(2, m, (m - 1) as nat, 3, s) == a && slot(2, m, (m - 1) as nat, 4, s) == b {
        lemma_cell_edge(2, m, (m - 1) as nat, 0, b, a, s);
    } else if slot(2, m, (m - 1) as nat, 4, s) == a && slot(2, m, (m - 1) as nat, 5, s) == b {
        lemma_cell_edge(2, (m - 1) as nat, m, 1, b, a, s);
    } else {
        lemma_cell_edge(4, 0, (m - 1) as nat, 0, b, a, s);
    }
}

#[verifier::rlimit(50)]
proof fn lemma_corner_3_0_first_0(a: u32, b: u32, s: nat)
    requires
        valid_subdivision(s),
        3 <= grid_max(s),
        cell_has_edge(3, 0, 0, 0, a, b, s),
    ensures
        buffer_has_edge(s, b, a),
{
    lemma_layout(s);
    let m = grid_max(s);
    lemma_all_neighbors_of_vid(s);
    lemma_pole_neighbors(s);
    lemma_row_cell_values(3, 0, 0, s);
    lemma_seam_cell((m - 1) as nat, s);
    lemma_row_cell_values(1, 0, m, s);
    reveal(face_0_neighbors);
    reveal(face_1_neighbors);
    reveal(face_2_neighbors);
    reveal(face_3_neighbors);
    reveal(face_4_neighbors);
    reveal(face_5_neighbors);
    if slot(3, 0, 0, 0, s) == a && slot(3, 0, 0, 1, s) == b {
        lemma_cell_edge(4, m, (m - 1) as nat, 1, b, a, s);
    } else if slot(3, 0, 0, 1, s) == a && slot(3, 0, 0, 2, s) == b {
        lemma_cell_edge(3, 0, 0, 1, b, a, s);
    } else {
        lemma_cell_edge(1, 0, m, 1, b, a, s);
    }
}

#[verifier::rlimit(50)]
proof fn lemma_corner_3_0_first_1(a: u32, b: u32, s: nat)
    requires
        valid_subdivision(s),
        3 <= grid_max(s),
        cell_has_edge(3, 0, 0, 1, a, b, s),
    ensures
        buffer_has_edge(s, b, a),
{
    lemma_layout(s);
    let m = grid_max(s);
    lemma_all_neighbors_of_vid(s);
    lemma_pole_neighbors(s);
    lemma_row_cell_values(3, 0, 0, s);
    lemma_row_cell_values(3, 0, 1, s);
    lemma_row_cell_values(3, 1, 0, s);
    reveal(face_0_neighbors);
    reveal(face_1_neighbors);
    reveal(face_2_neighbors);
    reveal(face_3_neighbors);
    reveal(face_4_neighbors);
    reveal(face_5_neighbors);
    if slot(3, 0, 0, 3, s) == a && slot(3, 0, 0, 4, s) == b {
        lemma_cell_edge(3, 0, 0, 0, b, a, s);
    } else if slot(3, 0, 0, 4, s) == a && slot(3, 0, 0, 5, s) == b {
        lemma_cell_edge(3, 0, 1, 0, b, a, s);
    } else {
        lemma_cell_edge(3, 1, 0, 0, b, a, s);
    }
}

#[verifier::rlimit(50)]
proof fn lemma_corner_3_0_before_last_0(a: u32, b: u32, s: nat)
    requires
        valid_subdivision(s),
        3 <= grid_max(s),
        cell_has_edge(3, 0, (grid_max(s) - 1) as nat, 0, a, b, s),
    ensures
        buffer_has_edge(s, b, a),
{
    lemma_layout(s);
    let m = grid_max(s);
    lemma_all_neighbors_of_vid(s);
    lemma_pole_neighbors(s);
    lemma_row_cell_values(3, 0, (m - 1) as nat, s);
    lemma_seam_cell(0, s);
    lemma_row_cell_values(3, 0, (m - 2) as nat, s);
    reveal(face_0_neighbors);
    reveal(face_1_neighbors);
    reveal(face_2_neighbors);
    reveal(face_3_neighbors);
    reveal(face_4_neighbors);
    reveal(face_5_neighbors);
    if slot(3, 0, (m - 1) as nat, 0, s) == a && slot(3, 0, (m - 1) as nat, 1, s) == b {
        lemma_cell_edge(4, m, 0, 1, b, a, s);
    } else if slot(3, 0, (m - 1) as nat, 1, s) == a && slot(3, 0, (m - 1) as nat, 2, s) == b {
        lemma_cell_edge(3, 0, (m - 1) as nat, 1, b, a, s);
    } else {
        lemma_cell_edge(3, 0, (m - 2) as nat, 1, b, a, s);
    }
}

#[verifier::rlimit(50)]
proof fn lemma_corner_3_0_before_last_1(a: u32, b: u32, s: nat)
    requires
        valid_subdivision(s),
        3 <= grid_max(s),
        cell_has_edge(3, 0, (grid_max(s) - 1) as nat, 1, a, b, s),
    ensures
        buffer_has_edge(s, b, a),
{
    lemma_layout(s);
    let m = grid_max(s);
    lemma_all_neighbors_of_vid(s);
    lemma_pole_neighbors(s);
    lemma_row_cell_values(3, 0, (m - 1) as nat, s);
    lemma_row_cell_values(3, 0, m, s);
    lemma_row_cell_values(3, 1, (m - 1) as nat, s);
    reveal(face_0_neighbors);
    reveal(face_1_neighbors);
    reveal(face_2_neighbors);
    reveal(face_3_neighbors);
    reveal(face_4_neighbors);
    reveal(face_5_neighbors);
    if slot(3, 0, (m - 1) as nat, 3, s) == a && slot(3, 0, (m - 1) as nat, 4, s) == b {
        lemma_cell_edge(3, 0, (m - 1) as nat, 0, b, a, s);
    } else if slot(3, 0, (m - 1) as nat, 4, s) == a && slot(3, 0, (m - 1) as nat, 5, s) == b {
        lemma_cell_edge(3, 0, m, 0, b, a, s);
    } else {
        lemma_cell_edge(3, 1, (m - 1) as nat, 0, b, a, s);
    }
}

#[verifier::rlimit(50)]
proof fn lemma_corner_3_0_last_0(a: u32, b: u32, s: nat)
    requires
        valid_subdivision(s),
        3 <= grid_max(s),
        cell_has_edge(3, 0, grid_max(s), 0, a, b, s),
    ensures
        buffer_has_edge(s, b, a),
{
    lemma_layout(s);
    let m = grid_max(s);
    lemma_all_neighbors_of_vid(s);
    lemma_pole_neighbors(s);
    lemma_row_cell_values(3, 0, m, s);
    lemma_seam_cell(0, s);
    lemma_row_cell_values(3, 0, (m - 1) as nat, s);
    reveal(face_0_neighbors);
    reveal(face_1_neighbors);
    reveal(face_2_neighbors);
    reveal(face_3_neighbors);
    reveal(face_4_neighbors);
    reveal(face_5_neighbors);
    if slot(3, 0, m, 0, s) == a && slot(3, 0, m, 1, s) == b {
        lemma_cell_edge(4, m, 0, 0, b, a, s);
    } else if slot(3, 0, m, 1, s) == a && slot(3, 0, m, 2, s) == b {
        lemma_cell_edge(3, 0, m, 1, b, a, s);
    } else {
        lemma_cell_edge(3, 0, (m - 1) as nat, 1, b, a, s);
    }
}

#[verifier::rlimit(50)]
proof fn lemma_corner_3_0_last_1(a: u32, b: u32, s: nat)
    requires
        valid_subdivision(s),
        3 <= grid_max(s),
        cell_has_edge(3, 0, grid_max(s), 1, a, b, s),
    ensures
        buffer_has_edge(s, b, a),
{
    lemma_layout(s);
    let m = grid_max(s);
    lemma_all_neighbors_of_vid(s);
    lemma_pole_neighbors(s);
    lemma_row_cell_values(3, 0, m, s);
    lemma_column_cell(0, s);
    lemma_row_cell_values(3, 1, m, s);
    reveal(face_0_neighbors);
    reveal(face_1_neighbors);
    reveal(face_2_neighbors);
    reveal(face_3_neighbors);
    reveal(face_4_neighbors);
    reveal(face_5_neighbors);
    if slot(3, 0, m, 3, s) == a && slot(3, 0, m, 4, s) == b {
        lemma_cell_edge(3, 0, m, 0, b, a, s);
    } else if slot(3, 0, m, 4, s) == a && slot(3, 0, m, 5, s) == b {
        lemma_cell_edge(4, 0, m, 0, b, a, s);
    } else {
        lemma_cell_edge(3, 1, m, 0, b, a, s);
    }
}

#[verifier::rlimit(50)]
proof fn lemma_corner_3_below_first_0(a: u32, b: u32, s: nat)
    requires
        valid_subdivision(s),
        3 <= grid_max(s),
        cell_has_edge(3, (grid_max(s) - 1) as nat, 0, 0, a, b, s),
    ensures
        buffer_has_edge(s, b, a),
{
    lemma_layout(s);
    let m = grid_max(s);
    lemma_all_neighbors_of_vid(s);
    lemma_pole_neighbors(s);
    lemma_row_cell_values(3, (m - 1) as nat, 0, s);
    lemma_row_cell_values(3, (m - 2) as nat, 0, s);
    lemma_row_cell_values(1, (m - 1) as nat, m, s);
    reveal(face_0_neighbors);
    reveal(face_1_neighbors);
    reveal(face_2_neighbors);
    reveal(face_3_neighbors);
    reveal(face_4_neighbors);
    reveal(face_5_neighbors);
    if slot(3, (m - 1) as nat, 0, 0, s) == a && slot(3, (m - 1) as nat, 0, 1, s) == b {
        lemma_cell_edge(3, (m - 2) as nat, 0, 1, b, a, s);
    } else if slot(3, (m - 1) as nat, 0, 1, s) == a && slot(3, (m - 1) as nat, 0, 2, s) == b {
        lemma_cell_edge(3, (m - 1) as nat, 0, 1, b, a, s);
    } else {
        lemma_cell_edge(1, (m - 1) as nat, m, 1, b, a, s);
    }
}

#[verifier::rlimit(50)]
proof fn lemma_corner_3_below_first_1(a: u32, b: u32, s: nat)
    requires
        valid_subdivision(s),
        3 <= grid_max(s),
        cell_has_edge(3, (grid_max(s) - 1) as nat, 0, 1, a, b, s),
    ensures
        buffer_has_edge(s, b, a),
{
    lemma_layout(s);
    let m = grid_max(s);
    lemma_all_neighbors_of_vid(s);
    lemma_pole_neighbors(s);
    lemma_row_cell_values(3, (m - 1) as nat, 0, s);
    lemma_row_cell_values(3, (m - 1) as nat, 1, s);
    lemma_row_cell_values(3, m, 0, s);
    reveal(face_0_neighbors);
    reveal(face_1_neighbors);
    reveal(face_2_neighbors);
    reveal(face_3_neighbors);
    reveal(face_4_neighbors);
    reveal(face_5_neighbors);
    if slot(3, (m - 1) as nat, 0, 3, s) == a && slot(3, (m - 1) as nat, 0, 4, s) == b {
        lemma_cell_edge(3, (m - 1) as nat, 0, 0, b, a, s);
    } else if slot(3, (m - 1) as nat, 0, 4, s) == a && slot(3, (m - 1) as nat, 0, 5, s) == b {
        lemma_cell_edge(3, (m - 1) as nat, 1, 0, b, a, s);
    } else {
        lemma_cell_edge(3, m, 0, 0, b, a, s);
    }
}

#[verifier::rlimit(50)]
proof fn lemma_corner_3_below_before_last_0(a: u32, b: u32, s: nat)
    requires
        valid_subdivision(s),
        3 <= grid_max(s),
        cell_has_edge(3, (grid_max(s) - 1) as nat, (grid_max(s) - 1) as nat, 0, a, b, s),
    ensures
        buffer_has_edge(s, b, a),
{
    lemma_layout(s);
    let m = grid_max(s);
    lemma_all_neighbors_of_vid(s);
    lemma_pole_neighbors(s);
    lemma_row_cell_values(3, (m - 1) as nat, (m - 1) as nat, s);
    lemma_row_cell_values(3, (m - 2) as nat, (m - 1) as nat, s);
    lemma_row_cell_values(3, (m - 1) as nat, (m - 2) as nat, s);
    reveal(face_0_neighbors);
    reveal(face_1_neighbors);
    reveal(face_2_neighbors);
    reveal(face_3_neighbors);
    reveal(face_4_neighbors);
    reveal(face_5_neighbors);
    if slot(3, (m - 1) as nat, (m - 1) as nat, 0, s) == a && slot(3, (m - 1) as nat, (m - 1) as nat, 1, s) == b {
        lemma_cell_edge(3, (m - 2) as nat, (m - 1) as nat, 1, b, a, s);
    } else if slot(3, (m - 1) as nat, (m - 1) as nat, 1, s) == a && slot(3, (m - 1) as nat, (m - 1) as nat, 2, s) == b {
        lemma_cell_edge(3, (m - 1) as nat, (m - 1) as nat, 1, b, a, s);
    } else {
        lemma_cell_edge(3, (m - 1) as nat, (m - 2) as nat, 1, b, a, s);
    }
}

#[verifier::rlimit(50)]
proof fn lemma_corner_3_below_before_last_1(a: u32, b: u32, s: nat)
    requires
        valid_subdivision(s),
        3 <= grid_max(s),
        cell_has_edge(3, (grid_max(s) - 1) as nat, (grid_max(s) - 1) as nat, 1, a, b, s),
    ensures
        buffer_has_edge(s, b, a),
{
    lemma_layout(s);
    let m = grid_max(s);
    lemma_all_neighbors_of_vid(s);
    lemma_pole_neighbors(s);
    lemma_row_cell_values(3, (m - 1) as nat, (m - 1) as nat, s);
    lemma_row_cell_values(3, (m - 1) as nat, m, s);
    lemma_row_cell_values(3, m, (m - 1) as nat, s);
    reveal(face_0_neighbors);
    reveal(face_1_neighbors);
    reveal(face_2_neighbors);
    reveal(face_3_neighbors);
    reveal(face_4_neighbors);
    reveal(face_5_neighbors);
    if slot(3, (m - 1) as nat, (m - 1) as nat, 3, s) == a && slot(3, (m - 1) as nat, (m - 1) as nat, 4, s) == b {
        lemma_cell_edge(3, (m - 1) as nat, (m - 1) as nat, 0, b, a, s);
    } else if slot(3, (m - 1) as nat, (m - 1) as nat, 4, s) == a && slot(3, (m - 1) as nat, (m - 1) as nat, 5, s) == b {
        lemma_cell_edge(3, (m - 1) as nat, m, 0, b, a, s);
    } else {
        lemma_cell_edge(3, m, (m - 1) as nat, 0, b, a, s);
    }
}

#[verifier::rlimit(50)]
proof fn lemma_corner_3_below_last_0(a: u32, b: u32, s: nat)
    requires
        valid_subdivision(s),
        3 <= grid_max(s),
        cell_has_edge(3, (grid_max(s) - 1) as nat, grid_max(s), 0, a, b, s),
    ensures
        buffer_has_edge(s, b, a),
{
    lemma_layout(s);
    let m = grid_max(s);
    lemma_all_neighbors_of_vid(s);
    lemma_pole_neighbors(s);
    lemma_row_cell_values(3, (m - 1) as nat, m, s);
    lemma_row_cell_values(3, (m - 2) as nat, m, s);
    lemma_row_cell_values(3, (m - 1) as nat, (m - 1) as nat, s);
    reveal(face_0_neighbors);
    reveal(face_1_neighbors);
    reveal(face_2_neighbors);
    reveal(face_3_neighbors);
    reveal(face_4_neighbors);
    reveal(face_5_neighbors);
    if slot(3, (m - 1) as nat, m, 0, s) == a && slot(3, (m - 1) as nat, m, 1, s) == b {
        lemma_cell_edge(3, (m - 2) as nat, m, 1, b, a, s);
    } else if slot(3, (m - 1) as nat, m, 1, s) == a && slot(3, (m - 1) as nat, m, 2, s) == b {
        lemma_cell_edge(3, (m - 1) as nat, m, 1, b, a, s);
    } else {
        lemma_cell_edge(3, (m - 1) as nat, (m - 1) as nat, 1, b, a, s);
    }
}

#[verifier::rlimit(50)]
proof fn lemma_corner_3_below_last_1(a: u32, b: u32, s: nat)
    requires
        valid_subdivision(s),
        3 <= grid_max(s),
        cell_has_edge(3, (grid_max(s) - 1) as nat, grid_max(s), 1, a, b, s),
    ensures
        buffer_has_edge(s, b, a),
{
    lemma_layout(s);
    let m = grid_max(s);
    lemma_all_neighbors_of_vid(s);
    lemma_pole_neighbors(s);
    lemma_row_cell_values(3, (m - 1) as nat, m, s);
    lemma_row_cell_values(0, (m - 2) as nat, 0, s);
    lemma_row_cell_values(3, m, m, s);
    reveal(face_0_neighbors);
    reveal(face_1_neighbors);
    reveal(face_2_neighbors);
    reveal(face_3_neighbors);
    reveal(face_4_neighbors);
    reveal(face_5_neighbors);
    if slot(3, (m - 1) as nat, m, 3, s) == a && slot(3, (m - 1) as nat, m, 4, s) == b {
        lemma_cell_edge(3, (m - 1) as nat, m, 0, b, a, s);
    } else if slot(3, (m - 1) as nat, m, 4, s) == a && slot(3, (m - 1) as nat, m, 5, s) == b {
        lemma_cell_edge(0, (m - 2) as nat, 0, 0, b, a, s);
    } else {
        lemma_cell_edge(3, m, m, 0, b, a, s);
    }
}

#[verifier::rlimit(50)]
proof fn lemma_corner_3_top_first_0(a: u32, b: u32, s: nat)
    requires
        valid_subdivision(s),
        3 <= grid_max(s),
        cell_has_edge(3, grid_max(s), 0, 0, a, b, s),
    ensures
        buffer_has_edge(s, b, a),
{
    lemma_layout(s);
    let m = grid_max(s);
    lemma_all_neighbors_of_vid(s);
    lemma_pole_neighbors(s);
    lemma_row_cell_values(3, m, 0, s);
    lemma_row_cell_values(3, (m - 1) as nat, 0, s);
    lemma_row_cell_values(1, m, m, s);
    reveal(face_0_neighbors);
    reveal(face_1_neighbors);
    reveal(face_2_neighbors);
    reveal(face_3_neighbors);
    reveal(face_4_neighbors);
    reveal(face_5_neighbors);
    if slot(3, m, 0, 0, s) == a && slot(3, m, 0, 1, s) == b {
        lemma_cell_edge(3, (m - 1) as nat, 0, 1, b, a, s);
    } else if slot(3, m, 0, 1, s) == a && slot(3, m, 0, 2, s) == b {
        lemma_cell_edge(3, m, 0, 1, b, a, s);
    } else {
        lemma_cell_edge(1, m, m, 1, b, a, s);
    }
}

#[verifier::rlimit(50)]
proof fn lemma_corner_3_top_first_1(a: u32, b: u32, s: nat)
    requires
        valid_subdivision(s),
        3 <= grid_max(s),
        cell_has_edge(3, grid_max(s), 0, 1, a, b, s),
    ensures
        buffer_has_edge(s, b, a),
{
    lemma_layout(s);
    let m = grid_max(s);
    lemma_all_neighbors_of_vid(s);
    lemma_pole_neighbors(s);
    lemma_row_cell_values(3, m, 0, s);
    lemma_row_cell_values(3, m, 1, s);
    lemma_row_cell_values(4, (m - 1) as nat, (m - 2) as nat, s);
    reveal(face_0_neighbors);
    reveal(face_1_neighbors);
    reveal(face_2_neighbors);
    reveal(face_3_neighbors);
    reveal(face_4_neighbors);
    reveal(face_5_neighbors);
    if slot(3, m, 0, 3, s) == a && slot(3, m, 0, 4, s) == b {
        lemma_cell_edge(3, m, 0, 0, b, a, s);
    } else if slot(3, m, 0, 4, s) == a && slot(3, m, 0, 5, s) == b {
        lemma_cell_edge(3, m, 1, 0, b, a, s);
    } else {
        lemma_cell_edge(4, (m - 1) as nat, (m - 2) as nat, 1, b, a, s);
    }
}

#[verifier::rlimit(100)]
proof fn lemma_corner_3_top_before_last_0(a: u32, b: u32, s: nat)
    requires
        valid_subdivision(s),
        3 <= grid_max(s),
        cell_has_edge(3, grid_max(s), (grid_max(s) - 1) as nat, 0, a, b, s),
    ensures
        buffer_has_edge(s, b, a),
{
    lemma_layout(s);
    let m = grid_max(s);
    lemma_all_neighbors_of_vid(s);
    lemma_pole_neighbors(s);
    lemma_row_cell_values(3, m, (m - 1) as nat, s);
    lemma_row_cell_values(3, (m - 1) as nat, (m - 1) as nat, s);
    lemma_row_cell_values(3, m, (m - 2) as nat, s);
    reveal(face_0_neighbors);
    reveal(face_1_neighbors);
    reveal(face_2_neighbors);
    reveal(face_3_neighbors);
    reveal(face_4_neighbors);
    reveal(face_5_neighbors);
    if slot(3, m, (m - 1) as nat, 0, s) == a && slot(3, m, (m - 1) as nat, 1, s) == b {
        lemma_cell_edge(3, (m - 1) as nat, (m - 1) as nat, 1, b, a, s);
    } else if slot(3, m, (m - 1) as nat, 1, s) == a && slot(3, m, (m - 1) as nat, 2, s) == b {
        lemma_cell_edge(3, m, (m - 1) as nat, 1, b, a, s);
    } else {
        lemma_cell_edge(3, m, (m - 2) as nat, 1, b, a, s);
    }
}

#[verifier::rlimit(100)]
proof fn lemma_corner_3_top_before_last_1(a: u32, b: u32, s: nat)
    requires
        valid_subdivision(s),
        3 <= grid_max(s),
        cell_has_edge(3, grid_max(s), (grid_max(s) - 1) as nat, 1, a, b, s),
    ensures
        buffer_has_edge(s, b, a),
{
    lemma_layout(s);
    let m = grid_max(s);
    lemma_all_neighbors_of_vid(s);
    lemma_pole_neighbors(s);
    lemma_row_cell_values(3, m, (m - 1) as nat, s);
    lemma_row_cell_values(3, m, m, s);
    lemma_cap_values(0, s);
    reveal(face_0_neighbors);
    reveal(face_1_neighbors);
    reveal(face_2_neighbors);
    reveal(face_3_neighbors);
    reveal(face_4_neighbors);
    reveal(face_5_neighbors);
    if slot(3, m, (m - 1) as nat, 3, s) == a && slot(3, m, (m - 1) as nat, 4, s) == b {
        lemma_cell_edge(3, m, (m - 1) as nat, 0, b, a, s);
    } else if slot(3, m, (m - 1) as nat, 4, s) == a && slot(3, m, (m - 1) as nat, 5, s) == b {
        lemma_cell_edge(3, m, m, 0, b, a, s);
    } else {
        lemma_cell_edge(0, m, m, 0, b, a, s);
    }
}

#[verifier::rlimit(50)]
proof fn lemma_corner_3_top_last_0(a: u32, b: u32, s: nat)
    requires
        valid_subdivision(s),
        3 <= grid_max(s),
        cell_has_edge(3, grid_max(s), grid_max(s), 0, a, b, s),
    ensures
        buffer_has_edge(s, b, a),
{
    lemma_layout(s);
    let m = grid_max(s);
    lemma_all_neighbors_of_vid(s);
    lemma_pole_neighbors(s);
    lemma_row_cell_values(3, m, m, s);
    lemma_row_cell_values(3, (m - 1) as nat, m, s);
    lemma_row_cell_values(3, m, (m - 1) as nat, s);
    reveal(face_0_neighbors);
    reveal(face_1_neighbors);
    reveal(face_2_neighbors);
    reveal(face_3_neighbors);
    reveal(face_4_neighbors);
    reveal(face_5_neighbors);
    if slot(3, m, m, 0, s) == a && slot(3, m, m, 1, s) == b {
        lemma_cell_edge(3, (m - 1) as nat, m, 1, b, a, s);
    } else if slot(3, m, m, 1, s) == a && slot(3, m, m, 2, s) == b {
        lemma_cell_edge(3, m, m, 1, b, a, s);
    } else {
        lemma_cell_edge(3, m, (m - 1) as nat, 1, b, a, s);
    }
}

#[verifier::rlimit(50)]
proof fn lemma_corner_3_top_last_1(a: u32, b: u32, s: nat)
    requires
        valid_subdivision(s),
        3 <= grid_max(s),
        cell_has_edge(3, grid_max(s), grid_max(s), 1, a, b, s),
    ensures
        buffer_has_edge(s, b, a),
{
    lemma_layout(s);
    let m = grid_max(s);
    lemma_all_neighbors_of_vid(s);
    lemma_pole_neighbors(s);
    lemma_row_cell_values(3, m, m, s);
    lemma_row_cell_values(0, (m - 1) as nat, 0, s);
    lemma_cap_values(0, s);
    reveal(face_0_neighbors);
    reveal(face_1_neighbors);
    reveal(face_2_neighbors);
    reveal(face_3_neighbors);
    reveal(face_4_neighbors);
    reveal(face_5_neighbors);
    if slot(3, m, m, 3, s) == a && slot(3, m, m, 4, s) == b {
        lemma_cell_edge(3, m, m, 0, b, a, s);
    } else if slot(3, m, m, 4, s) == a && slot(3, m, m, 5, s) == b {
        lemma_cell_edge(0, (m - 1) as nat, 0, 0, b, a, s);
    } else {
        lemma_cell_edge(0, m, m, 0, b, a, s);
    }
}

#[verifier::rlimit(50)]
proof fn lemma_corner_4_0_first_0(a: u32, b: u32, s: nat)
    requires
        valid_subdivision(s),
        3 <= grid_max(s),
        cell_has_edge(4, 0, 0, 0, a, b, s),
    ensures
        buffer_has_edge(s, b, a),
{
    lemma_layout(s);
    let m = grid_max(s);
    lemma_all_neighbors_of_vid(s);
    lemma_pole_neighbors(s);
    lemma_row_cell_values(4, 0, 0, s);
    lemma_row_cell_values(2, m, 0, s);
    lemma_row_cell_values(0, m, (m - 2) as nat, s);
    reveal(face_0_neighbors);
    reveal(face_1_neighbors);
    reveal(face_2_neighbors);
    reveal(face_3_neighbors);
    reveal(face_4_neighbors);
    reveal(face_5_neighbors);
    if slot(4, 0, 0, 0, s) == a && slot(4, 0, 0, 1, s) == b {
        lemma_cell_edge(2, m, 0, 1, b, a, s);
    } else if slot(4, 0, 0, 1, s) == a && slot(4, 0, 0, 2, s) == b {
        lemma_cell_edge(4, 0, 0, 1, b, a, s);
    } else {
        lemma_cell_edge(0, m, (m - 2) as nat, 1, b, a, s);
    }
}

#[verifier::rlimit(50)]
proof fn lemma_corner_4_0_first_1(a: u32, b: u32, s: nat)
    requires
        valid_subdivision(s),
        3 <= grid_max(s),
        cell_has_edge(4, 0, 0, 1, a, b, s),
    ensures
        buffer_has_edge(s, b, a),
{
    lemma_layout(s);
    let m = grid_max(s);
    lemma_all_neighbors_of_vid(s);
    lemma_pole_neighbors(s);
    lemma_row_cell_values(4, 0, 0, s);
    lemma_row_cell_values(4, 0, 1, s);
    lemma_row_cell_values(4, 1, 0, s);
    reveal(face_0_neighbors);
    reveal(face_1_neighbors);
    reveal(face_2_neighbors);
    reveal(face_3_neighbors);
    reveal(face_4_neighbors);
    reveal(face_5_neighbors);
    if slot(4, 0, 0, 3, s) == a && slot(4, 0, 0, 4, s) == b {
        lemma_cell_edge(4, 0, 0, 0, b, a, s);
    } else if slot(4, 0, 0, 4, s) == a && slot(4, 0, 0, 5, s) == b {
        lemma_cell_edge(4, 0, 1, 0, b, a, s);
    } else {
        lemma_cell_edge(4, 1, 0, 0, b, a, s);
    }
}

#[verifier::rlimit(50)]
proof fn lemma_corner_4_0_before_last_0(a: u32, b: u32, s: nat)
    requires
        valid_subdivision(s),
        3 <= grid_max(s),
        cell_has_edge(4, 0, (grid_max(s) - 1) as nat, 0, a, b, s),
    ensures
        buffer_has_edge(s, b, a),
{
    lemma_layout(s);
    let m = grid_max(s);
    lemma_all_neighbors_of_vid(s);
    lemma_pole_neighbors(s);
    lemma_row_cell_values(4, 0, (m - 1) as nat, s);
    lemma_row_cell_values(2, m, (m - 1) as nat, s);
    lemma_row_cell_values(4, 0, (m - 2) as nat, s);
    reveal(face_0_neighbors);
    reveal(face_1_neighbors);
    reveal(face_2_neighbors);
    reveal(face_3_neighbors);
    reveal(face_4_neighbors);
    reveal(face_5_neighbors);
    if slot(4, 0, (m - 1) as nat, 0, s) == a && slot(4, 0, (m - 1) as nat, 1, s) == b {
        lemma_cell_edge(2, m, (m - 1) as nat, 1, b, a, s);
    } else if slot(4, 0, (m - 1) as nat, 1, s) == a && slot(4, 0, (m - 1) as nat, 2, s) == b {
        lemma_cell_edge(4, 0, (m - 1) as nat, 1, b, a, s);
    } else {
        lemma_cell_edge(4, 0, (m - 2) as nat, 1, b, a, s);
    }
}

#[verifier::rlimit(50)]
proof fn lemma_corner_4_0_before_last_1(a: u32, b: u32, s: nat)
    requires
        valid_subdivision(s),
        3 <= grid_max(s),
        cell_has_edge(4, 0, (grid_max(s) - 1) as nat, 1, a, b, s),
    ensures
        buffer_has_edge(s, b, a),
{
    lemma_layout(s);
    let m = grid_max(s);
    lemma_all_neighbors_of_vid(s);
    lemma_pole_neighbors(s);
    lemma_row_cell_values(4, 0, (m - 1) as nat, s);
    lemma_row_cell_values(1, m, 0, s);
    lemma_row_cell_values(4, 1, (m - 1) as nat, s);
    reveal(face_0_neighbors);
    reveal(face_1_neighbors);
    reveal(face_2_neighbors);
    reveal(face_3_neighbors);
    reveal(face_4_neighbors);
    reveal(face_5_neighbors);
    if slot(4, 0, (m - 1) as nat, 3, s) == a && slot(4, 0, (m - 1) as nat, 4, s) == b {
        lemma_cell_edge(4, 0, (m - 1) as nat, 0, b, a, s);
    } else if slot(4, 0, (m - 1) as nat, 4, s) == a && slot(4, 0, (m - 1) as nat, 5, s) == b {
        lemma_cell_edge(1, m, 0, 1, b, a, s);
    } else {
        lemma_cell_edge(4, 1, (m - 1) as nat, 0, b, a, s);
    }
}

#[verifier::rlimit(100)]
proof fn lemma_corner_4_below_first_0(a: u32, b: u32, s: nat)
    requires
        valid_subdivision(s),
        3 <= grid_max(s),
        cell_has_edge(4, (grid_max(s) - 1) as nat, 0, 0, a, b, s),
    ensures
        buffer_has_edge(s, b, a),
{
    lemma_layout(s);
    let m = grid_max(s);
    lemma_all_neighbors_of_vid(s);
    lemma_pole_neighbors(s);
    lemma_row_cell_values(4, (m - 1) as nat, 0, s);
    lemma_row_cell_values(4, (m - 2) as nat, 0, s);
    lemma_cap_values(0, s);
    reveal(face_0_neighbors);
    reveal(face_1_neighbors);
    reveal(face_2_neighbors);
    reveal(face_3_neighbors);
    reveal(face_4_neighbors);
    reveal(face_5_neighbors);
    if slot(4, (m - 1) as nat, 0, 0, s) == a && slot(4, (m - 1) as nat, 0, 1, s) == b {
        lemma_cell_edge(4, (m - 2) as nat, 0, 1, b, a, s);
    } else if slot(4, (m - 1) as nat, 0, 1, s) == a && slot(4, (m - 1) as nat, 0, 2, s) == b {
        lemma_cell_edge(4, (m - 1) as nat, 0, 1, b, a, s);
    } else {
        lemma_cell_edge(0, m, m, 1, b, a, s);
    }
}

#[verifier::rlimit(50)]
proof fn lemma_corner_4_below_first_1(a: u32, b: u32, s: nat)
    requires
        valid_subdivision(s),
        3 <= grid_max(s),
        cell_has_edge(4, (grid_max(s) - 1) as nat, 0, 1, a, b, s),
    ensures
        buffer_has_edge(s, b, a),
{
    lemma_layout(s);
    let m = grid_max(s);
    lemma_all_neighbors_of_vid(s);
    lemma_pole_neighbors(s);
    lemma_row_cell_values(4, (m - 1) as nat, 0, s);
    lemma_row_cell_values(4, (m - 1) as nat, 1, s);
    lemma_row_cell_values(3, m, (m - 2) as nat, s);
    reveal(face_0_neighbors);
    reveal(face_1_neighbors);
    reveal(face_2_neighbors);
    reveal(face_3_neighbors);
    reveal(face_4_neighbors);
    reveal(face_5_neighbors);
    if slot(4, (m - 1) as nat, 0, 3, s) == a && slot(4, (m - 1) as nat, 0, 4, s) == b {
        lemma_cell_edge(4, (m - 1) as nat, 0, 0, b, a, s);
    } else if slot(4, (m - 1) as nat, 0, 4, s) == a && slot(4, (m - 1) as nat, 0, 5, s) == b {
        lemma_cell_edge(4, (m - 1) as nat, 1, 0, b, a, s);
    } else {
        lemma_cell_edge(3, m, (m - 2) as nat, 1, b, a, s);
    }
}

#[verifier::rlimit(50)]
proof fn lemma_corner_4_below_before_last_0(a: u32, b: u32, s: nat)
    requires
        valid_subdivision(s),
        3 <= grid_max(s),
        cell_has_edge(4, (grid_max(s) - 1) as nat, (grid_max(s) - 1) as nat, 0, a, b, s),
    ensures
        buffer_has_edge(s, b, a),
{
    lemma_layout(s);
    let m = grid_max(s);
    lemma_all_neighbors_of_vid(s);
    lemma_pole_neighbors(s);
    lemma_row_cell_values(4, (m - 1) as nat, (m - 1) as nat, s);
    lemma_row_cell_values(4, (m - 2) as nat, (m - 1) as nat, s);
    lemma_row_cell_values(4, (m - 1) as nat, (m - 2) as nat, s);
    reveal(face_0_neighbors);
    reveal(face_1_neighbors);
    reveal(face_2_neighbors);
    reveal(face_3_neighbors);
    reveal(face_4_neighbors);
    reveal(face_5_neighbors);
    if slot(4, (m - 1) as nat, (m - 1) as nat, 0, s) == a && slot(4, (m - 1) as nat, (m - 1) as nat, 1, s) == b {
        lemma_cell_edge(4, (m - 2) as nat, (m - 1) as nat, 1, b, a, s);
    } else if slot(4, (m - 1) as nat, (m - 1) as nat, 1, s) == a && slot(4, (m - 1) as nat, (m - 1) as nat, 2, s) == b {
        lemma_cell_edge(4, (m - 1) as nat, (m - 1) as nat, 1, b, a, s);
    } else {
        lemma_cell_edge(4, (m - 1) as nat, (m - 2) as nat, 1, b, a, s);
    }
}

#[verifier::rlimit(50)]
proof fn lemma_corner_4_below_before_last_1(a: u32, b: u32, s: nat)
    requires
        valid_subdivision(s),
        3 <= grid_max(s),
        cell_has_edge(4, (grid_max(s) - 1) as nat, (grid_max(s) - 1) as nat, 1, a, b, s),
    ensures
        buffer_has_edge(s, b, a),
{
    lemma_layout(s);
    let m = grid_max(s);
    lemma_all_neighbors_of_vid(s);
    lemma_pole_neighbors(s);
    lemma_row_cell_values(4, (m - 1) as nat, (m - 1) as nat, s);
    lemma_row_cell_values(1, m, (m - 1) as nat, s);
    lemma_row_cell_values(1, m, m, s);
    reveal(face_0_neighbors);
    reveal(face_1_neighbors);
    reveal(face_2_neighbors);
    reveal(face_3_neighbors);
    reveal(face_4_neighbors);
    reveal(face_5_neighbors);
    if slot(4, (m - 1) as nat, (m - 1) as nat, 3, s) == a && slot(4, (m - 1) as nat, (m - 1) as nat, 4, s) == b {
        lemma_cell_edge(4, (m - 1) as nat, (m - 1) as nat, 0, b, a, s);
    } else if slot(4, (m - 1) as nat, (m - 1) as nat, 4, s) == a && slot(4, (m - 1) as nat, (m - 1) as nat, 5, s) == b {
        lemma_cell_edge(1, m, (m - 1) as nat, 1, b, a, s);
    } else {
        lemma_cell_edge(1, m, m, 1, b, a, s);
    }
}

#[verifier::rlimit(50)]
proof fn lemma_corner_5_0_first_0(a: u32, b: u32, s: nat)
    requires
        valid_subdivision(s),
        3 <= grid_max(s),
        cell_has_edge(5, 0, 0, 0, a, b, s),
    ensures
        buffer_has_edge(s, b, a),
{
    lemma_layout(s);
    let m = grid_max(s);
    lemma_all_neighbors_of_vid(s);
    lemma_pole_neighbors(s);
    lemma_row_cell_values(5, 0, 0, s);
    lemma_seam_cell(0, s);
    lemma_column_cell(0, s);
    reveal(face_0_neighbors);
    reveal(face_1_neighbors);
    reveal(face_2_neighbors);
    reveal(face_3_neighbors);
    reveal(face_4_neighbors);
    reveal(face_5_neighbors);
    if slot(5, 0, 0, 0, s) == a && slot(5, 0, 0, 1, s) == b {
        lemma_cell_edge(4, m, 0, 0, b, a, s);
    } else if slot(5, 0, 0, 1, s) == a && slot(5, 0, 0, 2, s) == b {
        lemma_cell_edge(5, 0, 0, 1, b, a, s);
    } else {
        lemma_cell_edge(4, 0, m, 0, b, a, s);
    }
}

#[verifier::rlimit(50)]
proof fn lemma_corner_5_0_first_1(a: u32, b: u32, s: nat)
    requires
        valid_subdivision(s),
        3 <= grid_max(s),
        cell_has_edge(5, 0, 0, 1, a, b, s),
    ensures
        buffer_has_edge(s, b, a),
{
    lemma_layout(s);
    let m = grid_max(s);
    lemma_all_neighbors_of_vid(s);
    lemma_pole_neighbors(s);
    lemma_row_cell_values(5, 0, 0, s);
    lemma_row_cell_values(5, 0, 1, s);
    lemma_row_cell_values(5, 1, 0, s);
    reveal(face_0_neighbors);
    reveal(face_1_neighbors);
    reveal(face_2_neighbors);
    reveal(face_3_neighbors);
    reveal(face_4_neighbors);
    reveal(face_5_neighbors);
    if slot(5, 0, 0, 3, s) == a && slot(5, 0, 0, 4, s) == b {
        lemma_cell_edge(5, 0, 0, 0, b, a, s);
    } else if slot(5, 0, 0, 4, s) == a && slot(5, 0, 0, 5, s) == b {
        lemma_cell_edge(5, 0, 1, 0, b, a, s);
    } else {
        lemma_cell_edge(5, 1, 0, 0, b, a, s);
    }
}

#[verifier::rlimit(50)]
proof fn lemma_corner_5_0_before_last_0(a: u32, b: u32, s: nat)
    requires
        valid_subdivision(s),
        3 <= grid_max(s),
        cell_has_edge(5, 0, (grid_max(s) - 1) as nat, 0, a, b, s),
    ensures
        buffer_has_edge(s, b, a),
{
    lemma_layout(s);
    let m = grid_max(s);
    lemma_all_neighbors_of_vid(s);
    lemma_pole_neighbors(s);
    lemma_row_cell_values(5, 0, (m - 1) as nat, s);
    lemma_seam_cell((m - 1) as nat, s);
    lemma_row_cell_values(5, 0, (m - 2) as nat, s);
    reveal(face_0_neighbors);
    reveal(face_1_neighbors);
    reveal(face_2_neighbors);
    reveal(face_3_neighbors);
    reveal(face_4_neighbors);
    reveal(face_5_neighbors);
    if slot(5, 0, (m - 1) as nat, 0, s) == a && slot(5, 0, (m - 1) as nat, 1, s) == b {
        lemma_cell_edge(4, m, (m - 1) as nat, 0, b, a, s);
    } else if slot(5, 0, (m - 1) as nat, 1, s) == a && slot(5, 0, (m - 1) as nat, 2, s) == b {
        lemma_cell_edge(5, 0, (m - 1) as nat, 1, b, a, s);
    } else {
        lemma_cell_edge(5, 0, (m - 2) as nat, 1, b, a, s);
    }
}

#[verifier::rlimit(50)]
proof fn lemma_corner_5_0_before_last_1(a: u32, b: u32, s: nat)
    requires
        valid_subdivision(s),
        3 <= grid_max(s),
        cell_has_edge(5, 0, (grid_max(s) - 1) as nat, 1, a, b, s),
    ensures
        buffer_has_edge(s, b, a),
{
    lemma_layout(s);
    let m = grid_max(s);
    lemma_all_neighbors_of_vid(s);
    lemma_pole_neighbors(s);
    lemma_row_cell_values(5, 0, (m - 1) as nat, s);
    lemma_row_cell_values(5, 0, m, s);
    lemma_row_cell_values(5, 1, (m - 1) as nat, s);
    reveal(face_0_neighbors);
    reveal(face_1_neighbors);
    reveal(face_2_neighbors);
    reveal(face_3_neighbors);
    reveal(face_4_neighbors);
    reveal(face_5_neighbors);
    if slot(5, 0, (m - 1) as nat, 3, s) == a && slot(5, 0, (m - 1) as nat, 4, s) == b {
        lemma_cell_edge(5, 0, (m - 1) as nat, 0, b, a, s);
    } else if slot(5, 0, (m - 1) as nat, 4, s) == a && slot(5, 0, (m - 1) as nat, 5, s) == b {
        lemma_cell_edge(5, 0, m, 0, b, a, s);
    } else {
        lemma_cell_edge(5, 1, (m - 1) as nat, 0, b, a, s);
    }
}

#[verifier::rlimit(50)]
proof fn lemma_corner_5_0_last_0(a: u32, b: u32, s: nat)
    requires
        valid_subdivision(s),
        3 <= grid_max(s),
        cell_has_edge(5, 0, grid_max(s), 0, a, b, s),
    ensures
        buffer_has_edge(s, b, a),
{
    lemma_layout(s);
    let m = grid_max(s);
    lemma_all_neighbors_of_vid(s);
    lemma_pole_neighbors(s);
    lemma_row_cell_values(5, 0, m, s);
    lemma_seam_cell(m, s);
    lemma_row_cell_values(5, 0, (m - 1) as nat, s);
    reveal(face_0_neighbors);
    reveal(face_1_neighbors);
    reveal(face_2_neighbors);
    reveal(face_3_neighbors);
    reveal(face_4_neighbors);
    reveal(face_5_neighbors);
    if slot(5, 0, m, 0, s) == a && slot(5, 0, m, 1, s) == b {
        lemma_cell_edge(4, m, m, 0, b, a, s);
    } else if slot(5, 0, m, 1, s) == a && slot(5, 0, m, 2, s) == b {
        lemma_cell_edge(5, 0, m, 1, b, a, s);
    } else {
        lemma_cell_edge(5, 0, (m - 1) as nat, 1, b, a, s);
    }
}

#[verifier::rlimit(50)]
proof fn lemma_corner_5_0_last_1(a: u32, b: u32, s: nat)
    requires
        valid_subdivision(s),
        3 <= grid_max(s),
        cell_has_edge(5, 0, grid_max(s), 1, a, b, s),
    ensures
        buffer_has_edge(s, b, a),
{
    lemma_layout(s);
    let m = grid_max(s);
    lemma_all_neighbors_of_vid(s);
    lemma_pole_neighbors(s);
    lemma_row_cell_values(5, 0, m, s);
    lemma_row_cell_values(1, 0, (m - 2) as nat, s);
    lemma_row_cell_values(5, 1, m, s);
    reveal(face_0_neighbors);
    reveal(face_1_neighbors);
    reveal(face_2_neighbors);
    reveal(face_3_neighbors);
    reveal(face_4_neighbors);
    reveal(face_5_neighbors);
    if slot(5, 0, m, 3, s) == a && slot(5, 0, m, 4, s) == b {
        lemma_cell_edge(5, 0, m, 0, b, a, s);
    } else if slot(5, 0, m, 4, s) == a && slot(5, 0, m, 5, s) == b {
        lemma_cell_edge(1, 0, (m - 2) as nat, 0, b, a, s);
    } else {
        lemma_cell_edge(5, 1, m, 0, b, a, s);
    }
}

#[verifier::rlimit(50)]
proof fn lemma_corner_5_below_first_0(a: u32, b: u32, s: nat)
    requires
        valid_subdivision(s),
        3 <= grid_max(s),
        cell_has_edge(5, (grid_max(s) - 1) as nat, 0, 0, a, b, s),
    ensures
        buffer_has_edge(s, b, a),
{
    lemma_layout(s);
    let m = grid_max(s);
    lemma_all_neighbors_of_vid(s);
    lemma_pole_neighbors(s);
    lemma_row_cell_values(5, (m - 1) as nat, 0, s);
    lemma_row_cell_values(5, (m - 2) as nat, 0, s);
    lemma_column_cell((m - 1) as nat, s);
    reveal(face_0_neighbors);
    reveal(face_1_neighbors);
    reveal(face_2_neighbors);
    reveal(face_3_neighbors);
    reveal(face_4_neighbors);
    reveal(face_5_neighbors);
    if slot(5, (m - 1) as nat, 0, 0, s) == a && slot(5, (m - 1) as nat, 0, 1, s) == b {
        lemma_cell_edge(5, (m - 2) as nat, 0, 1, b, a, s);
    } else if slot(5, (m - 1) as nat, 0, 1, s) == a && slot(5, (m - 1) as nat, 0, 2, s) == b {
        lemma_cell_edge(5, (m - 1) as nat, 0, 1, b, a, s);
    } else {
        lemma_cell_edge(4, (m - 1) as nat, m, 0, b, a, s);
    }
}

#[verifier::rlimit(50)]
proof fn lemma_corner_5_below_first_1(a: u32, b: u32, s: nat)
    requires
        valid_subdivision(s),
        3 <= grid_max(s),
        cell_has_edge(5, (grid_max(s) - 1) as nat, 0, 1, a, b, s),
    ensures
        buffer_has_edge(s, b, a),
{
    lemma_layout(s);
    let m = grid_max(s);
    lemma_all_neighbors_of_vid(s);
    lemma_pole_neighbors(s);
    lemma_row_cell_values(5, (m - 1) as nat, 0, s);
    lemma_row_cell_values(5, (m - 1) as nat, 1, s);
    lemma_row_cell_values(5, m, 0, s);
    reveal(face_0_neighbors);
    reveal(face_1_neighbors);
    reveal(face_2_neighbors);
    reveal(face_3_neighbors);
    reveal(face_4_neighbors);
    reveal(face_5_neighbors);
    if slot(5, (m - 1) as nat, 0, 3, s) == a && slot(5, (m - 1) as nat, 0, 4, s) == b {
        lemma_cell_edge(5, (m - 1) as nat, 0, 0, b, a, s);
    } else if slot(5, (m - 1) as nat, 0, 4, s) == a && slot(5, (m - 1) as nat, 0, 5, s) == b {
        lemma_cell_edge(5, (m - 1) as nat, 1, 0, b, a, s);
    } else {
        lemma_cell_edge(5, m, 0, 0, b, a, s);
    }
}

#[verifier::rlimit(100)]
proof fn lemma_corner_5_below_before_last_0(a: u32, b: u32, s: nat)
    requires
        valid_subdivision(s),
        3 <= grid_max(s),
        cell_has_edge(5, (grid_max(s) - 1) as nat, (grid_max(s) - 1) as nat, 0, a, b, s),
    ensures
        buffer_has_edge(s, b, a),
{
    lemma_layout(s);
    let m = grid_max(s);
    lemma_all_neighbors_of_vid(s);
    lemma_pole_neighbors(s);
    lemma_row_cell_values(5, (m - 1) as nat, (m - 1) as nat, s);
    lemma_row_cell_values(5, (m - 2) as nat, (m - 1) as nat, s);
    lemma_row_cell_values(5, (m - 1) as nat, (m - 2) as nat, s);
    reveal(face_0_neighbors);
    reveal(face_1_neighbors);
    reveal(face_2_neighbors);
    reveal(face_3_neighbors);
    reveal(face_4_neighbors);
    reveal(face_5_neighbors);
    if slot(5, (m - 1) as nat, (m - 1) as nat, 0, s) == a && slot(5, (m - 1) as nat, (m - 1) as nat, 1, s) == b {
        lemma_cell_edge(5, (m - 2) as nat, (m - 1) as nat, 1, b, a, s);
    } else if slot(5, (m - 1) as nat, (m - 1) as nat, 1, s) == a && slot(5, (m - 1) as nat, (m - 1) as nat, 2, s) == b {
        lemma_cell_edge(5, (m - 1) as nat, (m - 1) as nat, 1, b, a, s);
    } else {
        lemma_cell_edge(5, (m - 1) as nat, (m - 2) as nat, 1, b, a, s);
    }
}

#[verifier::rlimit(50)]
proof fn lemma_corner_5_below_before_last_1(a: u32, b: u32, s: nat)
    requires
        valid_subdivision(s),
        3 <= grid_max(s),
        cell_has_edge(5, (grid_max(s) - 1) as nat, (grid_max(s) - 1) as nat, 1, a, b, s),
    ensures
        buffer_has_edge(s, b, a),
{
    lemma_layout(s);
    let m = grid_max(s);
    lemma_all_neighbors_of_vid(s);
    lemma_pole_neighbors(s);
    lemma_row_cell_values(5, (m - 1) as nat, (m - 1) as nat, s);
    lemma_row_cell_values(5, (m - 1) as nat, m, s);
    lemma_row_cell_values(5, m, (m - 1) as nat, s);
    reveal(face_0_neighbors);
    reveal(face_1_neighbors);
    reveal(face_2_neighbors);
    reveal(face_3_neighbors);
    reveal(face_4_neighbors);
    reveal(face_5_neighbors);
    if slot(5, (m - 1) as nat, (m - 1) as nat, 3, s) == a && slot(5, (m - 1) as nat, (m - 1) as nat, 4, s) == b {
        lemma_cell_edge(5, (m - 1) as nat, (m - 1) as nat, 0, b, a, s);
    } else if slot(5, (m - 1) as nat, (m - 1) as nat, 4, s) == a && slot(5, (m - 1) as nat, (m - 1) as nat, 5, s) == b {
        lemma_cell_edge(5, (m - 1) as nat, m, 0, b, a, s);
    } else {
        lemma_cell_edge(5, m, (m - 1) as nat, 0, b, a, s);
    }
}

#[verifier::rlimit(50)]
proof fn lemma_corner_5_below_last_0(a: u32, b: u32, s: nat)
    requires
        valid_subdivision(s),
        3 <= grid_max(s),
        cell_has_edge(5, (grid_max(s) - 1) as nat, grid_max(s), 0, a, b, s),
    ensures
        buffer_has_edge(s, b, a),
{
    lemma_layout(s);
    let m = grid_max(s);
    lemma_all_neighbors_of_vid(s);
    lemma_pole_neighbors(s);
    lemma_row_cell_values(5, (m - 1) as nat, m, s);
    lemma_row_cell_values(5, (m - 2) as nat, m, s);
    lemma_row_cell_values(5, (m - 1) as nat, (m - 1) as nat, s);
    reveal(face_0_neighbors);
    reveal(face_1_neighbors);
    reveal(face_2_neighbors);
    reveal(face_3_neighbors);
    reveal(face_4_neighbors);
    reveal(face_5_neighbors);
    if slot(5, (m - 1) as nat, m, 0, s) == a && slot(5, (m - 1) as nat, m, 1, s) == b {
        lemma_cell_edge(5, (m - 2) as nat, m, 1, b, a, s);
    } else if slot(5, (m - 1) as nat, m, 1, s) == a && slot(5, (m - 1) as nat, m, 2, s) == b {
        lemma_cell_edge(5, (m - 1) as nat, m, 1, b, a, s);
    } else {
        lemma_cell_edge(5, (m - 1) as nat, (m - 1) as nat, 1, b, a, s);
    }
}

#[verifier::rlimit(50)]
proof fn lemma_corner_5_below_last_1(a: u32, b: u32, s: nat)
    requires
        valid_subdivision(s),
        3 <= grid_max(s),
        cell_has_edge(5, (grid_max(s) - 1) as nat, grid_max(s), 1, a, b, s),
    ensures
        buffer_has_edge(s, b, a),
{
    lemma_layout(s);
    let m = grid_max(s);
    lemma_all_neighbors_of_vid(s);
    lemma_pole_neighbors(s);
    lemma_row_cell_values(5, (m - 1) as nat, m, s);
    lemma_cap_values(2, s);
    lemma_row_cell_values(5, m, m, s);
    reveal(face_0_neighbors);
    reveal(face_1_neighbors);
    reveal(face_2_neighbors);
    reveal(face_3_neighbors);
    reveal(face_4_neighbors);
    reveal(face_5_neighbors);
    if slot(5, (m - 1) as nat, m, 3, s) == a && slot(5, (m - 1) as nat, m, 4, s) == b {
        lemma_cell_edge(5, (m - 1) as nat, m, 0, b, a, s);
    } else if slot(5, (m - 1) as nat, m, 4, s) == a && slot(5, (m - 1) as nat, m, 5, s) == b {
        lemma_cell_edge(2, m, m, 0, b, a, s);
    } else {
        lemma_cell_edge(5, m, m, 0, b, a, s);
    }
}

#[verifier::rlimit(50)]
proof fn lemma_corner_5_top_first_0(a: u32, b: u32, s: nat)
    requires
        valid_subdivision(s),
        3 <= grid_max(s),
        cell_has_edge(5, grid_max(s), 0, 0, a, b, s),
    ensures
        buffer_has_edge(s, b, a),
{
    lemma_layout(s);
    let m = grid_max(s);
    lemma_all_neighbors_of_vid(s);
    lemma_pole_neighbors(s);
    lemma_row_cell_values(5, m, 0, s);
    lemma_row_cell_values(5, (m - 1) as nat, 0, s);
    lemma_column_cell((m - 1) as nat, s);
    reveal(face_0_neighbors);
    reveal(face_1_neighbors);
    reveal(face_2_neighbors);
    reveal(face_3_neighbors);
    reveal(face_4_neighbors);
    reveal(face_5_neighbors);
    if slot(5, m, 0, 0, s) == a && slot(5, m, 0, 1, s) == b {
        lemma_cell_edge(5, (m - 1) as nat, 0, 1, b, a, s);
    } else if slot(5, m, 0, 1, s) == a && slot(5, m, 0, 2, s) == b {
        lemma_cell_edge(5, m, 0, 1, b, a, s);
    } else {
        lemma_cell_edge(4, (m - 1) as nat, m, 1, b, a, s);
    }
}

#[verifier::rlimit(50)]
proof fn lemma_corner_5_top_first_1(a: u32, b: u32, s: nat)
    requires
        valid_subdivision(s),
        3 <= grid_max(s),
        cell_has_edge(5, grid_max(s), 0, 1, a, b, s),
    ensures
        buffer_has_edge(s, b, a),
{
    lemma_layout(s);
    let m = grid_max(s);
    lemma_all_neighbors_of_vid(s);
    lemma_pole_neighbors(s);
    lemma_row_cell_values(5, m, 0, s);
    lemma_row_cell_values(5, m, 1, s);
    lemma_row_cell_values(0, 0, m, s);
    reveal(face_0_neighbors);
    reveal(face_1_neighbors);
    reveal(face_2_neighbors);
    reveal(face_3_neighbors);
    reveal(face_4_neighbors);
    reveal(face_5_neighbors);
    if slot(5, m, 0, 3, s) == a && slot(5, m, 0, 4, s) == b {
        lemma_cell_edge(5, m, 0, 0, b, a, s);
    } else if slot(5, m, 0, 4, s) == a && slot(5, m, 0, 5, s) == b {
        lemma_cell_edge(5, m, 1, 0, b, a, s);
    } else {
        lemma_cell_edge(0, 0, m, 0, b, a, s);
    }
}

#[verifier::rlimit(100)]
proof fn lemma_corner_5_top_before_last_0(a: u32, b: u32, s: nat)
    requires
        valid_subdivision(s),
        3 <= grid_max(s),
        cell_has_edge(5, grid_max(s), (grid_max(s) - 1) as nat, 0, a, b, s),
    ensures
        buffer_has_edge(s, b, a),
{
    lemma_layout(s);
    let m = grid_max(s);
    lemma_all_neighbors_of_vid(s);
    lemma_pole_neighbors(s);
    lemma_row_cell_values(5, m, (m - 1) as nat, s);
    lemma_row_cell_values(5, (m - 1) as nat, (m - 1) as nat, s);
    lemma_row_cell_values(5, m, (m - 2) as nat, s);
    reveal(face_0_neighbors);
    reveal(face_1_neighbors);
    reveal(face_2_neighbors);
    reveal(face_3_neighbors);
    reveal(face_4_neighbors);
    reveal(face_5_neighbors);
    if slot(5, m, (m - 1) as nat, 0, s) == a && slot(5, m, (m - 1) as nat, 1, s) == b {
        lemma_cell_edge(5, (m - 1) as nat, (m - 1) as nat, 1, b, a, s);
    } else if slot(5, m, (m - 1) as nat, 1, s) == a && slot(5, m, (m - 1) as nat, 2, s) == b {
        lemma_cell_edge(5, m, (m - 1) as nat, 1, b, a, s);
    } else {
        lemma_cell_edge(5, m, (m - 2) as nat, 1, b, a, s);
    }
}

#[verifier::rlimit(50)]
proof fn lemma_corner_5_top_before_last_1(a: u32, b: u32, s: nat)
    requires
        valid_subdivision(s),
        3 <= grid_max(s),
        cell_has_edge(5, grid_max(s), (grid_max(s) - 1) as nat, 1, a, b, s),
    ensures
        buffer_has_edge(s, b, a),
{
    lemma_layout(s);
    let m = grid_max(s);
    lemma_all_neighbors_of_vid(s);
    lemma_pole_neighbors(s);
    lemma_row_cell_values(5, m, (m - 1) as nat, s);
    lemma_row_cell_values(5, m, m, s);
    lemma_row_cell_values(2, 0, (m - 2) as nat, s);
    reveal(face_0_neighbors);
    reveal(face_1_neighbors);
    reveal(face_2_neighbors);
    reveal(face_3_neighbors);
    reveal(face_4_neighbors);
    reveal(face_5_neighbors);
    if slot(5, m, (m - 1) as nat, 3, s) == a && slot(5, m, (m - 1) as nat, 4, s) == b {
        lemma_cell_edge(5, m, (m - 1) as nat, 0, b, a, s);
    } else if slot(5, m, (m - 1) as nat, 4, s) == a && slot(5, m, (m - 1) as nat, 5, s) == b {
        lemma_cell_edge(5, m, m, 0, b, a, s);
    } else {
        lemma_cell_edge(2, 0, (m - 2) as nat, 0, b, a, s);
    }
}

#[verifier::rlimit(50)]
proof fn lemma_corner_5_top_last_0(a: u32, b: u32, s: nat)
    requires
        valid_subdivision(s),
        3 <= grid_max(s),
        cell_has_edge(5, grid_max(s), grid_max(s), 0, a, b, s),
    ensures
        buffer_has_edge(s, b, a),
{
    lemma_layout(s);
    let m = grid_max(s);
    lemma_all_neighbors_of_vid(s);
    lemma_pole_neighbors(s);
    lemma_row_cell_values(5, m, m, s);
    lemma_row_cell_values(5, (m - 1) as nat, m, s);
    lemma_row_cell_values(5, m, (m - 1) as nat, s);
    reveal(face_0_neighbors);
    reveal(face_1_neighbors);
    reveal(face_2_neighbors);
    reveal(face_3_neighbors);
    reveal(face_4_neighbors);
    reveal(face_5_neighbors);
    if slot(5, m, m, 0, s) == a && slot(5, m, m, 1, s) == b {
        lemma_cell_edge(5, (m - 1) as nat, m, 1, b, a, s);
    } else if slot(5, m, m, 1, s) == a && slot(5, m, m, 2, s) == b {
        lemma_cell_edge(5, m, m, 1, b, a, s);
    } else {
        lemma_cell_edge(5, m, (m - 1) as nat, 1, b, a, s);
    }
}

#[verifier::rlimit(50)]
proof fn lemma_corner_5_top_last_1(a: u32, b: u32, s: nat)
    requires
        valid_subdivision(s),
        3 <= grid_max(s),
        cell_has_edge(5, grid_max(s), grid_max(s), 1, a, b, s),
    ensures
        buffer_has_edge(s, b, a),
{
    lemma_layout(s);
    let m = grid_max(s);
    lemma_all_neighbors_of_vid(s);
    lemma_pole_neighbors(s);
    lemma_row_cell_values(5, m, m, s);
    lemma_cap_values(2, s);
    lemma_row_cell_values(2, 0, (m - 1) as nat, s);
    reveal(face_0_neighbors);
    reveal(face_1_neighbors);
    reveal(face_2_neighbors);
    reveal(face_3_neighbors);
    reveal(face_4_neighbors);
    reveal(face_5_neighbors);
    if slot(5, m, m, 3, s) == a && slot(5, m, m, 4, s) == b {
        lemma_cell_edge(5, m, m, 0, b, a, s);
    } else if slot(5, m, m, 4, s) == a && slot(5, m, m, 5, s) == b {
        lemma_cell_edge(2, m, m, 0, b, a, s);
    } else {
        lemma_cell_edge(2, 0, (m - 1) as nat, 0, b, a, s);
    }
}

/// At one subdivision, where every face is a two by two grid, each directed
/// edge of a triangle of a cell is traversed the other way by a triangle of
/// the buffer.
#[verifier::rlimit(50)]
proof fn lemma_one_subdivision_closed(f: nat, y: nat, k: nat, h: nat, a: u32, b: u32, s: nat)
    requires
        valid_subdivision(s),
        s == 1,
        f < 6,
        y < 2,
        k < 2,
        h < 2,
        cell_has_edge(f, y, k, h, a, b, s),
    ensures
        buffer_has_edge(s, b, a),
{
    if f == 0 && y == 0 && k == 0 && h == 0 {
        lemma_one_subdivision_0_0_0_0(a, b, s);
    } else if f == 0 && y == 0 && k == 0 && h == 1 {
        lemma_one_subdivision_0_0_0_1(a, b, s);
    } else if f == 0 && y == 0 && k == 1 && h == 0 {
        lemma_one_subdivision_0_0_1_0(a, b, s);
    } else if f == 0 && y == 0 && k == 1 && h == 1 {
        lemma_one_subdivision_0_0_1_1(a, b, s);
    } else if f == 0 && y == 1 && k == 0 && h == 0 {
        lemma_one_subdivision_0_1_0_0(a, b, s);
    } else if f == 0 && y == 1 && k == 0 && h == 1 {
        lemma_one_subdivision_0_1_0_1(a, b, s);
    } else if f == 0 && y == 1 && k == 1 && h == 0 {
        lemma_one_subdivision_0_1_1_0(a, b, s);
    } else if f == 0 && y == 1 && k == 1 && h == 1 {
        lemma_one_subdivision_0_1_1_1(a, b, s);
    } else if f == 1 && y == 0 && k == 0 && h == 0 {
        lemma_one_subdivision_1_0_0_0(a, b, s);
    } else if f == 1 && y == 0 && k == 0 && h == 1 {
        lemma_one_subdivision_1_0_0_1(a, b, s);
    } else if f == 1 && y == 0 && k == 1 && h == 0 {
        lemma_one_subdivision_1_0_1_0(a, b, s);
    } else if f == 1 && y == 0 && k == 1 && h == 1 {
        lemma_one_subdivision_1_0_1_1(a, b, s);
    } else if f == 1 && y == 1 && k == 0 && h == 0 {
        lemma_one_subdivision_1_1_0_0(a, b, s);
    } else if f == 1 && y == 1 && k == 0 && h == 1 {
        lemma_one_subdivision_1_1_0_1(a, b, s);
    } else if f == 1 && y == 1 && k == 1 && h == 0 {
        lemma_one_subdivision_1_1_1_0(a, b, s);
    } else if f == 1 && y == 1 && k == 1 && h == 1 {
        lemma_one_subdivision_1_1_1_1(a, b, s);
    } else if f == 2 && y == 0 && k == 0 && h == 0 {
        lemma_one_subdivision_2_0_0_0(a, b, s);
    } else if f == 2 && y == 0 && k == 0 && h == 1 {
        lemma_one_subdivision_2_0_0_1(a, b, s);
    } else if f == 2 && y == 0 && k == 1 && h == 0 {
        lemma_one_subdivision_2_0_1_0(a, b, s);
    } else if f == 2 && y == 0 && k == 1 && h == 1 {
        lemma_one_subdivision_2_0_1_1(a, b, s);
    } else if f == 2 && y == 1 && k == 0 && h == 0 {
        lemma_one_subdivision_2_1_0_0(a, b, s);
    } else if f == 2 && y == 1 && k == 0 && h == 1 {
        lemma_one_subdivision_2_1_0_1(a, b, s);
    } else if f == 2 && y == 1 && k == 1 && h == 0 {
        lemma_one_subdivision_2_1_1_0(a, b, s);
    } else if f == 2 && y == 1 && k == 1 && h == 1 {
        lemma_one_subdivision_2_1_1_1(a, b, s);
    } else if f == 3 && y == 0 && k == 0 && h == 0 {
        lemma_one_subdivision_3_0_0_0(a, b, s);
    } else if f == 3 && y == 0 && k == 0 && h == 1 {
        lemma_one_subdivision_3_0_0_1(a, b, s);
    } else if f == 3 && y == 0 && k == 1 && h == 0 {
        lemma_one_subdivision_3_0_1_0(a, b, s);
    } else if f == 3 && y == 0 && k == 1 && h == 1 {
        lemma_one_subdivision_3_0_1_1(a, b, s);
    } else if f == 3 && y == 1 && k == 0 && h == 0 {
        lemma_one_subdivision_3_1_0_0(a, b, s);
    } else if f == 3 && y == 1 && k == 0 && h == 1 {
        lemma_one_subdivision_3_1_0_1(a, b, s);
    } else if f == 3 && y == 1 && k == 1 && h == 0 {
        lemma_one_subdivision_3_1_1_0(a, b, s);
    } else if f == 3 && y == 1 && k == 1 && h == 1 {
        lemma_one_subdivision_3_1_1_1(a, b, s);
    } else if f == 4 && y == 0 && k == 0 && h == 0 {
        lemma_one_subdivision_4_0_0_0(a, b, s);
    } else if f == 4 && y == 0 && k == 0 && h == 1 {
        lemma_one_subdivision_4_0_0_1(a, b, s);
    } else if f == 4 && y == 0 && k == 1 && h == 0 {
        lemma_one_subdivision_4_0_1_0(a, b, s);
    } else if f == 4 && y == 0 && k == 1 && h == 1 {
        lemma_one_subdivision_4_0_1_1(a, b, s);
    } else if f == 4 && y == 1 && k == 0 && h == 0 {
        lemma_one_subdivision_4_1_0_0(a, b, s);
    } else if f == 4 && y == 1 && k == 0 && h == 1 {
        lemma_one_subdivision_4_1_0_1(a, b, s);
    } else if f == 4 && y == 1 && k == 1 && h == 0 {
        lemma_one_subdivision_4_1_1_0(a, b, s);
    } else if f == 4 && y == 1 && k == 1 && h == 1 {
        lemma_one_subdivision_4_1_1_1(a, b, s);
    } else if f == 5 && y == 0 && k == 0 && h == 0 {
        lemma_one_subdivision_5_0_0_0(a, b, s);
    } else if f == 5 && y == 0 && k == 0 && h == 1 {
        lemma_one_subdivision_5_0_0_1(a, b, s);
    } else if f == 5 && y == 0 && k == 1 && h == 0 {
        lemma_one_subdivision_5_0_1_0(a, b, s);
    } else if f == 5 && y == 0 && k == 1 && h == 1 {
        lemma_one_subdivision_5_0_1_1(a, b, s);
    } else if f == 5 && y == 1 && k == 0 && h == 0 {
        lemma_one_subdivision_5_1_0_0(a, b, s);
    } else if f == 5 && y == 1 && k == 0 && h == 1 {
        lemma_one_subdivision_5_1_0_1(a, b, s);
    } else if f == 5 && y == 1 && k == 1 && h == 0 {
        lemma_one_subdivision_5_1_1_0(a, b, s);
    } else if f == 5 && y == 1 && k == 1 && h == 1 {
        lemma_one_subdivision_5_1_1_1(a, b, s);
    }
}

#[verifier::rlimit(50)]
proof fn lemma_one_subdivision_0_0_0_0(a: u32, b: u32, s: nat)
    requires
        valid_subdivision(s),
        s == 1,
        cell_has_edge(0, 0, 0, 0, a, b, s),
    ensures
        buffer_has_edge(s, b, a),
{
    lemma_layout(s);
    lemma_all_neighbors_of_vid(s);
    lemma_pole_neighbors(s);
    vstd::arithmetic::power2::lemma2_to64();
    lemma_row_cell_values(0, 0, 0, s);
    lemma_column_cell(0, s);
    lemma_row_cell_values(3, 1, 1, s);
    reveal(face_0_neighbors);
    reveal(face_1_neighbors);
    reveal(face_2_neighbors);
    reveal(face_3_neighbors);
    reveal(face_4_neighbors);
    reveal(face_5_neighbors);
    if slot(0, 0, 0, 0, s) == a && slot(0, 0, 0, 1, s) == b {
        lemma_cell_edge(4, 0, 1, 1, b, a, s);
    } else if slot(0, 0, 0, 1, s) == a && slot(0, 0, 0, 2, s) == b {
        lemma_cell_edge(0, 0, 0, 1, b, a, s);
    } else {
        lemma_cell_edge(3, 1, 1, 1, b, a, s);
    }
}

#[verifier::rlimit(50)]
proof fn lemma_one_subdivision_0_0_0_1(a: u32, b: u32, s: nat)
    requires
        valid_subdivision(s),
        s == 1,
        cell_has_edge(0, 0, 0, 1, a, b, s),
    ensures
        buffer_has_edge(s, b, a),
{
    lemma_layout(s);
    lemma_all_neighbors_of_vid(s);
    lemma_pole_neighbors(s);
    vstd::arithmetic::power2::lemma2_to64();
    lemma_row_cell_values(0, 0, 0, s);
    lemma_row_cell_values(0, 0, 1, s);
    lemma_row_cell_values(0, 1, 0, s);
    reveal(face_0_neighbors);
    reveal(face_1_neighbors);
    reveal(face_2_neighbors);
    reveal(face_3_neighbors);
    reveal(face_4_neighbors);
    reveal(face_5_neighbors);
    if slot(0, 0, 0, 3, s) == a && slot(0, 0, 0, 4, s) == b {
        lemma_cell_edge(0, 0, 0, 0, b, a, s);
    } else if slot(0, 0, 0, 4, s) == a && slot(0, 0, 0, 5, s) == b {
        lemma_cell_edge(0, 0, 1, 0, b, a, s);
    } else {
        lemma_cell_edge(0, 1, 0, 0, b, a, s);
    }
}

#[verifier::rlimit(50)]
proof fn lemma_one_subdivision_0_0_1_0(a: u32, b: u32, s: nat)
    requires
        valid_subdivision(s),
        s == 1,
        cell_has_edge(0, 0, 1, 0, a, b, s),
    ensures
        buffer_has_edge(s, b, a),
{
    lemma_layout(s);
    lemma_all_neighbors_of_vid(s);
    lemma_pole_neighbors(s);
    vstd::arithmetic::power2::lemma2_to64();
    lemma_row_cell_values(0, 0, 1, s);
    lemma_row_cell_values(5, 1, 0, s);
    lemma_row_cell_values(0, 0, 0, s);
    reveal(face_0_neighbors);
    reveal(face_1_neighbors);
    reveal(face_2_neighbors);
    reveal(face_3_neighbors);
    reveal(face_4_neighbors);
    reveal(face_5_neighbors);
    if slot(0, 0, 1, 0, s) == a && slot(0, 0, 1, 1, s) == b {
        lemma_cell_edge(5, 1, 0, 1, b, a, s);
    } else if slot(0, 0, 1, 1, s) == a && slot(0, 0, 1, 2, s) == b {
        lemma_cell_edge(0, 0, 1, 1, b, a, s);
    } else {
        lemma_cell_edge(0, 0, 0, 1, b, a, s);
    }
}

#[verifier::rlimit(50)]
proof fn lemma_one_subdivision_0_0_1_1(a: u32, b: u32, s: nat)
    requires
        valid_subdivision(s),
        s == 1,
        cell_has_edge(0, 0, 1, 1, a, b, s),
    ensures
        buffer_has_edge(s, b, a),
{
    lemma_layout(s);
    lemma_all_neighbors_of_vid(s);
    lemma_pole_neighbors(s);
    vstd::arithmetic::power2::lemma2_to64();
    lemma_row_cell_values(0, 0, 1, s);
    lemma_row_cell_values(2, 0, 0, s);
    lemma_row_cell_values(0, 1, 0, s);
    reveal(face_0_neighbors);
    reveal(face_1_neighbors);
    reveal(face_2_neighbors);
    reveal(face_3_neighbors);
    reveal(face_4_neighbors);
    reveal(face_5_neighbors);
    if slot(0, 0, 1, 3, s) == a && slot(0, 0, 1, 4, s) == b {
        lemma_cell_edge(0, 0, 1, 0, b, a, s);
    } else if slot(0, 0, 1, 4, s) == a && slot(0, 0, 1, 5, s) == b {
        lemma_cell_edge(2, 0, 0, 0, b, a, s);
    } else {
        lemma_cell_edge(0, 1, 0, 1, b, a, s);
    }
}

#[verifier::rlimit(50)]
proof fn lemma_one_subdivision_0_1_0_0(a: u32, b: u32, s: nat)
    requires
        valid_subdivision(s),
        s == 1,
        cell_has_edge(0, 1, 0, 0, a, b, s),
    ensures
        buffer_has_edge(s, b, a),
{
    lemma_layout(s);
    lemma_all_neighbors_of_vid(s);
    lemma_pole_neighbors(s);
    vstd::arithmetic::power2::lemma2_to64();
    lemma_row_cell_values(0, 1, 0, s);
    lemma_row_cell_values(0, 0, 0, s);
    lemma_cap_values(0, s);
    reveal(face_0_neighbors);
    reveal(face_1_neighbors);
    reveal(face_2_neighbors);
    reveal(face_3_neighbors);
    reveal(face_4_neighbors);
    reveal(face_5_neighbors);
    if slot(0, 1, 0, 0, s) == a && slot(0, 1, 0, 1, s) == b {
        lemma_cell_edge(0, 0, 0, 1, b, a, s);
    } else if slot(0, 1, 0, 1, s) == a && slot(0, 1, 0, 2, s) == b {
        lemma_cell_edge(0, 1, 0, 1, b, a, s);
    } else {
        lemma_cell_edge(0, 1, 1, 1, b, a, s);
    }
}

#[verifier::rlimit(50)]
proof fn lemma_one_subdivision_0_1_0_1(a: u32, b: u32, s: nat)
    requires
        valid_subdivision(s),
        s == 1,
        cell_has_edge(0, 1, 0, 1, a, b, s),
    ensures
        buffer_has_edge(s, b, a),
{
    lemma_layout(s);
    lemma_all_neighbors_of_vid(s);
    lemma_pole_neighbors(s);
    vstd::arithmetic::power2::lemma2_to64();
    lemma_row_cell_values(0, 1, 0, s);
    lemma_row_cell_values(0, 0, 1, s);
    lemma_row_cell_values(2, 1, 0, s);
    reveal(face_0_neighbors);
    reveal(face_1_neighbors);
    reveal(face_2_neighbors);
    reveal(face_3_neighbors);
    reveal(face_4_neighbors);
    reveal(face_5_neighbors);
    if slot(0, 1, 0, 3, s) == a && slot(0, 1, 0, 4, s) == b {
        lemma_cell_edge(0, 1, 0, 0, b, a, s);
    } else if slot(0, 1, 0, 4, s) == a && slot(0, 1, 0, 5, s) == b {
        lemma_cell_edge(0, 0, 1, 1, b, a, s);
    } else {
        lemma_cell_edge(2, 1, 0, 0, b, a, s);
    }
}

#[verifier::rlimit(50)]
proof fn lemma_one_subdivision_0_1_1_0(a: u32, b: u32, s: nat)
    requires
        valid_subdivision(s),
        s == 1,
        cell_has_edge(0, 1, 1, 0, a, b, s),
    ensures
        buffer_has_edge(s, b, a),
{
    lemma_layout(s);
    lemma_all_neighbors_of_vid(s);
    lemma_pole_neighbors(s);
    vstd::arithmetic::power2::lemma2_to64();
    lemma_cap_values(0, s);
    lemma_row_cell_values(3, 1, 1, s);
    lemma_row_cell_values(3, 1, 0, s);
    reveal(face_0_neighbors);
    reveal(face_1_neighbors);
    reveal(face_2_neighbors);
    reveal(face_3_neighbors);
    reveal(face_4_neighbors);
    reveal(face_5_neighbors);
    if slot(0, 1, 1, 0, s) == a && slot(0, 1, 1, 1, s) == b {
        lemma_cell_edge(3, 1, 1, 1, b, a, s);
    } else if slot(0, 1, 1, 1, s) == a && slot(0, 1, 1, 2, s) == b {
        lemma_cell_edge(0, 1, 1, 1, b, a, s);
    } else {
        lemma_cell_edge(3, 1, 0, 1, b, a, s);
    }
}

#[verifier::rlimit(50)]
proof fn lemma_one_subdivision_0_1_1_1(a: u32, b: u32, s: nat)
    requires
        valid_subdivision(s),
        s == 1,
        cell_has_edge(0, 1, 1, 1, a, b, s),
    ensures
        buffer_has_edge(s, b, a),
{
    lemma_layout(s);
    lemma_all_neighbors_of_vid(s);
    lemma_pole_neighbors(s);
    vstd::arithmetic::power2::lemma2_to64();
    lemma_cap_values(0, s);
    lemma_row_cell_values(0, 1, 0, s);
    lemma_row_cell_values(4, 0, 0, s);
    reveal(face_0_neighbors);
    reveal(face_1_neighbors);
    reveal(face_2_neighbors);
    reveal(face_3_neighbors);
    reveal(face_4_neighbors);
    reveal(face_5_neighbors);
    if slot(0, 1, 1, 3, s) == a && slot(0, 1, 1, 4, s) == b {
        lemma_cell_edge(0, 1, 1, 0, b, a, s);
    } else if slot(0, 1, 1, 4, s) == a && slot(0, 1, 1, 5, s) == b {
        lemma_cell_edge(0, 1, 0, 0, b, a, s);
    } else {
        lemma_cell_edge(4, 0, 0, 0, b, a, s);
    }
}

#[verifier::rlimit(50)]
proof fn lemma_one_subdivision_1_0_0_0(a: u32, b: u32, s: nat)
    requires
        valid_subdivision(s),
        s == 1,
        cell_has_edge(1, 0, 0, 0, a, b, s),
    ensures
        buffer_has_edge(s, b, a),
{
    lemma_layout(s);
    lemma_all_neighbors_of_vid(s);
    lemma_pole_neighbors(s);
    vstd::arithmetic::power2::lemma2_to64();
    lemma_row_cell_values(1, 0, 0, s);
    lemma_seam_cell(1, s);
    lemma_cap_values(2, s);
    reveal(face_0_neighbors);
    reveal(face_1_neighbors);
    reveal(face_2_neighbors);
    reveal(face_3_neighbors);
    reveal(face_4_neighbors);
    reveal(face_5_neighbors);
    if slot(1, 0, 0, 0, s) == a && slot(1, 0, 0, 1, s) == b {
        lemma_cell_edge(4, 1, 1, 1, b, a, s);
    } else if slot(1, 0, 0, 1, s) == a && slot(1, 0, 0, 2, s) == b {
        lemma_cell_edge(1, 0, 0, 1, b, a, s);
    } else {
        lemma_cell_edge(2, 1, 1, 1, b, a, s);
    }
}

#[verifier::rlimit(50)]
proof fn lemma_one_subdivision_1_0_0_1(a: u32, b: u32, s: nat)
    requires
        valid_subdivision(s),
        s == 1,
        cell_has_edge(1, 0, 0, 1, a, b, s),
    ensures
        buffer_has_edge(s, b, a),
{
    lemma_layout(s);
    lemma_all_neighbors_of_vid(s);
    lemma_pole_neighbors(s);
    vstd::arithmetic::power2::lemma2_to64();
    lemma_row_cell_values(1, 0, 0, s);
    lemma_row_cell_values(1, 0, 1, s);
    lemma_row_cell_values(1, 1, 0, s);
    reveal(face_0_neighbors);
    reveal(face_1_neighbors);
    reveal(face_2_neighbors);
    reveal(face_3_neighbors);
    reveal(face_4_neighbors);
    reveal(face_5_neighbors);
    if slot(1, 0, 0, 3, s) == a && slot(1, 0, 0, 4, s) == b {
        lemma_cell_edge(1, 0, 0, 0, b, a, s);
    } else if slot(1, 0, 0, 4, s) == a && slot(1, 0, 0, 5, s) == b {
        lemma_cell_edge(1, 0, 1, 0, b, a, s);
    } else {
        lemma_cell_edge(1, 1, 0, 0, b, a, s);
    }
}

#[verifier::rlimit(50)]
proof fn lemma_one_subdivision_1_0_1_0(a: u32, b: u32, s: nat)
    requires
        valid_subdivision(s),
        s == 1,
        cell_has_edge(1, 0, 1, 0, a, b, s),
    ensures
        buffer_has_edge(s, b, a),
{
    lemma_layout(s);
    lemma_all_neighbors_of_vid(s);
    lemma_pole_neighbors(s);
    vstd::arithmetic::power2::lemma2_to64();
    lemma_row_cell_values(1, 0, 1, s);
    lemma_seam_cell(1, s);
    lemma_row_cell_values(1, 0, 0, s);
    reveal(face_0_neighbors);
    reveal(face_1_neighbors);
    reveal(face_2_neighbors);
    reveal(face_3_neighbors);
    reveal(face_4_neighbors);
    reveal(face_5_neighbors);
    if slot(1, 0, 1, 0, s) == a && slot(1, 0, 1, 1, s) == b {
        lemma_cell_edge(4, 1, 1, 1, b, a, s);
    } else if slot(1, 0, 1, 1, s) == a && slot(1, 0, 1, 2, s) == b {
        lemma_cell_edge(1, 0, 1, 1, b, a, s);
    } else {
        lemma_cell_edge(1, 0, 0, 1, b, a, s);
    }
}

#[verifier::rlimit(50)]
proof fn lemma_one_subdivision_1_0_1_1(a: u32, b: u32, s: nat)
    requires
        valid_subdivision(s),
        s == 1,
        cell_has_edge(1, 0, 1, 1, a, b, s),
    ensures
        buffer_has_edge(s, b, a),
{
    lemma_layout(s);
    lemma_all_neighbors_of_vid(s);
    lemma_pole_neighbors(s);
    vstd::arithmetic::power2::lemma2_to64();
    lemma_row_cell_values(1, 0, 1, s);
    lemma_row_cell_values(3, 0, 0, s);
    lemma_row_cell_values(1, 1, 1, s);
    reveal(face_0_neighbors);
    reveal(face_1_neighbors);
    reveal(face_2_neighbors);
    reveal(face_3_neighbors);
    reveal(face_4_neighbors);
    reveal(face_5_neighbors);
    if slot(1, 0, 1, 3, s) == a && slot(1, 0, 1, 4, s) == b {
        lemma_cell_edge(1, 0, 1, 0, b, a, s);
    } else if slot(1, 0, 1, 4, s) == a && slot(1, 0, 1, 5, s) == b {
        lemma_cell_edge(3, 0, 0, 0, b, a, s);
    } else {
        lemma_cell_edge(1, 1, 1, 0, b, a, s);
    }
}

#[verifier::rlimit(50)]
proof fn lemma_one_subdivision_1_1_0_0(a: u32, b: u32, s: nat)
    requires
        valid_subdivision(s),
        s == 1,
        cell_has_edge(1, 1, 0, 0, a, b, s),
    ensures
        buffer_has_edge(s, b, a),
{
    lemma_layout(s);
    lemma_all_neighbors_of_vid(s);
    lemma_pole_neighbors(s);
    vstd::arithmetic::power2::lemma2_to64();
    lemma_row_cell_values(1, 1, 0, s);
    lemma_row_cell_values(1, 0, 0, s);
    lemma_row_cell_values(2, 0, 1, s);
    reveal(face_0_neighbors);
    reveal(face_1_neighbors);
    reveal(face_2_neighbors);
    reveal(face_3_neighbors);
    reveal(face_4_neighbors);
    reveal(face_5_neighbors);
    if slot(1, 1, 0, 0, s) == a && slot(1, 1, 0, 1, s) == b {
        lemma_cell_edge(1, 0, 0, 1, b, a, s);
    } else if slot(1, 1, 0, 1, s) == a && slot(1, 1, 0, 2, s) == b {
        lemma_cell_edge(1, 1, 0, 1, b, a, s);
    } else {
        lemma_cell_edge(2, 0, 1, 1, b, a, s);
    }
}

#[verifier::rlimit(50)]
proof fn lemma_one_subdivision_1_1_0_1(a: u32, b: u32, s: nat)
    requires
        valid_subdivision(s),
        s == 1,
        cell_has_edge(1, 1, 0, 1, a, b, s),
    ensures
        buffer_has_edge(s, b, a),
{
    lemma_layout(s);
    lemma_all_neighbors_of_vid(s);
    lemma_pole_neighbors(s);
    vstd::arithmetic::power2::lemma2_to64();
    lemma_row_cell_values(1, 1, 0, s);
    lemma_row_cell_values(1, 1, 1, s);
    lemma_row_cell_values(4, 0, 0, s);
    reveal(face_0_neighbors);
    reveal(face_1_neighbors);
    reveal(face_2_neighbors);
    reveal(face_3_neighbors);
    reveal(face_4_neighbors);
    reveal(face_5_neighbors);
    if slot(1, 1, 0, 3, s) == a && slot(1, 1, 0, 4, s) == b {
        lemma_cell_edge(1, 1, 0, 0, b, a, s);
    } else if slot(1, 1, 0, 4, s) == a && slot(1, 1, 0, 5, s) == b {
        lemma_cell_edge(1, 1, 1, 0, b, a, s);
    } else {
        lemma_cell_edge(4, 0, 0, 1, b, a, s);
    }
}

#[verifier::rlimit(50)]
proof fn lemma_one_subdivision_1_1_1_0(a: u32, b: u32, s: nat)
    requires
        valid_subdivision(s),
        s == 1,
        cell_has_edge(1, 1, 1, 0, a, b, s),
    ensures
        buffer_has_edge(s, b, a),
{
    lemma_layout(s);
    lemma_all_neighbors_of_vid(s);
    lemma_pole_neighbors(s);
    vstd::arithmetic::power2::lemma2_to64();
    lemma_row_cell_values(1, 1, 1, s);
    lemma_row_cell_values(1, 0, 1, s);
    lemma_row_cell_values(1, 1, 0, s);
    reveal(face_0_neighbors);
    reveal(face_1_neighbors);
    reveal(face_2_neighbors);
    reveal(face_3_neighbors);
    reveal(face_4_neighbors);
    reveal(face_5_neighbors);
    if slot(1, 1, 1, 0, s) == a && slot(1, 1, 1, 1, s) == b {
        lemma_cell_edge(1, 0, 1, 1, b, a, s);
    } else if slot(1, 1, 1, 1, s) == a && slot(1, 1, 1, 2, s) == b {
        lemma_cell_edge(1, 1, 1, 1, b, a, s);
    } else {
        lemma_cell_edge(1, 1, 0, 1, b, a, s);
    }
}

#[verifier::rlimit(50)]
proof fn lemma_one_subdivision_1_1_1_1(a: u32, b: u32, s: nat)
    requires
        valid_subdivision(s),
        s == 1,
        cell_has_edge(1, 1, 1, 1, a, b, s),
    ensures
        buffer_has_edge(s, b, a),
{
    lemma_layout(s);
    lemma_all_neighbors_of_vid(s);
    lemma_pole_neighbors(s);
    vstd::arithmetic::power2::lemma2_to64();
    lemma_row_cell_values(1, 1, 1, s);
    lemma_row_cell_values(3, 1, 0, s);
    lemma_row_cell_values(4, 0, 0, s);
    reveal(face_0_neighbors);
    reveal(face_1_neighbors);
    reveal(face_2_neighbors);
    reveal(face_3_neighbors);
    reveal(face_4_neighbors);
    reveal(face_5_neighbors);
    if slot(1, 1, 1, 3, s) == a && slot(1, 1, 1, 4, s) == b {
        lemma_cell_edge(1, 1, 1, 0, b, a, s);
    } else if slot(1, 1, 1, 4, s) == a && slot(1, 1, 1, 5, s) == b {
        lemma_cell_edge(3, 1, 0, 0, b, a, s);
    } else {
        lemma_cell_edge(4, 0, 0, 1, b, a, s);
    }
}

#[verifier::rlimit(50)]
proof fn lemma_one_subdivision_2_0_0_0(a: u32, b: u32, s: nat)
    requires
        valid_subdivision(s),
        s == 1,
        cell_has_edge(2, 0, 0, 0, a, b, s),
    ensures
        buffer_has_edge(s, b, a),
{
    lemma_layout(s);
    lemma_all_neighbors_of_vid(s);
    lemma_pole_neighbors(s);
    vstd::arithmetic::power2::lemma2_to64();
    lemma_row_cell_values(2, 0, 0, s);
    lemma_row_cell_values(5, 1, 1, s);
    lemma_row_cell_values(0, 0, 1, s);
    reveal(face_0_neighbors);
    reveal(face_1_neighbors);
    reveal(face_2_neighbors);
    reveal(face_3_neighbors);
    reveal(face_4_neighbors);
    reveal(face_5_neighbors);
    if slot(2, 0, 0, 0, s) == a && slot(2, 0, 0, 1, s) == b {
        lemma_cell_edge(5, 1, 1, 1, b, a, s);
    } else if slot(2, 0, 0, 1, s) == a && slot(2, 0, 0, 2, s) == b {
        lemma_cell_edge(2, 0, 0, 1, b, a, s);
    } else {
        lemma_cell_edge(0, 0, 1, 1, b, a, s);
    }
}

#[verifier::rlimit(50)]
proof fn lemma_one_subdivision_2_0_0_1(a: u32, b: u32, s: nat)
    requires
        valid_subdivision(s),
        s == 1,
        cell_has_edge(2, 0, 0, 1, a, b, s),
    ensures
        buffer_has_edge(s, b, a),
{
    lemma_layout(s);
    lemma_all_neighbors_of_vid(s);
    lemma_pole_neighbors(s);
    vstd::arithmetic::power2::lemma2_to64();
    lemma_row_cell_values(2, 0, 0, s);
    lemma_row_cell_values(2, 0, 1, s);
    lemma_row_cell_values(2, 1, 0, s);
    reveal(face_0_neighbors);
    reveal(face_1_neighbors);
    reveal(face_2_neighbors);
    reveal(face_3_neighbors);
    reveal(face_4_neighbors);
    reveal(face_5_neighbors);
    if slot(2, 0, 0, 3, s) == a && slot(2, 0, 0, 4, s) == b {
        lemma_cell_edge(2, 0, 0, 0, b, a, s);
    } else if slot(2, 0, 0, 4, s) == a && slot(2, 0, 0, 5, s) == b {
        lemma_cell_edge(2, 0, 1, 0, b, a, s);
    } else {
        lemma_cell_edge(2, 1, 0, 0, b, a, s);
    }
}

#[verifier::rlimit(50)]
proof fn lemma_one_subdivision_2_0_1_0(a: u32, b: u32, s: nat)
    requires
        valid_subdivision(s),
        s == 1,
        cell_has_edge(2, 0, 1, 0, a, b, s),
    ensures
        buffer_has_edge(s, b, a),
{
    lemma_layout(s);
    lemma_all_neighbors_of_vid(s);
    lemma_pole_neighbors(s);
    vstd::arithmetic::power2::lemma2_to64();
    lemma_row_cell_values(2, 0, 1, s);
    lemma_cap_values(2, s);
    lemma_row_cell_values(2, 0, 0, s);
    reveal(face_0_neighbors);
    reveal(face_1_neighbors);
    reveal(face_2_neighbors);
    reveal(face_3_neighbors);
    reveal(face_4_neighbors);
    reveal(face_5_neighbors);
    if slot(2, 0, 1, 0, s) == a && slot(2, 0, 1, 1, s) == b {
        lemma_cell_edge(2, 1, 1, 1, b, a, s);
    } else if slot(2, 0, 1, 1, s) == a && slot(2, 0, 1, 2, s) == b {
        lemma_cell_edge(2, 0, 1, 1, b, a, s);
    } else {
        lemma_cell_edge(2, 0, 0, 1, b, a, s);
    }
}

#[verifier::rlimit(50)]
proof fn lemma_one_subdivision_2_0_1_1(a: u32, b: u32, s: nat)
    requires
        valid_subdivision(s),
        s == 1,
        cell_has_edge(2, 0, 1, 1, a, b, s),
    ensures
        buffer_has_edge(s, b, a),
{
    lemma_layout(s);
    lemma_all_neighbors_of_vid(s);
    lemma_pole_neighbors(s);
    vstd::arithmetic::power2::lemma2_to64();
    lemma_row_cell_values(2, 0, 1, s);
    lemma_row_cell_values(1, 1, 0, s);
    lemma_row_cell_values(2, 1, 0, s);
    reveal(face_0_neighbors);
    reveal(face_1_neighbors);
    reveal(face_2_neighbors);
    reveal(face_3_neighbors);
    reveal(face_4_neighbors);
    reveal(face_5_neighbors);
    if slot(2, 0, 1, 3, s) == a && slot(2, 0, 1, 4, s) == b {
        lemma_cell_edge(2, 0, 1, 0, b, a, s);
    } else if slot(2, 0, 1, 4, s) == a && slot(2, 0, 1, 5, s) == b {
        lemma_cell_edge(1, 1, 0, 0, b, a, s);
    } else {
        lemma_cell_edge(2, 1, 0, 1, b, a, s);
    }
}

#[verifier::rlimit(50)]
proof fn lemma_one_subdivision_2_1_0_0(a: u32, b: u32, s: nat)
    requires
        valid_subdivision(s),
        s == 1,
        cell_has_edge(2, 1, 0, 0, a, b, s),
    ensures
        buffer_has_edge(s, b, a),
{
    lemma_layout(s);
    lemma_all_neighbors_of_vid(s);
    lemma_pole_neighbors(s);
    vstd::arithmetic::power2::lemma2_to64();
    lemma_row_cell_values(2, 1, 0, s);
    lemma_row_cell_values(2, 0, 0, s);
    lemma_row_cell_values(0, 1, 0, s);
    reveal(face_0_neighbors);
    reveal(face_1_neighbors);
    reveal(face_2_neighbors);
    reveal(face_3_neighbors);
    reveal(face_4_neighbors);
    reveal(face_5_neighbors);
    if slot(2, 1, 0, 0, s) == a && slot(2, 1, 0, 1, s) == b {
        lemma_cell_edge(2, 0, 0, 1, b, a, s);
    } else if slot(2, 1, 0, 1, s) == a && slot(2, 1, 0, 2, s) == b {
        lemma_cell_edge(2, 1, 0, 1, b, a, s);
    } else {
        lemma_cell_edge(0, 1, 0, 1, b, a, s);
    }
}

#[verifier::rlimit(50)]
proof fn lemma_one_subdivision_2_1_0_1(a: u32, b: u32, s: nat)
    requires
        valid_subdivision(s),
        s == 1,
        cell_has_edge(2, 1, 0, 1, a, b, s),
    ensures
        buffer_has_edge(s, b, a),
{
    lemma_layout(s);
    lemma_all_neighbors_of_vid(s);
    lemma_pole_neighbors(s);
    vstd::arithmetic::power2::lemma2_to64();
    lemma_row_cell_values(2, 1, 0, s);
    lemma_row_cell_values(2, 0, 1, s);
    lemma_row_cell_values(4, 0, 0, s);
    reveal(face_0_neighbors);
    reveal(face_1_neighbors);
    reveal(face_2_neighbors);
    reveal(face_3_neighbors);
    reveal(face_4_neighbors);
    reveal(face_5_neighbors);
    if slot(2, 1, 0, 3, s) == a && slot(2, 1, 0, 4, s) == b {
        lemma_cell_edge(2, 1, 0, 0, b, a, s);
    } else if slot(2, 1, 0, 4, s) == a && slot(2, 1, 0, 5, s) == b {
        lemma_cell_edge(2, 0, 1, 1, b, a, s);
    } else {
        lemma_cell_edge(4, 0, 0, 0, b, a, s);
    }
}

#[verifier::rlimit(50)]
proof fn lemma_one_subdivision_2_1_1_0(a: u32, b: u32, s: nat)
    requires
        valid_subdivision(s),
        s == 1,
        cell_has_edge(2, 1, 1, 0, a, b, s),
    ensures
        buffer_has_edge(s, b, a),
{
    lemma_layout(s);
    lemma_all_neighbors_of_vid(s);
    lemma_pole_neighbors(s);
    vstd::arithmetic::power2::lemma2_to64();
    lemma_cap_values(2, s);
    lemma_row_cell_values(5, 0, 1, s);
    lemma_row_cell_values(5, 1, 1, s);
    reveal(face_0_neighbors);
    reveal(face_1_neighbors);
    reveal(face_2_neighbors);
    reveal(face_3_neighbors);
    reveal(face_4_neighbors);
    reveal(face_5_neighbors);
    if slot(2, 1, 1, 0, s) == a && slot(2, 1, 1, 1, s) == b {
        lemma_cell_edge(5, 0, 1, 1, b, a, s);
    } else if slot(2, 1, 1, 1, s) == a && slot(2, 1, 1, 2, s) == b {
        lemma_cell_edge(2, 1, 1, 1, b, a, s);
    } else {
        lemma_cell_edge(5, 1, 1, 1, b, a, s);
    }
}

#[verifier::rlimit(50)]
proof fn lemma_one_subdivision_2_1_1_1(a: u32, b: u32, s: nat)
    requires
        valid_subdivision(s),
        s == 1,
        cell_has_edge(2, 1, 1, 1, a, b, s),
    ensures
        buffer_has_edge(s, b, a),
{
    lemma_layout(s);
    lemma_all_neighbors_of_vid(s);
    lemma_pole_neighbors(s);
    vstd::arithmetic::power2::lemma2_to64();
    lemma_cap_values(2, s);
    lemma_row_cell_values(1, 0, 0, s);
    lemma_row_cell_values(2, 0, 1, s);
    reveal(face_0_neighbors);
    reveal(face_1_neighbors);
    reveal(face_2_neighbors);
    reveal(face_3_neighbors);
    reveal(face_4_neighbors);
    reveal(face_5_neighbors);
    if slot(2, 1, 1, 3, s) == a && slot(2, 1, 1, 4, s) == b {
        lemma_cell_edge(2, 1, 1, 0, b, a, s);
    } else if slot(2, 1, 1, 4, s) == a && slot(2, 1, 1, 5, s) == b {
        lemma_cell_edge(1, 0, 0, 0, b, a, s);
    } else {
        lemma_cell_edge(2, 0, 1, 0, b, a, s);
    }
}

#[verifier::rlimit(50)]
proof fn lemma_one_subdivision_3_0_0_0(a: u32, b: u32, s: nat)
    requires
        valid_subdivision(s),
        s == 1,
        cell_has_edge(3, 0, 0, 0, a, b, s),
    ensures
        buffer_has_edge(s, b, a),
{
    lemma_layout(s);
    lemma_all_neighbors_of_vid(s);
    lemma_pole_neighbors(s);
    vstd::arithmetic::power2::lemma2_to64();
    lemma_row_cell_values(3, 0, 0, s);
    lemma_seam_cell(0, s);
    lemma_row_cell_values(1, 0, 1, s);
    reveal(face_0_neighbors);
    reveal(face_1_neighbors);
    reveal(face_2_neighbors);
    reveal(face_3_neighbors);
    reveal(face_4_neighbors);
    reveal(face_5_neighbors);
    if slot(3, 0, 0, 0, s) == a && slot(3, 0, 0, 1, s) == b {
        lemma_cell_edge(4, 1, 0, 1, b, a, s);
    } else if slot(3, 0, 0, 1, s) == a && slot(3, 0, 0, 2, s) == b {
        lemma_cell_edge(3, 0, 0, 1, b, a, s);
    } else {
        lemma_cell_edge(1, 0, 1, 1, b, a, s);
    }
}

#[verifier::rlimit(50)]
proof fn lemma_one_subdivision_3_0_0_1(a: u32, b: u32, s: nat)
    requires
        valid_subdivision(s),
        s == 1,
        cell_has_edge(3, 0, 0, 1, a, b, s),
    ensures
        buffer_has_edge(s, b, a),
{
    lemma_layout(s);
    lemma_all_neighbors_of_vid(s);
    lemma_pole_neighbors(s);
    vstd::arithmetic::power2::lemma2_to64();
    lemma_row_cell_values(3, 0, 0, s);
    lemma_row_cell_values(3, 0, 1, s);
    lemma_row_cell_values(3, 1, 0, s);
    reveal(face_0_neighbors);
    reveal(face_1_neighbors);
    reveal(face_2_neighbors);
    reveal(face_3_neighbors);
    reveal(face_4_neighbors);
    reveal(face_5_neighbors);
    if slot(3, 0, 0, 3, s) == a && slot(3, 0, 0, 4, s) == b {
        lemma_cell_edge(3, 0, 0, 0, b, a, s);
    } else if slot(3, 0, 0, 4, s) == a && slot(3, 0, 0, 5, s) == b {
        lemma_cell_edge(3, 0, 1, 0, b, a, s);
    } else {
        lemma_cell_edge(3, 1, 0, 0, b, a, s);
    }
}

#[verifier::rlimit(50)]
proof fn lemma_one_subdivision_3_0_1_0(a: u32, b: u32, s: nat)
    requires
        valid_subdivision(s),
        s == 1,
        cell_has_edge(3, 0, 1, 0, a, b, s),
    ensures
        buffer_has_edge(s, b, a),
{
    lemma_layout(s);
    lemma_all_neighbors_of_vid(s);
    lemma_pole_neighbors(s);
    vstd::arithmetic::power2::lemma2_to64();
    lemma_row_cell_values(3, 0, 1, s);
    lemma_seam_cell(0, s);
    lemma_row_cell_values(3, 0, 0, s);
    reveal(face_0_neighbors);
    reveal(face_1_neighbors);
    reveal(face_2_neighbors);
    reveal(face_3_neighbors);
    reveal(face_4_neighbors);
    reveal(face_5_neighbors);
    if slot(3, 0, 1, 0, s) == a && slot(3, 0, 1, 1, s) == b {
        lemma_cell_edge(4, 1, 0, 0, b, a, s);
    } else if slot(3, 0, 1, 1, s) == a && slot(3, 0, 1, 2, s) == b {
        lemma_cell_edge(3, 0, 1, 1, b, a, s);
    } else {
        lemma_cell_edge(3, 0, 0, 1, b, a, s);
    }
}

#[verifier::rlimit(50)]
proof fn lemma_one_subdivision_3_0_1_1(a: u32, b: u32, s: nat)
    requires
        valid_subdivision(s),
        s == 1,
        cell_has_edge(3, 0, 1, 1, a, b, s),
    ensures
        buffer_has_edge(s, b, a),
{
    lemma_layout(s);
    lemma_all_neighbors_of_vid(s);
    lemma_pole_neighbors(s);
    vstd::arithmetic::power2::lemma2_to64();
    lemma_row_cell_values(3, 0, 1, s);
    lemma_column_cell(0, s);
    lemma_row_cell_values(3, 1, 1, s);
    reveal(face_0_neighbors);
    reveal(face_1_neighbors);
    reveal(face_2_neighbors);
    reveal(face_3_neighbors);
    reveal(face_4_neighbors);
    reveal(face_5_neighbors);
    if slot(3, 0, 1, 3, s) == a && slot(3, 0, 1, 4, s) == b {
        lemma_cell_edge(3, 0, 1, 0, b, a, s);
    } else if slot(3, 0, 1, 4, s) == a && slot(3, 0, 1, 5, s) == b {
        lemma_cell_edge(4, 0, 1, 0, b, a, s);
    } else {
        lemma_cell_edge(3, 1, 1, 0, b, a, s);
    }
}

#[verifier::rlimit(50)]
proof fn lemma_one_subdivision_3_1_0_0(a: u32, b: u32, s: nat)
    requires
        valid_subdivision(s),
        s == 1,
        cell_has_edge(3, 1, 0, 0, a, b, s),
    ensures
        buffer_has_edge(s, b, a),
{
    lemma_layout(s);
    lemma_all_neighbors_of_vid(s);
    lemma_pole_neighbors(s);
    vstd::arithmetic::power2::lemma2_to64();
    lemma_row_cell_values(3, 1, 0, s);
    lemma_row_cell_values(3, 0, 0, s);
    lemma_row_cell_values(1, 1, 1, s);
    reveal(face_0_neighbors);
    reveal(face_1_neighbors);
    reveal(face_2_neighbors);
    reveal(face_3_neighbors);
    reveal(face_4_neighbors);
    reveal(face_5_neighbors);
    if slot(3, 1, 0, 0, s) == a && slot(3, 1, 0, 1, s) == b {
        lemma_cell_edge(3, 0, 0, 1, b, a, s);
    } else if slot(3, 1, 0, 1, s) == a && slot(3, 1, 0, 2, s) == b {
        lemma_cell_edge(3, 1, 0, 1, b, a, s);
    } else {
        lemma_cell_edge(1, 1, 1, 1, b, a, s);
    }
}

#[verifier::rlimit(50)]
proof fn lemma_one_subdivision_3_1_0_1(a: u32, b: u32, s: nat)
    requires
        valid_subdivision(s),
        s == 1,
        cell_has_edge(3, 1, 0, 1, a, b, s),
    ensures
        buffer_has_edge(s, b, a),
{
    lemma_layout(s);
    lemma_all_neighbors_of_vid(s);
    lemma_pole_neighbors(s);
    vstd::arithmetic::power2::lemma2_to64();
    lemma_row_cell_values(3, 1, 0, s);
    lemma_row_cell_values(3, 1, 1, s);
    lemma_cap_values(0, s);
    reveal(face_0_neighbors);
    reveal(face_1_neighbors);
    reveal(face_2_neighbors);
    reveal(face_3_neighbors);
    reveal(face_4_neighbors);
    reveal(face_5_neighbors);
    if slot(3, 1, 0, 3, s) == a && slot(3, 1, 0, 4, s) == b {
        lemma_cell_edge(3, 1, 0, 0, b, a, s);
    } else if slot(3, 1, 0, 4, s) == a && slot(3, 1, 0, 5, s) == b {
        lemma_cell_edge(3, 1, 1, 0, b, a, s);
    } else {
        lemma_cell_edge(0, 1, 1, 0, b, a, s);
    }
}

#[verifier::rlimit(50)]
proof fn lemma_one_subdivision_3_1_1_0(a: u32, b: u32, s: nat)
    requires
        valid_subdivision(s),
        s == 1,
        cell_has_edge(3, 1, 1, 0, a, b, s),
    ensures
        buffer_has_edge(s, b, a),
{
    lemma_layout(s);
    lemma_all_neighbors_of_vid(s);
    lemma_pole_neighbors(s);
    vstd::arithmetic::power2::lemma2_to64();
    lemma_row_cell_values(3, 1, 1, s);
    lemma_row_cell_values(3, 0, 1, s);
    lemma_row_cell_values(3, 1, 0, s);
    reveal(face_0_neighbors);
    reveal(face_1_neighbors);
    reveal(face_2_neighbors);
    reveal(face_3_neighbors);
    reveal(face_4_neighbors);
    reveal(face_5_neighbors);
    if slot(3, 1, 1, 0, s) == a && slot(3, 1, 1, 1, s) == b {
        lemma_cell_edge(3, 0, 1, 1, b, a, s);
    } else if slot(3, 1, 1, 1, s) == a && slot(3, 1, 1, 2, s) == b {
        lemma_cell_edge(3, 1, 1, 1, b, a, s);
    } else {
        lemma_cell_edge(3, 1, 0, 1, b, a, s);
    }
}

#[verifier::rlimit(50)]
proof fn lemma_one_subdivision_3_1_1_1(a: u32, b: u32, s: nat)
    requires
        valid_subdivision(s),
        s == 1,
        cell_has_edge(3, 1, 1, 1, a, b, s),
    ensures
        buffer_has_edge(s, b, a),
{
    lemma_layout(s);
    lemma_all_neighbors_of_vid(s);
    lemma_pole_neighbors(s);
    vstd::arithmetic::power2::lemma2_to64();
    lemma_row_cell_values(3, 1, 1, s);
    lemma_row_cell_values(0, 0, 0, s);
    lemma_cap_values(0, s);
    reveal(face_0_neighbors);
    reveal(face_1_neighbors);
    reveal(face_2_neighbors);
    reveal(face_3_neighbors);
    reveal(face_4_neighbors);
    reveal(face_5_neighbors);
    if slot(3, 1, 1, 3, s) == a && slot(3, 1, 1, 4, s) == b {
        lemma_cell_edge(3, 1, 1, 0, b, a, s);
    } else if slot(3, 1, 1, 4, s) == a && slot(3, 1, 1, 5, s) == b {
        lemma_cell_edge(0, 0, 0, 0, b, a, s);
    } else {
        lemma_cell_edge(0, 1, 1, 0, b, a, s);
    }
}

#[verifier::rlimit(50)]
proof fn lemma_one_subdivision_4_0_0_0(a: u32, b: u32, s: nat)
    requires
        valid_subdivision(s),
        s == 1,
        cell_has_edge(4, 0, 0, 0, a, b, s),
    ensures
        buffer_has_edge(s, b, a),
{
    lemma_layout(s);
    lemma_all_neighbors_of_vid(s);
    lemma_pole_neighbors(s);
    vstd::arithmetic::power2::lemma2_to64();
    lemma_row_cell_values(4, 0, 0, s);
    lemma_row_cell_values(2, 1, 0, s);
    lemma_cap_values(0, s);
    reveal(face_0_neighbors);
    reveal(face_1_neighbors);
    reveal(face_2_neighbors);
    reveal(face_3_neighbors);
    reveal(face_4_neighbors);
    reveal(face_5_neighbors);
    if slot(4, 0, 0, 0, s) == a && slot(4, 0, 0, 1, s) == b {
        lemma_cell_edge(2, 1, 0, 1, b, a, s);
    } else if slot(4, 0, 0, 1, s) == a && slot(4, 0, 0, 2, s) == b {
        lemma_cell_edge(4, 0, 0, 1, b, a, s);
    } else {
        lemma_cell_edge(0, 1, 1, 1, b, a, s);
    }
}

#[verifier::rlimit(50)]
proof fn lemma_one_subdivision_4_0_0_1(a: u32, b: u32, s: nat)
    requires
        valid_subdivision(s),
        s == 1,
        cell_has_edge(4, 0, 0, 1, a, b, s),
    ensures
        buffer_has_edge(s, b, a),
{
    lemma_layout(s);
    lemma_all_neighbors_of_vid(s);
    lemma_pole_neighbors(s);
    vstd::arithmetic::power2::lemma2_to64();
    lemma_row_cell_values(4, 0, 0, s);
    lemma_row_cell_values(1, 1, 0, s);
    lemma_row_cell_values(1, 1, 1, s);
    reveal(face_0_neighbors);
    reveal(face_1_neighbors);
    reveal(face_2_neighbors);
    reveal(face_3_neighbors);
    reveal(face_4_neighbors);
    reveal(face_5_neighbors);
    if slot(4, 0, 0, 3, s) == a && slot(4, 0, 0, 4, s) == b {
        lemma_cell_edge(4, 0, 0, 0, b, a, s);
    } else if slot(4, 0, 0, 4, s) == a && slot(4, 0, 0, 5, s) == b {
        lemma_cell_edge(1, 1, 0, 1, b, a, s);
    } else {
        lemma_cell_edge(1, 1, 1, 1, b, a, s);
    }
}

#[verifier::rlimit(50)]
proof fn lemma_one_subdivision_4_0_1_0(a: u32, b: u32, s: nat)
    requires
        valid_subdivision(s),
        s == 1,
        cell_has_edge(4, 0, 1, 0, a, b, s),
    ensures
        buffer_has_edge(s, b, a),
{
    lemma_layout(s);
    lemma_all_neighbors_of_vid(s);
    lemma_pole_neighbors(s);
    vstd::arithmetic::power2::lemma2_to64();
    lemma_column_cell(0, s);
    lemma_row_cell_values(5, 0, 0, s);
    lemma_row_cell_values(3, 0, 1, s);
    reveal(face_0_neighbors);
    reveal(face_1_neighbors);
    reveal(face_2_neighbors);
    reveal(face_3_neighbors);
    reveal(face_4_neighbors);
    reveal(face_5_neighbors);
    if slot(4, 0, 1, 0, s) == a && slot(4, 0, 1, 1, s) == b {
        lemma_cell_edge(5, 0, 0, 0, b, a, s);
    } else if slot(4, 0, 1, 1, s) == a && slot(4, 0, 1, 2, s) == b {
        lemma_cell_edge(4, 0, 1, 1, b, a, s);
    } else {
        lemma_cell_edge(3, 0, 1, 1, b, a, s);
    }
}

#[verifier::rlimit(50)]
proof fn lemma_one_subdivision_4_0_1_1(a: u32, b: u32, s: nat)
    requires
        valid_subdivision(s),
        s == 1,
        cell_has_edge(4, 0, 1, 1, a, b, s),
    ensures
        buffer_has_edge(s, b, a),
{
    lemma_layout(s);
    lemma_all_neighbors_of_vid(s);
    lemma_pole_neighbors(s);
    vstd::arithmetic::power2::lemma2_to64();
    lemma_column_cell(0, s);
    lemma_row_cell_values(5, 1, 0, s);
    lemma_row_cell_values(0, 0, 0, s);
    reveal(face_0_neighbors);
    reveal(face_1_neighbors);
    reveal(face_2_neighbors);
    reveal(face_3_neighbors);
    reveal(face_4_neighbors);
    reveal(face_5_neighbors);
    if slot(4, 0, 1, 3, s) == a && slot(4, 0, 1, 4, s) == b {
        lemma_cell_edge(4, 0, 1, 0, b, a, s);
    } else if slot(4, 0, 1, 4, s) == a && slot(4, 0, 1, 5, s) == b {
        lemma_cell_edge(5, 1, 0, 0, b, a, s);
    } else {
        lemma_cell_edge(0, 0, 0, 0, b, a, s);
    }
}

#[verifier::rlimit(50)]
proof fn lemma_one_subdivision_4_1_0_0(a: u32, b: u32, s: nat)
    requires
        valid_subdivision(s),
        s == 1,
        cell_has_edge(4, 1, 0, 0, a, b, s),
    ensures
        buffer_has_edge(s, b, a),
{
    lemma_layout(s);
    lemma_all_neighbors_of_vid(s);
    lemma_pole_neighbors(s);
    vstd::arithmetic::power2::lemma2_to64();
    lemma_seam_cell(0, s);
    lemma_row_cell_values(3, 0, 1, s);
    lemma_row_cell_values(5, 0, 0, s);
    reveal(face_0_neighbors);
    reveal(face_1_neighbors);
    reveal(face_2_neighbors);
    reveal(face_3_neighbors);
    reveal(face_4_neighbors);
    reveal(face_5_neighbors);
    if slot(4, 1, 0, 0, s) == a && slot(4, 1, 0, 1, s) == b {
        lemma_cell_edge(3, 0, 1, 0, b, a, s);
    } else if slot(4, 1, 0, 1, s) == a && slot(4, 1, 0, 2, s) == b {
        lemma_cell_edge(4, 1, 0, 1, b, a, s);
    } else {
        lemma_cell_edge(5, 0, 0, 0, b, a, s);
    }
}

#[verifier::rlimit(50)]
proof fn lemma_one_subdivision_4_1_0_1(a: u32, b: u32, s: nat)
    requires
        valid_subdivision(s),
        s == 1,
        cell_has_edge(4, 1, 0, 1, a, b, s),
    ensures
        buffer_has_edge(s, b, a),
{
    lemma_layout(s);
    lemma_all_neighbors_of_vid(s);
    lemma_pole_neighbors(s);
    vstd::arithmetic::power2::lemma2_to64();
    lemma_seam_cell(0, s);
    lemma_row_cell_values(3, 0, 0, s);
    lemma_seam_cell(1, s);
    reveal(face_0_neighbors);
    reveal(face_1_neighbors);
    reveal(face_2_neighbors);
    reveal(face_3_neighbors);
    reveal(face_4_neighbors);
    reveal(face_5_neighbors);
    if slot(4, 1, 0, 3, s) == a && slot(4, 1, 0, 4, s) == b {
        lemma_cell_edge(3, 0, 0, 0, b, a, s);
    } else if slot(4, 1, 0, 4, s) == a && slot(4, 1, 0, 5, s) == b {
        lemma_cell_edge(4, 1, 1, 0, b, a, s);
    } else {
        lemma_cell_edge(4, 1, 0, 0, b, a, s);
    }
}

#[verifier::rlimit(50)]
proof fn lemma_one_subdivision_4_1_1_0(a: u32, b: u32, s: nat)
    requires
        valid_subdivision(s),
        s == 1,
        cell_has_edge(4, 1, 1, 0, a, b, s),
    ensures
        buffer_has_edge(s, b, a),
{
    lemma_layout(s);
    lemma_all_neighbors_of_vid(s);
    lemma_pole_neighbors(s);
    vstd::arithmetic::power2::lemma2_to64();
    lemma_seam_cell(1, s);
    lemma_seam_cell(0, s);
    lemma_row_cell_values(5, 0, 1, s);
    reveal(face_0_neighbors);
    reveal(face_1_neighbors);
    reveal(face_2_neighbors);
    reveal(face_3_neighbors);
    reveal(face_4_neighbors);
    reveal(face_5_neighbors);
    if slot(4, 1, 1, 0, s) == a && slot(4, 1, 1, 1, s) == b {
        lemma_cell_edge(4, 1, 0, 1, b, a, s);
    } else if slot(4, 1, 1, 1, s) == a && slot(4, 1, 1, 2, s) == b {
        lemma_cell_edge(4, 1, 1, 1, b, a, s);
    } else {
        lemma_cell_edge(5, 0, 1, 0, b, a, s);
    }
}

#[verifier::rlimit(50)]
proof fn lemma_one_subdivision_4_1_1_1(a: u32, b: u32, s: nat)
    requires
        valid_subdivision(s),
        s == 1,
        cell_has_edge(4, 1, 1, 1, a, b, s),
    ensures
        buffer_has_edge(s, b, a),
{
    lemma_layout(s);
    lemma_all_neighbors_of_vid(s);
    lemma_pole_neighbors(s);
    vstd::arithmetic::power2::lemma2_to64();
    lemma_seam_cell(1, s);
    lemma_row_cell_values(1, 0, 1, s);
    lemma_row_cell_values(1, 0, 0, s);
    reveal(face_0_neighbors);
    reveal(face_1_neighbors);
    reveal(face_2_neighbors);
    reveal(face_3_neighbors);
    reveal(face_4_neighbors);
    reveal(face_5_neighbors);
    if slot(4, 1, 1, 3, s) == a && slot(4, 1, 1, 4, s) == b {
        lemma_cell_edge(1, 0, 1, 0, b, a, s);
    } else if slot(4, 1, 1, 4, s) == a && slot(4, 1, 1, 5, s) == b {
        lemma_cell_edge(1, 0, 0, 0, b, a, s);
    } else {
        lemma_cell_edge(4, 1, 1, 0, b, a, s);
    }
}

#[verifier::rlimit(50)]
proof fn lemma_one_subdivision_5_0_0_0(a: u32, b: u32, s: nat)
    requires
        valid_subdivision(s),
        s == 1,
        cell_has_edge(5, 0, 0, 0, a, b, s),
    ensures
        buffer_has_edge(s, b, a),
{
    lemma_layout(s);
    lemma_all_neighbors_of_vid(s);
    lemma_pole_neighbors(s);
    vstd::arithmetic::power2::lemma2_to64();
    lemma_row_cell_values(5, 0, 0, s);
    lemma_seam_cell(0, s);
    lemma_column_cell(0, s);
    reveal(face_0_neighbors);
    reveal(face_1_neighbors);
    reveal(face_2_neighbors);
    reveal(face_3_neighbors);
    reveal(face_4_neighbors);
    reveal(face_5_neighbors);
    if slot(5, 0, 0, 0, s) == a && slot(5, 0, 0, 1, s) == b {
        lemma_cell_edge(4, 1, 0, 0, b, a, s);
    } else if slot(5, 0, 0, 1, s) == a && slot(5, 0, 0, 2, s) == b {
        lemma_cell_edge(5, 0, 0, 1, b, a, s);
    } else {
        lemma_cell_edge(4, 0, 1, 0, b, a, s);
    }
}

#[verifier::rlimit(50)]
proof fn lemma_one_subdivision_5_0_0_1(a: u32, b: u32, s: nat)
    requires
        valid_subdivision(s),
        s == 1,
        cell_has_edge(5, 0, 0, 1, a, b, s),
    ensures
        buffer_has_edge(s, b, a),
{
    lemma_layout(s);
    lemma_all_neighbors_of_vid(s);
    lemma_pole_neighbors(s);
    vstd::arithmetic::power2::lemma2_to64();
    lemma_row_cell_values(5, 0, 0, s);
    lemma_row_cell_values(5, 0, 1, s);
    lemma_row_cell_values(5, 1, 0, s);
    reveal(face_0_neighbors);
    reveal(face_1_neighbors);
    reveal(face_2_neighbors);
    reveal(face_3_neighbors);
    reveal(face_4_neighbors);
    reveal(face_5_neighbors);
    if slot(5, 0, 0, 3, s) == a && slot(5, 0, 0, 4, s) == b {
        lemma_cell_edge(5, 0, 0, 0, b, a, s);
    } else if slot(5, 0, 0, 4, s) == a && slot(5, 0, 0, 5, s) == b {
        lemma_cell_edge(5, 0, 1, 0, b, a, s);
    } else {
        lemma_cell_edge(5, 1, 0, 0, b, a, s);
    }
}

#[verifier::rlimit(50)]
proof fn lemma_one_subdivision_5_0_1_0(a: u32, b: u32, s: nat)
    requires
        valid_subdivision(s),
        s == 1,
        cell_has_edge(5, 0, 1, 0, a, b, s),
    ensures
        buffer_has_edge(s, b, a),
{
    lemma_layout(s);
    lemma_all_neighbors_of_vid(s);
    lemma_pole_neighbors(s);
    vstd::arithmetic::power2::lemma2_to64();
    lemma_row_cell_values(5, 0, 1, s);
    lemma_seam_cell(1, s);
    lemma_row_cell_values(5, 0, 0, s);
    reveal(face_0_neighbors);
    reveal(face_1_neighbors);
    reveal(face_2_neighbors);
    reveal(face_3_neighbors);
    reveal(face_4_neighbors);
    reveal(face_5_neighbors);
    if slot(5, 0, 1, 0, s) == a && slot(5, 0, 1, 1, s) == b {
        lemma_cell_edge(4, 1, 1, 0, b, a, s);
    } else if slot(5, 0, 1, 1, s) == a && slot(5, 0, 1, 2, s) == b {
        lemma_cell_edge(5, 0, 1, 1, b, a, s);
    } else {
        lemma_cell_edge(5, 0, 0, 1, b, a, s);
    }
}

#[verifier::rlimit(50)]
proof fn lemma_one_subdivision_5_0_1_1(a: u32, b: u32, s: nat)
    requires
        valid_subdivision(s),
        s == 1,
        cell_has_edge(5, 0, 1, 1, a, b, s),
    ensures
        buffer_has_edge(s, b, a),
{
    lemma_layout(s);
    lemma_all_neighbors_of_vid(s);
    lemma_pole_neighbors(s);
    vstd::arithmetic::power2::lemma2_to64();
    lemma_row_cell_values(5, 0, 1, s);
    lemma_cap_values(2, s);
    lemma_row_cell_values(5, 1, 1, s);
    reveal(face_0_neighbors);
    reveal(face_1_neighbors);
    reveal(face_2_neighbors);
    reveal(face_3_neighbors);
    reveal(face_4_neighbors);
    reveal(face_5_neighbors);
    if slot(5, 0, 1, 3, s) == a && slot(5, 0, 1, 4, s) == b {
        lemma_cell_edge(5, 0, 1, 0, b, a, s);
    } else if slot(5, 0, 1, 4, s) == a && slot(5, 0, 1, 5, s) == b {
        lemma_cell_edge(2, 1, 1, 0, b, a, s);
    } else {
        lemma_cell_edge(5, 1, 1, 0, b, a, s);
    }
}

#[verifier::rlimit(50)]
proof fn lemma_one_subdivision_5_1_0_0(a: u32, b: u32, s: nat)
    requires
        valid_subdivision(s),
        s == 1,
        cell_has_edge(5, 1, 0, 0, a, b, s),
    ensures
        buffer_has_edge(s, b, a),
{
    lemma_layout(s);
    lemma_all_neighbors_of_vid(s);
    lemma_pole_neighbors(s);
    vstd::arithmetic::power2::lemma2_to64();
    lemma_row_cell_values(5, 1, 0, s);
    lemma_row_cell_values(5, 0, 0, s);
    lemma_column_cell(0, s);
    reveal(face_0_neighbors);
    reveal(face_1_neighbors);
    reveal(face_2_neighbors);
    reveal(face_3_neighbors);
    reveal(face_4_neighbors);
    reveal(face_5_neighbors);
    if slot(5, 1, 0, 0, s) == a && slot(5, 1, 0, 1, s) == b {
        lemma_cell_edge(5, 0, 0, 1, b, a, s);
    } else if slot(5, 1, 0, 1, s) == a && slot(5, 1, 0, 2, s) == b {
        lemma_cell_edge(5, 1, 0, 1, b, a, s);
    } else {
        lemma_cell_edge(4, 0, 1, 1, b, a, s);
    }
}

#[verifier::rlimit(50)]
proof fn lemma_one_subdivision_5_1_0_1(a: u32, b: u32, s: nat)
    requires
        valid_subdivision(s),
        s == 1,
        cell_has_edge(5, 1, 0, 1, a, b, s),
    ensures
        buffer_has_edge(s, b, a),
{
    lemma_layout(s);
    lemma_all_neighbors_of_vid(s);
    lemma_pole_neighbors(s);
    vstd::arithmetic::power2::lemma2_to64();
    lemma_row_cell_values(5, 1, 0, s);
    lemma_row_cell_values(5, 1, 1, s);
    lemma_row_cell_values(0, 0, 1, s);
    reveal(face_0_neighbors);
    reveal(face_1_neighbors);
    reveal(face_2_neighbors);
    reveal(face_3_neighbors);
    reveal(face_4_neighbors);
    reveal(face_5_neighbors);
    if slot(5, 1, 0, 3, s) == a && slot(5, 1, 0, 4, s) == b {
        lemma_cell_edge(5, 1, 0, 0, b, a, s);
    } else if slot(5, 1, 0, 4, s) == a && slot(5, 1, 0, 5, s) == b {
        lemma_cell_edge(5, 1, 1, 0, b, a, s);
    } else {
        lemma_cell_edge(0, 0, 1, 0, b, a, s);
    }
}

#[verifier::rlimit(50)]
proof fn lemma_one_subdivision_5_1_1_0(a: u32, b: u32, s: nat)
    requires
        valid_subdivision(s),
        s == 1,
        cell_has_edge(5, 1, 1, 0, a, b, s),
    ensures
        buffer_has_edge(s, b, a),
{
    lemma_layout(s);
    lemma_all_neighbors_of_vid(s);
    lemma_pole_neighbors(s);
    vstd::arithmetic::power2::lemma2_to64();
    lemma_row_cell_values(5, 1, 1, s);
    lemma_row_cell_values(5, 0, 1, s);
    lemma_row_cell_values(5, 1, 0, s);
    reveal(face_0_neighbors);
    reveal(face_1_neighbors);
    reveal(face_2_neighbors);
    reveal(face_3_neighbors);
    reveal(face_4_neighbors);
    reveal(face_5_neighbors);
    if slot(5, 1, 1, 0, s) == a && slot(5, 1, 1, 1, s) == b {
        lemma_cell_edge(5, 0, 1, 1, b, a, s);
    } else if slot(5, 1, 1, 1, s) == a && slot(5, 1, 1, 2, s) == b {
        lemma_cell_edge(5, 1, 1, 1, b, a, s);
    } else {
        lemma_cell_edge(5, 1, 0, 1, b, a, s);
    }
}

#[verifier::rlimit(50)]
proof fn lemma_one_subdivision_5_1_1_1(a: u32, b: u32, s: nat)
    requires
        valid_subdivision(s),
        s == 1,
        cell_has_edge(5, 1, 1, 1, a, b, s),
    ensures
        buffer_has_edge(s, b, a),
{
    lemma_layout(s);
    lemma_all_neighbors_of_vid(s);
    lemma_pole_neighbors(s);
    vstd::arithmetic::power2::lemma2_to64();
    lemma_row_cell_values(5, 1, 1, s);
    lemma_cap_values(2, s);
    lemma_row_cell_values(2, 0, 0, s);
    reveal(face_0_neighbors);
    reveal(face_1_neighbors);
    reveal(face_2_neighbors);
    reveal(face_3_neighbors);
    reveal(face_4_neighbors);
    reveal(face_5_neighbors);
    if slot(5, 1, 1, 3, s) == a && slot(5, 1, 1, 4, s) == b {
        lemma_cell_edge(5, 1, 1, 0, b, a, s);
    } else if slot(5, 1, 1, 4, s) == a && slot(5, 1, 1, 5, s) == b {
        lemma_cell_edge(2, 1, 1, 0, b, a, s);
    } else {
        lemma_cell_edge(2, 0, 0, 0, b, a, s);
    }
}

/// The index buffer is a closed surface with consistent orientation: every
/// directed edge `(a, b)` of a triangle of the buffer is traversed the other
/// way, `(b, a)`, by a triangle of the buffer, at every subdivision.
#[verifier::rlimit(50)]
pub proof fn lemma_index_buffer_closed(t: nat, a: u32, b: u32, s: nat)
    requires
        valid_subdivision(s),
        t < 12 * face_size(s),
        triangle_has_edge(s, t, a, b),
    ensures
        buffer_has_edge(s, b, a),
{
    lemma_layout(s);
    let p = face_size(s);
    let e = side(s);
    let m = grid_max(s);
    let f = t / (2 * p);
    let r = t % (2 * p);
    let y = r / (2 * e);
    let r2 = r % (2 * e);
    let k = r2 / 2;
    let h = r2 % 2;
    assert(f < 6 && y < e && k < e && h < 2 && t == cell_triangle(f, y, k, h, s)) by (nonlinear_arith)
        requires
            t < 12 * p,
            p == e * e,
            e > 0,
            f == t / (2 * p),
            r == t % (2 * p),
            y == r / (2 * e),
            r2 == r % (2 * e),
            k == r2 / 2,
            h == r2 % 2,
            cell_triangle(f, y, k, h, s) == 2 * p * f + 2 * e * y + 2 * k + h,
    ;
    if s >= 2 {
        assert(e >= 4) by {
            vstd::arithmetic::power2::lemma2_to64();
            if s > 2 {
                vstd::arithmetic::power2::lemma_pow2_strictly_increases(2, s);
            }
        }
    }
    if s == 1 {
        assert(e == 2) by {
            vstd::arithmetic::power2::lemma2_to64();
        }
        lemma_cell_triangle(f, y, k, h, a, b, s);
        lemma_one_subdivision_closed(f, y, k, h, a, b, s);
    } else if f == 4 && y == m {
        lemma_face_5_bottom_seam_closed(k, h, a, b, s);
    } else if f == 4 && k == m {
        lemma_face_5_left_column_closed(y, h, a, b, s);
    } else if (f == 0 || f == 2) && y == m && k == m {
        lemma_pole_caps_closed(f, h, a, b, s);
    } else if (y == 0 || y + 1 == m || y == m) && (k == 0 || k + 1 == m || k == m) {
        lemma_corner_cells_closed(f, y, k, h, a, b, s);
    } else if y == 0 {
        lemma_bottom_rows_closed(f, k, h, a, b, s);
    } else if y + 1 == m || y == m {
        lemma_top_rows_closed(f, y, k, h, a, b, s);
    } else if k == 0 {
        lemma_left_columns_closed(f, y, h, a, b, s);
    } else if k + 1 == m && f == 4 {
        lemma_face_4_last_cells_closed(y, h, a, b, s);
    } else if k + 1 == m || k == m {
        lemma_last_columns_closed(f, y, k, h, a, b, s);
    } else {
        lemma_face_inner_cells_closed(f, y, k, h, a, b, s);
    }
}

/// The index data of a quadrilateralized spherical cube: how many vertices
/// it has and the triangles that join them. The vertex positions are
/// computed elsewhere, in the order given by the vertex indices.
pub struct Sphere {
    /// Number of subdivisions: each face is a `2^s` by `2^s` grid.
    pub subdivision: u32,
    /// Number of vertices: six faces and the two poles.
    pub vertex_count: usize,
    /// The index buffer: three vertex indices per triangle.
    pub indices: Vec<u32>,
}

impl Sphere {
    /// The sphere holds the vertex count and the index buffer of its
    /// subdivision, which lies between 1 and 15.
    pub open spec fn wf(&self) -> bool {
        let s = self.subdivision as nat;
        &&& 1 <= self.subdivision <= 15
        &&& self.vertex_count == vertex_count(s)
        &&& self.indices@.len() == index_count(s)
        &&& forall|i: int| 0 <= i < index_count(s) ==> self.indices@[i] == index_slot(s, i as nat)
    }

    /// Builds the sphere of `subdivision` subdivisions: each of the 6 cube
    /// faces is divided into a `2^subdivision` by `2^subdivision` grid.
    pub fn new(subdivision: u32) -> (r: Result<Sphere, SphereError>)
        requires
            1 <= subdivision <= 15 ==> index_count(subdivision as nat) <= usize::MAX,
        ensures
            subdivision > 15 ==> r == Err::<Sphere, SphereError>(SphereError::TooManySubdivisions),
            subdivision == 0 ==> r == Err::<Sphere, SphereError>(SphereError::ZeroSubdivisions),
            1 <= subdivision <= 15 ==> (r matches Ok(sphere) && sphere.wf() && sphere.subdivision
                == subdivision),
    {
        if subdivision > 15 {
            return Err(SphereError::TooManySubdivisions);
        }
        if subdivision == 0 {
            return Err(SphereError::ZeroSubdivisions);
        }
        let ghost s = subdivision as nat;
        proof {
            vstd::arithmetic::power2::lemma_pow2_adds(s, s);
            vstd::arithmetic::power2::lemma_pow2_strictly_increases(s, 2 * s);
            vstd::bits::lemma_usize_shl_is_mul(1, subdivision as usize);
            vstd::arithmetic::power2::lemma_pow2_strictly_increases(s, 16);
            vstd::arithmetic::power2::lemma2_to64();
            assert(side(s) * side(s) <= 0x10000 * 0x10000) by (nonlinear_arith)
                requires
                    side(s) < 0x10000,
            ;
        }
        // Two corners are unaccounted for in the faces grid structure
        let edge_size: usize = 1usize << subdivision;
        let face_vertices: usize = edge_size * edge_size;
        let n_vertices: usize = face_vertices * 6 + 2;
        // 6 indices per rectangle, (2^subdivision)^2 rectangles, 6 faces
        let n_indices: usize = face_vertices * 36;
        let mut indices: Vec<u32> = vec![0; n_indices];
        make_sphere_indices(&mut indices, subdivision);
        Ok(Sphere { subdivision, vertex_count: n_vertices, indices })
    }
}

/// The index buffer of a sphere of at most 14 subdivisions (whose vertex
/// indices fit its `u32` entries) covers the sphere exactly: every entry is
/// the index of a vertex, and every vertex is some entry.
pub proof fn lemma_sphere_index_buffer(sphere: Sphere)
    requires
        sphere.wf(),
        sphere.subdivision <= 14,
    ensures
        forall|i: int| 0 <= i < sphere.indices@.len() ==> (sphere.indices@[i] as nat) < sphere.vertex_count,
        forall|v: u32| v < sphere.vertex_count ==> #[trigger] sphere.indices@.contains(v),
{
    let s = sphere.subdivision as nat;
    assert(valid_subdivision(s));
    assert(vertex_count(s) <= 0x1_0000_0000) by {
        vstd::arithmetic::power2::lemma_pow2_strictly_increases(2 * s, 29);
        vstd::arithmetic::power2::lemma2_to64();
    }
    assert forall|i: int| 0 <= i < sphere.indices@.len() implies (sphere.indices@[i] as nat) < sphere.vertex_count by {
        lemma_indices_on_sphere(s, i as nat);
    }
    assert forall|v: u32| v < sphere.vertex_count implies #[trigger] sphere.indices@.contains(v) by {
        lemma_every_vertex_indexed(s, v as nat);
        let i = choose|i: nat| i < index_count(s) && #[trigger] index_slot(s, i) as nat == v as nat;
        assert(sphere.indices@[i as int] == v);
    }
}

/// Whether directed edge `(a, b)` is an edge of triangle `t` of the index
/// buffer `ind` (entries `3t`, `3t + 1`, `3t + 2`, in that order).
pub open spec fn has_triangle_edge(ind: Seq<u32>, t: int, a: u32, b: u32) -> bool {
    let e0 = ind[3 * t];
    let e1 = ind[3 * t + 1];
    let e2 = ind[3 * t + 2];
    (e0 == a && e1 == b) || (e1 == a && e2 == b) || (e2 == a && e0 == b)
}

/// The index buffer of a sphere is a closed surface with consistent
/// orientation: every directed edge of one of its triangles is traversed the
/// other way by another of its triangles.
pub proof fn lemma_sphere_surface_closed(sphere: Sphere, t: int, a: u32, b: u32)
    requires
        sphere.wf(),
        0 <= t,
        3 * t + 2 < sphere.indices@.len(),
        has_triangle_edge(sphere.indices@, t, a, b),
    ensures
        exists|t2: int|
            0 <= t2 && 3 * t2 + 2 < sphere.indices@.len() && #[trigger] has_triangle_edge(sphere.indices@, t2, b, a),
{
    let s = sphere.subdivision as nat;
    lemma_layout(s);
    assert(valid_subdivision(s));
    assert(t < 12 * face_size(s));
    assert(triangle_has_edge(s, t as nat, a, b));
    lemma_index_buffer_closed(t as nat, a, b, s);
    let t2 = choose|t2: nat| t2 < 12 * face_size(s) && #[trigger] triangle_has_edge(s, t2, b, a);
    assert(has_triangle_edge(sphere.indices@, t2 as int, b, a));
}

} // verus!
