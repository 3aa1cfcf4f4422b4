//! Where the accumulators land: in the configuration the kernel is written for
//! (tiles of 16, `block_size_k` of 32, output lines of 4), each subcube's two
//! fragments become two 16 by 16 tiles of the output, no two units write the
//! same element, and every other element of the output is left as it was.

use vstd::prelude::*;
use vstd::arithmetic::div_mod::{
    lemma_fundamental_div_mod,
    lemma_fundamental_div_mod_converse,
    lemma_mod_pos_bound,
};
use crate::copy_laws::{lemma_copy_reads_only_its_lines, reads_at};
use crate::write_output::{
    acc_sm_stride_vec, config_valid, cube_output, cube_ready, fragments_stored, iteration_fits,
    iteration_output, line_written, num_tiles_per_subcube, out_offset, read_pos, row_offset,
    single_row_offset, tile_col, tile_row, total_col, unit_in_bounds, unit_output, unit_read_row,
    unit_ready, unit_write_row, units_per_tile_row, within_sm_row_offset, within_tile_row_offset,
    write_base, write_pos, zero_offsets, unit_fits, unit_read_col, CmmaConfig, Offsets, FRAGMENT_SIZE, LINE_READS,
    SHARED_MEMORY_SIZE,
};

verus! {

/// The configuration the kernel is written for: tiles of 16 by 16, a
/// `block_size_k` of 32 (which also serves as the row stride of shared
/// memory) and output lines of 4 scalars.
pub open spec fn standard_layout(c: CmmaConfig, v: int) -> bool {
    &&& c.tile_size == 16
    &&& c.block_size_k == 32
    &&& v == 4
}

/// The output's row stride and the cube's first element are multiples of the
/// line size, so that every position the kernel computes starts a line.
pub open spec fn aligned(o: Offsets, os: int) -> bool {
    &&& os % 4 == 0
    &&& (o.batch_out + o.cube_col) % 4 == 0
}

/// Row of the tile written by lane `x` in half `h`.
pub open spec fn lane_row(x: int, h: int) -> int {
    x / 4 + 8 * h
}

/// Column of the tile written by lane `x` as element `i` of its line.
pub open spec fn lane_col(x: int, i: int) -> int {
    4 * (x % 4) + i
}

/// Position in the output of element `(r, col)` of the tile that subcube `y`
/// writes in iteration `n`: tile row `y / 2`, tile column `2 * (y % 2) + n`.
pub open spec fn tile_pos(o: Offsets, os: int, y: int, n: int, r: int, col: int) -> int {
    out_offset(o, os) + (16 * (y / 2) + r) * os + 16 * (2 * (y % 2) + n) + col
}

/// Position in the output of element `i` of the line that lane `x` of subcube
/// `y` writes in iteration `n`, half `h`.
pub open spec fn dest(o: Offsets, os: int, x: int, y: int, n: int, h: int, i: int) -> int {
    tile_pos(o, os, y, n, lane_row(x, h), lane_col(x, i))
}

/// Position in shared memory of the element that lane `x` of subcube `y`
/// copies to `dest(.., x, y, n, h, i)`.
pub open spec fn src(x: int, y: int, n: int, h: int, i: int) -> int {
    512 * y + 256 * n + 128 * h + 4 * x + i
}

/// In the standard layout, the position the unit reads is `src`.
pub proof fn lemma_standard_read_pos(c: CmmaConfig, x: int, y: int, n: int, h: int)
    requires
        standard_layout(c, 4),
        0 <= x,
        0 <= y,
        0 <= n < 2,
        0 <= h < 2,
    ensures
        read_pos(c, 4, x, y, n, h) == src(x, y, n, h, 0),
{
    assert(num_tiles_per_subcube(c) == 2);
    assert(acc_sm_stride_vec(c, 4) == 8);
    assert(within_sm_row_offset(c, 4) == 4);
    assert(single_row_offset(c) == 8);
    lemma_fundamental_div_mod(x, 8);
    assert(unit_read_row(c, 4, x, h) == x / 8 + 4 * h);
    assert(row_offset(c, y, n) == (2 * y + n) * 8);
    assert(read_pos(c, 4, x, y, n, h) == ((2 * y + n) * 8 + x / 8 + 4 * h) * 32 + (x % 8) * 4);
}

/// In the standard layout, the positions the kernel computes are `src` and
/// `dest`.
pub proof fn lemma_standard_positions(c: CmmaConfig, o: Offsets, os: int, x: int, y: int, n: int, h: int)
    requires
        standard_layout(c, 4),
        aligned(o, os),
        0 <= os,
        0 <= x,
        0 <= y,
        0 <= n < 2,
        0 <= h < 2,
    ensures
        read_pos(c, 4, x, y, n, h) == src(x, y, n, h, 0),
        write_pos(c, 4, os, o, x, y, n, h) == dest(o, os, x, y, n, h, 0),
        write_base(c, 4, os, o, x, y, n, h) == dest(o, os, x, y, n, h, 0),
{
    assert(num_tiles_per_subcube(c) == 2);
    assert(acc_sm_stride_vec(c, 4) == 8);
    assert(within_sm_row_offset(c, 4) == 4);
    assert(units_per_tile_row(c, 4) == 4);
    assert(within_tile_row_offset(4) == 8);
    assert(single_row_offset(c) == 8);
    lemma_fundamental_div_mod(x, 8);
    lemma_fundamental_div_mod(x, 4);
    lemma_fundamental_div_mod(y, 2);
    assert(unit_read_row(c, 4, x, h) == x / 8 + 4 * h);
    assert(row_offset(c, y, n) == (2 * y + n) * 8);
    assert(read_pos(c, 4, x, y, n, h) == ((2 * y + n) * 8 + x / 8 + 4 * h) * 32 + (x % 8) * 4);
    assert(tile_row(c, y) == y / 2);
    assert(tile_col(c, y, n) == 2 * (y % 2) + n);
    assert(unit_write_row(c, 4, x, h) == lane_row(x, h));
    assert(total_col(c, 4, x, y, n) == (2 * (y % 2) + n) * 4 + x % 4);
    let w = write_pos(c, 4, os, o, x, y, n, h);
    assert(w == dest(o, os, x, y, n, h, 0));
    // The write position is a multiple of 4, so it starts its line.
    let q = os / 4;
    lemma_fundamental_div_mod(os, 4);
    let rr = 16 * (y / 2) + lane_row(x, h);
    assert(rr * os == 4 * (rr * q)) by (nonlinear_arith)
        requires
            os == 4 * q,
    ;
    assert(o.cube_row * os == 4 * (o.cube_row * q)) by (nonlinear_arith)
        requires
            os == 4 * q,
    ;
    let b = (o.batch_out + o.cube_col) / 4;
    lemma_fundamental_div_mod(o.batch_out + o.cube_col, 4);
    let k = b + o.cube_row * q + rr * q + 4 * (2 * (y % 2) + n) + x % 4;
    assert(w == 4 * k);
    lemma_fundamental_div_mod_converse(w, 4, k, 0);
}

/// Both tiles that subcube `y` writes lie within a row of the output.
pub open spec fn columns_fit(os: int, y: int) -> bool {
    32 * (y % 2) + 32 <= os
}

/// Lane, subcube, iteration, half and line element are all determined by the
/// output position they write, as long as the subcube's tiles lie within a
/// row of the output.
pub proof fn lemma_dest_injective(
    o: Offsets,
    os: int,
    x1: int,
    y1: int,
    n1: int,
    h1: int,
    i1: int,
    x2: int,
    y2: int,
    n2: int,
    h2: int,
    i2: int,
)
    requires
        0 <= x1 < 32,
        0 <= x2 < 32,
        0 <= y1,
        0 <= y2,
        0 <= n1 < 2,
        0 <= n2 < 2,
        0 <= h1 < 2,
        0 <= h2 < 2,
        0 <= i1 < 4,
        0 <= i2 < 4,
        columns_fit(os, y1),
        columns_fit(os, y2),
        dest(o, os, x1, y1, n1, h1, i1) == dest(o, os, x2, y2, n2, h2, i2),
    ensures
        x1 == x2,
        y1 == y2,
        n1 == n2,
        h1 == h2,
        i1 == i2,
{
    lemma_fundamental_div_mod(x1, 4);
    lemma_fundamental_div_mod(x2, 4);
    lemma_mod_pos_bound(x1, 4);
    lemma_mod_pos_bound(x2, 4);
    lemma_fundamental_div_mod(y1, 2);
    lemma_fundamental_div_mod(y2, 2);
    lemma_mod_pos_bound(y1, 2);
    lemma_mod_pos_bound(y2, 2);
    let t1 = 2 * (y1 % 2) + n1;
    let t2 = 2 * (y2 % 2) + n2;
    let c1 = 16 * t1 + lane_col(x1, i1);
    let c2 = 16 * t2 + lane_col(x2, i2);
    let r1 = 16 * (y1 / 2) + lane_row(x1, h1);
    let r2 = 16 * (y2 / 2) + lane_row(x2, h2);
    assert(0 <= c1 < os);
    assert(0 <= c2 < os);
    assert(r1 * os + c1 == r2 * os + c2);
    lemma_fundamental_div_mod_converse(r1 * os + c1, os, r1, c1);
    lemma_fundamental_div_mod_converse(r2 * os + c2, os, r2, c2);
    // Within the row: tile column, then lane column.
    lemma_fundamental_div_mod_converse(c1, 16, t1, lane_col(x1, i1));
    lemma_fundamental_div_mod_converse(c2, 16, t2, lane_col(x2, i2));
    lemma_fundamental_div_mod_converse(lane_col(x1, i1), 4, x1 % 4, i1);
    lemma_fundamental_div_mod_converse(lane_col(x2, i2), 4, x2 % 4, i2);
    lemma_fundamental_div_mod_converse(t1, 2, y1 % 2, n1);
    lemma_fundamental_div_mod_converse(t2, 2, y2 % 2, n2);
    // Within the column: tile row, then lane row.
    lemma_fundamental_div_mod_converse(r1, 16, y1 / 2, lane_row(x1, h1));
    lemma_fundamental_div_mod_converse(r2, 16, y2 / 2, lane_row(x2, h2));
    lemma_fundamental_div_mod_converse(lane_row(x1, h1), 8, h1, x1 / 4);
    lemma_fundamental_div_mod_converse(lane_row(x2, h2), 8, h2, x2 / 4);
}

/// Whether lane `x` of subcube `y` writes output position `p`.
pub open spec fn unit_writes(o: Offsets, os: int, x: int, y: int, p: int) -> bool {
    exists|n: int, h: int, i: int|
        0 <= n < 2 && 0 <= h < 2 && 0 <= i < 4 && p == #[trigger] dest(o, os, x, y, n, h, i)
}

/// Every line that lane `x` of subcube `y` writes lies within the output.
pub open spec fn unit_lines_in(o: Offsets, os: int, x: int, y: int, len: int) -> bool {
    forall|n: int, h: int|
        0 <= n < 2 && 0 <= h < 2 ==> #[trigger] dest(o, os, x, y, n, h, 0) + 4 <= len
}

/// The copy of one unit, in the standard layout: the element of shared memory
/// at `src` lands at `dest`, and every position the unit does not write keeps
/// its value.
pub proof fn lemma_unit_placement<T>(
    data: Seq<T>,
    sm: Seq<T>,
    c: CmmaConfig,
    os: int,
    o: Offsets,
    x: int,
    y: int,
)
    requires
        standard_layout(c, 4),
        aligned(o, os),
        0 <= os,
        0 <= x < 32,
        0 <= y,
        columns_fit(os, y),
        unit_lines_in(o, os, x, y, data.len() as int),
    ensures
        unit_output(data, sm, c, 4, os, o, x, y).len() == data.len(),
        forall|n: int, h: int, i: int|
            0 <= n < 2 && 0 <= h < 2 && 0 <= i < 4 ==> #[trigger] unit_output(data, sm, c, 4, os, o, x, y)[dest(
                o,
                os,
                x,
                y,
                n,
                h,
                i,
            )] == sm[src(x, y, n, h, i)],
        forall|p: int|
            0 <= p < data.len() && !unit_writes(o, os, x, y, p) ==> #[trigger] unit_output(
                data,
                sm,
                c,
                4,
                os,
                o,
                x,
                y,
            )[p] == data[p],
{
    lemma_standard_positions(c, o, os, x, y, 0, 0);
    lemma_standard_positions(c, o, os, x, y, 0, 1);
    lemma_standard_positions(c, o, os, x, y, 1, 0);
    lemma_standard_positions(c, o, os, x, y, 1, 1);
    let b00 = dest(o, os, x, y, 0, 0, 0);
    let b01 = dest(o, os, x, y, 0, 1, 0);
    let b10 = dest(o, os, x, y, 1, 0, 0);
    let b11 = dest(o, os, x, y, 1, 1, 0);
    assert(b00 + 4 <= data.len());
    assert(b01 + 4 <= data.len());
    assert(b10 + 4 <= data.len());
    assert(b11 + 4 <= data.len());
    let out = unit_output(data, sm, c, 4, os, o, x, y);
    let d1 = line_written(data, sm, src(x, y, 0, 0, 0), b00);
    let d2 = line_written(d1, sm, src(x, y, 0, 1, 0), b01);
    let d3 = line_written(d2, sm, src(x, y, 1, 0, 0), b10);
    assert(iteration_output(data, sm, c, 4, os, o, x, y, 0) == d2);
    assert(out == line_written(d3, sm, src(x, y, 1, 1, 0), b11));
    assert forall|n: int, h: int, i: int| 0 <= n < 2 && 0 <= h < 2 && 0 <= i < 4 implies #[trigger] out[dest(
        o,
        os,
        x,
        y,
        n,
        h,
        i,
    )] == sm[src(x, y, n, h, i)] by {
        let p = dest(o, os, x, y, n, h, i);
        assert(p == dest(o, os, x, y, n, h, 0) + i);
        if b11 <= p < b11 + 4 {
            assert(p == dest(o, os, x, y, 1, 1, p - b11));
            lemma_dest_injective(o, os, x, y, n, h, i, x, y, 1, 1, p - b11);
        } else if b10 <= p < b10 + 4 {
            assert(p == dest(o, os, x, y, 1, 0, p - b10));
            lemma_dest_injective(o, os, x, y, n, h, i, x, y, 1, 0, p - b10);
        } else if b01 <= p < b01 + 4 {
            assert(p == dest(o, os, x, y, 0, 1, p - b01));
            lemma_dest_injective(o, os, x, y, n, h, i, x, y, 0, 1, p - b01);
        } else if b00 <= p < b00 + 4 {
            assert(p == dest(o, os, x, y, 0, 0, p - b00));
            lemma_dest_injective(o, os, x, y, n, h, i, x, y, 0, 0, p - b00);
        }
    }
    assert forall|p: int| 0 <= p < data.len() && !unit_writes(o, os, x, y, p) implies #[trigger] out[p]
        == data[p] by {
        if b11 <= p < b11 + 4 {
            assert(p == dest(o, os, x, y, 1, 1, p - b11));
        } else if b10 <= p < b10 + 4 {
            assert(p == dest(o, os, x, y, 1, 0, p - b10));
        } else if b01 <= p < b01 + 4 {
            assert(p == dest(o, os, x, y, 0, 1, p - b01));
        } else if b00 <= p < b00 + 4 {
            assert(p == dest(o, os, x, y, 0, 0, p - b00));
        }
    }
}

/// The tiles of every subcube of a cube with `cy` subcubes lie within a row
/// of the output.
pub open spec fn cube_columns_fit(os: int, cy: int) -> bool {
    if cy <= 1 {
        32 <= os
    } else {
        64 <= os
    }
}

/// Whether some unit of a cube of `cx` by `cy` units writes output position `p`.
pub open spec fn cube_writes(o: Offsets, os: int, cx: int, cy: int, p: int) -> bool {
    exists|x: int, y: int| 0 <= x < cx && 0 <= y < cy && #[trigger] unit_writes(o, os, x, y, p)
}

/// Number, in the first layer of a cube `cx` units wide, of the unit at
/// `(x, y)`.
pub open spec fn unit_number(cx: int, x: int, y: int) -> int {
    y * cx + x
}

/// What the first `u` units of a cube have done: the units `(x, y)` with
/// `y * cx + x < u` placed their elements, and every position none of them
/// writes keeps its value.
pub open spec fn prefix_placed<T>(
    data: Seq<T>,
    out: Seq<T>,
    sm: Seq<T>,
    o: Offsets,
    os: int,
    cx: int,
    cy: int,
    u: int,
) -> bool {
    &&& out.len() == data.len()
    &&& forall|x: int, y: int, n: int, h: int, i: int|
        0 <= x < cx && 0 <= y < cy && unit_number(cx, x, y) < u && 0 <= n < 2 && 0 <= h < 2 && 0 <= i < 4
            ==> out[#[trigger] dest(o, os, x, y, n, h, i)] == sm[src(x, y, n, h, i)]
    &&& forall|p: int|
        0 <= p < data.len() && (forall|x: int, y: int|
            0 <= x < cx && 0 <= y < cy && unit_number(cx, x, y) < u ==> !#[trigger] unit_writes(o, os, x, y, p))
            ==> #[trigger] out[p] == data[p]
}

/// Unit number `u` of a cube of `cx` by `cy` units sits at
/// `(u % cx, (u / cx) % cy)`, comes no earlier than that position's number in
/// the first layer, and is that position's first unit when `u` is in the
/// first layer.
proof fn lemma_unit_of_number(u: int, cx: int, cy: int)
    requires
        0 <= u,
        0 < cx,
        0 < cy,
    ensures
        0 <= u % cx < cx,
        0 <= (u / cx) % cy < cy,
        ((u / cx) % cy) * cx + u % cx <= u,
{
    lemma_fundamental_div_mod(u, cx);
    lemma_mod_pos_bound(u, cx);
    assert(0 <= u / cx) by {
        vstd::arithmetic::div_mod::lemma_div_pos_is_pos(u, cx);
    }
    lemma_fundamental_div_mod(u / cx, cy);
    lemma_mod_pos_bound(u / cx, cy);
    assert((u / cx) % cy <= u / cx) by {
        vstd::arithmetic::div_mod::lemma_mod_self_0(cy);
        vstd::arithmetic::div_mod::lemma_mod_is_mod_recursive(u / cx, cy);
        if (u / cx) < cy {
            vstd::arithmetic::div_mod::lemma_small_mod((u / cx) as nat, cy as nat);
        } else {
            assert((u / cx) % cy < cy);
        }
    }
    vstd::arithmetic::mul::lemma_mul_inequality((u / cx) % cy, u / cx, cx);
    assert(cx * (u / cx) == (u / cx) * cx) by (nonlinear_arith);
}

/// In the first layer of a cube, position `(x, y)` has unit number
/// `y * cx + x`.
proof fn lemma_first_layer_number(u: int, cx: int, cy: int, x: int, y: int)
    requires
        0 <= x < cx,
        0 <= y < cy,
        y * cx + x == u,
    ensures
        x == u % cx,
        y == (u / cx) % cy,
{
    lemma_fundamental_div_mod_converse(u, cx, y, x);
    lemma_fundamental_div_mod_converse(y, cy, 0, y);
}

/// The first `u` units of a cube place their elements (see `prefix_placed`).
pub proof fn lemma_cube_prefix_placement<T>(
    data: Seq<T>,
    sm: Seq<T>,
    c: CmmaConfig,
    os: int,
    o: Offsets,
    cx: int,
    cy: int,
    u: nat,
)
    requires
        standard_layout(c, 4),
        aligned(o, os),
        0 <= os,
        0 < cx <= 32,
        0 < cy,
        cube_columns_fit(os, cy),
        forall|x: int, y: int|
            0 <= x < cx && 0 <= y < cy ==> #[trigger] unit_lines_in(o, os, x, y, data.len() as int),
    ensures
        prefix_placed(data, cube_output(data, sm, c, 4, os, o, cx, cy, u), sm, o, os, cx, cy, u as int),
    decreases u,
{
    if u == 0 {
        let out = cube_output(data, sm, c, 4, os, o, cx, cy, 0);
        assert forall|x: int, y: int, n: int, h: int, i: int|
            0 <= x < cx && 0 <= y < cy && unit_number(cx, x, y) < 0 && 0 <= n < 2 && 0 <= h < 2 && 0 <= i < 4
                implies out[#[trigger] dest(o, os, x, y, n, h, i)] == sm[src(x, y, n, h, i)] by {
            assert(0 <= y * cx) by (nonlinear_arith)
                requires
                    0 <= y,
                    0 < cx,
            ;
        }
    } else {
        let w = (u - 1) as nat;
        lemma_cube_prefix_placement(data, sm, c, os, o, cx, cy, w);
        let prev = cube_output(data, sm, c, 4, os, o, cx, cy, w);
        let out = cube_output(data, sm, c, 4, os, o, cx, cy, u);
        lemma_unit_of_number(w as int, cx, cy);
        let xu = (w as int) % cx;
        let yu = ((w as int) / cx) % cy;
        assert(out == unit_output(prev, sm, c, 4, os, o, xu, yu));
        assert(columns_fit(os, yu));
        assert(unit_lines_in(o, os, xu, yu, data.len() as int));
        lemma_unit_placement(prev, sm, c, os, o, xu, yu);
        assert forall|x: int, y: int, n: int, h: int, i: int|
            0 <= x < cx && 0 <= y < cy && unit_number(cx, x, y) < u && 0 <= n < 2 && 0 <= h < 2 && 0 <= i < 4
                implies out[#[trigger] dest(o, os, x, y, n, h, i)] == sm[src(x, y, n, h, i)] by {
            let p = dest(o, os, x, y, n, h, i);
            if x == xu && y == yu {
            } else {
                if y * cx + x == w {
                    lemma_first_layer_number(w as int, cx, cy, x, y);
                }
                assert(y * cx + x < w);
                assert(columns_fit(os, y));
                assert(unit_lines_in(o, os, x, y, data.len() as int));
                assert(dest(o, os, x, y, n, h, 0) + 4 <= data.len());
                if unit_writes(o, os, xu, yu, p) {
                    let (n2, h2, i2) = choose|n2: int, h2: int, i2: int|
                        0 <= n2 < 2 && 0 <= h2 < 2 && 0 <= i2 < 4 && p == #[trigger] dest(o, os, xu, yu, n2, h2, i2);
                    lemma_dest_injective(o, os, x, y, n, h, i, xu, yu, n2, h2, i2);
                }
            }
        }
        assert forall|p: int|
            0 <= p < data.len() && (forall|x: int, y: int|
                0 <= x < cx && 0 <= y < cy && unit_number(cx, x, y) < u ==> !#[trigger] unit_writes(o, os, x, y, p))
                implies #[trigger] out[p] == data[p] by {
            assert(!unit_writes(o, os, xu, yu, p));
            assert forall|x: int, y: int|
                0 <= x < cx && 0 <= y < cy && unit_number(cx, x, y) < w implies !#[trigger] unit_writes(o, os, x, y, p) by {
            }
        }
    }
}

/// A whole cube of `cx` by `cy` units (any depth of at least one), in the
/// standard layout: every unit's elements of shared memory land at their
/// positions in the output, and every position no unit writes keeps its
/// value. The order in which the units run does not matter, since no two of
/// them write the same position.
pub proof fn lemma_cube_placement<T>(
    data: Seq<T>,
    sm: Seq<T>,
    c: CmmaConfig,
    os: int,
    o: Offsets,
    cx: int,
    cy: int,
    cz: int,
)
    requires
        standard_layout(c, 4),
        aligned(o, os),
        0 <= os,
        0 < cx <= 32,
        0 < cy,
        0 < cz,
        cube_columns_fit(os, cy),
        cube_ready(c, 4, os, o, cx, cy, SHARED_MEMORY_SIZE as int, data.len() as int),
    ensures
        cube_output(data, sm, c, 4, os, o, cx, cy, (cx * cy * cz) as nat).len() == data.len(),
        forall|x: int, y: int, n: int, h: int, i: int|
            0 <= x < cx && 0 <= y < cy && 0 <= n < 2 && 0 <= h < 2 && 0 <= i < 4
                ==> cube_output(data, sm, c, 4, os, o, cx, cy, (cx * cy * cz) as nat)[#[trigger] dest(
                o,
                os,
                x,
                y,
                n,
                h,
                i,
            )] == sm[src(x, y, n, h, i)],
        forall|p: int|
            0 <= p < data.len() && !cube_writes(o, os, cx, cy, p) ==> #[trigger] cube_output(
                data,
                sm,
                c,
                4,
                os,
                o,
                cx,
                cy,
                (cx * cy * cz) as nat,
            )[p] == data[p],
{
    assert forall|x: int, y: int| 0 <= x < cx && 0 <= y < cy implies #[trigger] unit_lines_in(
        o,
        os,
        x,
        y,
        data.len() as int,
    ) by {
        assert(unit_ready(c, 4, os, o, x, y, SHARED_MEMORY_SIZE as int, data.len() as int));
        assert forall|n: int, h: int| 0 <= n < 2 && 0 <= h < 2 implies #[trigger] dest(o, os, x, y, n, h, 0) + 4
            <= data.len() by {
            lemma_standard_positions(c, o, os, x, y, n, h);
            assert(unit_in_bounds(c, 4, os, o, x, y, SHARED_MEMORY_SIZE as int, data.len() as int));
            assert(read_pos(c, 4, x, y, n, h) + LINE_READS <= SHARED_MEMORY_SIZE);
        }
    }
    let total = cx * cy * cz;
    assert(cx * cy <= total) by (nonlinear_arith)
        requires
            total == cx * cy * cz,
            0 < cx,
            0 < cy,
            1 <= cz,
    ;
    lemma_cube_prefix_placement(data, sm, c, os, o, cx, cy, total as nat);
    let out = cube_output(data, sm, c, 4, os, o, cx, cy, total as nat);
    assert forall|x: int, y: int| 0 <= x < cx && 0 <= y < cy implies #[trigger] unit_number(cx, x, y) < total by {
        assert(y * cx + x < cx * cy) by (nonlinear_arith)
            requires
                0 <= x < cx,
                0 <= y < cy,
        ;
    }
    assert forall|p: int| 0 <= p < data.len() && !cube_writes(o, os, cx, cy, p) implies #[trigger] out[p]
        == data[p] by {
        assert forall|x: int, y: int| 0 <= x < cx && 0 <= y < cy && unit_number(cx, x, y) < total implies !#[trigger] unit_writes(
            o,
            os,
            x,
            y,
            p,
        ) by {
        }
    }
}

/// Fragment `n` (0: first, 1: second) of subcube `y`.
pub open spec fn fragment_of<T>(frags: Seq<(Seq<T>, Seq<T>)>, y: int, n: int) -> Seq<T> {
    if n == 0 {
        frags[y].0
    } else {
        frags[y].1
    }
}

/// Shared memory holds, for each of the `cy` subcubes, its two fragments in
/// its slice: fragment `n` of subcube `y` at `512 * y + 256 * n`.
pub open spec fn holds_fragments<T>(sm: Seq<T>, frags: Seq<(Seq<T>, Seq<T>)>, cy: int) -> bool {
    forall|y: int, n: int, q: int|
        0 <= y < cy && 0 <= n < 2 && 0 <= q < FRAGMENT_SIZE ==> sm[512 * y + 256 * n + q]
            == #[trigger] fragment_of(frags, y, n)[q]
}

/// The element that lane `x` copies in half `h`, as element `i` of its line,
/// is element `(lane_row(x, h), lane_col(x, i))` of the fragment: the lane
/// reads the fragment's rows in the order they are stored.
pub proof fn lemma_lane_reads_fragment_element(x: int, y: int, n: int, h: int, i: int)
    requires
        0 <= x < 32,
        0 <= h < 2,
        0 <= i < 4,
    ensures
        src(x, y, n, h, i) == 512 * y + 256 * n + 16 * lane_row(x, h) + lane_col(x, i),
        0 <= lane_row(x, h) < 16,
        0 <= lane_col(x, i) < 16,
        0 <= 16 * lane_row(x, h) + lane_col(x, i) < FRAGMENT_SIZE,
{
    lemma_fundamental_div_mod(x, 4);
    lemma_mod_pos_bound(x, 4);
}

/// The store of a subcube's fragments puts fragment `n` at
/// `512 * y + 256 * n` of shared memory.
pub proof fn lemma_fragments_stored_slice<T>(mem: Seq<T>, first: Seq<T>, second: Seq<T>, y: int, n: int, q: int)
    requires
        0 <= y,
        512 * y + 512 <= mem.len(),
        0 <= n < 2,
        0 <= q < FRAGMENT_SIZE,
    ensures
        fragments_stored(mem, first, second, y)[512 * y + 256 * n + q] == if n == 0 {
            first[q]
        } else {
            second[q]
        },
{
}

/// `write_to_output` for one lane in the standard layout: after the subcube's
/// fragments are stored into shared memory and the lane copied its share of
/// them, element `(lane_row(x, h), lane_col(x, i))` of fragment `n` is at its
/// position in tile `(y / 2, 2 * (y % 2) + n)` of the output, and every other
/// position keeps its value.
pub proof fn lemma_write_to_output_placement<T>(
    mem: Seq<T>,
    first: Seq<T>,
    second: Seq<T>,
    data: Seq<T>,
    c: CmmaConfig,
    os: int,
    o: Offsets,
    x: int,
    y: int,
)
    requires
        standard_layout(c, 4),
        aligned(o, os),
        0 <= os,
        0 <= x < 32,
        0 <= y,
        512 * y + 512 <= mem.len(),
        columns_fit(os, y),
        unit_lines_in(o, os, x, y, data.len() as int),
    ensures
        ({
            let out = unit_output(data, fragments_stored(mem, first, second, y), c, 4, os, o, x, y);
            &&& out.len() == data.len()
            &&& forall|n: int, h: int, i: int|
                0 <= n < 2 && 0 <= h < 2 && 0 <= i < 4 ==> out[#[trigger] tile_pos(
                    o,
                    os,
                    y,
                    n,
                    lane_row(x, h),
                    lane_col(x, i),
                )] == (if n == 0 {
                    first
                } else {
                    second
                })[16 * lane_row(x, h) + lane_col(x, i)]
            &&& forall|p: int|
                0 <= p < data.len() && !unit_writes(o, os, x, y, p) ==> #[trigger] out[p] == data[p]
        }),
{
    let sm = fragments_stored(mem, first, second, y);
    lemma_unit_placement(data, sm, c, os, o, x, y);
    let out = unit_output(data, sm, c, 4, os, o, x, y);
    assert forall|n: int, h: int, i: int| 0 <= n < 2 && 0 <= h < 2 && 0 <= i < 4 implies out[#[trigger] tile_pos(
        o,
        os,
        y,
        n,
        lane_row(x, h),
        lane_col(x, i),
    )] == (if n == 0 {
        first
    } else {
        second
    })[16 * lane_row(x, h) + lane_col(x, i)] by {
        lemma_lane_reads_fragment_element(x, y, n, h, i);
        assert(tile_pos(o, os, y, n, lane_row(x, h), lane_col(x, i)) == dest(o, os, x, y, n, h, i));
        lemma_fragments_stored_slice(mem, first, second, y, n, 16 * lane_row(x, h) + lane_col(x, i));
    }
}

/// The accumulators of a whole cube in the standard layout: when shared
/// memory holds every subcube's two fragments and all 32 lanes of each of the
/// `cy` subcubes copy their share, fragment `n` of subcube `y` becomes tile
/// `(y / 2, 2 * (y % 2) + n)` of the output, element `(r, col)` at
/// `tile_pos(.., y, n, r, col)`; every position outside these tiles keeps its
/// value.
pub proof fn lemma_fragments_become_tiles<T>(
    data: Seq<T>,
    sm: Seq<T>,
    frags: Seq<(Seq<T>, Seq<T>)>,
    c: CmmaConfig,
    os: int,
    o: Offsets,
    cy: int,
    cz: int,
)
    requires
        standard_layout(c, 4),
        aligned(o, os),
        0 <= os,
        0 < cy,
        0 < cz,
        cube_columns_fit(os, cy),
        cube_ready(c, 4, os, o, 32, cy, SHARED_MEMORY_SIZE as int, data.len() as int),
        holds_fragments(sm, frags, cy),
    ensures
        ({
            let out = cube_output(data, sm, c, 4, os, o, 32, cy, (32 * cy * cz) as nat);
            &&& out.len() == data.len()
            &&& forall|y: int, n: int, r: int, col: int|
                0 <= y < cy && 0 <= n < 2 && 0 <= r < 16 && 0 <= col < 16 ==> out[#[trigger] tile_pos(
                    o,
                    os,
                    y,
                    n,
                    r,
                    col,
                )] == fragment_of(frags, y, n)[16 * r + col]
            &&& forall|p: int|
                0 <= p < data.len() && !cube_writes(o, os, 32, cy, p) ==> #[trigger] out[p] == data[p]
        }),
{
    lemma_cube_placement(data, sm, c, os, o, 32, cy, cz);
    let out = cube_output(data, sm, c, 4, os, o, 32, cy, (32 * cy * cz) as nat);
    assert forall|y: int, n: int, r: int, col: int|
        0 <= y < cy && 0 <= n < 2 && 0 <= r < 16 && 0 <= col < 16 implies out[#[trigger] tile_pos(
        o,
        os,
        y,
        n,
        r,
        col,
    )] == fragment_of(frags, y, n)[16 * r + col] by {
        lemma_fundamental_div_mod(r, 8);
        lemma_mod_pos_bound(r, 8);
        lemma_fundamental_div_mod(col, 4);
        lemma_mod_pos_bound(col, 4);
        let x = 4 * (r % 8) + col / 4;
        let h = r / 8;
        let i = col % 4;
        lemma_fundamental_div_mod_converse(x, 4, r % 8, col / 4);
        assert(lane_row(x, h) == r);
        assert(lane_col(x, i) == col);
        lemma_lane_reads_fragment_element(x, y, n, h, i);
        assert(dest(o, os, x, y, n, h, i) == tile_pos(o, os, y, n, r, col));
        assert(sm[512 * y + 256 * n + (16 * r + col)] == fragment_of(frags, y, n)[16 * r + col]);
    }
}

/// The reads of lane `x` of subcube `y` stay within the subcube's slice of
/// shared memory, `[512 * y, 512 * y + 512)`, and the 32 lanes together read
/// each element of the slice exactly once (element `q` is read by lane
/// `(q % 128) / 4` in iteration `q / 256`, half `(q / 128) % 2`, as element
/// `q % 4` of its line).
pub proof fn lemma_warp_reads_its_slice(y: int)
    requires
        0 <= y,
    ensures
        forall|x: int, n: int, h: int, i: int|
            0 <= x < 32 && 0 <= n < 2 && 0 <= h < 2 && 0 <= i < 4 ==> 512 * y <= #[trigger] src(x, y, n, h, i) < 512
                * y + 512,
        forall|q: int|
            0 <= q < 512 ==> #[trigger] src((q % 128) / 4, y, q / 256, (q / 128) % 2, q % 4) == 512 * y + q,
{
    assert forall|q: int| 0 <= q < 512 implies #[trigger] src((q % 128) / 4, y, q / 256, (q / 128) % 2, q % 4)
        == 512 * y + q by {
        lemma_fundamental_div_mod(q, 256);
        lemma_fundamental_div_mod(q, 128);
        lemma_mod_pos_bound(q, 128);
        lemma_fundamental_div_mod(q % 128, 4);
        lemma_fundamental_div_mod(q, 4);
        lemma_fundamental_div_mod(q / 128, 2);
        lemma_mod_pos_bound(q / 128, 2);
        assert(0 <= q / 128 < 4);
        assert(q / 256 == (q / 128) / 2) by {
            vstd::arithmetic::div_mod::lemma_div_denominator(q, 128, 2);
        }
        lemma_fundamental_div_mod_converse(q % 4, 4, 0, q % 4);
        vstd::arithmetic::div_mod::lemma_mod_mod(q, 128, 4);
        assert((q % 128) % 4 == q % 4) by {
            vstd::arithmetic::div_mod::lemma_mod_mod(q, 4, 32);
        }
    }
}

/// In the standard layout, with the cube's first element and the output's
/// row stride multiples of 4, and an output of at most `u32::MAX` elements
/// that has room, behind the cube's first element, for the tile rows of `cy`
/// subcubes (the last of them only as wide as the tiles), every unit of a cube of `cx` by `cy` units is ready for its copy.
pub proof fn lemma_standard_cube_ready(c: CmmaConfig, os: int, o: Offsets, cx: int, cy: int, out_len: int)
    requires
        standard_layout(c, 4),
        aligned(o, os),
        0 <= os,
        cube_columns_fit(os, cy),
        0 < cx <= 32,
        0 < cy <= 8,
        out_offset(o, os) + (16 * ((cy + 1) / 2) - 1) * os + (if cy <= 1 {
            32int
        } else {
            64int
        }) <= out_len,
        out_len <= u32::MAX,
    ensures
        cube_ready(c, 4, os, o, cx, cy, SHARED_MEMORY_SIZE as int, out_len),
{
    assert forall|x: int, y: int| 0 <= x < cx && 0 <= y < cy implies #[trigger] unit_ready(
        c,
        4,
        os,
        o,
        x,
        y,
        SHARED_MEMORY_SIZE as int,
        out_len,
    ) by {
        lemma_fundamental_div_mod(x, 8);
        lemma_mod_pos_bound(x, 8);
        lemma_fundamental_div_mod(x, 4);
        lemma_mod_pos_bound(x, 4);
        lemma_fundamental_div_mod(y, 2);
        lemma_mod_pos_bound(y, 2);
        assert(num_tiles_per_subcube(c) == 2);
        assert(acc_sm_stride_vec(c, 4) == 8);
        assert(within_sm_row_offset(c, 4) == 4);
        assert(units_per_tile_row(c, 4) == 4);
        assert(within_tile_row_offset(4) == 8);
        assert(single_row_offset(c) == 8);
        assert(config_valid(c, 4));
        assert(0 <= o.cube_row * os) by (nonlinear_arith)
            requires
                0 <= o.cube_row,
                0 <= os,
        ;
        assert(columns_fit(os, y));
        assert forall|n: int, h: int| 0 <= n < 2 && 0 <= h < 2 implies iteration_fits(c, 4, os, o, x, y, n, h)
            && #[trigger] read_pos(c, 4, x, y, n, h) + LINE_READS <= SHARED_MEMORY_SIZE
            && write_base(c, 4, os, o, x, y, n, h) + 4 <= out_len by {
            lemma_standard_positions(c, o, os, x, y, n, h);
            let rr = tile_row(c, y) * c.tile_size + unit_write_row(c, 4, x, h);
            assert(rr == 16 * (y / 2) + lane_row(x, h));
            assert(rr <= 63);
            assert(0 <= rr * os) by (nonlinear_arith)
                requires
                    0 <= rr,
                    0 <= os,
            ;
            // The line lies within the rows the output has room for.
            assert(rr + 1 <= 16 * ((cy + 1) / 2)) by {
                assert(y / 2 <= (cy - 1) / 2) by {
                    vstd::arithmetic::div_mod::lemma_div_is_ordered(y, cy - 1, 2);
                }
                assert((cy - 1) / 2 + 1 == (cy + 1) / 2) by {
                    vstd::arithmetic::div_mod::lemma_fundamental_div_mod(cy - 1, 2);
                    vstd::arithmetic::div_mod::lemma_fundamental_div_mod(cy + 1, 2);
                    lemma_mod_pos_bound(cy - 1, 2);
                    lemma_mod_pos_bound(cy + 1, 2);
                }
            }
            vstd::arithmetic::mul::lemma_mul_inequality(rr, 16 * ((cy + 1) / 2) - 1, os);
            assert(dest(o, os, x, y, n, h, 0) + 4 <= out_offset(o, os) + rr * os + (if cy <= 1 {
                32int
            } else {
                64int
            }));
            assert(rr * os <= u32::MAX);
            assert(out_offset(o, os) <= u32::MAX);
            assert(write_pos(c, 4, os, o, x, y, n, h) <= u32::MAX);
            let nt = num_tiles_per_subcube(c);
            let ro = row_offset(c, y, n);
            let rrd = unit_read_row(c, 4, x, h);
            let tc = tile_col(c, y, n);
            let tr = tile_row(c, y);
            let tot = total_col(c, 4, x, y, n);
            assert(nt == 2);
            assert(nt * y == 2 * y);
            assert(nt * y + n <= u32::MAX);
            assert(ro <= u32::MAX);
            assert(ro + rrd <= u32::MAX);
            assert((ro + rrd) * c.block_size_k <= u32::MAX);
            assert(unit_read_col(c, 4, x) * 4 <= u32::MAX);
            assert(read_pos(c, 4, x, y, n, h) + LINE_READS - 1 <= u32::MAX);
            assert(tc * units_per_tile_row(c, 4) <= u32::MAX);
            assert(tot * 4 <= u32::MAX);
            assert(o.cube_row * os <= u32::MAX);
            assert(tr * c.tile_size <= u32::MAX);
            assert(iteration_fits(c, 4, os, o, x, y, n, h));
        }
        assert(read_pos(c, 4, x, y, 0, 0) + LINE_READS <= SHARED_MEMORY_SIZE);
        assert(read_pos(c, 4, x, y, 0, 1) + LINE_READS <= SHARED_MEMORY_SIZE);
        assert(read_pos(c, 4, x, y, 1, 0) + LINE_READS <= SHARED_MEMORY_SIZE);
        assert(read_pos(c, 4, x, y, 1, 1) + LINE_READS <= SHARED_MEMORY_SIZE);
        assert(unit_fits(c, 4, os, o, x, y));
        assert(unit_in_bounds(c, 4, os, o, x, y, SHARED_MEMORY_SIZE as int, out_len));
    }
}

/// Noninterference between subcubes, in the standard layout: lane `x` of
/// subcube `y` reads only the subcube's own slice of shared memory, so two
/// shared memories that agree on `[512 * y, 512 * y + 512)` give the same
/// output, whatever the other subcubes' slices hold.
pub proof fn lemma_copy_reads_only_its_slice<T>(
    data: Seq<T>,
    sm1: Seq<T>,
    sm2: Seq<T>,
    c: CmmaConfig,
    os: int,
    o: Offsets,
    x: int,
    y: int,
)
    requires
        standard_layout(c, 4),
        0 <= x < 32,
        0 <= y,
        forall|j: int| 512 * y <= j < 512 * y + 512 ==> #[trigger] sm1[j] == sm2[j],
    ensures
        unit_output(data, sm1, c, 4, os, o, x, y) == unit_output(data, sm2, c, 4, os, o, x, y),
{
    lemma_standard_read_pos(c, x, y, 0, 0);
    lemma_standard_read_pos(c, x, y, 0, 1);
    lemma_standard_read_pos(c, x, y, 1, 0);
    lemma_standard_read_pos(c, x, y, 1, 1);
    assert forall|j: int| #[trigger] reads_at(c, 4, x, y, j) implies sm1[j] == sm2[j] by {
        assert(512 * y <= j < 512 * y + 512);
    }
    lemma_copy_reads_only_its_lines(data, sm1, sm2, c, 4, os, o, x, y);
}

/// Two distinct units, in the standard layout, write disjoint sets of output
/// elements; so running their copies in either order gives the same output.
pub proof fn lemma_units_commute<T>(
    data: Seq<T>,
    sm: Seq<T>,
    c: CmmaConfig,
    os: int,
    o: Offsets,
    x1: int,
    y1: int,
    x2: int,
    y2: int,
)
    requires
        standard_layout(c, 4),
        aligned(o, os),
        0 <= os,
        0 <= x1 < 32,
        0 <= x2 < 32,
        0 <= y1,
        0 <= y2,
        x1 != x2 || y1 != y2,
        columns_fit(os, y1),
        columns_fit(os, y2),
        unit_lines_in(o, os, x1, y1, data.len() as int),
        unit_lines_in(o, os, x2, y2, data.len() as int),
    ensures
        forall|p: int| !(#[trigger] unit_writes(o, os, x1, y1, p) && unit_writes(o, os, x2, y2, p)),
        unit_output(unit_output(data, sm, c, 4, os, o, x1, y1), sm, c, 4, os, o, x2, y2) == unit_output(
            unit_output(data, sm, c, 4, os, o, x2, y2),
            sm,
            c,
            4,
            os,
            o,
            x1,
            y1,
        ),
{
    assert forall|p: int| !(#[trigger] unit_writes(o, os, x1, y1, p) && unit_writes(o, os, x2, y2, p)) by {
        if unit_writes(o, os, x1, y1, p) && unit_writes(o, os, x2, y2, p) {
            let (n1, h1, i1) = choose|n: int, h: int, i: int|
                0 <= n < 2 && 0 <= h < 2 && 0 <= i < 4 && p == #[trigger] dest(o, os, x1, y1, n, h, i);
            let (n2, h2, i2) = choose|n: int, h: int, i: int|
                0 <= n < 2 && 0 <= h < 2 && 0 <= i < 4 && p == #[trigger] dest(o, os, x2, y2, n, h, i);
            lemma_dest_injective(o, os, x1, y1, n1, h1, i1, x2, y2, n2, h2, i2);
        }
    }
    let a1 = unit_output(data, sm, c, 4, os, o, x1, y1);
    let b1 = unit_output(data, sm, c, 4, os, o, x2, y2);
    lemma_unit_placement(data, sm, c, os, o, x1, y1);
    lemma_unit_placement(data, sm, c, os, o, x2, y2);
    lemma_unit_placement(a1, sm, c, os, o, x2, y2);
    lemma_unit_placement(b1, sm, c, os, o, x1, y1);
    let a = unit_output(a1, sm, c, 4, os, o, x2, y2);
    let b = unit_output(b1, sm, c, 4, os, o, x1, y1);
    assert forall|p: int| 0 <= p < data.len() implies #[trigger] a[p] == b[p] by {
        if unit_writes(o, os, x2, y2, p) {
            let (n, h, i) = choose|n: int, h: int, i: int|
                0 <= n < 2 && 0 <= h < 2 && 0 <= i < 4 && p == #[trigger] dest(o, os, x2, y2, n, h, i);
            assert(a[dest(o, os, x2, y2, n, h, i)] == sm[src(x2, y2, n, h, i)]);
            assert(b1[dest(o, os, x2, y2, n, h, i)] == sm[src(x2, y2, n, h, i)]);
            assert(!unit_writes(o, os, x1, y1, p));
        } else if unit_writes(o, os, x1, y1, p) {
            let (n, h, i) = choose|n: int, h: int, i: int|
                0 <= n < 2 && 0 <= h < 2 && 0 <= i < 4 && p == #[trigger] dest(o, os, x1, y1, n, h, i);
            assert(b[dest(o, os, x1, y1, n, h, i)] == sm[src(x1, y1, n, h, i)]);
            assert(a1[dest(o, os, x1, y1, n, h, i)] == sm[src(x1, y1, n, h, i)]);
        }
    }
    assert(a =~= b);
}

/// Position in the output of element `(row, col)` of the 64 by 64 block that
/// a cube of 8 subcubes writes.
pub open spec fn block_pos(o: Offsets, os: int, row: int, col: int) -> int {
    out_offset(o, os) + row * os + col
}

/// Whether `p` lies in the 64 by 64 block that a cube of 8 subcubes writes.
pub open spec fn in_block(o: Offsets, os: int, p: int) -> bool {
    exists|row: int, col: int| 0 <= row < 64 && 0 <= col < 64 && p == #[trigger] block_pos(o, os, row, col)
}

/// Element `(row, col)` of the block is element `(row % 16, col % 16)` of
/// tile `(row / 16, col / 16)`, which subcube `2 * (row / 16) + col / 32`
/// writes in iteration `(col / 16) % 2`; and every position a subcube of the
/// block writes lies in the block.
pub proof fn lemma_block_tile(o: Offsets, os: int, row: int, col: int)
    requires
        0 <= row < 64,
        0 <= col < 64,
    ensures
        block_pos(o, os, row, col) == tile_pos(o, os, 2 * (row / 16) + col / 32, (col / 16) % 2, row % 16, col % 16),
        2 * (2 * (row / 16) + col / 32) + (col / 16) % 2 == 4 * (row / 16) + col / 16,
        0 <= 2 * (row / 16) + col / 32 < 8,
{
    lemma_fundamental_div_mod(row, 16);
    lemma_mod_pos_bound(row, 16);
    lemma_fundamental_div_mod(col, 16);
    lemma_mod_pos_bound(col, 16);
    lemma_fundamental_div_mod(col, 32);
    lemma_mod_pos_bound(col, 32);
    lemma_fundamental_div_mod(col / 16, 2);
    lemma_mod_pos_bound(col / 16, 2);
    assert(col / 32 == (col / 16) / 2) by {
        vstd::arithmetic::div_mod::lemma_div_denominator(col, 16, 2);
    }
    let y = 2 * (row / 16) + col / 32;
    assert(0 <= row / 16 < 4);
    assert(0 <= col / 32 < 2);
    lemma_fundamental_div_mod_converse(y, 2, row / 16, col / 32);
}

/// Every position a unit of a cube of 8 subcubes writes lies in the block.
pub proof fn lemma_dest_in_block(o: Offsets, os: int, x: int, y: int, n: int, h: int, i: int)
    requires
        0 <= x < 32,
        0 <= y < 8,
        0 <= n < 2,
        0 <= h < 2,
        0 <= i < 4,
    ensures
        dest(o, os, x, y, n, h, i) == block_pos(
            o,
            os,
            16 * (y / 2) + lane_row(x, h),
            16 * (2 * (y % 2) + n) + lane_col(x, i),
        ),
        0 <= 16 * (y / 2) + lane_row(x, h) < 64,
        0 <= 16 * (2 * (y % 2) + n) + lane_col(x, i) < 64,
{
    lemma_fundamental_div_mod(x, 4);
    lemma_mod_pos_bound(x, 4);
    lemma_fundamental_div_mod(y, 2);
    lemma_mod_pos_bound(y, 2);
}

/// The copy run by all 256 units of a cube of 32 by 8 units, in the standard
/// layout, lays the 16 tiles that shared memory holds (each 16 by 16,
/// row-major, in row-major tile order) out as the 64 by 64 block of the
/// output that starts at the cube's first element; every other element of the
/// output keeps its value.
pub proof fn lemma_full_cube_block<T>(data: Seq<T>, sm: Seq<T>, c: CmmaConfig, os: int, o: Offsets, cz: int)
    requires
        standard_layout(c, 4),
        aligned(o, os),
        64 <= os,
        0 < cz,
        out_offset(o, os) + 63 * os + 64 <= data.len(),
        data.len() <= u32::MAX,
    ensures
        ({
            let out = cube_output(data, sm, c, 4, os, o, 32, 8, (32 * 8 * cz) as nat);
            &&& out.len() == data.len()
            &&& forall|row: int, col: int|
                0 <= row < 64 && 0 <= col < 64 ==> out[#[trigger] block_pos(o, os, row, col)] == sm[256 * (4
                    * (row / 16) + col / 16) + 16 * (row % 16) + col % 16]
            &&& forall|p: int| 0 <= p < data.len() && !in_block(o, os, p) ==> #[trigger] out[p] == data[p]
        }),
{
    assert(0 <= o.cube_row * os) by (nonlinear_arith)
        requires
            0 <= o.cube_row,
            0 <= os,
    ;
    lemma_standard_cube_ready(c, os, o, 32, 8, data.len() as int);
    lemma_cube_placement(data, sm, c, os, o, 32, 8, cz);
    let out = cube_output(data, sm, c, 4, os, o, 32, 8, (32 * 8 * cz) as nat);
    assert forall|row: int, col: int| 0 <= row < 64 && 0 <= col < 64 implies out[#[trigger] block_pos(
        o,
        os,
        row,
        col,
    )] == sm[256 * (4 * (row / 16) + col / 16) + 16 * (row % 16) + col % 16] by {
        lemma_block_tile(o, os, row, col);
        let y = 2 * (row / 16) + col / 32;
        let n = (col / 16) % 2;
        let r = row % 16;
        let cc = col % 16;
        lemma_fundamental_div_mod(r, 8);
        lemma_mod_pos_bound(r, 8);
        lemma_fundamental_div_mod(cc, 4);
        lemma_mod_pos_bound(cc, 4);
        let x = 4 * (r % 8) + cc / 4;
        let h = r / 8;
        let i = cc % 4;
        lemma_fundamental_div_mod_converse(x, 4, r % 8, cc / 4);
        assert(lane_row(x, h) == r);
        assert(lane_col(x, i) == cc);
        lemma_lane_reads_fragment_element(x, y, n, h, i);
        assert(dest(o, os, x, y, n, h, i) == block_pos(o, os, row, col));
    }
    assert forall|p: int| 0 <= p < data.len() && !in_block(o, os, p) implies #[trigger] out[p] == data[p] by {
        if cube_writes(o, os, 32, 8, p) {
            let (x, y) = choose|x: int, y: int| 0 <= x < 32 && 0 <= y < 8 && #[trigger] unit_writes(o, os, x, y, p);
            let (n, h, i) = choose|n: int, h: int, i: int|
                0 <= n < 2 && 0 <= h < 2 && 0 <= i < 4 && p == #[trigger] dest(o, os, x, y, n, h, i);
            lemma_dest_in_block(o, os, x, y, n, h, i);
            assert(in_block(o, os, p));
        }
    }
}

} // verus!
