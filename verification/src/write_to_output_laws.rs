//! `write_to_output` run by many units one after the other, each on the
//! contract of one call: the store of its subcube's fragments into shared
//! memory, then its copy. In the standard layout the lanes of a subcube lay
//! the subcube's fragments out as two tiles, and a whole cube of 32 by 8
//! units lays every subcube's fragments out as a 64 by 64 block.

use vstd::prelude::*;
use vstd::arithmetic::div_mod::{
    lemma_fundamental_div_mod,
    lemma_fundamental_div_mod_converse,
    lemma_mod_pos_bound,
};
use crate::write_output::{
    cube_output, fragments_stored, out_offset, unit_output, CmmaConfig, Offsets, FRAGMENT_SIZE,
    SHARED_MEMORY_SIZE,
};
use crate::write_output_laws::{
    aligned, block_pos, columns_fit, dest, fragment_of, holds_fragments, in_block, lane_col,
    lane_row, lemma_block_tile, lemma_copy_reads_only_its_slice, lemma_dest_injective,
    lemma_full_cube_block, lemma_lane_reads_fragment_element, lemma_unit_placement, src,
    standard_layout, tile_pos, unit_lines_in, unit_writes,
};

verus! {

/// Output and shared memory after lanes `0 .. lanes` of subcube `y` each ran
/// `write_to_output` with the subcube's fragments `first` and `second`.
pub open spec fn lanes_write_to_output<T>(
    data: Seq<T>,
    mem: Seq<T>,
    first: Seq<T>,
    second: Seq<T>,
    c: CmmaConfig,
    v: int,
    os: int,
    o: Offsets,
    y: int,
    lanes: nat,
) -> (Seq<T>, Seq<T>)
    decreases lanes,
{
    if lanes == 0 {
        (data, mem)
    } else {
        let prev = lanes_write_to_output(data, mem, first, second, c, v, os, o, y, (lanes - 1) as nat);
        let m = fragments_stored(prev.1, first, second, y);
        (unit_output(prev.0, m, c, v, os, o, lanes - 1, y), m)
    }
}

/// Output after lanes `0 .. lanes` of subcube `y` each ran the copy from the
/// same shared memory `sm`.
pub open spec fn lanes_output<T>(
    data: Seq<T>,
    sm: Seq<T>,
    c: CmmaConfig,
    v: int,
    os: int,
    o: Offsets,
    y: int,
    lanes: nat,
) -> Seq<T>
    decreases lanes,
{
    if lanes == 0 {
        data
    } else {
        unit_output(lanes_output(data, sm, c, v, os, o, y, (lanes - 1) as nat), sm, c, v, os, o, lanes - 1, y)
    }
}

/// Whether some lane of subcube `y` writes output position `p`.
pub open spec fn subcube_writes(o: Offsets, os: int, y: int, p: int) -> bool {
    exists|x: int| 0 <= x < 32 && #[trigger] unit_writes(o, os, x, y, p)
}

/// Storing the same fragments twice is storing them once; so after the first
/// lane the shared memory no longer changes, and every lane copies from the
/// memory that holds the subcube's fragments.
pub proof fn lemma_lanes_share_memory<T>(
    data: Seq<T>,
    mem: Seq<T>,
    first: Seq<T>,
    second: Seq<T>,
    c: CmmaConfig,
    v: int,
    os: int,
    o: Offsets,
    y: int,
    lanes: nat,
)
    requires
        0 < lanes,
    ensures
        lanes_write_to_output(data, mem, first, second, c, v, os, o, y, lanes).1 == fragments_stored(
            mem,
            first,
            second,
            y,
        ),
        lanes_write_to_output(data, mem, first, second, c, v, os, o, y, lanes).0 == lanes_output(
            data,
            fragments_stored(mem, first, second, y),
            c,
            v,
            os,
            o,
            y,
            lanes,
        ),
    decreases lanes,
{
    let sm = fragments_stored(mem, first, second, y);
    let w = (lanes - 1) as nat;
    let prev = lanes_write_to_output(data, mem, first, second, c, v, os, o, y, w);
    if lanes > 1 {
        lemma_lanes_share_memory(data, mem, first, second, c, v, os, o, y, w);
        assert(fragments_stored(sm, first, second, y) =~= sm);
        assert(fragments_stored(prev.1, first, second, y) == sm);
    } else {
        assert(prev == (data, mem));
        assert(lanes_output(data, sm, c, v, os, o, y, 0) == data);
    }
    assert(lanes_write_to_output(data, mem, first, second, c, v, os, o, y, lanes) == (
        unit_output(prev.0, fragments_stored(prev.1, first, second, y), c, v, os, o, w as int, y),
        fragments_stored(prev.1, first, second, y),
    ));
}

/// What lanes `0 .. u` of subcube `y` have done, in the standard layout: each
/// placed its elements, and every position none of them writes keeps its
/// value.
pub proof fn lemma_lanes_placement<T>(
    data: Seq<T>,
    sm: Seq<T>,
    c: CmmaConfig,
    os: int,
    o: Offsets,
    y: int,
    u: nat,
)
    requires
        standard_layout(c, 4),
        aligned(o, os),
        0 <= os,
        0 <= y,
        u <= 32,
        columns_fit(os, y),
        forall|x: int| 0 <= x < 32 ==> #[trigger] unit_lines_in(o, os, x, y, data.len() as int),
    ensures
        ({
            let out = lanes_output(data, sm, c, 4, os, o, y, u);
            &&& out.len() == data.len()
            &&& forall|x: int, n: int, h: int, i: int|
                0 <= x < u && 0 <= n < 2 && 0 <= h < 2 && 0 <= i < 4 ==> out[#[trigger] dest(
                    o,
                    os,
                    x,
                    y,
                    n,
                    h,
                    i,
                )] == sm[src(x, y, n, h, i)]
            &&& forall|p: int|
                0 <= p < data.len() && (forall|x: int| 0 <= x < u ==> !#[trigger] unit_writes(o, os, x, y, p))
                    ==> #[trigger] out[p] == data[p]
        }),
    decreases u,
{
    if u > 0 {
        let w = (u - 1) as nat;
        lemma_lanes_placement(data, sm, c, os, o, y, w);
        let prev = lanes_output(data, sm, c, 4, os, o, y, w);
        let out = lanes_output(data, sm, c, 4, os, o, y, u);
        assert(unit_lines_in(o, os, w as int, y, data.len() as int));
        lemma_unit_placement(prev, sm, c, os, o, w as int, y);
        assert forall|x: int, n: int, h: int, i: int|
            0 <= x < u && 0 <= n < 2 && 0 <= h < 2 && 0 <= i < 4 implies out[#[trigger] dest(
            o,
            os,
            x,
            y,
            n,
            h,
            i,
        )] == sm[src(x, y, n, h, i)] by {
            let p = dest(o, os, x, y, n, h, i);
            if x != w {
                assert(unit_lines_in(o, os, x, y, data.len() as int));
                assert(dest(o, os, x, y, n, h, 0) + 4 <= data.len());
                if unit_writes(o, os, w as int, y, p) {
                    let (n2, h2, i2) = choose|n2: int, h2: int, i2: int|
                        0 <= n2 < 2 && 0 <= h2 < 2 && 0 <= i2 < 4 && p == #[trigger] dest(o, os, w as int, y, n2, h2, i2);
                    lemma_dest_injective(o, os, x, y, n, h, i, w as int, y, n2, h2, i2);
                }
            }
        }
        assert forall|p: int|
            0 <= p < data.len() && (forall|x: int| 0 <= x < u ==> !#[trigger] unit_writes(o, os, x, y, p))
                implies #[trigger] out[p] == data[p] by {
            assert(!unit_writes(o, os, w as int, y, p));
            assert forall|x: int| 0 <= x < w implies !#[trigger] unit_writes(o, os, x, y, p) by {}
        }
    }
}

/// The lines of every lane of subcube `y` lie within an output that has room,
/// behind the cube's first element, for the subcube's two tiles.
proof fn lemma_subcube_lines_in<T>(data: Seq<T>, o: Offsets, os: int, y: int)
    requires
        0 <= os,
        0 <= y,
        0 <= out_offset(o, os),
        columns_fit(os, y),
        out_offset(o, os) + (16 * (y / 2) + 15) * os + 32 * (y % 2) + 32 <= data.len(),
    ensures
        forall|x: int| 0 <= x < 32 ==> #[trigger] unit_lines_in(o, os, x, y, data.len() as int),
{
    assert forall|x: int| 0 <= x < 32 implies #[trigger] unit_lines_in(o, os, x, y, data.len() as int) by {
        assert forall|n: int, h: int| 0 <= n < 2 && 0 <= h < 2 implies #[trigger] dest(o, os, x, y, n, h, 0) + 4
            <= data.len() by {
            lemma_fundamental_div_mod(x, 4);
            lemma_mod_pos_bound(x, 4);
            lemma_fundamental_div_mod(y, 2);
            lemma_mod_pos_bound(y, 2);
            let rr = 16 * (y / 2) + lane_row(x, h);
            assert(rr <= 16 * (y / 2) + 15);
            vstd::arithmetic::mul::lemma_mul_inequality(rr, 16 * (y / 2) + 15, os);
        }
    }
}

/// `write_to_output` run by the 32 lanes of subcube `y`, in the standard
/// layout: the subcube's first fragment becomes tile `(y / 2, 2 * (y % 2))`
/// of the output and its second fragment the tile to the right of it, each
/// row-major; every position no lane of the subcube writes keeps its value.
pub proof fn lemma_subcube_write_to_output<T>(
    data: Seq<T>,
    mem: Seq<T>,
    first: Seq<T>,
    second: Seq<T>,
    c: CmmaConfig,
    os: int,
    o: Offsets,
    y: int,
)
    requires
        standard_layout(c, 4),
        aligned(o, os),
        0 <= os,
        0 <= y,
        512 * y + 512 <= mem.len(),
        columns_fit(os, y),
        out_offset(o, os) + (16 * (y / 2) + 15) * os + 32 * (y % 2) + 32 <= data.len(),
    ensures
        ({
            let out = lanes_write_to_output(data, mem, first, second, c, 4, os, o, y, 32).0;
            &&& out.len() == data.len()
            &&& forall|r: int, col: int|
                0 <= r < 16 && 0 <= col < 16 ==> out[#[trigger] tile_pos(o, os, y, 0, r, col)]
                    == first[16 * r + col] && out[tile_pos(o, os, y, 1, r, col)] == second[16 * r + col]
            &&& forall|p: int|
                0 <= p < data.len() && !subcube_writes(o, os, y, p) ==> #[trigger] out[p] == data[p]
        }),
{
    assert(0 <= o.cube_row * os) by (nonlinear_arith)
        requires
            0 <= o.cube_row,
            0 <= os,
    ;
    lemma_subcube_lines_in(data, o, os, y);
    lemma_lanes_share_memory(data, mem, first, second, c, 4, os, o, y, 32);
    let sm = fragments_stored(mem, first, second, y);
    lemma_lanes_placement(data, sm, c, os, o, y, 32);
    let out = lanes_output(data, sm, c, 4, os, o, y, 32);
    assert forall|r: int, col: int| 0 <= r < 16 && 0 <= col < 16 implies out[#[trigger] tile_pos(
        o,
        os,
        y,
        0,
        r,
        col,
    )] == first[16 * r + col] && out[tile_pos(o, os, y, 1, r, col)] == second[16 * r + col] by {
        lemma_fundamental_div_mod(r, 8);
        lemma_mod_pos_bound(r, 8);
        lemma_fundamental_div_mod(col, 4);
        lemma_mod_pos_bound(col, 4);
        let x = 4 * (r % 8) + col / 4;
        let h = r / 8;
        let i = col % 4;
        lemma_fundamental_div_mod_converse(x, 4, r % 8, col / 4);
        assert(lane_row(x, h) == r);
        assert(lane_col(x, i) == col);
        lemma_lane_reads_fragment_element(x, y, 0, h, i);
        lemma_lane_reads_fragment_element(x, y, 1, h, i);
        assert(dest(o, os, x, y, 0, h, i) == tile_pos(o, os, y, 0, r, col));
        assert(dest(o, os, x, y, 1, h, i) == tile_pos(o, os, y, 1, r, col));
    }
    assert forall|p: int| 0 <= p < data.len() && !subcube_writes(o, os, y, p) implies #[trigger] out[p]
        == data[p] by {
        assert forall|x: int| 0 <= x < 32 implies !#[trigger] unit_writes(o, os, x, y, p) by {}
    }
}

/// Output and shared memory after the first `units` units of a cube of `cx`
/// by `cy` units each ran `write_to_output`, unit `u` at
/// `(u % cx, (u / cx) % cy)` with its subcube's fragments `frags[y]`.
pub open spec fn cube_write_to_output<T>(
    data: Seq<T>,
    mem: Seq<T>,
    frags: Seq<(Seq<T>, Seq<T>)>,
    c: CmmaConfig,
    v: int,
    os: int,
    o: Offsets,
    cx: int,
    cy: int,
    units: nat,
) -> (Seq<T>, Seq<T>)
    decreases units,
{
    if units == 0 {
        (data, mem)
    } else {
        let u = units - 1;
        let x = u % cx;
        let y = (u / cx) % cy;
        let prev = cube_write_to_output(data, mem, frags, c, v, os, o, cx, cy, (units - 1) as nat);
        let m = fragments_stored(prev.1, frags[y].0, frags[y].1, y);
        (unit_output(prev.0, m, c, v, os, o, x, y), m)
    }
}

/// Since each unit reads only its own subcube's slice, which it has just
/// filled with its subcube's fragments, the cube's units produce the output
/// that the copies alone produce from any shared memory holding every
/// subcube's fragments.
pub proof fn lemma_cube_write_to_output_is_copy<T>(
    data: Seq<T>,
    mem: Seq<T>,
    frags: Seq<(Seq<T>, Seq<T>)>,
    sm: Seq<T>,
    c: CmmaConfig,
    os: int,
    o: Offsets,
    cx: int,
    cy: int,
    units: nat,
)
    requires
        standard_layout(c, 4),
        0 < cx <= 32,
        0 < cy <= 8,
        mem.len() == SHARED_MEMORY_SIZE,
        holds_fragments(sm, frags, cy),
    ensures
        cube_write_to_output(data, mem, frags, c, 4, os, o, cx, cy, units).1.len() == SHARED_MEMORY_SIZE,
        cube_write_to_output(data, mem, frags, c, 4, os, o, cx, cy, units).0 == cube_output(
            data,
            sm,
            c,
            4,
            os,
            o,
            cx,
            cy,
            units,
        ),
    decreases units,
{
    if units > 0 {
        let w = (units - 1) as nat;
        lemma_cube_write_to_output_is_copy(data, mem, frags, sm, c, os, o, cx, cy, w);
        let u = w as int;
        lemma_fundamental_div_mod(u, cx);
        lemma_mod_pos_bound(u, cx);
        vstd::arithmetic::div_mod::lemma_div_pos_is_pos(u, cx);
        lemma_mod_pos_bound(u / cx, cy);
        let x = u % cx;
        let y = (u / cx) % cy;
        let prev = cube_write_to_output(data, mem, frags, c, 4, os, o, cx, cy, w);
        let m = fragments_stored(prev.1, frags[y].0, frags[y].1, y);
        assert forall|j: int| 512 * y <= j < 512 * y + 512 implies #[trigger] m[j] == sm[j] by {
            let n = if j < 512 * y + 256 { 0int } else { 1int };
            let q = j - 512 * y - 256 * n;
            assert(sm[512 * y + 256 * n + q] == fragment_of(frags, y, n)[q]);
        }
        lemma_copy_reads_only_its_slice(prev.0, m, sm, c, os, o, x, y);
    }
}

/// A shared memory of 4096 elements holding the fragments of 8 subcubes.
pub open spec fn shared_memory_of<T>(frags: Seq<(Seq<T>, Seq<T>)>) -> Seq<T> {
    Seq::new(
        SHARED_MEMORY_SIZE as nat,
        |j: int| fragment_of(frags, j / 512, (j % 512) / 256)[j % 256],
    )
}

/// `shared_memory_of` holds the fragments of every subcube.
proof fn lemma_shared_memory_of<T>(frags: Seq<(Seq<T>, Seq<T>)>)
    ensures
        holds_fragments(shared_memory_of(frags), frags, 8),
{
    let sm = shared_memory_of(frags);
    assert forall|y: int, n: int, q: int|
        0 <= y < 8 && 0 <= n < 2 && 0 <= q < FRAGMENT_SIZE implies sm[512 * y + 256 * n + q]
        == #[trigger] fragment_of(frags, y, n)[q] by {
        let j = 512 * y + 256 * n + q;
        lemma_fundamental_div_mod_converse(j, 512, y, 256 * n + q);
        lemma_fundamental_div_mod_converse(256 * n + q, 256, n, q);
        lemma_fundamental_div_mod_converse(j, 256, 2 * y + n, q);
    }
}

/// `write_to_output` run by all 256 units of a cube of 32 by 8 units, each
/// subcube `s` with its own fragments `frags[s]`, in the standard layout: the
/// output's 64 by 64 block at the cube's first element holds, at `(row, col)`,
/// element `(row % 16, col % 16)` of fragment `(col / 16) % 2` of subcube
/// `2 * (row / 16) + col / 32`; every element outside the block keeps its
/// value.
pub proof fn lemma_full_cube_write_to_output<T>(
    data: Seq<T>,
    mem: Seq<T>,
    frags: Seq<(Seq<T>, Seq<T>)>,
    c: CmmaConfig,
    os: int,
    o: Offsets,
    cz: int,
)
    requires
        standard_layout(c, 4),
        aligned(o, os),
        64 <= os,
        0 < cz,
        mem.len() == SHARED_MEMORY_SIZE,
        out_offset(o, os) + 63 * os + 64 <= data.len(),
        data.len() <= u32::MAX,
    ensures
        ({
            let out = cube_write_to_output(data, mem, frags, c, 4, os, o, 32, 8, (32 * 8 * cz) as nat).0;
            &&& out.len() == data.len()
            &&& forall|row: int, col: int|
                0 <= row < 64 && 0 <= col < 64 ==> out[#[trigger] block_pos(o, os, row, col)] == fragment_of(
                    frags,
                    2 * (row / 16) + col / 32,
                    (col / 16) % 2,
                )[16 * (row % 16) + col % 16]
            &&& forall|p: int| 0 <= p < data.len() && !in_block(o, os, p) ==> #[trigger] out[p] == data[p]
        }),
{
    let sm = shared_memory_of(frags);
    lemma_shared_memory_of(frags);
    lemma_cube_write_to_output_is_copy(data, mem, frags, sm, c, os, o, 32, 8, (32 * 8 * cz) as nat);
    lemma_full_cube_block(data, sm, c, os, o, cz);
    let out = cube_output(data, sm, c, 4, os, o, 32, 8, (32 * 8 * cz) as nat);
    assert forall|row: int, col: int| 0 <= row < 64 && 0 <= col < 64 implies out[#[trigger] block_pos(
        o,
        os,
        row,
        col,
    )] == fragment_of(frags, 2 * (row / 16) + col / 32, (col / 16) % 2)[16 * (row % 16) + col % 16] by {
        lemma_block_tile(o, os, row, col);
        let y = 2 * (row / 16) + col / 32;
        let n = (col / 16) % 2;
        lemma_mod_pos_bound(col / 16, 2);
        lemma_mod_pos_bound(row, 16);
        lemma_mod_pos_bound(col, 16);
        let q = 16 * (row % 16) + col % 16;
        assert(256 * (4 * (row / 16) + col / 16) + q == 512 * y + 256 * n + q);
        assert(sm[512 * y + 256 * n + q] == fragment_of(frags, y, n)[q]);
    }
}

} // verus!
