//! Laws of the copy from shared memory to the output that hold in every
//! configuration: the cube's offsets only translate what a unit writes, the
//! configuration enters only through `block_size_k` and `tile_size`, a second
//! copy changes nothing, and a unit reads shared memory only at its read
//! positions.

use vstd::prelude::*;
use vstd::arithmetic::div_mod::{lemma_fundamental_div_mod, lemma_fundamental_div_mod_converse};
use vstd::arithmetic::mul::lemma_mul_nonnegative;
use crate::write_output::{
    config_valid, line_written, out_offset, read_pos, tile_row, total_col, unit_output, unit_ready,
    unit_write_row, write_base, write_pos, zero_offsets, CmmaConfig, Offsets, LINE_READS,
};

verus! {

/// Writing a line behind a prefix is writing it in the rest, shifted by the
/// prefix's length.
proof fn lemma_line_written_behind_prefix<T>(pre: Seq<T>, rest: Seq<T>, sm: Seq<T>, start: int, b: int)
    requires
        0 <= b,
    ensures
        line_written(pre + rest, sm, start, b + pre.len()) == pre + line_written(rest, sm, start, b),
{
    assert(line_written(pre + rest, sm, start, b + pre.len()) =~= pre + line_written(rest, sm, start, b));
}

/// With the cube's first element at a multiple of the line size, the line the
/// unit writes starts that far behind the line it writes for a cube at the
/// origin, which starts at a position of at least 0.
proof fn lemma_write_base_shift(c: CmmaConfig, v: int, os: int, o: Offsets, x: int, y: int, n: int, h: int)
    requires
        config_valid(c, v),
        0 <= os,
        0 <= x,
        0 <= y,
        0 <= n,
        0 <= h,
        out_offset(o, os) % v == 0,
    ensures
        0 <= write_base(c, v, os, zero_offsets(), x, y, n, h),
        write_base(c, v, os, o, x, y, n, h) == out_offset(o, os) + write_base(
            c,
            v,
            os,
            zero_offsets(),
            x,
            y,
            n,
            h,
        ),
{
    let z = zero_offsets();
    assert(0 * os == 0) by (nonlinear_arith);
    assert(out_offset(z, os) == 0);
    let rr = tile_row(c, y) * c.tile_size + unit_write_row(c, v, x, h);
    lemma_mul_nonnegative(tile_row(c, y), c.tile_size as int);
    lemma_mul_nonnegative(rr, os);
    lemma_mul_nonnegative(total_col(c, v, x, y, n), v);
    let w = write_pos(c, v, os, z, x, y, n, h);
    assert(0 <= w);
    let off = out_offset(o, os);
    assert(write_pos(c, v, os, o, x, y, n, h) == off + w);
    lemma_fundamental_div_mod(w, v);
    lemma_fundamental_div_mod(off, v);
    let q = off / v;
    lemma_fundamental_div_mod_converse(off + w, v, q + w / v, w % v);
    assert((q + w / v) * v == v * q + (w / v) * v) by (nonlinear_arith);
    assert(0 <= (w / v) * v) by {
        vstd::arithmetic::div_mod::lemma_div_pos_is_pos(w, v);
        lemma_mul_nonnegative(w / v, v);
    }
}

/// The cube's offsets only translate the output: a unit of a cube whose first
/// element is at `out_offset(o, os)` (a multiple of the line size) leaves the
/// elements before it as they are and does behind it what the same unit of a
/// cube at the origin does. The offsets other than `batch_out`, `cube_row`
/// and `cube_col` play no part.
pub proof fn lemma_offsets_translate<T>(
    data: Seq<T>,
    sm: Seq<T>,
    c: CmmaConfig,
    v: int,
    os: int,
    o: Offsets,
    x: int,
    y: int,
)
    requires
        config_valid(c, v),
        0 <= os,
        0 <= x,
        0 <= y,
        out_offset(o, os) % v == 0,
        out_offset(o, os) <= data.len(),
    ensures
        unit_output(data, sm, c, v, os, o, x, y) == data.take(out_offset(o, os)) + unit_output(
            data.skip(out_offset(o, os)),
            sm,
            c,
            v,
            os,
            zero_offsets(),
            x,
            y,
        ),
{
    let off = out_offset(o, os);
    let z = zero_offsets();
    let pre = data.take(off);
    let rest = data.skip(off);
    assert(data == pre + rest);
    lemma_write_base_shift(c, v, os, o, x, y, 0, 0);
    lemma_write_base_shift(c, v, os, o, x, y, 0, 1);
    lemma_write_base_shift(c, v, os, o, x, y, 1, 0);
    lemma_write_base_shift(c, v, os, o, x, y, 1, 1);
    assert(pre.len() == off);
    let r1 = line_written(rest, sm, read_pos(c, v, x, y, 0, 0), write_base(c, v, os, z, x, y, 0, 0));
    let r2 = line_written(r1, sm, read_pos(c, v, x, y, 0, 1), write_base(c, v, os, z, x, y, 0, 1));
    let r3 = line_written(r2, sm, read_pos(c, v, x, y, 1, 0), write_base(c, v, os, z, x, y, 1, 0));
    let r4 = line_written(r3, sm, read_pos(c, v, x, y, 1, 1), write_base(c, v, os, z, x, y, 1, 1));
    lemma_line_written_behind_prefix(pre, rest, sm, read_pos(c, v, x, y, 0, 0), write_base(c, v, os, z, x, y, 0, 0));
    lemma_line_written_behind_prefix(pre, r1, sm, read_pos(c, v, x, y, 0, 1), write_base(c, v, os, z, x, y, 0, 1));
    lemma_line_written_behind_prefix(pre, r2, sm, read_pos(c, v, x, y, 1, 0), write_base(c, v, os, z, x, y, 1, 0));
    lemma_line_written_behind_prefix(pre, r3, sm, read_pos(c, v, x, y, 1, 1), write_base(c, v, os, z, x, y, 1, 1));
    assert(unit_output(rest, sm, c, v, os, z, x, y) == r4);
}

/// The copy depends on the configuration only through `block_size_k` and
/// `tile_size`: two configurations that agree on these give the same output
/// and make the same units ready. (It depends on the dimensions only through
/// their `n`, the output's row stride, which is all that
/// `shared_memory_to_output`'s contract reads of them.)
pub proof fn lemma_config_dependence<T>(
    data: Seq<T>,
    sm: Seq<T>,
    c1: CmmaConfig,
    c2: CmmaConfig,
    v: int,
    os: int,
    o: Offsets,
    x: int,
    y: int,
    sm_len: int,
    out_len: int,
)
    requires
        c1.block_size_k == c2.block_size_k,
        c1.tile_size == c2.tile_size,
    ensures
        unit_output(data, sm, c1, v, os, o, x, y) == unit_output(data, sm, c2, v, os, o, x, y),
        unit_ready(c1, v, os, o, x, y, sm_len, out_len) == unit_ready(c2, v, os, o, x, y, sm_len, out_len),
{
    assert forall|n: int, h: int| read_pos(c1, v, x, y, n, h) == read_pos(c2, v, x, y, n, h) && write_base(
        c1,
        v,
        os,
        o,
        x,
        y,
        n,
        h,
    ) == write_base(c2, v, os, o, x, y, n, h) by {}
}

/// A second copy by the same unit changes nothing: what the copy writes comes
/// from shared memory only, never from the output's previous contents.
pub proof fn lemma_copy_idempotent<T>(
    data: Seq<T>,
    sm: Seq<T>,
    c: CmmaConfig,
    v: int,
    os: int,
    o: Offsets,
    x: int,
    y: int,
)
    ensures
        unit_output(unit_output(data, sm, c, v, os, o, x, y), sm, c, v, os, o, x, y) == unit_output(
            data,
            sm,
            c,
            v,
            os,
            o,
            x,
            y,
        ),
{
    let once = unit_output(data, sm, c, v, os, o, x, y);
    let twice = unit_output(once, sm, c, v, os, o, x, y);
    assert(twice =~= once);
}

/// Whether the unit reads shared memory at `j`: `j` is among the
/// `LINE_READS` elements from one of its four read positions.
pub open spec fn reads_at(c: CmmaConfig, v: int, x: int, y: int, j: int) -> bool {
    ||| read_pos(c, v, x, y, 0, 0) <= j < read_pos(c, v, x, y, 0, 0) + LINE_READS
    ||| read_pos(c, v, x, y, 0, 1) <= j < read_pos(c, v, x, y, 0, 1) + LINE_READS
    ||| read_pos(c, v, x, y, 1, 0) <= j < read_pos(c, v, x, y, 1, 0) + LINE_READS
    ||| read_pos(c, v, x, y, 1, 1) <= j < read_pos(c, v, x, y, 1, 1) + LINE_READS
}

/// The copy reads shared memory only at its read positions: two shared
/// memories that agree on the `LINE_READS` elements from each of the unit's
/// four read positions give the same output.
pub proof fn lemma_copy_reads_only_its_lines<T>(
    data: Seq<T>,
    sm1: Seq<T>,
    sm2: Seq<T>,
    c: CmmaConfig,
    v: int,
    os: int,
    o: Offsets,
    x: int,
    y: int,
)
    requires
        forall|j: int| #[trigger] reads_at(c, v, x, y, j) ==> sm1[j] == sm2[j],
    ensures
        unit_output(data, sm1, c, v, os, o, x, y) == unit_output(data, sm2, c, v, os, o, x, y),
{
    let r00 = read_pos(c, v, x, y, 0, 0);
    let r01 = read_pos(c, v, x, y, 0, 1);
    let r10 = read_pos(c, v, x, y, 1, 0);
    let r11 = read_pos(c, v, x, y, 1, 1);
    let b00 = write_base(c, v, os, o, x, y, 0, 0);
    let b01 = write_base(c, v, os, o, x, y, 0, 1);
    let b10 = write_base(c, v, os, o, x, y, 1, 0);
    let b11 = write_base(c, v, os, o, x, y, 1, 1);
    let a1 = line_written(data, sm1, r00, b00);
    let a2 = line_written(a1, sm1, r01, b01);
    let a3 = line_written(a2, sm1, r10, b10);
    let a4 = line_written(a3, sm1, r11, b11);
    let d1 = line_written(data, sm2, r00, b00);
    let d2 = line_written(d1, sm2, r01, b01);
    let d3 = line_written(d2, sm2, r10, b10);
    let d4 = line_written(d3, sm2, r11, b11);
    assert(a1 =~= d1) by {
        assert forall|j: int| 0 <= j < a1.len() implies #[trigger] a1[j] == d1[j] by {
            if b00 <= j < b00 + LINE_READS {
                assert(reads_at(c, v, x, y, r00 + (j - b00)));
            }
        }
    }
    assert(a2 =~= d2) by {
        assert forall|j: int| 0 <= j < a2.len() implies #[trigger] a2[j] == d2[j] by {
            if b01 <= j < b01 + LINE_READS {
                assert(reads_at(c, v, x, y, r01 + (j - b01)));
            }
        }
    }
    assert(a3 =~= d3) by {
        assert forall|j: int| 0 <= j < a3.len() implies #[trigger] a3[j] == d3[j] by {
            if b10 <= j < b10 + LINE_READS {
                assert(reads_at(c, v, x, y, r10 + (j - b10)));
            }
        }
    }
    assert(a4 =~= d4) by {
        assert forall|j: int| 0 <= j < a4.len() implies #[trigger] a4[j] == d4[j] by {
            if b11 <= j < b11 + LINE_READS {
                assert(reads_at(c, v, x, y, r11 + (j - b11)));
            }
        }
    }
}

} // verus!
