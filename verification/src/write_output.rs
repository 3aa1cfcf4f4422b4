//! Writing the accumulators of a matrix multiply to the output tensor.
//!
//! Each subcube (warp) of 32 units holds two 16x16 accumulator fragments.
//! They are first stored into the cube's shared memory, each warp into its own
//! slice of 512 elements; then every unit copies four lines of four elements
//! from shared memory into the output tensor.

use vstd::prelude::*;
use crate::cmma::{store, stored, Fragment, MatrixLayout};
use vstd::arithmetic::div_mod::{lemma_fundamental_div_mod, lemma_mod_pos_bound};

verus! {

/// Number of units in a subcube (a warp).
pub const SUBCUBE_DIM: u32 = 32;

/// Number of elements each unit copies per line.
pub const LINE_READS: u32 = 4;

/// Number of elements of the shared memory that holds the accumulators.
pub const SHARED_MEMORY_SIZE: u32 = 4096;

/// Number of elements of one accumulator fragment (16 by 16).
pub const FRAGMENT_SIZE: u32 = 256;

/// Side of an accumulator fragment, also its row stride in shared memory.
pub const FRAGMENT_SIDE: u32 = 16;

/// Tiling parameters of the matrix multiply.
#[derive(Clone, Copy, Debug, PartialEq, Eq, Structural)]
pub struct CmmaConfig {
    pub block_size_m: u32,
    pub block_size_k: u32,
    pub block_size_n: u32,
    pub check_m_bounds: bool,
    pub check_k_bounds: bool,
    pub check_n_bounds: bool,
    pub tile_size: u32,
    pub sm_vec: u32,
    pub lhs_transposed: bool,
    pub rhs_transposed: bool,
    pub unroll: bool,
}

/// Offsets of the current cube into the batched operands.
#[derive(Clone, Copy, Debug, PartialEq, Eq, Structural)]
pub struct Offsets {
    pub batch_lhs: u32,
    pub batch_rhs: u32,
    pub batch_out: u32,
    pub cube_row: u32,
    pub cube_col: u32,
    pub k: u32,
}

/// Dimensions of the matrix multiply: `m` by `k` times `k` by `n`.
#[derive(Clone, Copy, Debug, PartialEq, Eq, Structural)]
pub struct Dimensions {
    pub m: u32,
    pub k: u32,
    pub n: u32,
}

/// Position of a unit within its cube: `x` is its lane within the subcube,
/// `y` the subcube's index.
#[derive(Clone, Copy, Debug, PartialEq, Eq, Structural)]
pub struct UnitPos {
    pub x: u32,
    pub y: u32,
}

/// Number of units of a cube along each axis.
#[derive(Clone, Copy, Debug, PartialEq, Eq, Structural)]
pub struct CubeDim {
    pub x: u32,
    pub y: u32,
    pub z: u32,
}

/// The two accumulator fragments of a subcube.
pub struct Accumulators<T> {
    pub first: Fragment<T>,
    pub second: Fragment<T>,
}

/// A tensor of scalars accessed by lines of `vectorization` consecutive
/// scalars: line `l` is `data[l * vectorization .. (l + 1) * vectorization]`.
pub struct Tensor<T> {
    pub data: Vec<T>,
    pub vectorization: u32,
}

// ---------------------------------------------------------------------------
// The index arithmetic of the copy from shared memory to the output, as
// integers. `c` is the configuration, `v` the output's line size, `os` the
// output's row stride, `x` and `y` the unit's position, `n` the iteration
// (0 or 1) and `h` the half of the tile (0 or 1).
// ---------------------------------------------------------------------------

/// Tiles handled by one subcube along a row: `block_size_k / tile_size`.
pub open spec fn num_tiles_per_subcube(c: CmmaConfig) -> int {
    c.block_size_k as int / c.tile_size as int
}

/// Row stride of the accumulators in shared memory, counted in lines. The
/// stride itself is `block_size_k`.
pub open spec fn acc_sm_stride_vec(c: CmmaConfig, v: int) -> int {
    c.block_size_k as int / v
}

/// Rows between the two halves a unit writes within a tile.
pub open spec fn within_tile_row_offset(v: int) -> int {
    32int / v
}

/// Rows between the two halves a unit reads in shared memory.
pub open spec fn within_sm_row_offset(c: CmmaConfig, v: int) -> int {
    32int * v / c.block_size_k as int
}

/// Units that share one row of a tile.
pub open spec fn units_per_tile_row(c: CmmaConfig, v: int) -> int {
    c.tile_size as int / v
}

/// Rows of shared memory that one tile occupies.
pub open spec fn single_row_offset(c: CmmaConfig) -> int {
    c.tile_size * c.tile_size / c.block_size_k as int
}

/// Row of shared memory (within the tile's rows) that the unit reads.
pub open spec fn unit_read_row(c: CmmaConfig, v: int, x: int, h: int) -> int {
    if h == 0 {
        x / acc_sm_stride_vec(c, v)
    } else {
        x / acc_sm_stride_vec(c, v) + within_sm_row_offset(c, v)
    }
}

/// Line of shared memory (within a row) that the unit reads.
pub open spec fn unit_read_col(c: CmmaConfig, v: int, x: int) -> int {
    x % acc_sm_stride_vec(c, v)
}

/// Row of the tile that the unit writes.
pub open spec fn unit_write_row(c: CmmaConfig, v: int, x: int, h: int) -> int {
    if h == 0 {
        x / units_per_tile_row(c, v)
    } else {
        x / units_per_tile_row(c, v) + within_tile_row_offset(v)
    }
}

/// Line of the tile row that the unit writes.
pub open spec fn unit_write_col(c: CmmaConfig, v: int, x: int) -> int {
    x % units_per_tile_row(c, v)
}

/// First row of shared memory of the tile read in iteration `n`.
pub open spec fn row_offset(c: CmmaConfig, y: int, n: int) -> int {
    (num_tiles_per_subcube(c) * y + n) * single_row_offset(c)
}

/// Position in shared memory of the first element the unit reads.
pub open spec fn read_pos(c: CmmaConfig, v: int, x: int, y: int, n: int, h: int) -> int {
    (row_offset(c, y, n) + unit_read_row(c, v, x, h)) * c.block_size_k + unit_read_col(c, v, x) * v
}

/// Row of tiles of the output that the subcube writes.
pub open spec fn tile_row(c: CmmaConfig, y: int) -> int {
    y / num_tiles_per_subcube(c)
}

/// Column of tiles of the output that the subcube writes in iteration `n`.
pub open spec fn tile_col(c: CmmaConfig, y: int, n: int) -> int {
    (y % num_tiles_per_subcube(c)) * num_tiles_per_subcube(c) + n
}

/// Line, within the output's row, that the unit writes.
pub open spec fn total_col(c: CmmaConfig, v: int, x: int, y: int, n: int) -> int {
    tile_col(c, y, n) * units_per_tile_row(c, v) + unit_write_col(c, v, x)
}

/// Position in the output of the cube's first element.
pub open spec fn out_offset(o: Offsets, os: int) -> int {
    o.batch_out + o.cube_row * os + o.cube_col
}

/// Position in the output (in scalars) that the unit writes.
pub open spec fn write_pos(c: CmmaConfig, v: int, os: int, o: Offsets, x: int, y: int, n: int, h: int) -> int {
    out_offset(o, os) + (tile_row(c, y) * c.tile_size + unit_write_row(c, v, x, h)) * os + total_col(
        c,
        v,
        x,
        y,
        n,
    ) * v
}

/// First scalar of the output line that the unit writes: the line that holds
/// `write_pos`.
pub open spec fn write_base(c: CmmaConfig, v: int, os: int, o: Offsets, x: int, y: int, n: int, h: int) -> int {
    (write_pos(c, v, os, o, x, y, n, h) / v) * v
}

/// The configuration leaves no divisor zero, and the output's line is as
/// wide as the four elements each unit copies into it.
pub open spec fn config_valid(c: CmmaConfig, v: int) -> bool {
    &&& v == LINE_READS
    &&& c.tile_size > 0
    &&& c.block_size_k > 0
    &&& acc_sm_stride_vec(c, v) > 0
    &&& units_per_tile_row(c, v) > 0
    &&& num_tiles_per_subcube(c) > 0
    &&& c.tile_size * c.tile_size <= u32::MAX
}

/// Every value computed for iteration `n`, half `h` fits in 32 bits.
pub open spec fn iteration_fits(c: CmmaConfig, v: int, os: int, o: Offsets, x: int, y: int, n: int, h: int) -> bool {
    let nt = num_tiles_per_subcube(c);
    let ro = row_offset(c, y, n);
    let rr = unit_read_row(c, v, x, h);
    let tc = tile_col(c, y, n);
    let tr = tile_row(c, y);
    let wr = unit_write_row(c, v, x, h);
    let tot = total_col(c, v, x, y, n);
    &&& nt * y + n <= u32::MAX
    &&& ro <= u32::MAX
    &&& ro + rr <= u32::MAX
    &&& (ro + rr) * c.block_size_k <= u32::MAX
    &&& unit_read_col(c, v, x) * v <= u32::MAX
    &&& read_pos(c, v, x, y, n, h) + LINE_READS - 1 <= u32::MAX
    &&& tc <= u32::MAX
    &&& tc * units_per_tile_row(c, v) <= u32::MAX
    &&& tot <= u32::MAX
    &&& tot * v <= u32::MAX
    &&& o.cube_row * os <= u32::MAX
    &&& out_offset(o, os) <= u32::MAX
    &&& tr * c.tile_size <= u32::MAX
    &&& tr * c.tile_size + wr <= u32::MAX
    &&& (tr * c.tile_size + wr) * os <= u32::MAX
    &&& write_pos(c, v, os, o, x, y, n, h) <= u32::MAX
}

/// Every value the unit computes fits in 32 bits.
pub open spec fn unit_fits(c: CmmaConfig, v: int, os: int, o: Offsets, x: int, y: int) -> bool {
    &&& iteration_fits(c, v, os, o, x, y, 0, 0)
    &&& iteration_fits(c, v, os, o, x, y, 0, 1)
    &&& iteration_fits(c, v, os, o, x, y, 1, 0)
    &&& iteration_fits(c, v, os, o, x, y, 1, 1)
}

/// The unit's reads lie within shared memory and its writes within the output.
pub open spec fn unit_in_bounds(
    c: CmmaConfig,
    v: int,
    os: int,
    o: Offsets,
    x: int,
    y: int,
    sm_len: int,
    out_len: int,
) -> bool {
    forall|n: int, h: int|
        0 <= n < 2 && 0 <= h < 2 ==> {
            &&& #[trigger] read_pos(c, v, x, y, n, h) + LINE_READS <= sm_len
            &&& write_base(c, v, os, o, x, y, n, h) + v <= out_len
        }
}

/// Everything the copy of one unit needs.
pub open spec fn unit_ready(
    c: CmmaConfig,
    v: int,
    os: int,
    o: Offsets,
    x: int,
    y: int,
    sm_len: int,
    out_len: int,
) -> bool {
    &&& config_valid(c, v)
    &&& unit_fits(c, v, os, o, x, y)
    &&& unit_in_bounds(c, v, os, o, x, y, sm_len, out_len)
}

/// `data` after the line starting at `base` received the `LINE_READS`
/// elements of `src` starting at `start`.
pub open spec fn line_written<T>(data: Seq<T>, src: Seq<T>, start: int, base: int) -> Seq<T> {
    Seq::new(
        data.len(),
        |j: int|
            if base <= j < base + LINE_READS {
                src[start + (j - base)]
            } else {
                data[j]
            },
    )
}

/// The output after one iteration of the unit: two lines written.
pub open spec fn iteration_output<T>(
    data: Seq<T>,
    sm: Seq<T>,
    c: CmmaConfig,
    v: int,
    os: int,
    o: Offsets,
    x: int,
    y: int,
    n: int,
) -> Seq<T> {
    let d0 = line_written(data, sm, read_pos(c, v, x, y, n, 0), write_base(c, v, os, o, x, y, n, 0));
    line_written(d0, sm, read_pos(c, v, x, y, n, 1), write_base(c, v, os, o, x, y, n, 1))
}

/// The output after the unit's copy: both iterations, in order.
pub open spec fn unit_output<T>(
    data: Seq<T>,
    sm: Seq<T>,
    c: CmmaConfig,
    v: int,
    os: int,
    o: Offsets,
    x: int,
    y: int,
) -> Seq<T> {
    iteration_output(iteration_output(data, sm, c, v, os, o, x, y, 0), sm, c, v, os, o, x, y, 1)
}

/// Positions that the unit reads and writes in iteration `n`:
/// `(read_pos(h = 0), read_pos(h = 1), write_pos(h = 0), write_pos(h = 1))`.
fn iteration_positions(
    config: &CmmaConfig,
    out_vec: u32,
    out_stride: u32,
    offsets: &Offsets,
    unit: UnitPos,
    n_iter: u32,
) -> (res: (u32, u32, u32, u32))
    requires
        n_iter < 2,
        config_valid(*config, out_vec as int),
        unit_fits(*config, out_vec as int, out_stride as int, *offsets, unit.x as int, unit.y as int),
    ensures
        res.0 == read_pos(*config, out_vec as int, unit.x as int, unit.y as int, n_iter as int, 0),
        res.1 == read_pos(*config, out_vec as int, unit.x as int, unit.y as int, n_iter as int, 1),
        res.2 == write_pos(*config, out_vec as int, out_stride as int, *offsets, unit.x as int, unit.y as int, n_iter as int, 0),
        res.3 == write_pos(*config, out_vec as int, out_stride as int, *offsets, unit.x as int, unit.y as int, n_iter as int, 1),
{
    let ghost c = *config;
    let ghost v = out_vec as int;
    let ghost os = out_stride as int;
    let ghost xi = unit.x as int;
    let ghost yi = unit.y as int;
    let ghost ni = n_iter as int;
    assert(iteration_fits(c, v, os, *offsets, xi, yi, ni, 0));
    assert(iteration_fits(c, v, os, *offsets, xi, yi, ni, 1));

    // Values fixed by the configuration.
    let block_size_k = config.block_size_k;
    let block_size_n = config.block_size_k;
    let tile_size = config.tile_size;
    let num_tiles_per_subcube = block_size_k / tile_size;
    let acc_sm_stride = block_size_n;
    let acc_sm_stride_vec = block_size_n / out_vec;
    let within_tile_row_offset = SUBCUBE_DIM / out_vec;
    let within_sm_row_offset = SUBCUBE_DIM * out_vec / acc_sm_stride;
    let n_units_per_tile_row = tile_size / out_vec;
    let single_row_offset = tile_size * tile_size / block_size_n;

    // Values of the unit.
    let subcube_id = unit.y;
    let id_within_subcube = unit.x;
    let unit_read_row_0 = id_within_subcube / acc_sm_stride_vec;
    let unit_read_row_1 = unit_read_row_0 + within_sm_row_offset;
    let unit_read_col = id_within_subcube % acc_sm_stride_vec;
    let unit_write_row_0 = id_within_subcube / n_units_per_tile_row;
    let unit_write_row_1 = unit_write_row_0 + within_tile_row_offset;
    let unit_write_col = id_within_subcube % n_units_per_tile_row;

    let row_offset = (num_tiles_per_subcube * subcube_id + n_iter) * single_row_offset;
    let read_pos_0 = (row_offset + unit_read_row_0) * acc_sm_stride + unit_read_col * out_vec;
    let read_pos_1 = (row_offset + unit_read_row_1) * acc_sm_stride + unit_read_col * out_vec;

    let tile_row = subcube_id / num_tiles_per_subcube;
    let tile_col = (subcube_id % num_tiles_per_subcube) * num_tiles_per_subcube + n_iter;
    let total_col = tile_col * n_units_per_tile_row + unit_write_col;
    let out_offset = offsets.batch_out + offsets.cube_row * out_stride + offsets.cube_col;

    let out_write_pos_0 = out_offset + (tile_row * tile_size + unit_write_row_0) * out_stride
        + total_col * out_vec;
    let out_write_pos_1 = out_offset + (tile_row * tile_size + unit_write_row_1) * out_stride
        + total_col * out_vec;
    (read_pos_0, read_pos_1, out_write_pos_0, out_write_pos_1)
}

impl<T: Copy> Tensor<T> {
    /// Assigns line `line` of the tensor: its `vectorization` scalars become
    /// `values`.
    pub fn write_line(&mut self, line: usize, values: &Vec<T>)
        requires
            values.len() == old(self).vectorization,
            (line + 1) * old(self).vectorization <= old(self).data.len(),
        ensures
            final(self).vectorization == old(self).vectorization,
            final(self).data@ == Seq::new(
                old(self).data@.len(),
                |j: int|
                    if line * old(self).vectorization <= j < (line + 1) * old(self).vectorization {
                        values@[j - line * old(self).vectorization]
                    } else {
                        old(self).data@[j]
                    },
            ),
    {
        let ghost old_data = self.data@;
        let v = self.vectorization as usize;
        assert(line * v + v == (line + 1) * v) by (nonlinear_arith);
        let base = line * v;
        let mut i: usize = 0;
        while i < v
            invariant
                v == self.vectorization,
                v == values.len(),
                base == line * v,
                base + v <= self.data.len(),
                old_data.len() == self.data.len(),
                0 <= i <= v,
                self.data@ == Seq::new(
                    old_data.len(),
                    |j: int| if base <= j < base + i { values@[j - base] } else { old_data[j] },
                ),
            decreases v - i,
        {
            self.data.set(base + i, values[i]);
            i = i + 1;
            assert(self.data@ =~= Seq::new(
                old_data.len(),
                |j: int| if base <= j < base + i { values@[j - base] } else { old_data[j] },
            ));
        }
        assert(base + v == (line + 1) * v) by (nonlinear_arith)
            requires
                base == line * v,
        ;
        assert(self.data@ =~= Seq::new(
            old_data.len(),
            |j: int| if line * v <= j < (line + 1) * v { values@[j - line * v] } else { old_data[j] },
        ));
    }
}

/// Copies `LINE_READS` elements of shared memory, from `read_pos` on, into the
/// output line that holds scalar `write_pos`.
fn copy_line<T: Copy>(out: &mut Tensor<T>, accumulator_sm: &Vec<T>, read_pos: u32, write_pos: u32)
    requires
        old(out).vectorization == LINE_READS,
        read_pos + LINE_READS <= accumulator_sm.len(),
        (write_pos / LINE_READS) * LINE_READS + LINE_READS <= old(out).data.len(),
    ensures
        final(out).vectorization == old(out).vectorization,
        final(out).data@ == line_written(
            old(out).data@,
            accumulator_sm@,
            read_pos as int,
            (write_pos / LINE_READS) * LINE_READS,
        ),
{
    let out_vec = out.vectorization;
    let mut a: Vec<T> = Vec::new();
    let mut i: u32 = 0;
    while i < LINE_READS
        invariant
            0 <= i <= LINE_READS,
            read_pos + LINE_READS <= accumulator_sm.len(),
            a@.len() == i,
            forall|k: int| 0 <= k < i ==> a@[k] == accumulator_sm@[read_pos + k],
        decreases LINE_READS - i,
    {
        a.push(accumulator_sm[read_pos as usize + i as usize]);
        i = i + 1;
    }
    let line = (write_pos / out_vec) as usize;
    out.write_line(line, &a);
    assert(out.data@ =~= line_written(
        old(out).data@,
        accumulator_sm@,
        read_pos as int,
        (write_pos / LINE_READS) * LINE_READS,
    ));
}

/// Copies the accumulators from shared memory to the output: the unit at
/// `unit` copies, for each iteration `n` and half `h`, the `LINE_READS`
/// elements of shared memory from `read_pos` on into the output line that holds
/// `write_pos`.
pub fn shared_memory_to_output<T: Copy>(
    out: &mut Tensor<T>,
    offsets: Offsets,
    accumulator_sm: &Vec<T>,
    dims: Dimensions,
    config: CmmaConfig,
    unit: UnitPos,
)
    requires
        unit_ready(
            config,
            old(out).vectorization as int,
            dims.n as int,
            offsets,
            unit.x as int,
            unit.y as int,
            accumulator_sm.len() as int,
            old(out).data.len() as int,
        ),
    ensures
        final(out).vectorization == old(out).vectorization,
        final(out).data@ == unit_output(
            old(out).data@,
            accumulator_sm@,
            config,
            old(out).vectorization as int,
            dims.n as int,
            offsets,
            unit.x as int,
            unit.y as int,
        ),
{
    let out_vec = out.vectorization;
    let out_stride = dims.n;
    let ghost c = config;
    let ghost v = out_vec as int;
    let ghost os = out_stride as int;
    let ghost xi = unit.x as int;
    let ghost yi = unit.y as int;
    let ghost data0 = out.data@;
    let ghost sm = accumulator_sm@;

    let (read_pos_0, read_pos_1, out_write_pos_0, out_write_pos_1) = iteration_positions(
        &config,
        out_vec,
        out_stride,
        &offsets,
        unit,
        0,
    );
    assert(read_pos(c, v, xi, yi, 0, 0) + LINE_READS <= sm.len());
    assert(read_pos(c, v, xi, yi, 0, 1) + LINE_READS <= sm.len());
    copy_line(out, accumulator_sm, read_pos_0, out_write_pos_0);
    copy_line(out, accumulator_sm, read_pos_1, out_write_pos_1);
    assert(out.data@ == iteration_output(data0, sm, c, v, os, offsets, xi, yi, 0));
    let ghost data1 = out.data@;

    let (read_pos_0, read_pos_1, out_write_pos_0, out_write_pos_1) = iteration_positions(
        &config,
        out_vec,
        out_stride,
        &offsets,
        unit,
        1,
    );
    assert(read_pos(c, v, xi, yi, 1, 0) + LINE_READS <= sm.len());
    assert(read_pos(c, v, xi, yi, 1, 1) + LINE_READS <= sm.len());
    copy_line(out, accumulator_sm, read_pos_0, out_write_pos_0);
    copy_line(out, accumulator_sm, read_pos_1, out_write_pos_1);
    assert(out.data@ == iteration_output(data1, sm, c, v, os, offsets, xi, yi, 1));
}

/// Shared memory `mem` after subcube `y` stored its two fragments, `first`
/// at `[512 * y, 512 * y + 256)` and `second` right after it, each in
/// row-major order.
pub open spec fn fragments_stored<T>(mem: Seq<T>, first: Seq<T>, second: Seq<T>, y: int) -> Seq<T> {
    let s0 = 2 * y * FRAGMENT_SIZE;
    Seq::new(
        mem.len(),
        |j: int|
            if s0 <= j < s0 + FRAGMENT_SIZE {
                first[j - s0]
            } else if s0 + FRAGMENT_SIZE <= j < s0 + 2 * FRAGMENT_SIZE {
                second[j - s0 - FRAGMENT_SIZE]
            } else {
                mem[j]
            },
    )
}

/// A 16 by 16 accumulator fragment.
pub open spec fn is_accumulator_fragment<T>(f: Fragment<T>) -> bool {
    &&& f.rows == FRAGMENT_SIDE
    &&& f.cols == FRAGMENT_SIDE
    &&& f.data.len() == FRAGMENT_SIZE
}

/// A row-major store of a 16 by 16 fragment with stride 16 is the copy of its
/// data into 256 consecutive places.
proof fn lemma_store_is_contiguous<T>(mem: Seq<T>, start: int, frag: Seq<T>)
    requires
        0 <= start,
        start + FRAGMENT_SIZE <= mem.len(),
        frag.len() == FRAGMENT_SIZE,
    ensures
        stored(
            mem,
            start,
            start + FRAGMENT_SIZE,
            frag,
            FRAGMENT_SIDE as int,
            FRAGMENT_SIDE as int,
            FRAGMENT_SIDE as int,
            MatrixLayout::RowMajor,
        ) == Seq::new(
            mem.len(),
            |j: int| if start <= j < start + FRAGMENT_SIZE { frag[j - start] } else { mem[j] },
        ),
{
    let lhs = stored(
        mem,
        start,
        start + FRAGMENT_SIZE,
        frag,
        FRAGMENT_SIDE as int,
        FRAGMENT_SIDE as int,
        FRAGMENT_SIDE as int,
        MatrixLayout::RowMajor,
    );
    let rhs = Seq::new(
        mem.len(),
        |j: int| if start <= j < start + FRAGMENT_SIZE { frag[j - start] } else { mem[j] },
    );
    assert forall|j: int| 0 <= j < mem.len() implies lhs[j] == rhs[j] by {
        if start <= j < start + FRAGMENT_SIZE {
            let off = j - start;
            lemma_fundamental_div_mod(off, 16);
            lemma_mod_pos_bound(off, 16);
            assert(0 <= off / 16 < 16);
        }
    }
    assert(lhs =~= rhs);
}

/// Stores the subcube's two accumulator fragments into its slice of the
/// cube's shared memory (`4096` elements, 512 for each subcube): the first at
/// `512 * y`, the second at `512 * y + 256`, both row-major with stride 16.
pub fn fragment_to_shared_memory<T: Copy>(
    acc_sm: &mut Vec<T>,
    accumulators: &Accumulators<T>,
    unit: UnitPos,
)
    requires
        old(acc_sm).len() == SHARED_MEMORY_SIZE,
        2 * unit.y * FRAGMENT_SIZE + 2 * FRAGMENT_SIZE <= SHARED_MEMORY_SIZE,
        is_accumulator_fragment(accumulators.first),
        is_accumulator_fragment(accumulators.second),
    ensures
        final(acc_sm)@ == fragments_stored(
            old(acc_sm)@,
            accumulators.first.data@,
            accumulators.second.data@,
            unit.y as int,
        ),
{
    let ghost mem0 = acc_sm@;
    let subcube_id = unit.y;
    let slice_offset_0 = 2 * subcube_id * FRAGMENT_SIZE;
    let slice_offset_1 = slice_offset_0 + FRAGMENT_SIZE;
    let slice_offset_2 = slice_offset_1 + FRAGMENT_SIZE;

    store(
        acc_sm,
        slice_offset_0 as usize,
        slice_offset_1 as usize,
        &accumulators.first,
        FRAGMENT_SIDE,
        MatrixLayout::RowMajor,
    );
    proof {
        lemma_store_is_contiguous(mem0, slice_offset_0 as int, accumulators.first.data@);
    }
    let ghost mem1 = acc_sm@;
    store(
        acc_sm,
        slice_offset_1 as usize,
        slice_offset_2 as usize,
        &accumulators.second,
        FRAGMENT_SIDE,
        MatrixLayout::RowMajor,
    );
    proof {
        lemma_store_is_contiguous(mem1, slice_offset_1 as int, accumulators.second.data@);
    }
    assert(acc_sm@ =~= fragments_stored(
        mem0,
        accumulators.first.data@,
        accumulators.second.data@,
        unit.y as int,
    ));
}

/// Writes the subcube's accumulators to the output: stores them into the
/// cube's shared memory, then copies the unit's share of them from shared
/// memory to the output.
pub fn write_to_output<T: Copy>(
    out: &mut Tensor<T>,
    accumulators: &Accumulators<T>,
    offsets: Offsets,
    dims: Dimensions,
    config: CmmaConfig,
    unit: UnitPos,
    acc_sm: &mut Vec<T>,
)
    requires
        old(acc_sm).len() == SHARED_MEMORY_SIZE,
        2 * unit.y * FRAGMENT_SIZE + 2 * FRAGMENT_SIZE <= SHARED_MEMORY_SIZE,
        is_accumulator_fragment(accumulators.first),
        is_accumulator_fragment(accumulators.second),
        unit_ready(
            config,
            old(out).vectorization as int,
            dims.n as int,
            offsets,
            unit.x as int,
            unit.y as int,
            SHARED_MEMORY_SIZE as int,
            old(out).data.len() as int,
        ),
    ensures
        final(acc_sm)@ == fragments_stored(
            old(acc_sm)@,
            accumulators.first.data@,
            accumulators.second.data@,
            unit.y as int,
        ),
        final(out).vectorization == old(out).vectorization,
        final(out).data@ == unit_output(
            old(out).data@,
            final(acc_sm)@,
            config,
            old(out).vectorization as int,
            dims.n as int,
            offsets,
            unit.x as int,
            unit.y as int,
        ),
{
    fragment_to_shared_memory(acc_sm, accumulators, unit);
    shared_memory_to_output(out, offsets, acc_sm, dims, config, unit);
}

/// Offsets of a cube at the origin of unbatched operands.
pub open spec fn zero_offsets() -> Offsets {
    Offsets { batch_lhs: 0, batch_rhs: 0, batch_out: 0, cube_row: 0, cube_col: 0, k: 0 }
}

/// Kernel that copies `acc_sm_arr` (its first 4096 elements) into shared
/// memory, then writes the unit's share of it to `out` as
/// `shared_memory_to_output` does, for a cube at the origin of an output of
/// `n` columns.
pub fn write_output_test<T: Copy>(
    out: &mut Tensor<T>,
    acc_sm_arr: &Vec<T>,
    k: u32,
    n: u32,
    config: CmmaConfig,
    unit: UnitPos,
)
    requires
        acc_sm_arr.len() >= SHARED_MEMORY_SIZE,
        unit_ready(
            config,
            old(out).vectorization as int,
            n as int,
            zero_offsets(),
            unit.x as int,
            unit.y as int,
            SHARED_MEMORY_SIZE as int,
            old(out).data.len() as int,
        ),
    ensures
        final(out).vectorization == old(out).vectorization,
        final(out).data@ == unit_output(
            old(out).data@,
            acc_sm_arr@.take(SHARED_MEMORY_SIZE as int),
            config,
            old(out).vectorization as int,
            n as int,
            zero_offsets(),
            unit.x as int,
            unit.y as int,
        ),
{
    let offsets = Offsets { batch_lhs: 0, batch_rhs: 0, batch_out: 0, cube_row: 0, cube_col: 0, k: 0 };
    let mut accumulate: Vec<T> = Vec::new();
    let mut i: u32 = 0;
    while i < SHARED_MEMORY_SIZE
        invariant
            0 <= i <= SHARED_MEMORY_SIZE,
            acc_sm_arr.len() >= SHARED_MEMORY_SIZE,
            accumulate@ == acc_sm_arr@.take(i as int),
        decreases SHARED_MEMORY_SIZE - i,
    {
        accumulate.push(acc_sm_arr[i as usize]);
        i = i + 1;
        assert(accumulate@ =~= acc_sm_arr@.take(i as int));
    }
    let dims = Dimensions { m: 16, k, n };
    shared_memory_to_output(out, offsets, &accumulate, dims, config, unit);
}

/// The output after the first `units` units of a cube of `cx` by `cy` units
/// (by any depth) ran their copy one after the other; unit `u` sits at
/// `x = u % cx`, `y = (u / cx) % cy`.
pub open spec fn cube_output<T>(
    data: Seq<T>,
    sm: Seq<T>,
    c: CmmaConfig,
    v: int,
    os: int,
    o: Offsets,
    cx: int,
    cy: int,
    units: nat,
) -> Seq<T>
    decreases units,
{
    if units == 0 {
        data
    } else {
        let u = units - 1;
        unit_output(cube_output(data, sm, c, v, os, o, cx, cy, (units - 1) as nat), sm, c, v, os, o, u % cx, (u / cx) % cy)
    }
}

/// Every unit of a cube of `cx` by `cy` units is ready for its copy.
pub open spec fn cube_ready(
    c: CmmaConfig,
    v: int,
    os: int,
    o: Offsets,
    cx: int,
    cy: int,
    sm_len: int,
    out_len: int,
) -> bool {
    forall|x: int, y: int|
        0 <= x < cx && 0 <= y < cy ==> #[trigger] unit_ready(c, v, os, o, x, y, sm_len, out_len)
}

/// Unit number `(z * cy + y) * cx + x` of a cube sits at `(x, y)`.
proof fn lemma_unit_number(x: int, y: int, z: int, cx: int, cy: int)
    requires
        0 <= x < cx,
        0 <= y < cy,
        0 <= z,
    ensures
        ((z * cy + y) * cx + x) % cx == x,
        (((z * cy + y) * cx + x) / cx) % cy == y,
{
    assert(0 <= z * cy) by (nonlinear_arith)
        requires
            0 <= z,
            0 <= cy,
    ;
    vstd::arithmetic::div_mod::lemma_fundamental_div_mod_converse((z * cy + y) * cx + x, cx, z * cy + y, x);
    vstd::arithmetic::div_mod::lemma_fundamental_div_mod_converse(z * cy + y, cy, z, y);
}

/// Runs the kernel `write_output_test` on every unit of one cube of
/// `cube_dim` units, one unit after the other: depth-major, then row-major,
/// with `x` the fastest.
pub fn launch_write_output_test<T: Copy>(
    cube_dim: CubeDim,
    out: &mut Tensor<T>,
    acc_sm: &Vec<T>,
    k: u32,
    n: u32,
    config: CmmaConfig,
)
    requires
        acc_sm.len() >= SHARED_MEMORY_SIZE,
        cube_ready(
            config,
            old(out).vectorization as int,
            n as int,
            zero_offsets(),
            cube_dim.x as int,
            cube_dim.y as int,
            SHARED_MEMORY_SIZE as int,
            old(out).data.len() as int,
        ),
    ensures
        final(out).vectorization == old(out).vectorization,
        final(out).data@ == cube_output(
            old(out).data@,
            acc_sm@.take(SHARED_MEMORY_SIZE as int),
            config,
            old(out).vectorization as int,
            n as int,
            zero_offsets(),
            cube_dim.x as int,
            cube_dim.y as int,
            (cube_dim.x * cube_dim.y * cube_dim.z) as nat,
        ),
{
    let ghost data0 = out.data@;
    let ghost sm = acc_sm@.take(SHARED_MEMORY_SIZE as int);
    let ghost v = out.vectorization as int;
    let ghost cx = cube_dim.x as int;
    let ghost cy = cube_dim.y as int;
    let ghost cz = cube_dim.z as int;
    let mut z: u32 = 0;
    assert(0 * cy * cx == 0) by (nonlinear_arith);
    assert(out.data@ == cube_output(data0, sm, config, v, n as int, zero_offsets(), cx, cy, 0));
    while z < cube_dim.z
        invariant
            0 <= z <= cube_dim.z,
            v == out.vectorization,
            data0.len() == out.data.len(),
            acc_sm.len() >= SHARED_MEMORY_SIZE,
            sm == acc_sm@.take(SHARED_MEMORY_SIZE as int),
            cx == cube_dim.x,
            cy == cube_dim.y,
            cube_ready(config, v, n as int, zero_offsets(), cx, cy, SHARED_MEMORY_SIZE as int, out.data.len() as int),
            out.data@ == cube_output(data0, sm, config, v, n as int, zero_offsets(), cx, cy, (z * cy * cx) as nat),
        decreases cube_dim.z - z,
    {
        let mut y: u32 = 0;
        while y < cube_dim.y
            invariant
                0 <= z < cube_dim.z,
                0 <= y <= cube_dim.y,
                v == out.vectorization,
                data0.len() == out.data.len(),
                acc_sm.len() >= SHARED_MEMORY_SIZE,
                sm == acc_sm@.take(SHARED_MEMORY_SIZE as int),
                cx == cube_dim.x,
                cy == cube_dim.y,
                cube_ready(config, v, n as int, zero_offsets(), cx, cy, SHARED_MEMORY_SIZE as int, out.data.len() as int),
                out.data@ == cube_output(data0, sm, config, v, n as int, zero_offsets(), cx, cy, ((z * cy + y) * cx) as nat),
            decreases cube_dim.y - y,
        {
            let mut x: u32 = 0;
            while x < cube_dim.x
                invariant
                    0 <= z < cube_dim.z,
                    0 <= y < cube_dim.y,
                    0 <= x <= cube_dim.x,
                    v == out.vectorization,
                    data0.len() == out.data.len(),
                    acc_sm.len() >= SHARED_MEMORY_SIZE,
                    sm == acc_sm@.take(SHARED_MEMORY_SIZE as int),
                    cx == cube_dim.x,
                    cy == cube_dim.y,
                    cube_ready(config, v, n as int, zero_offsets(), cx, cy, SHARED_MEMORY_SIZE as int, out.data.len() as int),
                    out.data@ == cube_output(data0, sm, config, v, n as int, zero_offsets(), cx, cy, ((z * cy + y) * cx + x) as nat),
                decreases cube_dim.x - x,
            {
                let ghost u = (z * cy + y) * cx + x;
                proof {
                    lemma_unit_number(x as int, y as int, z as int, cx, cy);
                    assert(0 <= u) by (nonlinear_arith)
                        requires
                            u == (z * cy + y) * cx + x,
                            0 <= z,
                            0 <= y,
                            0 <= x,
                            0 <= cy,
                            0 <= cx,
                    ;
                    assert(unit_ready(config, v, n as int, zero_offsets(), x as int, y as int, SHARED_MEMORY_SIZE as int, out.data.len() as int));
                }
                write_output_test(out, acc_sm, k, n, config, UnitPos { x, y });
                x = x + 1;
                assert(out.data@ == cube_output(data0, sm, config, v, n as int, zero_offsets(), cx, cy, (u + 1) as nat));
            }
            assert((z * cy + y) * cx + cx == (z * cy + y + 1) * cx) by (nonlinear_arith);
            y = y + 1;
        }
        assert((z * cy + cy) * cx == (z + 1) * cy * cx) by (nonlinear_arith);
        z = z + 1;
    }
    assert(cz * cy * cx == cube_dim.x * cube_dim.y * cube_dim.z) by (nonlinear_arith)
        requires
            cz == cube_dim.z,
            cy == cube_dim.y,
            cx == cube_dim.x,
    ;
}

} // verus!
