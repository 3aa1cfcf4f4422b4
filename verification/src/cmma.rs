//! Matrix fragments and their store into memory with a stride and a layout.

use vstd::prelude::*;
use vstd::arithmetic::div_mod::{lemma_fundamental_div_mod, lemma_fundamental_div_mod_converse};
use vstd::arithmetic::mul::lemma_mul_inequality;

verus! {

/// How a matrix is laid out in memory.
#[derive(Clone, Copy, Debug, PartialEq, Eq, Structural)]
pub enum MatrixLayout {
    ColMajor,
    RowMajor,
    Undefined,
}

/// A matrix fragment of `rows` by `cols` elements; `data` holds them in
/// row-major order, element `(r, c)` at `r * cols + c`.
pub struct Fragment<T> {
    pub data: Vec<T>,
    pub rows: u32,
    pub cols: u32,
}

/// The offset, from the start of the destination, at which element `(r, c)`
/// is stored.
pub open spec fn offset_of(r: int, c: int, stride: int, layout: MatrixLayout) -> int {
    match layout {
        MatrixLayout::ColMajor => c * stride + r,
        _ => r * stride + c,
    }
}

/// The element `(r, c)` stored at offset `off` from the start of the
/// destination (meaningful when `off` is such an offset).
pub open spec fn element_at(off: int, stride: int, layout: MatrixLayout) -> (int, int) {
    match layout {
        MatrixLayout::ColMajor => (off % stride, off / stride),
        _ => (off / stride, off % stride),
    }
}

/// Whether a `rows` by `cols` store with this stride and layout fits in
/// `len` elements without two elements sharing a place: consecutive
/// elements of a row (row-major) or of a column (column-major) lie within one
/// stride.
pub open spec fn store_fits(rows: int, cols: int, stride: int, layout: MatrixLayout, len: int) -> bool {
    match layout {
        MatrixLayout::RowMajor => cols <= stride && (rows == 0 || cols == 0 || (rows - 1) * stride
            + cols <= len),
        MatrixLayout::ColMajor => rows <= stride && (rows == 0 || cols == 0 || (cols - 1) * stride
            + rows <= len),
        MatrixLayout::Undefined => false,
    }
}

/// Memory `mem` after the elements `(r, c)` of `frag` with `(r, c)` before
/// `(done_r, done_c)` in row-major order have been stored into
/// `[start, end)`.
pub open spec fn stored_until<T>(
    mem: Seq<T>,
    start: int,
    end: int,
    frag: Seq<T>,
    rows: int,
    cols: int,
    stride: int,
    layout: MatrixLayout,
    done_r: int,
    done_c: int,
) -> Seq<T> {
    Seq::new(
        mem.len(),
        |j: int|
            {
                let (r, c) = element_at(j - start, stride, layout);
                if start <= j < end && 0 <= r < rows && 0 <= c < cols && (r < done_r || (r == done_r
                    && c < done_c)) {
                    frag[r * cols + c]
                } else {
                    mem[j]
                }
            },
    )
}

/// Memory `mem` after the whole fragment has been stored into `[start, end)`:
/// element `(r, c)` at `start + offset_of(r, c)`, every other place unchanged.
pub open spec fn stored<T>(
    mem: Seq<T>,
    start: int,
    end: int,
    frag: Seq<T>,
    rows: int,
    cols: int,
    stride: int,
    layout: MatrixLayout,
) -> Seq<T> {
    stored_until(mem, start, end, frag, rows, cols, stride, layout, rows, 0)
}

/// Stores the fragment `matrix` into the slice `[start, end)` of `output`,
/// with the given stride between rows (row-major) or columns (column-major).
pub fn store<T: Copy>(
    output: &mut Vec<T>,
    start: usize,
    end: usize,
    matrix: &Fragment<T>,
    stride: u32,
    layout: MatrixLayout,
)
    requires
        start <= end <= old(output).len(),
        matrix.data.len() == matrix.rows * matrix.cols,
        store_fits(matrix.rows as int, matrix.cols as int, stride as int, layout, end - start),
    ensures
        final(output)@ == stored(
            old(output)@,
            start as int,
            end as int,
            matrix.data@,
            matrix.rows as int,
            matrix.cols as int,
            stride as int,
            layout,
        ),
{
    let ghost mem0 = output@;
    let ghost frag = matrix.data@;
    let ghost rows = matrix.rows as int;
    let ghost cols = matrix.cols as int;
    let ghost st = stride as int;
    let ghost s = start as int;
    let ghost e = end as int;
    assert(output@ =~= stored_until(mem0, s, e, frag, rows, cols, st, layout, 0, 0));
    let mut r: u32 = 0;
    while r < matrix.rows
        invariant
            0 <= r <= matrix.rows,
            frag == matrix.data@,
            rows == matrix.rows,
            cols == matrix.cols,
            st == stride,
            s == start,
            e == end,
            start <= end <= output.len(),
            mem0.len() == output.len(),
            frag.len() == rows * cols,
            store_fits(rows, cols, st, layout, e - s),
            output@ == stored_until(mem0, s, e, frag, rows, cols, st, layout, r as int, 0),
        decreases matrix.rows - r,
    {
        let mut c: u32 = 0;
        while c < matrix.cols
            invariant
                0 <= r < matrix.rows,
                0 <= c <= matrix.cols,
                frag == matrix.data@,
                rows == matrix.rows,
                cols == matrix.cols,
                st == stride,
                s == start,
                e == end,
                start <= end <= output.len(),
                mem0.len() == output.len(),
                frag.len() == rows * cols,
                store_fits(rows, cols, st, layout, e - s),
                output@ == stored_until(mem0, s, e, frag, rows, cols, st, layout, r as int, c as int),
            decreases matrix.cols - c,
        {
            let ghost before = output@;
            proof {
                lemma_store_step_bounds(r as int, c as int, rows, cols, st, layout, e - s);
            }
            let off: usize = match layout {
                MatrixLayout::ColMajor => (c as usize) * (stride as usize) + (r as usize),
                _ => (r as usize) * (stride as usize) + (c as usize),
            };
            assert(frag.len() == matrix.data.len());
            let idx: usize = (r as usize) * (matrix.cols as usize) + (c as usize);
            let value = matrix.data[idx];
            output.set(start + off, value);
            proof {
                lemma_store_step(before, output@, mem0, s, e, frag, rows, cols, st, layout, r as int, c as int);
            }
            c = c + 1;
        }
        assert(output@ =~= stored_until(mem0, s, e, frag, rows, cols, st, layout, r + 1, 0));
        r = r + 1;
    }
}

/// The offset of element `(r, c)` lies in the destination, and its data index
/// in the fragment.
proof fn lemma_store_step_bounds(
    r: int,
    c: int,
    rows: int,
    cols: int,
    stride: int,
    layout: MatrixLayout,
    len: int,
)
    requires
        0 <= r < rows,
        0 <= c < cols,
        store_fits(rows, cols, stride, layout, len),
    ensures
        0 <= offset_of(r, c, stride, layout) < len,
        0 <= r * cols + c < rows * cols,
        element_at(offset_of(r, c, stride, layout), stride, layout) == (r, c),
{
    lemma_mul_inequality(r, rows - 1, cols);
    assert(0 <= r * cols) by (nonlinear_arith)
        requires
            0 <= r,
            0 <= cols,
    ;
    assert((rows - 1) * cols + cols == rows * cols) by (nonlinear_arith);
    match layout {
        MatrixLayout::ColMajor => {
            lemma_mul_inequality(c, cols - 1, stride);
            assert(0 <= c * stride) by (nonlinear_arith)
                requires
                    0 <= c,
                    0 <= stride,
            ;
            lemma_fundamental_div_mod_converse(c * stride + r, stride, c, r);
        },
        _ => {
            lemma_mul_inequality(r, rows - 1, stride);
            assert(0 <= r * stride) by (nonlinear_arith)
                requires
                    0 <= r,
                    0 <= stride,
            ;
            lemma_fundamental_div_mod_converse(r * stride + c, stride, r, c);
        },
    }
}

/// Storing element `(r, c)` moves the store one element forward.
proof fn lemma_store_step<T>(
    before: Seq<T>,
    after: Seq<T>,
    mem0: Seq<T>,
    s: int,
    e: int,
    frag: Seq<T>,
    rows: int,
    cols: int,
    stride: int,
    layout: MatrixLayout,
    r: int,
    c: int,
)
    requires
        0 <= r < rows,
        0 <= c < cols,
        0 <= s <= e <= before.len(),
        frag.len() == rows * cols,
        store_fits(rows, cols, stride, layout, e - s),
        mem0.len() == before.len(),
        before == stored_until(mem0, s, e, frag, rows, cols, stride, layout, r, c),
        after == before.update(s + offset_of(r, c, stride, layout), frag[r * cols + c]),
    ensures
        after == stored_until(mem0, s, e, frag, rows, cols, stride, layout, r, c + 1),
{
    lemma_store_step_bounds(r, c, rows, cols, stride, layout, e - s);
    let target = stored_until(mem0, s, e, frag, rows, cols, stride, layout, r, c + 1);
    let pos = s + offset_of(r, c, stride, layout);
    assert forall|j: int| 0 <= j < after.len() implies after[j] == target[j] by {
        if j != pos {
            let (r2, c2) = element_at(j - s, stride, layout);
            if s <= j < e && 0 <= r2 < rows && 0 <= c2 < cols && r2 == r && c2 == c {
                lemma_fundamental_div_mod(j - s, stride);
                assert(stride * r2 == r2 * stride && stride * c2 == c2 * stride) by (nonlinear_arith);
                assert(false);
            }
        }
    }
    assert(after =~= target);
}

} // verus!
