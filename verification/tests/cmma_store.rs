//! Storing matrix fragments into memory.

use cubecl::cmma::{store, Fragment, MatrixLayout};

fn fragment(rows: u32, cols: u32) -> Fragment<u32> {
    Fragment { data: (0..rows * cols).map(|v| 100 + v).collect(), rows, cols }
}

#[test]
fn row_major_store_with_stride() {
    let mut mem = vec![0u32; 12];
    store(&mut mem, 1, 11, &fragment(2, 3), 4, MatrixLayout::RowMajor);
    assert_eq!(mem, vec![0, 100, 101, 102, 0, 103, 104, 105, 0, 0, 0, 0]);
}

#[test]
fn col_major_store_with_stride() {
    let mut mem = vec![0u32; 12];
    store(&mut mem, 2, 12, &fragment(2, 3), 3, MatrixLayout::ColMajor);
    // Element (r, c) at 2 + c * 3 + r.
    assert_eq!(mem, vec![0, 0, 100, 103, 0, 101, 104, 0, 102, 105, 0, 0]);
}

#[test]
fn contiguous_row_major_store_copies_the_data() {
    let mut mem = vec![7u32; 20];
    store(&mut mem, 4, 16, &fragment(3, 4), 4, MatrixLayout::RowMajor);
    let mut expected = vec![7u32; 20];
    for j in 0..12 {
        expected[4 + j] = 100 + j as u32;
    }
    assert_eq!(mem, expected);
}

#[test]
fn empty_fragment_stores_nothing() {
    let mut mem = vec![1u32; 4];
    store(&mut mem, 0, 0, &fragment(0, 3), 3, MatrixLayout::RowMajor);
    assert_eq!(mem, vec![1u32; 4]);
}
