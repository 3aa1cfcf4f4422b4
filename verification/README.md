# cubecl

Verified building blocks of a GPU compute library, written in Verus.

- `src/ir.rs`: the intermediate representation that kernels expand into:
  element kinds, items, local variables, unary instructions and the expansion
  context.
- `src/unary.rs`, `src/unary/not.rs`, `src/unary/neg.rs`: expansion of unary
  operations (logical and arithmetic negation, and the unary functions such as
  `abs`, `exp`, `magnitude`, `count_ones`), with the element kinds each accepts
  and the item of its result.
- `src/cmma.rs`: matrix fragments and their store into memory with a stride and
  a row- or column-major layout.
- `src/write_output.rs`: the write-out of matrix-multiply accumulators: the
  store of each subcube's two fragments into shared memory, and the copy, unit
  by unit, from shared memory to the output tensor, with the index arithmetic
  as integer specifications.
- `src/write_output_laws.rs`: proofs that, in the configuration the kernel is
  written for, each subcube's fragments become 16 by 16 tiles of the output,
  that no two units write the same element (so their order does not matter),
  that a subcube reads only its own slice of shared memory, and that the rest
  of the output is untouched.
- `src/copy_laws.rs`: laws of the copy in every configuration: offsets only
  translate the output, only `block_size_k` and `tile_size` matter, a second
  copy changes nothing, and a unit reads only its read positions.
- `src/write_to_output_laws.rs`: `write_to_output` run by the lanes of a
  subcube and by a whole cube, one unit after the other: fragments become
  tiles, and a cube of 32 by 8 units lays out a 64 by 64 block.
- `src/exported_tests.rs`: runs of the write-out on a whole cube in fixed
  configurations, for checking a runtime; `tests/` compares them with the
  expected outputs.
