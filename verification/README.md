# saker_rs

Cache-blocked single-precision GEMM with fused bias and activation, for
neural-network inference.

- `src/` is the verified library: choosing the kernel family from the
  command-line flags and the host's CPU features (`appcontext`), deriving
  block sizes from cache sizes (`cache`), the macro/micro tile schedule of a
  blocked product with its proofs of exact coverage, store-then-accumulate
  order and in-bounds access (`blocking`), and the dispatch of products and
  element-wise operations (`dispatch`).
- `app/` holds what runs on the machine: CPU-feature and cache detection,
  process arguments, threads (rayon), and the `f32` SIMD kernels (AVX2,
  AVX-512, NEON), which follow the verified schedule.
- `tests/` exercises the library on concrete values.
