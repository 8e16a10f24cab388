use saker_rs::appcontext::GemmType;
use saker_rs::blocking::Blocking;
use saker_rs::dispatch::{
    chunk_span, select_gemm_kernel, select_vector_path, simd_body_len, GemmKernel, VectorPath,
    CHUNK_SIZE,
};

#[test]
fn empty_products_select_nothing() {
    assert_eq!(select_gemm_kernel(0, 3, 3, GemmType::Avx2), None);
    assert_eq!(select_gemm_kernel(3, 0, 3, GemmType::Avx512), None);
    assert_eq!(select_gemm_kernel(3, 3, 0, GemmType::Scalar), None);
}

#[test]
fn kernels_follow_the_gemm_type() {
    assert_eq!(select_gemm_kernel(2, 3, 4, GemmType::Avx2), Some(GemmKernel::Avx2));
    assert_eq!(select_gemm_kernel(2, 3, 4, GemmType::Avx512), Some(GemmKernel::Avx512));
    assert_eq!(select_gemm_kernel(2, 3, 4, GemmType::Neon), Some(GemmKernel::Scalar));
    assert_eq!(select_gemm_kernel(2, 3, 4, GemmType::Scalar), Some(GemmKernel::Scalar));
    assert_eq!(select_vector_path(GemmType::Avx2), VectorPath::Avx2);
    assert_eq!(select_vector_path(GemmType::Avx512), VectorPath::Avx512);
    assert_eq!(select_vector_path(GemmType::Neon), VectorPath::Portable);
    assert_eq!(select_vector_path(GemmType::Scalar), VectorPath::Portable);
}

#[test]
fn kernel_block_sizes() {
    assert_eq!(GemmKernel::Avx2.blocking(), Blocking { mc: 64, kc: 256, nc: 256, mr: 8, nr: 8 });
    assert_eq!(GemmKernel::Avx512.blocking(), Blocking { mc: 64, kc: 256, nc: 256, mr: 16, nr: 16 });
    assert_eq!(GemmKernel::Scalar.blocking(), Blocking { mc: 64, kc: 256, nc: 256, mr: 16, nr: 16 });
}

#[test]
fn simd_body_is_whole_vectors() {
    assert_eq!(simd_body_len(37, 16), 32);
    assert_eq!(simd_body_len(32, 16), 32);
    assert_eq!(simd_body_len(5, 8), 0);
    assert_eq!(simd_body_len(11, 4), 8);
    assert_eq!(simd_body_len(0, 4), 0);
}

#[test]
fn chunks_cover_the_slice_once() {
    assert_eq!(chunk_span(70000, 0), Some((0, CHUNK_SIZE)));
    assert_eq!(chunk_span(70000, 2), Some((65536, 4464)));
    assert_eq!(chunk_span(70000, 3), None);
    assert_eq!(chunk_span(0, 0), None);
    assert_eq!(chunk_span(65536, 2), None);
    let len = 100_000usize;
    let mut covered = 0usize;
    let mut i = 0usize;
    while let Some((start, size)) = chunk_span(len, i) {
        assert_eq!(start, covered);
        covered += size;
        i += 1;
    }
    assert_eq!(covered, len);
    assert_eq!(i, 4);
}
