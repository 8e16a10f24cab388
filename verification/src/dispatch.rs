//! Which code path a matrix product or an element-wise operation takes, and
//! the block sizes of the x86 kernels.

use vstd::prelude::*;
use crate::appcontext::GemmType;
use crate::blocking::Blocking;

verus! {

/// Output rows per macro tile of the x86 kernels.
pub const X86_MC: usize = 64;
/// Depth per pass of the x86 kernels.
pub const X86_KC: usize = 256;
/// Output columns per macro tile of the x86 kernels.
pub const X86_NC: usize = 256;
/// Micro-tile side of the AVX2 kernel (one 8-lane register per row).
pub const AVX2_TILE: usize = 8;
/// Micro-tile side of the AVX-512 and scalar kernels (one 16-lane register
/// per row).
pub const AVX512_TILE: usize = 16;
/// Elements per parallel chunk of an element-wise operation.
pub const CHUNK_SIZE: usize = 32768;

/// The blocked matrix-product implementation that runs.
#[derive(Debug, Clone, Copy, PartialEq, Eq, Structural)]
pub enum GemmKernel {
    Avx2,
    Avx512,
    Scalar,
}

/// How an element-wise operation over a slice runs.
#[derive(Debug, Clone, Copy, PartialEq, Eq, Structural)]
pub enum VectorPath {
    /// 8 lanes at a time with AVX2.
    Avx2,
    /// 16 lanes at a time with AVX-512.
    Avx512,
    /// One element at a time, spread over threads.
    Portable,
}

/// The kernel a product with these sizes runs on, `None` when one of the
/// sizes is zero and there is nothing to compute.
pub open spec fn gemm_kernel_for(m: int, n: int, k: int, g: GemmType) -> Option<GemmKernel> {
    if m == 0 || n == 0 || k == 0 {
        None
    } else {
        match g {
            GemmType::Avx2 => Some(GemmKernel::Avx2),
            GemmType::Avx512 => Some(GemmKernel::Avx512),
            _ => Some(GemmKernel::Scalar),
        }
    }
}

/// The path of element-wise work for a kernel family.
pub open spec fn vector_path_for(g: GemmType) -> VectorPath {
    match g {
        GemmType::Avx2 => VectorPath::Avx2,
        GemmType::Avx512 => VectorPath::Avx512,
        _ => VectorPath::Portable,
    }
}

/// Chooses the kernel of `C (m x n) = A (m x k) * B (k x n)`.
pub fn select_gemm_kernel(m: usize, n: usize, k: usize, g: GemmType) -> (r: Option<GemmKernel>)
    ensures
        r == gemm_kernel_for(m as int, n as int, k as int, g),
{
    if m == 0 || n == 0 || k == 0 {
        return None;
    }
    match g {
        GemmType::Avx2 => Some(GemmKernel::Avx2),
        GemmType::Avx512 => Some(GemmKernel::Avx512),
        _ => Some(GemmKernel::Scalar),
    }
}

/// Chooses the path of an element-wise operation.
pub fn select_vector_path(g: GemmType) -> (r: VectorPath)
    ensures
        r == vector_path_for(g),
{
    match g {
        GemmType::Avx2 => VectorPath::Avx2,
        GemmType::Avx512 => VectorPath::Avx512,
        _ => VectorPath::Portable,
    }
}

impl GemmKernel {
    /// The block sizes of the kernel.
    pub open spec fn spec_blocking(self) -> Blocking {
        let tile = match self {
            GemmKernel::Avx2 => AVX2_TILE,
            _ => AVX512_TILE,
        };
        Blocking { mc: X86_MC, kc: X86_KC, nc: X86_NC, mr: tile, nr: tile }
    }

    /// The block sizes of the kernel.
    pub fn blocking(&self) -> (b: Blocking)
        ensures
            b == self.spec_blocking(),
            b.wf(),
    {
        let tile = match self {
            GemmKernel::Avx2 => AVX2_TILE,
            _ => AVX512_TILE,
        };
        Blocking { mc: X86_MC, kc: X86_KC, nc: X86_NC, mr: tile, nr: tile }
    }
}

/// How many leading elements of an `n`-element run fill whole `lanes`-wide
/// vectors; the rest is done one element at a time.
pub fn simd_body_len(n: usize, lanes: usize) -> (body: usize)
    requires
        lanes > 0,
    ensures
        body <= n,
        body % lanes == 0,
        n - body < lanes,
        body == (n / lanes) * lanes,
{
    proof {
        vstd::arithmetic::div_mod::lemma_fundamental_div_mod(n as int, lanes as int);
        vstd::arithmetic::div_mod::lemma_mod_bound(n as int, lanes as int);
        vstd::arithmetic::div_mod::lemma_mod_multiples_basic((n / lanes) as int, lanes as int);
        assert((n / lanes) * lanes == lanes * (n / lanes)) by (nonlinear_arith);
    }
    n / lanes * lanes
}

/// Where parallel chunk `i` of an element-wise operation starts, and how
/// many elements it holds, when `len` elements are cut into chunks of
/// `CHUNK_SIZE`; `None` once `i` is past the last chunk.
pub fn chunk_span(len: usize, i: usize) -> (r: Option<(usize, usize)>)
    ensures
        r is Some <==> i * CHUNK_SIZE < len,
        r matches Some((start, size)) ==> {
            &&& start == i * CHUNK_SIZE
            &&& size == if len - start < CHUNK_SIZE { len - start } else { CHUNK_SIZE as int }
        },
{
    if i > len / CHUNK_SIZE {
        proof {
            assert(i * CHUNK_SIZE >= len) by (nonlinear_arith)
                requires
                    i >= len / 32768 + 1,
                    len >= 0,
            ;
        }
        return None;
    }
    proof {
        assert(i * CHUNK_SIZE <= len) by (nonlinear_arith)
            requires
                i <= len / 32768,
                len >= 0,
        ;
    }
    let start = i * CHUNK_SIZE;
    if start >= len {
        return None;
    }
    let size = if len - start < CHUNK_SIZE {
        len - start
    } else {
        CHUNK_SIZE
    };
    Some((start, size))
}


/// The chunks of a `len`-element operation partition it: element `x` lies
/// in chunk `x / CHUNK_SIZE` and in no other.
pub proof fn lemma_chunks_partition(len: int, x: int)
    requires
        0 <= x < len,
    ensures
        ({
            let i = x / CHUNK_SIZE as int;
            &&& i * CHUNK_SIZE <= x < i * CHUNK_SIZE + CHUNK_SIZE
            &&& i * CHUNK_SIZE < len
            &&& forall|j: int|
                0 <= j && #[trigger] (j * CHUNK_SIZE) <= x < j * CHUNK_SIZE + CHUNK_SIZE ==> j == i
        }),
{
    let c = CHUNK_SIZE as int;
    let i = x / c;
    crate::arith::lemma_le_floor_div(i, x, c);
    crate::arith::lemma_le_floor_div(i + 1, x, c);
    assert((i + 1) * c == i * c + c) by (nonlinear_arith);
    assert forall|j: int| 0 <= j && #[trigger] (j * c) <= x < j * c + c implies j == i by {
        crate::arith::lemma_quotient_of_block(x, c, j);
    }
}

} // verus!
