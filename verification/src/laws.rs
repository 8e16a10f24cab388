//! What the library's operations are for, stated over their inputs and
//! results and proved from their contracts.

use vstd::prelude::*;
use vstd::arithmetic::power2::{pow2, lemma_pow2_strictly_increases, lemma_pow2_unfold, lemma2_to64};
use crate::arith::{ceil_div, lemma_lt_ceil_div};
use crate::cache::{
    CacheParams, blocking_from_cache, clamp_spec, is_next_pow2, next_pow2_of, next_pow2_of_exists,
};
use crate::dispatch::{GemmKernel, VectorPath, gemm_kernel_for, vector_path_for};
use crate::appcontext::{
    CpuArch, GemmType, HostCpu, flag_choice, flag_views, host_default_gemm_type, parsed_gemm_type,
    requested_gemm_type,
};

verus! {

/// `f` is one of the four flags that select a kernel family.
pub open spec fn is_kernel_flag(f: Seq<char>) -> bool {
    f == "--AVX2"@ || f == "--AVX512"@ || f == "--Neon"@ || f == "--Scalar"@
}

proof fn lemma_flag_literals() 
    ensures
        flag_choice("--AVX2"@) == Some(GemmType::Avx2),
        flag_choice("--AVX512"@) == Some(GemmType::Avx512),
        flag_choice("--Neon"@) == Some(GemmType::Neon),
        flag_choice("--Scalar"@) == Some(GemmType::Scalar),
{
    reveal_strlit("--AVX2");
    reveal_strlit("--AVX512");
    reveal_strlit("--Neon");
    reveal_strlit("--Scalar");
    assert("--AVX512"@[2] != "--AVX2"@[2] || "--AVX512"@.len() != "--AVX2"@.len());
    assert("--Neon"@[2] != "--AVX2"@[2]);
    assert("--Neon"@.len() != "--AVX512"@.len());
    assert("--Scalar"@.len() != "--AVX2"@.len());
    assert("--Scalar"@[2] != "--AVX512"@[2]);
    assert("--Scalar"@.len() != "--Neon"@.len());
}

/// With no flags the host's best kernel family is chosen: on x86 AVX-512
/// when the CPU has AVX-512F, else AVX2 when it has AVX2, else scalar, the
/// same on 32- and 64-bit x86; on aarch64 NEON.
pub proof fn lemma_default_is_best_supported(host: HostCpu)
    ensures
        ({
            let g = host_default_gemm_type(host);
            &&& parsed_gemm_type(Seq::empty(), host) == g
            &&& (host.arch == CpuArch::X86 || host.arch == CpuArch::X86_64) ==> {
                &&& (g == GemmType::Avx512 <==> host.avx512f)
                &&& (g == GemmType::Avx2 <==> (!host.avx512f && host.avx2))
                &&& (g == GemmType::Scalar <==> (!host.avx512f && !host.avx2))
            }
            &&& host.arch == CpuArch::Aarch64 ==> g == GemmType::Neon
            &&& host_default_gemm_type(HostCpu { arch: CpuArch::X86, ..host })
                == host_default_gemm_type(HostCpu { arch: CpuArch::X86_64, ..host })
        }),
{
}

/// The last kernel flag decides: appending one of the four kernel flags to
/// any flag list gives the same choice as that flag alone.
pub proof fn lemma_last_kernel_flag_decides(flags: Seq<Seq<char>>, f: Seq<char>, host: HostCpu)
    requires
        is_kernel_flag(f),
    ensures
        parsed_gemm_type(flags.push(f), host) == parsed_gemm_type(seq![f], host),
{
    lemma_flag_literals();
    let d = host_default_gemm_type(host);
    assert(flags.push(f).last() == f);
    assert(seq![f].last() == f);
    assert(requested_gemm_type(flags.push(f), d) == requested_gemm_type(seq![f], d));
}

/// A flag that is not a kernel flag changes nothing once some flag was
/// given.
pub proof fn lemma_other_flags_are_ignored(flags: Seq<Seq<char>>, f: Seq<char>, host: HostCpu)
    requires
        flags.len() > 0,
        !is_kernel_flag(f),
    ensures
        parsed_gemm_type(flags.push(f), host) == parsed_gemm_type(flags, host),
{
    let d = host_default_gemm_type(host);
    assert(flags.push(f).drop_last() =~= flags);
    assert(flag_choice(f) is None);
    assert(requested_gemm_type(flags.push(f), d) == requested_gemm_type(flags, d));
}

/// What each kernel flag given alone selects. On x86: `--Scalar` and
/// `--AVX2` give scalar; `--AVX512` gives scalar on an AVX-512F CPU and
/// otherwise falls back to AVX2 when the CPU has it, else scalar; `--Neon`
/// gives the best x86 family (AVX-512, AVX2, scalar). On aarch64 every flag
/// gives NEON.
pub proof fn lemma_single_kernel_flag(host: HostCpu)
    ensures
        ({
            let x86 = host.arch == CpuArch::X86 || host.arch == CpuArch::X86_64;
            let best = if host.avx512f {
                GemmType::Avx512
            } else if host.avx2 {
                GemmType::Avx2
            } else {
                GemmType::Scalar
            };
            &&& x86 ==> parsed_gemm_type(seq!["--Scalar"@], host) == GemmType::Scalar
            &&& x86 ==> parsed_gemm_type(seq!["--AVX2"@], host) == GemmType::Scalar
            &&& x86 ==> parsed_gemm_type(seq!["--AVX512"@], host) == (if host.avx512f {
                GemmType::Scalar
            } else if host.avx2 {
                GemmType::Avx2
            } else {
                GemmType::Scalar
            })
            &&& x86 ==> parsed_gemm_type(seq!["--Neon"@], host) == best
            &&& host.arch == CpuArch::Aarch64 ==> {
                &&& parsed_gemm_type(seq!["--Scalar"@], host) == GemmType::Neon
                &&& parsed_gemm_type(seq!["--AVX2"@], host) == GemmType::Neon
                &&& parsed_gemm_type(seq!["--AVX512"@], host) == GemmType::Neon
                &&& parsed_gemm_type(seq!["--Neon"@], host) == GemmType::Neon
            }
        }),
{
    lemma_flag_literals();
    let d = host_default_gemm_type(host);
    assert(seq!["--Scalar"@].last() == "--Scalar"@);
    assert(seq!["--AVX2"@].last() == "--AVX2"@);
    assert(seq!["--AVX512"@].last() == "--AVX512"@);
    assert(seq!["--Neon"@].last() == "--Neon"@);
    assert(requested_gemm_type(seq!["--Scalar"@], d) == GemmType::Scalar);
    assert(requested_gemm_type(seq!["--AVX2"@], d) == GemmType::Avx2);
    assert(requested_gemm_type(seq!["--AVX512"@], d) == GemmType::Avx512);
    assert(requested_gemm_type(seq!["--Neon"@], d) == GemmType::Neon);
}

/// Where a requested family that differs from the start came from: the
/// last kernel flag of the list asked for it.
proof fn lemma_requested_origin(flags: Seq<Seq<char>>, d: GemmType)
    ensures
        requested_gemm_type(flags, d) == d || exists|i: int|
            0 <= i < flags.len() && flag_choice(#[trigger] flags[i]) == Some(
                requested_gemm_type(flags, d),
            ) && forall|j: int| i < j < flags.len() ==> flag_choice(#[trigger] flags[j]) is None,
    decreases flags.len(),
{
    if flags.len() > 0 {
        let last = flags.len() - 1;
        match flag_choice(flags.last()) {
            Some(g) => {
                assert(flags[last] == flags.last());
            },
            None => {
                let rest = flags.drop_last();
                lemma_requested_origin(rest, d);
                if requested_gemm_type(flags, d) != d {
                    let i = choose|i: int|
                        0 <= i < rest.len() && flag_choice(#[trigger] rest[i]) == Some(
                            requested_gemm_type(rest, d),
                        ) && forall|j: int|
                            i < j < rest.len() ==> flag_choice(#[trigger] rest[j]) is None;
                    assert(flags[i] == rest[i]);
                    assert forall|j: int| i < j < flags.len() implies flag_choice(
                        #[trigger] flags[j],
                    ) is None by {
                        if j < last {
                            assert(flags[j] == rest[j]);
                        } else {
                            assert(flags[j] == flags.last());
                        }
                    }
                }
            },
        }
    }
}

/// Flags that are all unknown still count as flags given: on x86 they give
/// scalar, on aarch64 NEON.
pub proof fn lemma_only_unknown_flags(flags: Seq<Seq<char>>, host: HostCpu)
    requires
        flags.len() > 0,
        forall|i: int| 0 <= i < flags.len() ==> !is_kernel_flag(#[trigger] flags[i]),
    ensures
        (host.arch == CpuArch::X86 || host.arch == CpuArch::X86_64) ==> parsed_gemm_type(
            flags,
            host,
        ) == GemmType::Scalar,
        host.arch == CpuArch::Aarch64 ==> parsed_gemm_type(flags, host) == GemmType::Neon,
{
    let d = host_default_gemm_type(host);
    lemma_requested_origin(flags, d);
    if requested_gemm_type(flags, d) != d {
        let i = choose|i: int|
            0 <= i < flags.len() && flag_choice(#[trigger] flags[i]) == Some(
                requested_gemm_type(flags, d),
            ) && forall|j: int| i < j < flags.len() ==> flag_choice(#[trigger] flags[j]) is None;
        assert(!is_kernel_flag(flags[i]));
    }
}

/// The flags a command line hands over are its arguments' texts, in order.
pub proof fn lemma_flag_views(args: Seq<String>)
    ensures
        flag_views(args).len() == args.len(),
        forall|i: int| 0 <= i < args.len() ==> #[trigger] flag_views(args)[i] == args[i]@,
{
}

/// On x86, once a flag is given, AVX2 is chosen only as a fallback: the
/// CPU has AVX2 but not AVX-512F, and the last kernel flag was `--AVX512`
/// or `--Neon` (never `--Scalar` or `--AVX2`).
pub proof fn lemma_x86_avx2_only_as_fallback(flags: Seq<Seq<char>>, host: HostCpu)
    requires
        host.arch == CpuArch::X86 || host.arch == CpuArch::X86_64,
        flags.len() > 0,
        parsed_gemm_type(flags, host) == GemmType::Avx2,
    ensures
        host.avx2,
        !host.avx512f,
        exists|i: int|
            0 <= i < flags.len() && (#[trigger] flags[i] == "--AVX512"@ || flags[i] == "--Neon"@)
                && forall|j: int| i < j < flags.len() ==> !is_kernel_flag(#[trigger] flags[j]),
{
    let d = host_default_gemm_type(host);
    let req = requested_gemm_type(flags, d);
    assert(req == GemmType::Avx512 || req == GemmType::Neon);
    assert(d == GemmType::Avx2);
    lemma_requested_origin(flags, d);
    let i = choose|i: int|
        0 <= i < flags.len() && flag_choice(#[trigger] flags[i]) == Some(req) && forall|j: int|
            i < j < flags.len() ==> flag_choice(#[trigger] flags[j]) is None;
    assert(flags[i] == "--AVX512"@ || flags[i] == "--Neon"@);
    assert forall|j: int| i < j < flags.len() implies !is_kernel_flag(#[trigger] flags[j]) by {
        assert(flag_choice(flags[j]) is None);
    }
}


/// A product runs exactly when all three sizes are positive, and then on
/// the kernel of the selected family: AVX2 for AVX2, AVX-512 for AVX-512,
/// the portable kernel for NEON and scalar.
pub proof fn lemma_gemm_kernel_choice(m: int, n: int, k: int, g: GemmType)
    requires
        m >= 0,
        n >= 0,
        k >= 0,
    ensures
        gemm_kernel_for(m, n, k, g) is None <==> (m == 0 || n == 0 || k == 0),
        m > 0 && n > 0 && k > 0 ==> gemm_kernel_for(m, n, k, g) == Some(
            match g {
                GemmType::Avx2 => GemmKernel::Avx2,
                GemmType::Avx512 => GemmKernel::Avx512,
                GemmType::Neon => GemmKernel::Scalar,
                GemmType::Scalar => GemmKernel::Scalar,
            },
        ),
        vector_path_for(g) == match g {
            GemmType::Avx2 => VectorPath::Avx2,
            GemmType::Avx512 => VectorPath::Avx512,
            GemmType::Neon => VectorPath::Portable,
            GemmType::Scalar => VectorPath::Portable,
        },
{
}

/// The x86 kernels block by 64 output rows, 256 output columns and 256 of
/// depth; the AVX2 micro tile is 8 x 8, the AVX-512 and scalar ones 16 x 16.
pub proof fn lemma_kernel_block_sizes(kernel: GemmKernel)
    ensures
        ({
            let b = kernel.spec_blocking();
            &&& b.mc == 64 && b.kc == 256 && b.nc == 256
            &&& b.mr == b.nr
            &&& b.mr == (if kernel == GemmKernel::Avx2 { 8usize } else { 16usize })
        }),
{
}

/// `div_ceil(x, d)` is the least `q` with `q * d >= x`.
pub proof fn lemma_ceil_div_is_least_cover(x: int, d: int)
    requires
        x >= 0,
        d > 0,
    ensures
        ceil_div(x, d) * d >= x,
        (ceil_div(x, d) - 1) * d < x,
{
    lemma_lt_ceil_div(ceil_div(x, d), x, d);
    lemma_lt_ceil_div(ceil_div(x, d) - 1, x, d);
}

/// `clamp_u64(x, lo, hi)` lies in `[lo, hi]`, is `x` when `x` does, and the
/// nearer bound otherwise.
pub proof fn lemma_clamp_in_range(x: int, lo: int, hi: int)
    requires
        lo <= hi,
    ensures
        lo <= clamp_spec(x, lo, hi) <= hi,
        lo <= x <= hi ==> clamp_spec(x, lo, hi) == x,
        x < lo ==> clamp_spec(x, lo, hi) == lo,
        x > hi ==> clamp_spec(x, lo, hi) == hi,
{
}

/// `next_power_of_two(x)` is a power of two, at least `x`, and no larger
/// than any power of two that is at least `x`.
pub proof fn lemma_next_pow2_is_least(x: int, p: int, e: nat)
    requires
        is_next_pow2(x, p),
        pow2(e) >= x,
    ensures
        exists|f: nat| pow2(f) == p,
        p >= x,
        p <= pow2(e),
{
    let f = choose|f: nat|
        #![trigger pow2(f)]
        p == pow2(f) && p >= x && (f == 0 || pow2((f - 1) as nat) < x);
    if f > e {
        if (f - 1) as nat > e {
            lemma_pow2_strictly_increases(e, (f - 1) as nat);
        }
        assert(pow2((f - 1) as nat) >= pow2(e));
        assert(false);
    } else if f < e {
        lemma_pow2_strictly_increases(f, e);
    }
}

/// `v` is the smallest power of two that is at least `x`, pulled into
/// `[lo, hi]`: `lo` when `x <= lo`, `hi` when `x > hi`, and otherwise a power
/// of two `v >= x` with `v / 2 < x`.
pub open spec fn is_clamped_pow2_ceiling(v: int, x: int, lo: int, hi: int) -> bool {
    &&& x <= lo ==> v == lo
    &&& x > hi ==> v == hi
    &&& lo < x <= hi ==> {
        &&& exists|e: nat| #[trigger] pow2(e) == v
        &&& v >= x
        &&& v / 2 < x
    }
}

proof fn lemma_clamped_ceiling(x: int, a: nat, b: nat)
    requires
        5 <= a <= b <= 10,
    ensures
        is_clamped_pow2_ceiling(
            clamp_spec(next_pow2_of(x), pow2(a) as int, pow2(b) as int),
            x,
            pow2(a) as int,
            pow2(b) as int,
        ),
{
    lemma2_to64();
    next_pow2_of_exists(x);
    let p = next_pow2_of(x);
    if a < b {
        lemma_pow2_strictly_increases(a, b);
    }
    if x <= pow2(a) {
        lemma_next_pow2_is_least(x, p, a);
    }
    if x <= pow2(b) {
        lemma_next_pow2_is_least(x, p, b);
    }
    if pow2(a) < x <= pow2(b) {
        let f = choose|f: nat|
            #![trigger pow2(f)]
            p == pow2(f) && p >= x && (f == 0 || pow2((f - 1) as nat) < x);
        if f == 0 {
            lemma_pow2_strictly_increases(0, a);
            assert(false);
        }
        lemma_pow2_unfold(f);
        assert(pow2(f) == p);
    }
}

/// How the block sizes follow from the caches. The micro tile is square:
/// 16 on x86_64 with AVX-512F, 8 with AVX2 only, 4 without either or on
/// 32-bit x86, and 8 on aarch64. `kc` is the power-of-two ceiling, clamped
/// to `[64, 256]`, of `(L1 / l1_div) / (mr * 4)`; `mc` the one, clamped to
/// `[32, mc_max]`, of `(L2 / mc_div) / (kc * 4)`; and `nc` the one, clamped
/// to `[64, nc_max]`, of `(L3 / nc_div) / (kc * 4)` when there is an L3, of
/// `(L2 / nc_div) / (kc * 4)` only when there is none.
pub proof fn lemma_cache_block_sizes(p: CacheParams, host: HostCpu)
    ensures
        ({
            let b = blocking_from_cache(p, host);
            let x86_32 = host.arch == CpuArch::X86;
            let arm = host.arch == CpuArch::Aarch64;
            let l1_div: int = if x86_32 { 2 } else { 4 };
            let mc_div: int = if arm { 8 } else { 2 };
            let mc_max: int = if x86_32 { 256 } else { 64 };
            let nc_div: int = if arm { 4 } else { 2 };
            let nc_max: int = if x86_32 { 1024 } else { 256 };
            let l3_eff: int = if p.l3_bytes > 0 { p.l3_bytes as int } else { p.l2_bytes as int };
            &&& b.mr == b.nr
            &&& b.mr == (if host.arch == CpuArch::X86_64 {
                if host.avx512f {
                    16usize
                } else if host.avx2 {
                    8usize
                } else {
                    4usize
                }
            } else if arm {
                8usize
            } else {
                4usize
            })
            &&& is_clamped_pow2_ceiling(
                b.kc as int,
                (p.l1_bytes as int / l1_div) / (b.mr as int * 4),
                64,
                256,
            )
            &&& is_clamped_pow2_ceiling(
                b.mc as int,
                (p.l2_bytes as int / mc_div) / (b.kc as int * 4),
                32,
                mc_max,
            )
            &&& is_clamped_pow2_ceiling(
                b.nc as int,
                (l3_eff / nc_div) / (b.kc as int * 4),
                64,
                nc_max,
            )
        }),
{
    lemma2_to64();
    let b = blocking_from_cache(p, host);
    let x86_32 = host.arch == CpuArch::X86;
    let arm = host.arch == CpuArch::Aarch64;
    let l1_div: int = if x86_32 { 2 } else { 4 };
    let mc_div: int = if arm { 8 } else { 2 };
    let nc_div: int = if arm { 4 } else { 2 };
    let l3_eff: int = if p.l3_bytes > 0 { p.l3_bytes as int } else { p.l2_bytes as int };
    let xk = (p.l1_bytes as int / l1_div) / (b.mr as int * 4);
    lemma_clamped_ceiling(xk, 6, 8);
    crate::cache::lemma_cache_blocking_shape(p, host);
    let xm = (p.l2_bytes as int / mc_div) / (b.kc as int * 4);
    let xn = (l3_eff / nc_div) / (b.kc as int * 4);
    if x86_32 {
        lemma_clamped_ceiling(xm, 5, 8);
        lemma_clamped_ceiling(xn, 6, 10);
    } else {
        lemma_clamped_ceiling(xm, 5, 6);
        lemma_clamped_ceiling(xn, 6, 8);
    }
}

/// With an L3 present, `nc` does not depend on the L2 size: two hosts
/// that differ only in L2 get the same `kc` and `nc`.
pub proof fn lemma_nc_ignores_l2_when_l3_present(p: CacheParams, l2_other: u64, host: HostCpu)
    requires
        p.l3_bytes > 0,
    ensures
        blocking_from_cache(p, host).nc == blocking_from_cache(
            CacheParams { l2_bytes: l2_other, ..p },
            host,
        ).nc,
        blocking_from_cache(p, host).kc == blocking_from_cache(
            CacheParams { l2_bytes: l2_other, ..p },
            host,
        ).kc,
{
}

} // verus!
