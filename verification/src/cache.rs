//! Block sizes derived from the sizes of the host's caches.

use vstd::prelude::*;
use crate::appcontext::{CpuArch, HostCpu};
use crate::blocking::Blocking;
use vstd::arithmetic::power2::{pow2, lemma2_to64, lemma2_to64_rest, lemma_pow2_unfold,
    lemma_pow2_strictly_increases};

verus! {

/// Sizes in bytes of the data caches; `l3_bytes` is 0 when there is no L3.
#[derive(Debug, Clone, Copy, PartialEq, Eq, Structural)]
pub struct CacheParams {
    pub l1_bytes: u64,
    pub l2_bytes: u64,
    pub l3_bytes: u64,
}

/// Bytes per `f32`.
pub const F32_BYTES: u64 = 4;

/// `p` is the smallest power of two that is at least `x`.
pub open spec fn is_next_pow2(x: int, p: int) -> bool {
    exists|e: nat|
        #![trigger pow2(e)]
        p == pow2(e) && p >= x && (e == 0 || pow2((e - 1) as nat) < x)
}

/// `x` pulled into `[lo, hi]`.
pub open spec fn clamp_spec(x: int, lo: int, hi: int) -> int {
    if x < lo {
        lo
    } else if x > hi {
        hi
    } else {
        x
    }
}

/// The smallest power of two that is at least `x` (1 for 0).
pub fn next_power_of_two(x: u64) -> (p: u64)
    requires
        x <= 0x8000_0000_0000_0000,
    ensures
        is_next_pow2(x as int, p as int),
{
    proof {
        lemma2_to64();
        lemma2_to64_rest();
    }
    let mut p: u64 = 1;
    let ghost mut e: nat = 0;
    while p < x
        invariant
            x <= 0x8000_0000_0000_0000,
            pow2(63) == 0x8000_0000_0000_0000,
            p == pow2(e),
            e <= 63,
            e == 0 || pow2((e - 1) as nat) < x,
        decreases 63 - e,
    {
        proof {
            if e + 1 < 63 {
                lemma_pow2_strictly_increases(e + 1, 63);
            }
            lemma_pow2_unfold(e + 1);
        }
        p = 2 * p;
        proof {
            e = e + 1;
        }
    }
    p
}

/// `x` pulled into `[lo, hi]`.
pub fn clamp_u64(x: u64, lo: u64, hi: u64) -> (r: u64)
    requires
        lo <= hi,
    ensures
        r == clamp_spec(x as int, lo as int, hi as int),
{
    if x < lo {
        lo
    } else if x > hi {
        hi
    } else {
        x
    }
}

/// The per-architecture divisors and limits used to derive block sizes:
/// `(l1_div, mc_div, mc_max, nc_div, nc_max)`.
pub open spec fn arch_limits(arch: CpuArch) -> (u64, u64, u64, u64, u64) {
    match arch {
        CpuArch::X86_64 => (4, 2, 64, 2, 256),
        CpuArch::Aarch64 => (4, 8, 64, 4, 256),
        CpuArch::X86 => (2, 2, 256, 2, 1024),
    }
}

/// The micro-tile side for the host.
pub open spec fn micro_tile_side(host: HostCpu) -> u64 {
    match host.arch {
        CpuArch::X86_64 => if host.avx512f {
            16
        } else if host.avx2 {
            8
        } else {
            4
        },
        CpuArch::Aarch64 => 8,
        CpuArch::X86 => 4,
    }
}

/// The smallest power of two that is at least `x`.
pub open spec fn next_pow2_of(x: int) -> int {
    choose|p: int| is_next_pow2(x, p)
}

/// The block sizes derived from the cache sizes: the depth `kc` so that an
/// `mr`-row strip of `A` fills a share of L1, then `mc` rows of `A` a share
/// of L2 and `nc` columns of `B` a share of L3 (of L2 without an L3), each
/// rounded up to a power of two and clamped.
pub open spec fn blocking_from_cache(p: CacheParams, host: HostCpu) -> Blocking {
    let (l1_div, mc_div, mc_max, nc_div, nc_max) = arch_limits(host.arch);
    let r = micro_tile_side(host) as int;
    let f = F32_BYTES as int;
    let kc = clamp_spec(next_pow2_of((p.l1_bytes as int / l1_div as int) / (r * f)), 64, 256);
    let mc = clamp_spec(
        next_pow2_of((p.l2_bytes as int / mc_div as int) / (kc * f)),
        32,
        mc_max as int,
    );
    let l3_eff = if p.l3_bytes > 0 {
        p.l3_bytes as int
    } else {
        p.l2_bytes as int
    };
    let nc = clamp_spec(next_pow2_of((l3_eff / nc_div as int) / (kc * f)), 64, nc_max as int);
    Blocking { mc: mc as usize, kc: kc as usize, nc: nc as usize, mr: r as usize, nr: r as usize }
}

/// There is one smallest power of two at least `x`.
pub proof fn lemma_next_pow2_unique(x: int, p: int, q: int)
    requires
        is_next_pow2(x, p),
        is_next_pow2(x, q),
    ensures
        p == q,
{
    let e1 = choose|e: nat|
        #![trigger pow2(e)]
        p == pow2(e) && p >= x && (e == 0 || pow2((e - 1) as nat) < x);
    let e2 = choose|e: nat|
        #![trigger pow2(e)]
        q == pow2(e) && q >= x && (e == 0 || pow2((e - 1) as nat) < x);
    if e1 < e2 {
        if e1 < (e2 - 1) as nat {
            lemma_pow2_strictly_increases(e1, (e2 - 1) as nat);
        }
    } else if e2 < e1 {
        if e2 < (e1 - 1) as nat {
            lemma_pow2_strictly_increases(e2, (e1 - 1) as nat);
        }
    }
}

fn next_pow2_clamped(x: u64, lo: u64, hi: u64) -> (r: u64)
    requires
        x <= 0x8000_0000_0000_0000,
        lo <= hi,
    ensures
        r == clamp_spec(next_pow2_of(x as int), lo as int, hi as int),
{
    let p = next_power_of_two(x);
    proof {
        lemma_next_pow2_unique(x as int, p as int, next_pow2_of(x as int));
    }
    clamp_u64(p, lo, hi)
}

impl Blocking {
    /// The block sizes for a host with the given caches (see
    /// `blocking_from_cache`).
    pub fn from_cache(p: &CacheParams, host: &HostCpu) -> (b: Blocking)
        ensures
            b == blocking_from_cache(*p, *host),
            b.wf(),
    {
        let (l1_div, mc_div, mc_max, nc_div, nc_max): (u64, u64, u64, u64, u64) = match host.arch {
            CpuArch::X86_64 => (4, 2, 64, 2, 256),
            CpuArch::Aarch64 => (4, 8, 64, 4, 256),
            CpuArch::X86 => (2, 2, 256, 2, 1024),
        };
        let r: u64 = match host.arch {
            CpuArch::X86_64 => if host.avx512f {
                16
            } else if host.avx2 {
                8
            } else {
                4
            },
            CpuArch::Aarch64 => 8,
            CpuArch::X86 => 4,
        };
        let kc = next_pow2_clamped((p.l1_bytes / l1_div) / (r * F32_BYTES), 64, 256);
        let mc = next_pow2_clamped((p.l2_bytes / mc_div) / (kc * F32_BYTES), 32, mc_max);
        let l3_eff = if p.l3_bytes > 0 {
            p.l3_bytes
        } else {
            p.l2_bytes
        };
        let nc = next_pow2_clamped((l3_eff / nc_div) / (kc * F32_BYTES), 64, nc_max);
        Blocking { mc: mc as usize, kc: kc as usize, nc: nc as usize, mr: r as usize, nr: r as usize }
    }
}


/// `x` is a power of two.
pub open spec fn is_power_of_two(x: int) -> bool {
    exists|e: nat| #[trigger] pow2(e) == x
}

proof fn lemma_clamped_pow2(x: int, lo_e: nat, hi_e: nat)
    requires
        lo_e <= hi_e <= 10,
    ensures
        is_next_pow2(x, next_pow2_of(x)) ==> {
            let v = clamp_spec(next_pow2_of(x), pow2(lo_e) as int, pow2(hi_e) as int);
            &&& is_power_of_two(v)
            &&& pow2(lo_e) <= v <= pow2(hi_e)
        },
{
    if is_next_pow2(x, next_pow2_of(x)) {
        let p = next_pow2_of(x);
        let e = choose|e: nat|
            #![trigger pow2(e)]
            p == pow2(e) && p >= x && (e == 0 || pow2((e - 1) as nat) < x);
        if lo_e < hi_e {
            lemma_pow2_strictly_increases(lo_e, hi_e);
        }
        let v = clamp_spec(p, pow2(lo_e) as int, pow2(hi_e) as int);
        if p < pow2(lo_e) {
            assert(pow2(lo_e) == v);
        } else if p > pow2(hi_e) {
            assert(pow2(hi_e) == v);
        } else {
            assert(pow2(e) == v);
        }
    }
}

/// The block sizes derived from any caches are powers of two within their
/// limits: `64 <= kc <= 256`, `32 <= mc <= mc_max`, `64 <= nc <= nc_max`,
/// and the micro tile is square with side 4, 8 or 16.
pub proof fn lemma_cache_blocking_shape(p: CacheParams, host: HostCpu)
    ensures
        ({
            let b = blocking_from_cache(p, host);
            let (l1_div, mc_div, mc_max, nc_div, nc_max) = arch_limits(host.arch);
            &&& is_power_of_two(b.kc as int) && 64 <= b.kc <= 256
            &&& is_power_of_two(b.mc as int) && 32 <= b.mc <= mc_max
            &&& is_power_of_two(b.nc as int) && 64 <= b.nc <= nc_max
            &&& b.mr == b.nr
            &&& b.mr == 4 || b.mr == 8 || b.mr == 16
        }),
{
    lemma2_to64();
    let (l1_div, mc_div, mc_max, nc_div, nc_max) = arch_limits(host.arch);
    let r = micro_tile_side(host) as int;
    let f = F32_BYTES as int;
    let xk = (p.l1_bytes as int / l1_div as int) / (r * f);
    next_pow2_of_exists(xk);
    lemma_clamped_pow2(xk, 6, 8);
    let kc = clamp_spec(next_pow2_of(xk), 64, 256);
    let xm = (p.l2_bytes as int / mc_div as int) / (kc * f);
    next_pow2_of_exists(xm);
    let mc_e: nat = if mc_max == 64 { 6 } else { 8 };
    lemma_clamped_pow2(xm, 5, mc_e);
    let l3_eff = if p.l3_bytes > 0 {
        p.l3_bytes as int
    } else {
        p.l2_bytes as int
    };
    let xn = (l3_eff / nc_div as int) / (kc * f);
    next_pow2_of_exists(xn);
    let nc_e: nat = if nc_max == 256 { 8 } else { 10 };
    lemma_clamped_pow2(xn, 6, nc_e);
}

/// Every integer has a smallest power of two at least as large.
pub proof fn next_pow2_of_exists(x: int) -> (p: int)
    ensures
        is_next_pow2(x, p),
        is_next_pow2(x, next_pow2_of(x)),
    decreases if x > 1 { x } else { 0 },
{
    lemma2_to64();
    let p = if x <= 1 {
        assert(pow2(0) == 1);
        1
    } else {
        let h = next_pow2_of_exists((x + 1) / 2);
        let e = choose|e: nat|
            #![trigger pow2(e)]
            h == pow2(e) && h >= (x + 1) / 2 && (e == 0 || pow2((e - 1) as nat) < (x + 1) / 2);
        lemma_pow2_unfold(e + 1);
        if e > 0 {
            lemma_pow2_unfold(e);
        }
        assert(pow2(e + 1) == 2 * h);
        assert(2 * h >= x);
        assert(pow2(((e + 1) - 1) as nat) < x);
        2 * h
    };
    assert(is_next_pow2(x, p));
    assert(exists|q: int| is_next_pow2(x, q));
    p
}

} // verus!
