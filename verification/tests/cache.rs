use saker_rs::appcontext::{CpuArch, HostCpu};
use saker_rs::blocking::Blocking;
use saker_rs::cache::{clamp_u64, next_power_of_two, CacheParams};

#[test]
fn next_power_of_two_rounds_up() {
    assert_eq!(next_power_of_two(0), 1);
    assert_eq!(next_power_of_two(1), 1);
    assert_eq!(next_power_of_two(5), 8);
    assert_eq!(next_power_of_two(64), 64);
    assert_eq!(next_power_of_two(65), 128);
    assert_eq!(next_power_of_two(1 << 63), 1 << 63);
    for x in 0u64..2000 {
        assert_eq!(next_power_of_two(x), x.next_power_of_two());
    }
}

#[test]
fn clamp_pulls_into_range() {
    assert_eq!(clamp_u64(3, 64, 256), 64);
    assert_eq!(clamp_u64(100, 64, 256), 100);
    assert_eq!(clamp_u64(1000, 64, 256), 256);
}

fn host(arch: CpuArch, avx512f: bool, avx2: bool) -> HostCpu {
    HostCpu { arch, avx512f, avx2 }
}

#[test]
fn x86_64_with_avx512_gets_the_fixed_x86_sizes() {
    let p = CacheParams { l1_bytes: 48 * 1024, l2_bytes: 2 * 1024 * 1024, l3_bytes: 32 * 1024 * 1024 };
    let b = Blocking::from_cache(&p, &host(CpuArch::X86_64, true, true));
    assert_eq!(b, Blocking { mc: 64, kc: 256, nc: 256, mr: 16, nr: 16 });
}

#[test]
fn aarch64_without_l3_uses_l2() {
    let p = CacheParams { l1_bytes: 64 * 1024, l2_bytes: 4 * 1024 * 1024, l3_bytes: 0 };
    let b = Blocking::from_cache(&p, &host(CpuArch::Aarch64, false, false));
    assert_eq!(b, Blocking { mc: 64, kc: 256, nc: 256, mr: 8, nr: 8 });
}

#[test]
fn x86_32_bit_limits() {
    let p = CacheParams { l1_bytes: 32 * 1024, l2_bytes: 256 * 1024, l3_bytes: 0 };
    let b = Blocking::from_cache(&p, &host(CpuArch::X86, false, false));
    assert_eq!(b, Blocking { mc: 128, kc: 256, nc: 128, mr: 4, nr: 4 });
}

#[test]
fn tiny_caches_hit_the_lower_clamps() {
    let p = CacheParams { l1_bytes: 1024, l2_bytes: 8192, l3_bytes: 0 };
    let b = Blocking::from_cache(&p, &host(CpuArch::X86_64, false, false));
    assert_eq!(b, Blocking { mc: 32, kc: 64, nc: 64, mr: 4, nr: 4 });
    let b = Blocking::from_cache(&p, &host(CpuArch::X86_64, false, true));
    assert_eq!(b.mr, 8);
    assert_eq!(b.nr, 8);
}

#[test]
fn derived_sizes_are_powers_of_two_within_limits() {
    for l1 in [0u64, 1, 1000, 32 * 1024, 1 << 20, u64::MAX] {
        for l2 in [0u64, 4096, 1 << 21, u64::MAX] {
            for l3 in [0u64, 1 << 25, u64::MAX] {
                for h in [host(CpuArch::X86_64, true, true), host(CpuArch::X86, false, true), host(CpuArch::Aarch64, false, false)] {
                    let b = Blocking::from_cache(&CacheParams { l1_bytes: l1, l2_bytes: l2, l3_bytes: l3 }, &h);
                    let (mc_max, nc_max) = if h.arch == CpuArch::X86 { (256, 1024) } else { (64, 256) };
                    assert!(b.kc.is_power_of_two() && (64..=256).contains(&b.kc));
                    assert!(b.mc.is_power_of_two() && (32..=mc_max).contains(&b.mc));
                    assert!(b.nc.is_power_of_two() && (64..=nc_max).contains(&b.nc));
                    assert_eq!(b.mr, b.nr);
                }
            }
        }
    }
}
