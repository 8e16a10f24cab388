use saker_rs::appcontext::{AppContext, CpuArch, GemmType, HostCpu};

fn host(arch: CpuArch, avx512f: bool, avx2: bool) -> HostCpu {
    HostCpu { arch, avx512f, avx2 }
}

fn args(flags: &[&str]) -> Vec<String> {
    flags.iter().map(|s| s.to_string()).collect()
}

fn parsed(flags: &[&str], h: &HostCpu) -> GemmType {
    AppContext::parse_command_line_arguments(&args(flags), h)
        .expect("parsing never fails")
        .get_gemm_type()
}

#[test]
fn default_follows_host_features() {
    assert_eq!(GemmType::default_for_host(&host(CpuArch::X86_64, true, true)), GemmType::Avx512);
    assert_eq!(GemmType::default_for_host(&host(CpuArch::X86_64, false, true)), GemmType::Avx2);
    assert_eq!(GemmType::default_for_host(&host(CpuArch::X86, false, false)), GemmType::Scalar);
    assert_eq!(GemmType::default_for_host(&host(CpuArch::Aarch64, false, false)), GemmType::Neon);
    let ctx = AppContext::default_for_host(&host(CpuArch::X86_64, false, true));
    assert_eq!(ctx.get_gemm_type(), GemmType::Avx2);
}

#[test]
fn no_flags_keep_the_default() {
    assert_eq!(parsed(&[], &host(CpuArch::X86_64, true, true)), GemmType::Avx512);
    assert_eq!(parsed(&[], &host(CpuArch::X86_64, false, false)), GemmType::Scalar);
    assert_eq!(parsed(&[], &host(CpuArch::Aarch64, false, false)), GemmType::Neon);
}

#[test]
fn avx512_flag_falls_back_without_avx512() {
    assert_eq!(parsed(&["--AVX512"], &host(CpuArch::X86_64, false, true)), GemmType::Avx2);
    assert_eq!(parsed(&["--AVX512"], &host(CpuArch::X86_64, false, false)), GemmType::Scalar);
}

#[test]
fn avx2_flag_without_avx2_is_scalar() {
    assert_eq!(parsed(&["--AVX2"], &host(CpuArch::X86_64, false, false)), GemmType::Scalar);
}

#[test]
fn neon_flag_on_x86_picks_the_best_x86_kernel() {
    assert_eq!(parsed(&["--Neon"], &host(CpuArch::X86_64, true, true)), GemmType::Avx512);
    assert_eq!(parsed(&["--Neon"], &host(CpuArch::X86, false, true)), GemmType::Avx2);
    assert_eq!(parsed(&["--Neon"], &host(CpuArch::X86_64, false, false)), GemmType::Scalar);
}

#[test]
fn other_requests_on_x86_end_as_scalar() {
    // a supported --AVX2 or --AVX512, --Scalar, and unrecognized flags all end as Scalar
    assert_eq!(parsed(&["--AVX2"], &host(CpuArch::X86_64, true, true)), GemmType::Scalar);
    assert_eq!(parsed(&["--AVX512"], &host(CpuArch::X86_64, true, true)), GemmType::Scalar);
    assert_eq!(parsed(&["--Scalar"], &host(CpuArch::X86_64, true, true)), GemmType::Scalar);
    assert_eq!(parsed(&["--verbose"], &host(CpuArch::X86_64, true, true)), GemmType::Scalar);
}

#[test]
fn last_recognized_flag_wins() {
    let h = host(CpuArch::X86_64, true, true);
    assert_eq!(parsed(&["--Scalar", "--Neon"], &h), GemmType::Avx512);
    assert_eq!(parsed(&["--Neon", "--Scalar"], &h), GemmType::Scalar);
    assert_eq!(parsed(&["--Neon", "--unknown"], &h), GemmType::Avx512);
    // flags are matched exactly
    assert_eq!(parsed(&["--neon"], &h), GemmType::Scalar);
}

#[test]
fn aarch64_always_runs_neon() {
    let h = host(CpuArch::Aarch64, false, false);
    assert_eq!(parsed(&["--Scalar"], &h), GemmType::Neon);
    assert_eq!(parsed(&["--AVX512", "--x"], &h), GemmType::Neon);
}

fn supported(h: &HostCpu, g: GemmType) -> bool {
    let x86 = h.arch == CpuArch::X86 || h.arch == CpuArch::X86_64;
    match g {
        GemmType::Avx512 => x86 && h.avx512f,
        GemmType::Avx2 => x86 && h.avx2,
        GemmType::Neon => h.arch == CpuArch::Aarch64,
        GemmType::Scalar => true,
    }
}

#[test]
fn parsed_kernel_is_always_supported() {
    let flag_sets: [&[&str]; 8] = [
        &[],
        &["--AVX2"],
        &["--AVX512"],
        &["--Neon"],
        &["--Scalar"],
        &["--other"],
        &["--Neon", "--AVX2"],
        &["--AVX512", "--Neon"],
    ];
    for arch in [CpuArch::X86, CpuArch::X86_64, CpuArch::Aarch64] {
        for avx512f in [false, true] {
            for avx2 in [false, true] {
                let h = host(arch, avx512f, avx2);
                for flags in flag_sets.iter() {
                    assert!(supported(&h, parsed(flags, &h)));
                }
            }
        }
    }
}
