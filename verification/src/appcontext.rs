//! Which family of GEMM kernels runs on this machine, chosen from the
//! command-line flags and the host's CPU features.

use vstd::prelude::*;

verus! {

/// The instruction-set architecture the library was built for.
#[derive(Debug, Clone, Copy, PartialEq, Eq, Structural)]
pub enum CpuArch {
    /// 32-bit `x86`.
    X86,
    /// `x86_64`.
    X86_64,
    /// `aarch64`.
    Aarch64,
}

/// What the host offers: its architecture and, on x86, whether the
/// AVX-512F and AVX2 extensions were detected at run time.
#[derive(Debug, Clone, Copy, PartialEq, Eq, Structural)]
pub struct HostCpu {
    pub arch: CpuArch,
    pub avx512f: bool,
    pub avx2: bool,
}

/// The family of micro-kernels used for matrix products and element-wise work.
#[derive(Debug, Clone, Copy, PartialEq, Eq, Structural)]
pub enum GemmType {
    Avx2,
    Avx512,
    Neon,
    Scalar,
}

impl CpuArch {
    /// One of the two x86 architectures.
    pub open spec fn is_x86(self) -> bool {
        self == CpuArch::X86 || self == CpuArch::X86_64
    }
}

/// The best kernel family the host offers.
pub open spec fn host_default_gemm_type(host: HostCpu) -> GemmType {
    match host.arch {
        CpuArch::X86 | CpuArch::X86_64 => if host.avx512f {
            GemmType::Avx512
        } else if host.avx2 {
            GemmType::Avx2
        } else {
            GemmType::Scalar
        },
        CpuArch::Aarch64 => GemmType::Neon,
    }
}

/// Whether the host can run the kernels of family `g`.
pub open spec fn host_supports(host: HostCpu, g: GemmType) -> bool {
    match g {
        GemmType::Avx512 => host.arch.is_x86() && host.avx512f,
        GemmType::Avx2 => host.arch.is_x86() && host.avx2,
        GemmType::Neon => host.arch == CpuArch::Aarch64,
        GemmType::Scalar => true,
    }
}

impl GemmType {
    /// The kernel family a fresh context starts with on `host`.
    pub fn default_for_host(host: &HostCpu) -> (g: GemmType)
        ensures
            g == host_default_gemm_type(*host),
    {
        match host.arch {
            CpuArch::X86 | CpuArch::X86_64 => if host.avx512f {
                GemmType::Avx512
            } else if host.avx2 {
                GemmType::Avx2
            } else {
                GemmType::Scalar
            },
            CpuArch::Aarch64 => GemmType::Neon,
        }
    }
}


/// The kernel family a single command-line flag asks for, if any.
pub open spec fn flag_choice(flag: Seq<char>) -> Option<GemmType> {
    if flag == "--AVX2"@ {
        Some(GemmType::Avx2)
    } else if flag == "--AVX512"@ {
        Some(GemmType::Avx512)
    } else if flag == "--Neon"@ {
        Some(GemmType::Neon)
    } else if flag == "--Scalar"@ {
        Some(GemmType::Scalar)
    } else {
        None
    }
}

/// The family asked for by a list of flags: the last recognized flag wins,
/// and `start` stands when no flag is recognized.
pub open spec fn requested_gemm_type(flags: Seq<Seq<char>>, start: GemmType) -> GemmType
    decreases flags.len(),
{
    if flags.len() == 0 {
        start
    } else {
        match flag_choice(flags.last()) {
            Some(g) => g,
            None => requested_gemm_type(flags.drop_last(), start),
        }
    }
}

/// How a requested family is adjusted to the host once at least one flag
/// was given.
pub open spec fn settle_for_host(requested: GemmType, host: HostCpu) -> GemmType {
    match host.arch {
        CpuArch::X86 | CpuArch::X86_64 => if requested == GemmType::Avx512 && !host.avx512f {
            if host.avx2 {
                GemmType::Avx2
            } else {
                GemmType::Scalar
            }
        } else if !host.avx2 && requested == GemmType::Avx2 {
            GemmType::Scalar
        } else if requested == GemmType::Neon {
            if host.avx512f {
                GemmType::Avx512
            } else if host.avx2 {
                GemmType::Avx2
            } else {
                GemmType::Scalar
            }
        } else {
            GemmType::Scalar
        },
        CpuArch::Aarch64 => GemmType::Neon,
    }
}

/// The kernel family chosen for the flags `flags` on `host`.
pub open spec fn parsed_gemm_type(flags: Seq<Seq<char>>, host: HostCpu) -> GemmType {
    if flags.len() == 0 {
        host_default_gemm_type(host)
    } else {
        settle_for_host(requested_gemm_type(flags, host_default_gemm_type(host)), host)
    }
}

/// The views of a list of owned strings.
pub open spec fn flag_views(args: Seq<String>) -> Seq<Seq<char>> {
    args.map_values(|s: String| s@)
}

/// Settings shared by the whole library.
#[derive(Debug)]
pub struct AppContext {
    gemm_type: GemmType,
}

impl View for AppContext {
    type V = GemmType;

    closed spec fn view(&self) -> GemmType {
        self.gemm_type
    }
}

fn flag_equals(flag: &String, literal: &str) -> (b: bool)
    ensures
        b == (flag@ == literal@),
{
    let owned: String = literal.to_owned();
    flag.eq(&owned)
}

fn gemm_type_of_flag(flag: &String) -> (r: Option<GemmType>)
    ensures
        r == flag_choice(flag@),
{
    if flag_equals(flag, "--AVX2") {
        Some(GemmType::Avx2)
    } else if flag_equals(flag, "--AVX512") {
        Some(GemmType::Avx512)
    } else if flag_equals(flag, "--Neon") {
        Some(GemmType::Neon)
    } else if flag_equals(flag, "--Scalar") {
        Some(GemmType::Scalar)
    } else {
        None
    }
}

fn settle(requested: GemmType, host: &HostCpu) -> (g: GemmType)
    ensures
        g == settle_for_host(requested, *host),
{
    match host.arch {
        CpuArch::X86 | CpuArch::X86_64 => if requested == GemmType::Avx512 && !host.avx512f {
            if host.avx2 {
                GemmType::Avx2
            } else {
                GemmType::Scalar
            }
        } else if !host.avx2 && requested == GemmType::Avx2 {
            GemmType::Scalar
        } else if requested == GemmType::Neon {
            if host.avx512f {
                GemmType::Avx512
            } else if host.avx2 {
                GemmType::Avx2
            } else {
                GemmType::Scalar
            }
        } else {
            GemmType::Scalar
        },
        CpuArch::Aarch64 => GemmType::Neon,
    }
}

impl AppContext {
    /// A context holding the host's default kernel family.
    pub fn default_for_host(host: &HostCpu) -> (ctx: AppContext)
        ensures
            ctx@ == host_default_gemm_type(*host),
    {
        AppContext { gemm_type: GemmType::default_for_host(host) }
    }

    /// The kernel family this context selects.
    pub fn get_gemm_type(&self) -> (g: GemmType)
        ensures
            g == self@,
    {
        self.gemm_type
    }

    /// Builds the context from the command-line flags (without the program
    /// name). With no flags the host's default stands; otherwise the last of
    /// `--AVX2`, `--AVX512`, `--Neon`, `--Scalar` is taken and then adjusted
    /// to the host. Unknown flags are ignored; parsing never fails.
    pub fn parse_command_line_arguments(args: &[String], host: &HostCpu) -> (res: Result<
        AppContext,
        String,
    >)
        ensures
            res is Ok,
            res matches Ok(ctx) ==> ctx@ == parsed_gemm_type(flag_views(args@), *host),
    {
        let mut context = AppContext::default_for_host(host);
        if args.len() == 0 {
            return Ok(context);
        }
        let ghost flags = flag_views(args@);
        let ghost start = host_default_gemm_type(*host);
        let mut i: usize = 0;
        while i < args.len()
            invariant
                i <= args@.len(),
                flags == flag_views(args@),
                context@ == requested_gemm_type(flags.take(i as int), start),
            decreases args@.len() - i,
        {
            let choice = gemm_type_of_flag(&args[i]);
            proof {
                assert(flags.take(i + 1).drop_last() =~= flags.take(i as int));
                assert(flags.take(i + 1).last() == args@[i as int]@);
            }
            match choice {
                Some(g) => {
                    context.gemm_type = g;
                },
                None => {},
            }
            i = i + 1;
        }
        proof {
            assert(flags.take(args@.len() as int) =~= flags);
        }
        context.gemm_type = settle(context.gemm_type, host);
        Ok(context)
    }
}

/// Whatever the flags, the chosen kernel family is one the host can run.
pub proof fn lemma_parsed_gemm_type_is_supported(flags: Seq<Seq<char>>, host: HostCpu)
    ensures
        host_supports(host, parsed_gemm_type(flags, host)),
{
}

} // verus!
