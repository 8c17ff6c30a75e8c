use vstd::prelude::*;

verus! {

/// Hardware acceleration tier for half-precision kernels, from least to most
/// specialized.
#[derive(Clone, Copy, Debug, PartialEq, Eq, Structural)]
pub enum SimdSupport {
    /// No specialized kernel: scalar code only.
    Scalar,
    Neon,
    Avx2,
    Avx512,
}

/// Instruction-set extensions that the running processor reports.
#[derive(Clone, Copy, Debug, PartialEq, Eq, Structural)]
pub struct CpuFeatures {
    pub neon: bool,
    pub avx2: bool,
    pub f16c: bool,
    pub avx512fp16: bool,
}

/// Which specialized half-precision kernels this build carries.
#[derive(Clone, Copy, Debug, PartialEq, Eq, Structural)]
pub struct CompiledKernels {
    pub neon: bool,
    pub avx2: bool,
    pub avx512: bool,
}

/// Element type of the vectors of one distance call.
#[derive(Clone, Copy, Debug, PartialEq, Eq, Structural)]
pub enum ElementType {
    F16,
    F32,
    F64,
    /// Any other floating-point type.
    Generic,
}

/// The kernel family that computes one distance call.
#[derive(Clone, Copy, Debug, PartialEq, Eq, Structural)]
pub enum Backend {
    /// The sequential scalar kernel.
    Reference,
    /// The lane-unrolled kernel that compilers vectorize.
    Vectorized,
    /// The hand-written kernel of the given tier.
    Specialized(SimdSupport),
}

/// How the single-precision L2 norm walks a vector of a given length.
#[derive(Clone, Copy, Debug, PartialEq, Eq, Structural)]
pub enum LanePlan {
    /// Sixteen-lane registers over the whole vector.
    Wide16,
    /// Eight-lane registers over the whole vector.
    Wide8,
    /// Sixteen lane accumulators over full groups, then a scalar remainder.
    Unrolled16,
}

/// Order of the tiers by specialization.
pub open spec fn rank(t: SimdSupport) -> nat {
    match t {
        SimdSupport::Scalar => 0,
        SimdSupport::Neon => 1,
        SimdSupport::Avx2 => 2,
        SimdSupport::Avx512 => 3,
    }
}

/// Tier `t` has a specialized kernel in this build and the processor can run it.
pub open spec fn tier_available(t: SimdSupport, cpu: CpuFeatures, compiled: CompiledKernels) -> bool {
    match t {
        SimdSupport::Scalar => false,
        SimdSupport::Neon => cpu.neon && compiled.neon,
        SimdSupport::Avx2 => cpu.avx2 && cpu.f16c && compiled.avx2,
        SimdSupport::Avx512 => cpu.avx512fp16 && compiled.avx512,
    }
}

/// The most specialized available tier, or `Scalar` when no tier is available.
pub fn detect_fp16_support(cpu: CpuFeatures, compiled: CompiledKernels) -> (r: SimdSupport)
    ensures
        r == SimdSupport::Scalar || tier_available(r, cpu, compiled),
        forall|t: SimdSupport| tier_available(t, cpu, compiled) ==> rank(t) <= rank(r),
{
    if cpu.avx512fp16 && compiled.avx512 {
        SimdSupport::Avx512
    } else if cpu.avx2 && cpu.f16c && compiled.avx2 {
        SimdSupport::Avx2
    } else if cpu.neon && compiled.neon {
        SimdSupport::Neon
    } else {
        SimdSupport::Scalar
    }
}

/// The kernel family for vectors of type `elem` when the detected tier is
/// `tier`: half precision goes to the specialized kernel of any tier but
/// `Scalar`, single and double precision go to the vectorized kernel, half
/// precision without a tier too, and any other type to the reference kernel.
pub fn select_backend(elem: ElementType, tier: SimdSupport) -> (r: Backend)
    ensures
        elem == ElementType::F16 && tier != SimdSupport::Scalar ==> r == Backend::Specialized(tier),
        elem == ElementType::F16 && tier == SimdSupport::Scalar ==> r == Backend::Vectorized,
        elem == ElementType::F32 || elem == ElementType::F64 ==> r == Backend::Vectorized,
        elem == ElementType::Generic ==> r == Backend::Reference,
{
    match elem {
        ElementType::F16 => match tier {
            SimdSupport::Scalar => Backend::Vectorized,
            _ => Backend::Specialized(tier),
        },
        ElementType::F32 | ElementType::F64 => Backend::Vectorized,
        ElementType::Generic => Backend::Reference,
    }
}

/// The plan for a single-precision vector of `dim` elements: sixteen-lane
/// registers when `dim` is a multiple of sixteen, else eight-lane registers
/// when it is a multiple of eight, else the unrolled kernel.
pub fn f32_norm_plan(dim: usize) -> (r: LanePlan)
    ensures
        dim % 16 == 0 ==> r == LanePlan::Wide16,
        dim % 16 != 0 && dim % 8 == 0 ==> r == LanePlan::Wide8,
        dim % 8 != 0 ==> r == LanePlan::Unrolled16,
{
    if dim % 16 == 0 {
        LanePlan::Wide16
    } else if dim % 8 == 0 {
        LanePlan::Wide8
    } else {
        LanePlan::Unrolled16
    }
}

/// Splits a vector of `len` elements into full groups of `lanes` elements and
/// a remainder: returns the number of full groups and the remainder's length.
pub fn lane_split(len: usize, lanes: usize) -> (r: (usize, usize))
    requires
        lanes > 0,
    ensures
        r.0 * lanes + r.1 == len,
        r.1 < lanes,
        len < lanes ==> r.0 == 0 && r.1 == len,
{
    let groups = len / lanes;
    let remainder = len % lanes;
    proof {
        vstd::arithmetic::div_mod::lemma_fundamental_div_mod(len as int, lanes as int);
        assert(groups * lanes == lanes * groups) by (nonlinear_arith);
        if len < lanes {
            vstd::arithmetic::div_mod::lemma_small_mod(len as nat, lanes as nat);
            assert(groups == 0) by (nonlinear_arith)
                requires
                    len == lanes * groups + remainder,
                    remainder == len,
                    lanes > 0,
            ;
        }
    }
    (groups, remainder)
}

} // verus!
