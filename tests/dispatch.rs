use lance_kernels::dispatch::{
    detect_fp16_support, f32_norm_plan, lane_split, select_backend, Backend, CompiledKernels,
    CpuFeatures, ElementType, LanePlan, SimdSupport,
};

fn cpu(neon: bool, avx2: bool, f16c: bool, avx512fp16: bool) -> CpuFeatures {
    CpuFeatures { neon, avx2, f16c, avx512fp16 }
}

const ALL: CompiledKernels = CompiledKernels { neon: true, avx2: true, avx512: true };

#[test]
fn probe_picks_most_specialized_tier() {
    assert_eq!(detect_fp16_support(cpu(false, true, true, true), ALL), SimdSupport::Avx512);
    assert_eq!(detect_fp16_support(cpu(false, true, true, false), ALL), SimdSupport::Avx2);
    assert_eq!(detect_fp16_support(cpu(true, false, false, false), ALL), SimdSupport::Neon);
}

#[test]
fn probe_needs_a_compiled_kernel() {
    let only_avx2 = CompiledKernels { neon: false, avx2: true, avx512: false };
    assert_eq!(detect_fp16_support(cpu(false, true, true, true), only_avx2), SimdSupport::Avx2);
    let none = CompiledKernels { neon: false, avx2: false, avx512: false };
    assert_eq!(detect_fp16_support(cpu(true, true, true, true), none), SimdSupport::Scalar);
}

#[test]
fn probe_without_support_is_scalar() {
    assert_eq!(detect_fp16_support(cpu(false, false, false, false), ALL), SimdSupport::Scalar);
    // AVX2 alone lacks the half-precision conversions.
    assert_eq!(detect_fp16_support(cpu(false, true, false, false), ALL), SimdSupport::Scalar);
}

#[test]
fn backend_follows_element_type_and_tier() {
    assert_eq!(
        select_backend(ElementType::F16, SimdSupport::Avx2),
        Backend::Specialized(SimdSupport::Avx2)
    );
    assert_eq!(
        select_backend(ElementType::F16, SimdSupport::Neon),
        Backend::Specialized(SimdSupport::Neon)
    );
    assert_eq!(select_backend(ElementType::F16, SimdSupport::Scalar), Backend::Vectorized);
    assert_eq!(select_backend(ElementType::F32, SimdSupport::Avx512), Backend::Vectorized);
    assert_eq!(select_backend(ElementType::F64, SimdSupport::Scalar), Backend::Vectorized);
    assert_eq!(select_backend(ElementType::Generic, SimdSupport::Avx2), Backend::Reference);
}

#[test]
fn f32_plan_by_length() {
    assert_eq!(f32_norm_plan(0), LanePlan::Wide16);
    assert_eq!(f32_norm_plan(32), LanePlan::Wide16);
    assert_eq!(f32_norm_plan(8), LanePlan::Wide8);
    assert_eq!(f32_norm_plan(24), LanePlan::Wide8);
    assert_eq!(f32_norm_plan(1), LanePlan::Unrolled16);
    assert_eq!(f32_norm_plan(17), LanePlan::Unrolled16);
}

#[test]
fn lane_split_lengths() {
    assert_eq!(lane_split(0, 16), (0, 0));
    assert_eq!(lane_split(1, 16), (0, 1));
    assert_eq!(lane_split(15, 16), (0, 15));
    assert_eq!(lane_split(16, 16), (1, 0));
    assert_eq!(lane_split(17, 16), (1, 1));
    assert_eq!(lane_split(32, 16), (2, 0));
    assert_eq!(lane_split(1000, 16), (62, 8));
}
