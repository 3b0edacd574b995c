use hypster::cpu::{
    decode_cpu_features, probe_cpu, probe_cpu_optional, CpuFeatures, CpuProbeError, CpuidSnapshot,
};

fn full_snapshot() -> CpuidSnapshot {
    CpuidSnapshot {
        leaf0_eax: 0x16,
        leaf1_ecx: 0x20,
        leaf1_edx: 0,
        ext_max_eax: 0x8000_0008,
        ext1_edx: 0x10_0000,
        ext8_ebx: 1,
    }
}

#[test]
fn probe_cpu_on_host() {
    let _ = probe_cpu_optional(None);
}

#[test]
fn probe_accepts_full_feature_set() {
    let f = CpuFeatures { vmx: true, ept: true, nx: true };
    assert_eq!(probe_cpu(Some(full_snapshot())), Ok(f));
    assert!(f.gate_c_ready());
}

#[test]
fn probe_without_cpuid_is_unavailable() {
    assert_eq!(probe_cpu(None), Err(CpuProbeError::CpuidUnavailable));
    let mut s = full_snapshot();
    s.leaf0_eax = 0;
    assert_eq!(probe_cpu(Some(s)), Err(CpuProbeError::CpuidUnavailable));
}

#[test]
fn probe_reports_missing_vmx_first() {
    let mut s = full_snapshot();
    s.leaf1_ecx = 0;
    s.ext1_edx = 0;
    assert_eq!(probe_cpu(Some(s)), Err(CpuProbeError::MissingVmx));
}

#[test]
fn probe_reports_missing_ept() {
    let mut s = full_snapshot();
    s.ext8_ebx = 0;
    assert_eq!(probe_cpu(Some(s)), Err(CpuProbeError::MissingEpt));
}

#[test]
fn probe_reports_missing_nx() {
    let mut s = full_snapshot();
    s.ext1_edx = 0;
    assert_eq!(probe_cpu(Some(s)), Err(CpuProbeError::MissingNx));
}

#[test]
fn ept_follows_vmx_without_extended_leaf_8() {
    let mut s = full_snapshot();
    s.ext_max_eax = 0x8000_0001;
    s.ext8_ebx = 0;
    assert_eq!(
        decode_cpu_features(&s),
        Some(CpuFeatures { vmx: true, ept: true, nx: true })
    );
}

#[test]
fn basic_leaf_nx_is_used_without_extended_leaves() {
    let s = CpuidSnapshot {
        leaf0_eax: 1,
        leaf1_ecx: 0x20,
        leaf1_edx: 0x10_0000,
        ext_max_eax: 0,
        ext1_edx: 0,
        ext8_ebx: 0,
    };
    assert_eq!(
        decode_cpu_features(&s),
        Some(CpuFeatures { vmx: true, ept: true, nx: true })
    );
}

#[test]
fn probe_error_messages() {
    assert_eq!(CpuProbeError::CpuidUnavailable.message(), "CPUID unavailable");
    assert_eq!(CpuProbeError::MissingVmx.message(), "VMX not supported");
    assert_eq!(CpuProbeError::MissingEpt.message(), "EPT not supported");
    assert_eq!(CpuProbeError::MissingNx.message(), "NX not supported");
}
