//! Host CPU virtualization feature decoding from CPUID leaves, and the
//! Gate C readiness decision.

use vstd::prelude::*;
use vstd::string::*;

verus! {

/// Observed CPU virtualization features.
#[derive(Clone, Copy, Debug, PartialEq, Eq)]
pub struct CpuFeatures {
    /// VMX present.
    pub vmx: bool,
    /// EPT present.
    pub ept: bool,
    /// NX available.
    pub nx: bool,
}

impl CpuFeatures {
    /// Returns true when VMX, EPT, and NX are all available.
    pub fn gate_c_ready(self) -> (r: bool)
        ensures
            r == (self.vmx && self.ept && self.nx),
    {
        self.vmx && self.ept && self.nx
    }
}

/// CPU probing failed.
#[derive(Clone, Copy, Debug, PartialEq, Eq)]
pub enum CpuProbeError {
    /// CPUID is unavailable on this host.
    CpuidUnavailable,
    /// Required VMX support is missing.
    MissingVmx,
    /// Required EPT support is missing.
    MissingEpt,
    /// Required NX support is missing.
    MissingNx,
}

/// The CPUID register values the feature decoding reads.
#[derive(Clone, Copy, Debug, PartialEq, Eq)]
pub struct CpuidSnapshot {
    /// Leaf 0 `eax`: highest basic leaf.
    pub leaf0_eax: u32,
    /// Leaf 1 `ecx`: bit 5 is VMX.
    pub leaf1_ecx: u32,
    /// Leaf 1 `edx`: bit 20 is NX as reported in the basic leaf.
    pub leaf1_edx: u32,
    /// Leaf `0x8000_0000` `eax`: highest extended leaf.
    pub ext_max_eax: u32,
    /// Leaf `0x8000_0001` `edx`: bit 20 is NX.
    pub ext1_edx: u32,
    /// Leaf `0x8000_0008` `ebx`: bit 0 is taken as the EPT indication.
    pub ext8_ebx: u32,
}

/// Features decoded from a CPUID snapshot, or `None` when leaf 0 reports no leaves.
pub open spec fn decode_spec(s: CpuidSnapshot) -> Option<CpuFeatures> {
    if s.leaf0_eax == 0 {
        None
    } else {
        let vmx = s.leaf1_ecx & 0x20 != 0;
        let nx_leaf1 = s.leaf1_edx & 0x10_0000 != 0;
        if s.ext_max_eax >= 0x8000_0001 {
            let nx = nx_leaf1 || s.ext1_edx & 0x10_0000 != 0;
            let ept = if s.ext_max_eax >= 0x8000_0008 { s.ext8_ebx & 1 != 0 } else { vmx };
            Some(CpuFeatures { vmx, ept, nx })
        } else {
            Some(CpuFeatures { vmx, ept: vmx, nx: nx_leaf1 })
        }
    }
}

/// Decodes VMX, EPT and NX from a CPUID snapshot.
pub fn decode_cpu_features(s: &CpuidSnapshot) -> (r: Option<CpuFeatures>)
    ensures
        r == decode_spec(*s),
{
    if s.leaf0_eax == 0 {
        return None;
    }
    let vmx = s.leaf1_ecx & 0x20 != 0;
    let nx_leaf1 = s.leaf1_edx & 0x10_0000 != 0;
    if s.ext_max_eax >= 0x8000_0001 {
        let nx = nx_leaf1 || s.ext1_edx & 0x10_0000 != 0;
        let ept = if s.ext_max_eax >= 0x8000_0008 { s.ext8_ebx & 1 != 0 } else { vmx };
        Some(CpuFeatures { vmx, ept, nx })
    } else {
        Some(CpuFeatures { vmx, ept: vmx, nx: nx_leaf1 })
    }
}

/// Checks the probed features, requiring VMX, EPT and NX in that order.
/// `None` stands for a host where CPUID could not be read.
pub fn probe_cpu(snapshot: Option<CpuidSnapshot>) -> (r: Result<CpuFeatures, CpuProbeError>)
    ensures
        ({
            let f = match snapshot {
                Some(s) => decode_spec(s),
                None => None,
            };
            &&& f is None ==> r == Err::<CpuFeatures, CpuProbeError>(CpuProbeError::CpuidUnavailable)
            &&& f matches Some(c) ==> {
                &&& !c.vmx ==> r == Err::<CpuFeatures, CpuProbeError>(CpuProbeError::MissingVmx)
                &&& c.vmx && !c.ept ==> r == Err::<CpuFeatures, CpuProbeError>(CpuProbeError::MissingEpt)
                &&& c.vmx && c.ept && !c.nx ==> r == Err::<CpuFeatures, CpuProbeError>(
                    CpuProbeError::MissingNx,
                )
                &&& c.vmx && c.ept && c.nx ==> r == Ok::<CpuFeatures, CpuProbeError>(c)
            }
        }),
{
    let features = match probe_cpu_optional(snapshot) {
        Some(f) => f,
        None => return Err(CpuProbeError::CpuidUnavailable),
    };
    if !features.vmx {
        return Err(CpuProbeError::MissingVmx);
    }
    if !features.ept {
        return Err(CpuProbeError::MissingEpt);
    }
    if !features.nx {
        return Err(CpuProbeError::MissingNx);
    }
    Ok(features)
}

/// Returns the decoded features without failing on missing capabilities.
pub fn probe_cpu_optional(snapshot: Option<CpuidSnapshot>) -> (r: Option<CpuFeatures>)
    ensures
        r == match snapshot {
            Some(s) => decode_spec(s),
            None => None,
        },
{
    match snapshot {
        Some(s) => decode_cpu_features(&s),
        None => None,
    }
}


/// Human-readable description of a CPU probe failure.
pub open spec fn cpu_probe_error_text(e: CpuProbeError) -> Seq<char> {
    match e {
        CpuProbeError::CpuidUnavailable => "CPUID unavailable"@,
        CpuProbeError::MissingVmx => "VMX not supported"@,
        CpuProbeError::MissingEpt => "EPT not supported"@,
        CpuProbeError::MissingNx => "NX not supported"@,
    }
}

impl CpuProbeError {
    /// Human-readable description of the failure.
    pub fn message(&self) -> (r: String)
        ensures
            r@ == cpu_probe_error_text(*self),
    {
        match self {
            CpuProbeError::CpuidUnavailable => String::from_str("CPUID unavailable"),
            CpuProbeError::MissingVmx => String::from_str("VMX not supported"),
            CpuProbeError::MissingEpt => String::from_str("EPT not supported"),
            CpuProbeError::MissingNx => String::from_str("NX not supported"),
        }
    }
}

} // verus!
