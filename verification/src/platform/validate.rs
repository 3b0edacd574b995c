//! Platform contract validation: the configuration's requirements held
//! against the observed hardware, fail-closed for required features.

use vstd::prelude::*;
use vstd::string::*;

use crate::config::normalize::bdf_of;
use crate::config::raw::RequirementLevel;
use crate::config::requirements::{ExpectedPciDevice, PlatformRequirements};
use crate::platform::observed::{same_observed, ObservedPciDevice, ObservedPlatform};
use crate::types::PciBdf;
use crate::text::{decimal, push_decimal};

verus! {

/// Platform validation failure.
#[derive(Clone, Debug, PartialEq, Eq)]
pub enum PlatformValidationError {
    /// Required architecture mismatch.
    ArchMismatch,
    /// Required feature missing (fail-closed).
    MissingRequiredFeature {
        /// Feature name.
        feature: &'static str,
    },
    /// Not enough physical cores.
    InsufficientPhysicalCores {
        /// Required cores.
        required: u32,
        /// Observed cores.
        observed: u32,
    },
    /// Host RAM below configured minimum.
    InsufficientRam {
        /// Required bytes.
        required: u64,
        /// Observed bytes.
        observed: u64,
    },
    /// Expected PCI device not discovered.
    MissingPciDevice {
        /// BDF string.
        bdf: String,
    },
    /// Required guest page size unsupported.
    MissingPageSize {
        /// Page size in bytes.
        size: u64,
    },
}

/// Platform that satisfies the configured requirements.
#[derive(Clone, Debug, PartialEq, Eq)]
pub struct ValidatedPlatform {
    /// Configuration name.
    pub config_name: String,
    /// Observed platform that satisfied the contract.
    pub observed: ObservedPlatform,
}

/// Description of a validation failure, the BDF by its text.
pub ghost enum PlatformErrorSpec {
    /// Architecture mismatch.
    ArchMismatch,
    /// A required feature is absent.
    MissingFeature(&'static str),
    /// Too few physical cores: required, observed.
    Cores(u32, u32),
    /// Too little RAM: required, observed.
    Ram(u64, u64),
    /// An expected PCI device was not discovered.
    MissingPci(Seq<char>),
    /// A page size outside 4 KiB and 2 MiB.
    PageSize(u64),
}

/// The error `e` is the one `s` describes.
pub open spec fn platform_error_is(e: PlatformValidationError, s: PlatformErrorSpec) -> bool {
    match s {
        PlatformErrorSpec::ArchMismatch => e == PlatformValidationError::ArchMismatch,
        PlatformErrorSpec::MissingFeature(f) => e == PlatformValidationError::MissingRequiredFeature {
            feature: f,
        },
        PlatformErrorSpec::Cores(r, o) => e == PlatformValidationError::InsufficientPhysicalCores {
            required: r,
            observed: o,
        },
        PlatformErrorSpec::Ram(r, o) => e == PlatformValidationError::InsufficientRam {
            required: r,
            observed: o,
        },
        PlatformErrorSpec::MissingPci(b) => e matches PlatformValidationError::MissingPciDevice {
            bdf,
        } && bdf@ == b,
        PlatformErrorSpec::PageSize(s) => e == PlatformValidationError::MissingPageSize { size: s },
    }
}

/// A feature at `level` is required but absent.
pub open spec fn feature_missing(level: RequirementLevel, present: bool) -> bool {
    level == RequirementLevel::Required && !present
}

/// First required feature that is absent, in checking order.
pub open spec fn missing_feature(req: PlatformRequirements, obs: ObservedPlatform) -> Option<
    &'static str,
> {
    if feature_missing(req.vmx, obs.cpu.vmx) {
        Some("vmx")
    } else if feature_missing(req.ept, obs.cpu.ept) {
        Some("ept")
    } else if feature_missing(req.vtd, obs.cpu.vtd && obs.acpi.dmar is Some) {
        Some("vtd")
    } else if feature_missing(req.nx, obs.cpu.nx) {
        Some("nx")
    } else if feature_missing(req.interrupt_remapping, obs.acpi.spec_interrupt_remapping()) {
        Some("interrupt_remapping")
    } else if feature_missing(req.x2apic, obs.acpi.spec_x2apic()) {
        Some("x2apic")
    } else if feature_missing(req.invariant_tsc, obs.cpu.invariant_tsc) {
        Some("invariant_tsc")
    } else if feature_missing(req.vpid, obs.cpu.vpid) {
        Some("vpid")
    } else if feature_missing(req.vmx_preemption_timer, obs.cpu.vmx_preemption_timer) {
        Some("vmx_preemption_timer")
    } else {
        None
    }
}

/// The expected device's BDF text does not parse or names no discovered device.
pub open spec fn pci_missing(e: ExpectedPciDevice, found: Seq<ObservedPciDevice>) -> bool {
    bdf_of(e.bdf@) is Err || !exists|j: int|
        0 <= j < found.len() && #[trigger] found[j].bdf == bdf_of(e.bdf@)->Ok_0
}

/// Index of the first expected device that is missing, from `k` on.
pub open spec fn first_missing_pci(es: Seq<ExpectedPciDevice>, found: Seq<ObservedPciDevice>, k: int) -> Option<
    int,
>
    decreases es.len() - k,
{
    if k < 0 || k >= es.len() {
        None
    } else if pci_missing(es[k], found) {
        Some(k)
    } else {
        first_missing_pci(es, found, k + 1)
    }
}

/// Index of the first page size outside 4 KiB and 2 MiB, from `k` on.
pub open spec fn first_bad_page(sizes: Seq<u64>, k: int) -> Option<int>
    decreases sizes.len() - k,
{
    if k < 0 || k >= sizes.len() {
        None
    } else if sizes[k] != 4096 && sizes[k] != 2_097_152 {
        Some(k)
    } else {
        first_bad_page(sizes, k + 1)
    }
}

/// The failure `validate_platform` reports, if any.
pub open spec fn platform_error(req: PlatformRequirements, obs: ObservedPlatform) -> Option<
    PlatformErrorSpec,
> {
    if obs.arch != req.arch {
        Some(PlatformErrorSpec::ArchMismatch)
    } else if missing_feature(req, obs) is Some {
        Some(PlatformErrorSpec::MissingFeature(missing_feature(req, obs)->Some_0))
    } else if obs.physical_core_count < req.min_physical_cores {
        Some(PlatformErrorSpec::Cores(req.min_physical_cores, obs.physical_core_count))
    } else if obs.conventional_ram_bytes < req.min_ram_bytes {
        Some(PlatformErrorSpec::Ram(req.min_ram_bytes, obs.conventional_ram_bytes))
    } else if first_missing_pci(req.expected_pci_devices@, obs.pci_devices@, 0) is Some {
        Some(
            PlatformErrorSpec::MissingPci(
                req.expected_pci_devices@[first_missing_pci(
                    req.expected_pci_devices@,
                    obs.pci_devices@,
                    0,
                )->Some_0].bdf@,
            ),
        )
    } else if first_bad_page(req.page_sizes@, 0) is Some {
        Some(PlatformErrorSpec::PageSize(req.page_sizes@[first_bad_page(req.page_sizes@, 0)->Some_0]))
    } else {
        None
    }
}

fn check_feature(name: &'static str, level: RequirementLevel, present: bool) -> (r: Result<
    (),
    PlatformValidationError,
>)
    ensures
        feature_missing(level, present) ==> r == Err::<(), PlatformValidationError>(
            PlatformValidationError::MissingRequiredFeature { feature: name },
        ),
        !feature_missing(level, present) ==> r is Ok,
{
    if PlatformRequirements::is_fail_closed(level) && !present {
        return Err(PlatformValidationError::MissingRequiredFeature { feature: name });
    }
    Ok(())
}

fn device_discovered(found: &Vec<ObservedPciDevice>, bdf: PciBdf) -> (r: bool)
    ensures
        r == exists|j: int| 0 <= j < found@.len() && #[trigger] found@[j].bdf == bdf,
{
    let mut j: usize = 0;
    while j < found.len()
        invariant
            j <= found@.len(),
            forall|m: int| 0 <= m < j ==> #[trigger] found@[m].bdf != bdf,
        decreases found@.len() - j,
    {
        if found[j].bdf == bdf {
            return true;
        }
        j = j + 1;
    }
    false
}

fn check_features(requirements: &PlatformRequirements, observed: &ObservedPlatform) -> (r: Result<
    (),
    PlatformValidationError,
>)
    ensures
        missing_feature(*requirements, *observed) matches Some(f) ==> r
            == Err::<(), PlatformValidationError>(
            PlatformValidationError::MissingRequiredFeature { feature: f },
        ),
        missing_feature(*requirements, *observed) is None ==> r is Ok,
{
    check_feature("vmx", requirements.vmx, observed.cpu.vmx)?;
    check_feature("ept", requirements.ept, observed.cpu.ept)?;
    let vtd_present = observed.cpu.vtd && observed.acpi.dmar.is_some();
    check_feature("vtd", requirements.vtd, vtd_present)?;
    check_feature("nx", requirements.nx, observed.cpu.nx)?;
    check_feature(
        "interrupt_remapping",
        requirements.interrupt_remapping,
        observed.interrupt_remapping_available(),
    )?;
    check_feature("x2apic", requirements.x2apic, observed.x2apic_available())?;
    check_feature("invariant_tsc", requirements.invariant_tsc, observed.cpu.invariant_tsc)?;
    check_feature("vpid", requirements.vpid, observed.cpu.vpid)?;
    check_feature(
        "vmx_preemption_timer",
        requirements.vmx_preemption_timer,
        observed.cpu.vmx_preemption_timer,
    )?;
    Ok(())
}

/// Compares desired platform requirements against observed hardware.
pub fn validate_platform(requirements: &PlatformRequirements, observed: &ObservedPlatform) -> (r: Result<
    ValidatedPlatform,
    PlatformValidationError,
>)
    ensures
        platform_error(*requirements, *observed) matches Some(e) ==> r is Err && platform_error_is(
            r->Err_0,
            e,
        ),
        platform_error(*requirements, *observed) is None ==> (r matches Ok(v)
            && v.config_name@ == requirements.config_name@ && same_observed(*observed, v.observed)),
{
    if observed.arch != requirements.arch {
        return Err(PlatformValidationError::ArchMismatch);
    }
    check_features(requirements, observed)?;
    if observed.physical_core_count < requirements.min_physical_cores {
        return Err(
            PlatformValidationError::InsufficientPhysicalCores {
                required: requirements.min_physical_cores,
                observed: observed.physical_core_count,
            },
        );
    }
    if observed.conventional_ram_bytes < requirements.min_ram_bytes {
        return Err(
            PlatformValidationError::InsufficientRam {
                required: requirements.min_ram_bytes,
                observed: observed.conventional_ram_bytes,
            },
        );
    }
    let ghost es = requirements.expected_pci_devices@;
    let ghost found = observed.pci_devices@;
    let mut k: usize = 0;
    while k < requirements.expected_pci_devices.len()
        invariant
            es == requirements.expected_pci_devices@,
            found == observed.pci_devices@,
            k <= es.len(),
            platform_error(*requirements, *observed) == (if first_missing_pci(es, found, k as int) is Some {
                Some(PlatformErrorSpec::MissingPci(es[first_missing_pci(es, found, k as int)->Some_0].bdf@))
            } else if first_bad_page(requirements.page_sizes@, 0) is Some {
                Some(
                    PlatformErrorSpec::PageSize(
                        requirements.page_sizes@[first_bad_page(requirements.page_sizes@, 0)->Some_0],
                    ),
                )
            } else {
                None
            }),
        decreases es.len() - k,
    {
        let expected = &requirements.expected_pci_devices[k];
        let parsed = match PciBdf::parse(expected.bdf.as_str()) {
            Ok(b) => b,
            Err(_) => {
                return Err(PlatformValidationError::MissingPciDevice { bdf: expected.bdf.clone() });
            },
        };
        if !device_discovered(&observed.pci_devices, parsed) {
            return Err(PlatformValidationError::MissingPciDevice { bdf: expected.bdf.clone() });
        }
        k = k + 1;
    }
    let ghost sizes = requirements.page_sizes@;
    let mut i: usize = 0;
    while i < requirements.page_sizes.len()
        invariant
            sizes == requirements.page_sizes@,
            i <= sizes.len(),
            platform_error(*requirements, *observed) == (if first_bad_page(sizes, i as int) is Some {
                Some(PlatformErrorSpec::PageSize(sizes[first_bad_page(sizes, i as int)->Some_0]))
            } else {
                None
            }),
        decreases sizes.len() - i,
    {
        let size = requirements.page_sizes[i];
        if size != 4096 && size != 2_097_152 {
            return Err(PlatformValidationError::MissingPageSize { size });
        }
        i = i + 1;
    }
    Ok(ValidatedPlatform { config_name: requirements.config_name.clone(), observed: observed.copy() })
}


/// Human-readable description of a platform validation failure.
pub open spec fn platform_error_text(e: PlatformValidationError) -> Seq<char> {
    match e {
        PlatformValidationError::ArchMismatch => "architecture mismatch"@,
        PlatformValidationError::MissingRequiredFeature { feature } => "missing required feature `"@
            + feature@ + "`"@,
        PlatformValidationError::InsufficientPhysicalCores { required, observed } =>
            "insufficient physical cores: need "@ + decimal(required as nat) + ", saw "@ + decimal(
            observed as nat,
        ),
        PlatformValidationError::InsufficientRam { required, observed } => "insufficient RAM: need "@
            + decimal(required as nat) + ", saw "@ + decimal(observed as nat),
        PlatformValidationError::MissingPciDevice { bdf } => "missing PCI device `"@ + bdf@ + "`"@,
        PlatformValidationError::MissingPageSize { size } => "missing guest page size "@ + decimal(
            size as nat,
        ),
    }
}

impl PlatformValidationError {
    /// Human-readable description of the failure.
    pub fn message(&self) -> (r: String)
        ensures
            r@ == platform_error_text(*self),
    {
        match self {
            PlatformValidationError::ArchMismatch => String::from_str("architecture mismatch"),
            PlatformValidationError::MissingRequiredFeature { feature } => {
                let mut out = String::from_str("missing required feature `");
                out.append(feature);
                out.append("`");
                out
            },
            PlatformValidationError::InsufficientPhysicalCores { required, observed } => {
                let mut out = String::from_str("insufficient physical cores: need ");
                push_decimal(&mut out, *required as u64);
                out.append(", saw ");
                push_decimal(&mut out, *observed as u64);
                out
            },
            PlatformValidationError::InsufficientRam { required, observed } => {
                let mut out = String::from_str("insufficient RAM: need ");
                push_decimal(&mut out, *required);
                out.append(", saw ");
                push_decimal(&mut out, *observed);
                out
            },
            PlatformValidationError::MissingPciDevice { bdf } => {
                let mut out = String::from_str("missing PCI device `");
                out.append(bdf.as_str());
                out.append("`");
                out
            },
            PlatformValidationError::MissingPageSize { size } => {
                let mut out = String::from_str("missing guest page size ");
                push_decimal(&mut out, *size);
                out
            },
        }
    }
}


/// Law: validation fails closed. A platform that validation accepts has every
/// feature the requirements mark `Required`, at least the required physical
/// cores and RAM, and every expected PCI device.
pub proof fn accepted_platform_meets_requirements(req: PlatformRequirements, obs: ObservedPlatform)
    requires
        platform_error(req, obs) is None,
    ensures
        obs.arch == req.arch,
        req.vmx == RequirementLevel::Required ==> obs.cpu.vmx,
        req.ept == RequirementLevel::Required ==> obs.cpu.ept,
        req.vtd == RequirementLevel::Required ==> obs.cpu.vtd && obs.acpi.dmar is Some,
        req.nx == RequirementLevel::Required ==> obs.cpu.nx,
        req.interrupt_remapping == RequirementLevel::Required ==> obs.acpi.spec_interrupt_remapping(),
        req.x2apic == RequirementLevel::Required ==> obs.acpi.spec_x2apic(),
        req.invariant_tsc == RequirementLevel::Required ==> obs.cpu.invariant_tsc,
        req.vpid == RequirementLevel::Required ==> obs.cpu.vpid,
        req.vmx_preemption_timer == RequirementLevel::Required ==> obs.cpu.vmx_preemption_timer,
        obs.physical_core_count >= req.min_physical_cores,
        obs.conventional_ram_bytes >= req.min_ram_bytes,
        forall|k: int|
            0 <= k < req.expected_pci_devices@.len() ==> !pci_missing(
                #[trigger] req.expected_pci_devices@[k],
                obs.pci_devices@,
            ),
{
    assert forall|k: int| 0 <= k < req.expected_pci_devices@.len() implies !pci_missing(
        #[trigger] req.expected_pci_devices@[k],
        obs.pci_devices@,
    ) by {
        lemma_no_missing_pci(req.expected_pci_devices@, obs.pci_devices@, 0, k);
    }
}

proof fn lemma_no_missing_pci(es: Seq<ExpectedPciDevice>, found: Seq<ObservedPciDevice>, from: int, k: int)
    requires
        0 <= from <= k < es.len(),
        first_missing_pci(es, found, from) is None,
    ensures
        !pci_missing(es[k], found),
    decreases k - from,
{
    if from < k {
        lemma_no_missing_pci(es, found, from + 1, k);
    }
}

} // verus!
