//! Root System Description Pointer (RSDP) parser.

use vstd::prelude::*;

use crate::acpi::error::AcpiError;
use crate::acpi::table::{checksum_ok, ensure_len, read_u32_le, read_u64_le, read_u8, too_short};
use crate::bytes::{le_u32, le_u64, prefix_checksum};
use crate::types::HostPhysAddr;

verus! {

/// ACPI RSDP signature (`"RSD PTR "`).
pub const RSDP_SIGNATURE: [u8; 8] = [0x52, 0x53, 0x44, 0x20, 0x50, 0x54, 0x52, 0x20];

/// Minimum RSDP length for ACPI 1.0.
pub const RSDP_V1_LEN: usize = 20;

/// Minimum RSDP length for ACPI 2.0 and later.
pub const RSDP_V2_LEN: usize = 36;

/// Parsed Root System Description Pointer.
#[derive(Clone, Copy, Debug, PartialEq, Eq)]
pub struct Rsdp {
    /// ACPI revision byte (0 for ACPI 1.0, 2 or more for ACPI 2.0+).
    pub revision: u8,
    /// Physical address of the RSDT when present (ACPI 1.0 field).
    pub rsdt_address: Option<HostPhysAddr>,
    /// Physical address of the XSDT when present (ACPI 2.0+ field).
    pub xsdt_address: Option<HostPhysAddr>,
}

impl Rsdp {
    /// Returns the preferred root table address (XSDT when available, else RSDT).
    pub fn root_table_address(&self) -> (r: Option<HostPhysAddr>)
        ensures
            r == (if self.xsdt_address is Some { self.xsdt_address } else { self.rsdt_address }),
    {
        if let Some(xsdt) = self.xsdt_address {
            Some(xsdt)
        } else {
            self.rsdt_address
        }
    }
}

/// A zero physical pointer means "absent".
pub open spec fn nonzero_addr(v: int) -> Option<HostPhysAddr> {
    if v == 0 {
        None
    } else {
        Some(HostPhysAddr(v as u64))
    }
}

/// The first eight bytes spell `"RSD PTR "`.
pub open spec fn rsdp_signature_ok(d: Seq<u8>) -> bool {
    d.subrange(0, 8) == RSDP_SIGNATURE@
}

/// The result `parse_rsdp` gives for `d` once the signature matches (or the
/// buffer is too short to hold one).
pub open spec fn rsdp_result(d: Seq<u8>) -> Result<Rsdp, AcpiError> {
    if d.len() < RSDP_V1_LEN {
        Err(too_short(RSDP_V1_LEN as int, d.len() as int))
    } else if !checksum_ok(d.subrange(0, RSDP_V1_LEN as int)) {
        Err(AcpiError::InvalidChecksum)
    } else if d[15] < 2 {
        Ok(Rsdp { revision: d[15], rsdt_address: nonzero_addr(le_u32(d, 16)), xsdt_address: None })
    } else if d.len() < RSDP_V2_LEN {
        Err(too_short(RSDP_V2_LEN as int, d.len() as int))
    } else if le_u32(d, 20) != RSDP_V2_LEN {
        Err(AcpiError::InvalidLength { context: "RSDP", length: le_u32(d, 20) as u32 })
    } else if !checksum_ok(d.subrange(0, RSDP_V2_LEN as int)) {
        Err(AcpiError::InvalidChecksum)
    } else {
        Ok(
            Rsdp {
                revision: d[15],
                rsdt_address: nonzero_addr(le_u32(d, 16)),
                xsdt_address: nonzero_addr(le_u64(d, 24)),
            },
        )
    }
}

/// Parses an RSDP structure from `data`: signature, the ACPI 1.0 checksum
/// over the first 20 bytes and, for revision 2 or later, the declared length
/// and the extended checksum over 36 bytes.
pub fn parse_rsdp(data: &[u8]) -> (r: Result<Rsdp, AcpiError>)
    ensures
        data@.len() >= RSDP_V1_LEN && !rsdp_signature_ok(data@) ==> (r->Err_0 matches AcpiError::InvalidSignature {
            expected,
            found,
        } && r is Err && expected == "RSD PTR " && found@ == data@.subrange(0, 4)),
        !(data@.len() >= RSDP_V1_LEN && !rsdp_signature_ok(data@)) ==> r == rsdp_result(data@),
{
    ensure_len(data, RSDP_V1_LEN)?;
    let mut idx: usize = 0;
    while idx < 8
        invariant
            data@.len() >= RSDP_V1_LEN,
            idx <= 8,
            forall|i: int| 0 <= i < idx ==> data@[i] == #[trigger] RSDP_SIGNATURE@[i],
        decreases 8 - idx,
    {
        let found = read_u8(data, idx)?;
        if found != RSDP_SIGNATURE[idx] {
            let sig = [data[0], data[1], data[2], data[3]];
            proof {
                assert(sig@ =~= data@.subrange(0, 4));
                assert(data@.subrange(0, 8)[idx as int] == data@[idx as int]);
            }
            return Err(AcpiError::InvalidSignature { expected: "RSD PTR ", found: sig });
        }
        idx = idx + 1;
    }
    assert(data@.subrange(0, 8) =~= RSDP_SIGNATURE@);
    if prefix_checksum(data, RSDP_V1_LEN) != 0 {
        return Err(AcpiError::InvalidChecksum);
    }
    let revision = read_u8(data, 15)?;
    let rsdt_phys = read_u32_le(data, 16)?;
    let rsdt_address = if rsdt_phys == 0 {
        None
    } else {
        Some(HostPhysAddr::new(rsdt_phys as u64))
    };
    if revision >= 2 {
        ensure_len(data, RSDP_V2_LEN)?;
        let length = read_u32_le(data, 20)?;
        if length as usize != RSDP_V2_LEN {
            return Err(AcpiError::InvalidLength { context: "RSDP", length });
        }
        if prefix_checksum(data, RSDP_V2_LEN) != 0 {
            return Err(AcpiError::InvalidChecksum);
        }
        let xsdt_phys = read_u64_le(data, 24)?;
        let xsdt_address = if xsdt_phys == 0 {
            None
        } else {
            Some(HostPhysAddr::new(xsdt_phys))
        };
        Ok(Rsdp { revision, rsdt_address, xsdt_address })
    } else {
        Ok(Rsdp { revision, rsdt_address, xsdt_address: None })
    }
}

} // verus!
