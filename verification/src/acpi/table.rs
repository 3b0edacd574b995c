//! Shared ACPI table header and byte-slice helpers.

use vstd::prelude::*;
use vstd::string::*;

use crate::acpi::error::AcpiError;
use crate::bytes::{byte_sum, get_u16, get_u32, get_u64, le_u16, le_u32, le_u64, prefix_checksum};

verus! {

/// Common ACPI System Description Table header.
#[derive(Clone, Copy, Debug, PartialEq, Eq)]
pub struct SdtHeader {
    /// Four-character table signature.
    pub signature: [u8; 4],
    /// Total table length in bytes, including this header.
    pub length: u32,
    /// ACPI specification revision of this table.
    pub revision: u8,
}

/// Size of the ACPI SDT header in bytes.
pub const SDT_HEADER_LEN: usize = 36;

/// The error `ensure_len` reports when `needed` bytes are not available.
pub open spec fn too_short(needed: int, available: int) -> AcpiError {
    AcpiError::BufferTooShort { needed: needed as usize, available: available as usize }
}

/// Ensures `data` contains at least `needed` bytes.
pub fn ensure_len(data: &[u8], needed: usize) -> (r: Result<(), AcpiError>)
    ensures
        data@.len() >= needed ==> r is Ok,
        data@.len() < needed ==> r == Err::<(), AcpiError>(too_short(needed as int, data@.len() as int)),
{
    if data.len() < needed {
        return Err(AcpiError::BufferTooShort { needed, available: data.len() });
    }
    Ok(())
}

/// Reads the byte at `offset`.
pub fn read_u8(data: &[u8], offset: usize) -> (r: Result<u8, AcpiError>)
    requires
        offset < usize::MAX,
    ensures
        offset + 1 <= data@.len() ==> r == Ok::<u8, AcpiError>(data@[offset as int]),
        offset + 1 > data@.len() ==> r == Err::<u8, AcpiError>(too_short(offset + 1, data@.len() as int)),
{
    ensure_len(data, offset + 1)?;
    Ok(data[offset])
}

/// Reads a little-endian `u16` at `offset`.
pub fn read_u16_le(data: &[u8], offset: usize) -> (r: Result<u16, AcpiError>)
    requires
        offset + 2 <= usize::MAX,
    ensures
        offset + 2 <= data@.len() ==> r == Ok::<u16, AcpiError>(le_u16(data@, offset as int) as u16),
        offset + 2 > data@.len() ==> r == Err::<u16, AcpiError>(too_short(offset + 2, data@.len() as int)),
{
    ensure_len(data, offset + 2)?;
    Ok(get_u16(data, offset))
}

/// Reads a little-endian `u32` at `offset`.
pub fn read_u32_le(data: &[u8], offset: usize) -> (r: Result<u32, AcpiError>)
    requires
        offset + 4 <= usize::MAX,
    ensures
        offset + 4 <= data@.len() ==> r == Ok::<u32, AcpiError>(le_u32(data@, offset as int) as u32),
        offset + 4 > data@.len() ==> r == Err::<u32, AcpiError>(too_short(offset + 4, data@.len() as int)),
{
    ensure_len(data, offset + 4)?;
    Ok(get_u32(data, offset))
}

/// Reads a little-endian `u64` at `offset`.
pub fn read_u64_le(data: &[u8], offset: usize) -> (r: Result<u64, AcpiError>)
    requires
        offset + 8 <= usize::MAX,
    ensures
        offset + 8 <= data@.len() ==> r == Ok::<u64, AcpiError>(le_u64(data@, offset as int) as u64),
        offset + 8 > data@.len() ==> r == Err::<u64, AcpiError>(too_short(offset + 8, data@.len() as int)),
{
    ensure_len(data, offset + 8)?;
    Ok(get_u64(data, offset))
}

/// Reads four signature bytes at `offset`.
pub fn read_signature(data: &[u8], offset: usize) -> (r: Result<[u8; 4], AcpiError>)
    requires
        offset + 4 <= usize::MAX,
    ensures
        offset + 4 <= data@.len() ==> (r matches Ok(sig) && sig@ == data@.subrange(
            offset as int,
            offset + 4,
        )),
        offset + 4 > data@.len() ==> r == Err::<[u8; 4], AcpiError>(too_short(offset + 4, data@.len() as int)),
{
    ensure_len(data, offset + 4)?;
    let sig = [data[offset], data[offset + 1], data[offset + 2], data[offset + 3]];
    assert(sig@ =~= data@.subrange(offset as int, offset + 4));
    Ok(sig)
}

/// Validates that the four bytes at `offset` spell `expected`.
pub fn expect_signature(data: &[u8], offset: usize, expected: &'static str) -> (r: Result<
    (),
    AcpiError,
>)
    requires
        offset + 4 <= usize::MAX,
    ensures
        expected.spec_bytes().len() != 4 ==> r == Err::<(), AcpiError>(
            AcpiError::InvalidStructure {
                kind: "signature",
                reason: "internal expected signature must be four bytes",
            },
        ),
        expected.spec_bytes().len() == 4 && offset + 4 > data@.len() ==> r == Err::<(), AcpiError>(
            too_short(offset + 4, data@.len() as int),
        ),
        expected.spec_bytes().len() == 4 && offset + 4 <= data@.len() ==> (r is Ok <==> data@.subrange(
            offset as int,
            offset + 4,
        ) == expected.spec_bytes()),
        expected.spec_bytes().len() == 4 && offset + 4 <= data@.len() && r is Err ==> (r->Err_0
            matches AcpiError::InvalidSignature { expected: e, found } && e == expected
            && found@ == data@.subrange(offset as int, offset + 4)),
{
    let expected_bytes = expected.as_bytes();
    if expected_bytes.len() != 4 {
        return Err(
            AcpiError::InvalidStructure {
                kind: "signature",
                reason: "internal expected signature must be four bytes",
            },
        );
    }
    let found = read_signature(data, offset)?;
    if found[0] != expected_bytes[0] || found[1] != expected_bytes[1] || found[2]
        != expected_bytes[2] || found[3] != expected_bytes[3] {
        return Err(AcpiError::InvalidSignature { expected, found });
    }
    assert(data@.subrange(offset as int, offset + 4) =~= expected.spec_bytes());
    Ok(())
}

/// The byte-sum of `s` is zero modulo 256.
pub open spec fn checksum_ok(s: Seq<u8>) -> bool {
    byte_sum(s) % 256 == 0
}

/// Validates that the sum of all bytes in `data` is zero modulo 256.
pub fn validate_checksum(data: &[u8]) -> (r: Result<(), AcpiError>)
    ensures
        checksum_ok(data@) ==> r is Ok,
        !checksum_ok(data@) ==> r == Err::<(), AcpiError>(AcpiError::InvalidChecksum),
{
    let sum = prefix_checksum(data, data.len());
    assert(data@.subrange(0, data@.len() as int) =~= data@);
    if sum == 0 {
        Ok(())
    } else {
        Err(AcpiError::InvalidChecksum)
    }
}

/// Declared length of the SDT at the start of `d` (meaningful once 36 bytes exist).
pub open spec fn sdt_declared_len(d: Seq<u8>) -> int {
    le_u32(d, 4)
}

/// `d` starts with a complete, checksummed SDT whose declared length fits in `d`.
pub open spec fn sdt_header_valid(d: Seq<u8>) -> bool {
    &&& d.len() >= SDT_HEADER_LEN
    &&& SDT_HEADER_LEN <= sdt_declared_len(d) <= d.len()
    &&& checksum_ok(d.subrange(0, sdt_declared_len(d)))
}

/// The error `parse_sdt_header` reports for an invalid header.
pub open spec fn sdt_header_error(d: Seq<u8>) -> AcpiError {
    if d.len() < SDT_HEADER_LEN {
        too_short(SDT_HEADER_LEN as int, d.len() as int)
    } else if !(SDT_HEADER_LEN <= sdt_declared_len(d) <= d.len()) {
        AcpiError::InvalidLength { context: "SDT header", length: sdt_declared_len(d) as u32 }
    } else {
        AcpiError::InvalidChecksum
    }
}

/// The header that `parse_sdt_header` returns for `d`.
pub open spec fn sdt_header_of(d: Seq<u8>, h: SdtHeader) -> bool {
    &&& h.signature@ == d.subrange(0, 4)
    &&& h.length == sdt_declared_len(d)
    &&& h.revision == d[8]
}

/// Parses the common SDT header at the start of `data`, checking its declared
/// length and the checksum over the whole declared table.
pub fn parse_sdt_header(data: &[u8]) -> (r: Result<SdtHeader, AcpiError>)
    ensures
        sdt_header_valid(data@) <==> r is Ok,
        r matches Ok(h) ==> sdt_header_of(data@, h),
        r matches Err(e) ==> e == sdt_header_error(data@),
{
    ensure_len(data, SDT_HEADER_LEN)?;
    let signature = read_signature(data, 0)?;
    let length = read_u32_le(data, 4)?;
    if length as usize > data.len() || (length as usize) < SDT_HEADER_LEN {
        return Err(AcpiError::InvalidLength { context: "SDT header", length });
    }
    let revision = read_u8(data, 8)?;
    if prefix_checksum(data, length as usize) != 0 {
        return Err(AcpiError::InvalidChecksum);
    }
    Ok(SdtHeader { signature, length, revision })
}

} // verus!
