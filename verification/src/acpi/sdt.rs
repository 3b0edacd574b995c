//! Root and Extended System Description Table parsers.

use vstd::prelude::*;

use crate::acpi::error::AcpiError;
use crate::acpi::table::{
    parse_sdt_header, read_u32_le, read_u64_le, sdt_header_error, sdt_header_of, sdt_header_valid,
    SdtHeader, SDT_HEADER_LEN,
};
use crate::bytes::{le_u32, le_u64};
use crate::types::HostPhysAddr;

verus! {

/// RSDT signature.
pub const RSDT_SIGNATURE: [u8; 4] = [0x52, 0x53, 0x44, 0x54];

/// XSDT signature.
pub const XSDT_SIGNATURE: [u8; 4] = [0x58, 0x53, 0x44, 0x54];

/// Parsed Root System Description Table.
#[derive(Clone, Debug, PartialEq, Eq)]
pub struct Rsdt {
    /// SDT header for the RSDT.
    pub header: SdtHeader,
    /// Physical addresses of tables referenced by the RSDT (zero entries skipped).
    pub entries: Vec<HostPhysAddr>,
}

/// Parsed Extended System Description Table.
#[derive(Clone, Debug, PartialEq, Eq)]
pub struct Xsdt {
    /// SDT header for the XSDT.
    pub header: SdtHeader,
    /// Physical addresses of tables referenced by the XSDT (zero entries skipped).
    pub entries: Vec<HostPhysAddr>,
}

/// Non-zero pointers of width `w` (4 or 8) in `d[off..end)`, in table order.
pub open spec fn root_entries(d: Seq<u8>, off: int, end: int, w: int) -> Seq<HostPhysAddr>
    decreases end - off,
{
    if w <= 0 || off + w > end {
        Seq::empty()
    } else {
        let v = if w == 4 { le_u32(d, off) } else { le_u64(d, off) };
        let rest = root_entries(d, off + w, end, w);
        if v == 0 {
            rest
        } else {
            seq![HostPhysAddr(v as u64)] + rest
        }
    }
}

/// Four bytes equal a signature constant.
pub open spec fn sig_eq(a: [u8; 4], b: [u8; 4]) -> bool {
    a@ == b@
}

/// Compares two four-byte signatures.
pub fn same_signature(a: [u8; 4], b: [u8; 4]) -> (r: bool)
    ensures
        r == sig_eq(a, b),
{
    let r = a[0] == b[0] && a[1] == b[1] && a[2] == b[2] && a[3] == b[3];
    proof {
        if r {
            assert(a@ =~= b@);
        } else if a@ == b@ {
            assert(a@[0] == b@[0] && a@[1] == b@[1] && a@[2] == b@[2] && a@[3] == b@[3]);
        }
    }
    r
}

/// The shared contract of the two root-table parsers.
pub open spec fn root_table_ok(d: Seq<u8>, sig: [u8; 4], w: int, h: SdtHeader, entries: Seq<
    HostPhysAddr,
>) -> bool {
    &&& sdt_header_valid(d)
    &&& sdt_header_of(d, h)
    &&& sig_eq(h.signature, sig)
    &&& (h.length - SDT_HEADER_LEN) % w == 0
    &&& entries == root_entries(d, SDT_HEADER_LEN as int, h.length as int, w)
}

fn collect_root_entries(data: &[u8], table_len: usize, w: usize) -> (r: Vec<HostPhysAddr>)
    requires
        w == 4 || w == 8,
        SDT_HEADER_LEN <= table_len <= data@.len(),
    ensures
        r@ == root_entries(data@, SDT_HEADER_LEN as int, table_len as int, w as int),
{
    let mut entries: Vec<HostPhysAddr> = Vec::new();
    let mut offset: usize = SDT_HEADER_LEN;
    while offset <= table_len - w
        invariant
            w == 4 || w == 8,
            SDT_HEADER_LEN <= offset <= table_len,
            table_len <= data@.len(),
            entries@ + root_entries(data@, offset as int, table_len as int, w as int)
                == root_entries(data@, SDT_HEADER_LEN as int, table_len as int, w as int),
        decreases table_len - offset,
    {
        let pointer: u64 = if w == 4 {
            match read_u32_le(data, offset) {
                Ok(v) => v as u64,
                Err(_) => 0,
            }
        } else {
            match read_u64_le(data, offset) {
                Ok(v) => v,
                Err(_) => 0,
            }
        };
        let ghost before = entries@;
        if pointer != 0 {
            entries.push(HostPhysAddr::new(pointer));
            proof {
                assert(entries@ =~= before + seq![HostPhysAddr(pointer)]);
                assert(before + seq![HostPhysAddr(pointer)] + root_entries(
                    data@,
                    offset + w,
                    table_len as int,
                    w as int,
                ) =~= before + (seq![HostPhysAddr(pointer)] + root_entries(
                    data@,
                    offset + w,
                    table_len as int,
                    w as int,
                )));
            }
        }
        offset = offset + w;
    }
    entries
}

/// Parses an RSDT from `data`: header, signature, checksum, and the array of
/// 32-bit table pointers (zero pointers skipped).
pub fn parse_rsdt(data: &[u8]) -> (r: Result<Rsdt, AcpiError>)
    ensures
        !sdt_header_valid(data@) ==> r == Err::<Rsdt, AcpiError>(sdt_header_error(data@)),
        sdt_header_valid(data@) && data@.subrange(0, 4) != RSDT_SIGNATURE@ ==> (r
            is Err && (r->Err_0 matches AcpiError::InvalidSignature { expected, found } && expected
            == "RSDT" && found@ == data@.subrange(0, 4))),
        r matches Ok(t) ==> root_table_ok(data@, RSDT_SIGNATURE, 4, t.header, t.entries@),
        sdt_header_valid(data@) && data@.subrange(0, 4) == RSDT_SIGNATURE@ ==> (r is Ok
            <==> (le_u32(data@, 4) - SDT_HEADER_LEN) % 4 == 0),
        sdt_header_valid(data@) && data@.subrange(0, 4) == RSDT_SIGNATURE@ && r is Err
            ==> r == Err::<Rsdt, AcpiError>(
            AcpiError::InvalidStructure {
                kind: "RSDT",
                reason: "entry array length is not a multiple of four",
            },
        ),
{
    let header = parse_sdt_header(data)?;
    if !same_signature(header.signature, RSDT_SIGNATURE) {
        return Err(AcpiError::InvalidSignature { expected: "RSDT", found: header.signature });
    }
    let table_len = header.length as usize;
    let body = table_len - SDT_HEADER_LEN;
    if body % 4 != 0 {
        return Err(
            AcpiError::InvalidStructure {
                kind: "RSDT",
                reason: "entry array length is not a multiple of four",
            },
        );
    }
    let entries = collect_root_entries(data, table_len, 4);
    Ok(Rsdt { header, entries })
}

/// Parses an XSDT from `data`: header, signature, checksum, and the array of
/// 64-bit table pointers (zero pointers skipped).
pub fn parse_xsdt(data: &[u8]) -> (r: Result<Xsdt, AcpiError>)
    ensures
        !sdt_header_valid(data@) ==> r == Err::<Xsdt, AcpiError>(sdt_header_error(data@)),
        sdt_header_valid(data@) && data@.subrange(0, 4) != XSDT_SIGNATURE@ ==> (r
            is Err && (r->Err_0 matches AcpiError::InvalidSignature { expected, found } && expected
            == "XSDT" && found@ == data@.subrange(0, 4))),
        r matches Ok(t) ==> root_table_ok(data@, XSDT_SIGNATURE, 8, t.header, t.entries@),
        sdt_header_valid(data@) && data@.subrange(0, 4) == XSDT_SIGNATURE@ ==> (r is Ok
            <==> (le_u32(data@, 4) - SDT_HEADER_LEN) % 8 == 0),
        sdt_header_valid(data@) && data@.subrange(0, 4) == XSDT_SIGNATURE@ && r is Err
            ==> r == Err::<Xsdt, AcpiError>(
            AcpiError::InvalidStructure {
                kind: "XSDT",
                reason: "entry array length is not a multiple of eight",
            },
        ),
{
    let header = parse_sdt_header(data)?;
    if !same_signature(header.signature, XSDT_SIGNATURE) {
        return Err(AcpiError::InvalidSignature { expected: "XSDT", found: header.signature });
    }
    let table_len = header.length as usize;
    let body = table_len - SDT_HEADER_LEN;
    if body % 8 != 0 {
        return Err(
            AcpiError::InvalidStructure {
                kind: "XSDT",
                reason: "entry array length is not a multiple of eight",
            },
        );
    }
    let entries = collect_root_entries(data, table_len, 8);
    Ok(Xsdt { header, entries })
}

} // verus!
