//! ACPI parsing error taxonomy.

use vstd::prelude::*;
use vstd::string::*;

use crate::text::{decimal, push_decimal};
use crate::types::{hex_chars, push_hex};

verus! {

/// Errors produced while parsing ACPI tables.
#[derive(Clone, Debug, PartialEq, Eq)]
pub enum AcpiError {
    /// Input buffer is shorter than required.
    BufferTooShort {
        /// Minimum bytes needed for the operation.
        needed: usize,
        /// Bytes available in the input.
        available: usize,
    },
    /// Table or structure signature did not match.
    InvalidSignature {
        /// Expected ASCII signature.
        expected: &'static str,
        /// Signature bytes found in the input.
        found: [u8; 4],
    },
    /// ACPI checksum validation failed.
    InvalidChecksum,
    /// Declared table length is invalid or inconsistent.
    InvalidLength {
        /// Human-readable context, e.g. table name.
        context: &'static str,
        /// Declared length value.
        length: u32,
    },
    /// A nested structure within a table is malformed.
    InvalidStructure {
        /// Table or entry kind.
        kind: &'static str,
        /// Human-readable reason.
        reason: &'static str,
    },
    /// Table revision is not supported by this parser.
    UnsupportedRevision {
        /// Table name.
        table: &'static str,
        /// Revision byte from the header.
        revision: u8,
    },
}

/// Debug text of signature bytes: two lowercase hex digits each, in brackets.
pub open spec fn signature_bytes_text(b: [u8; 4]) -> Seq<char> {
    seq!['['] + hex_chars(b@[0] as int, 2) + ", "@ + hex_chars(b@[1] as int, 2) + ", "@ + hex_chars(
        b@[2] as int,
        2,
    ) + ", "@ + hex_chars(b@[3] as int, 2) + seq![']']
}

/// Human-readable description of an ACPI error.
pub open spec fn acpi_error_text(e: AcpiError) -> Seq<char> {
    match e {
        AcpiError::BufferTooShort { needed, available } => "buffer too short: need "@ + decimal(
            needed as nat,
        ) + " bytes, have "@ + decimal(available as nat),
        AcpiError::InvalidSignature { expected, found } => "invalid signature: expected "@ + expected@
            + ", found "@ + signature_bytes_text(found),
        AcpiError::InvalidChecksum => "invalid ACPI checksum"@,
        AcpiError::InvalidLength { context, length } => "invalid "@ + context@ + " length: "@ + decimal(
            length as nat,
        ),
        AcpiError::InvalidStructure { kind, reason } => "invalid "@ + kind@ + ": "@ + reason@,
        AcpiError::UnsupportedRevision { table, revision } => "unsupported "@ + table@ + " revision: "@
            + decimal(revision as nat),
    }
}

impl AcpiError {
    /// Human-readable description of the error.
    pub fn message(&self) -> (r: String)
        ensures
            r@ == acpi_error_text(*self),
    {
        match self {
            AcpiError::BufferTooShort { needed, available } => {
                let mut out = String::from_str("buffer too short: need ");
                push_decimal(&mut out, *needed as u64);
                out.append(" bytes, have ");
                push_decimal(&mut out, *available as u64);
                out
            },
            AcpiError::InvalidSignature { expected, found } => {
                let mut out = String::from_str("invalid signature: expected ");
                out.append(expected);
                out.append(", found ");
                let ghost before = out@;
                out.append("[");
                push_hex(&mut out, found[0] as u32, 2);
                out.append(", ");
                push_hex(&mut out, found[1] as u32, 2);
                out.append(", ");
                push_hex(&mut out, found[2] as u32, 2);
                out.append(", ");
                push_hex(&mut out, found[3] as u32, 2);
                out.append("]");
                proof {
                    reveal_strlit("[");
                    reveal_strlit("]");
                    assert(out@ =~= before + signature_bytes_text(*found));
                }
                out
            },
            AcpiError::InvalidChecksum => String::from_str("invalid ACPI checksum"),
            AcpiError::InvalidLength { context, length } => {
                let mut out = String::from_str("invalid ");
                out.append(context);
                out.append(" length: ");
                push_decimal(&mut out, *length as u64);
                out
            },
            AcpiError::InvalidStructure { kind, reason } => {
                let mut out = String::from_str("invalid ");
                out.append(kind);
                out.append(": ");
                out.append(reason);
                out
            },
            AcpiError::UnsupportedRevision { table, revision } => {
                let mut out = String::from_str("unsupported ");
                out.append(table);
                out.append(" revision: ");
                push_decimal(&mut out, *revision as u64);
                out
            },
        }
    }
}

} // verus!
