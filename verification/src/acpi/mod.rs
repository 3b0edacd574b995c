//! Strict minimal ACPI table parsers (RSDP, RSDT/XSDT, MADT, DMAR, MCFG).
//! No AML interpretation is attempted.

pub mod error;
pub mod table;
pub mod rsdp;
pub mod sdt;
pub mod mcfg;
pub mod madt;
pub mod dmar;
pub mod summary;
