//! Verified core of the Hypster static partitioning hypervisor: ACPI and ELF
//! parsers, boot ABI layout checks, IPC rings, EPT construction, device
//! models, CPU planning and the configuration pipeline.

pub mod acpi;
pub mod boot;
pub mod boot_abi;
pub mod platform;
pub mod config;
pub mod bytes;
pub mod cpu;
pub mod cpu_topology;
pub mod e1000;
pub mod elf;
pub mod ept;
pub mod guest_abi;
pub mod ipc;
pub mod text;
pub mod types;
