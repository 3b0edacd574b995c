//! Platform observation, contract validation against the configuration's
//! requirements, and the QEMU validation fixture.

pub mod observed;
pub mod validate;
pub mod fixture;
pub mod error;
