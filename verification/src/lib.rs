//! Inventory of the shared libraries that ELF binaries depend on.
//!
//! The crate classifies a file's bytes by the machine named in its ELF header,
//! reads the names of the libraries that its dynamic section asks for, and
//! groups such findings by architecture and library into a ranked report.
//! Everything here works on plain values; reading directories and files is
//! left to the caller.

pub mod arch;
pub mod bytes;
pub mod classify;
pub mod collect;
pub mod extract;
pub mod laws;
pub mod names;
pub mod report;
