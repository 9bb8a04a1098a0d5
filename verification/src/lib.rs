//! Verified core of a Windows binary database generator.
//!
//! The crate models the data and the decision logic of a pipeline that
//! collects Windows executables (PE files) and their debugging symbols
//! (PDB files) across OS versions and architectures, and summarizes each
//! binary into a JSON database: exports, debug symbols, modules,
//! reconstructed types, and — for kernel and system DLLs — the table of
//! system-call numbers mapped to implementation names.
//!
//! Network and file I/O live outside this crate; the functions here work
//! on plain values and are verified.
//!
//! Reconstructed types come from an external type reconstructor that is
//! driven through the session protocol in [`typext`]; a shell built
//! without that backend hands in no reconstructed types, and every
//! record's types field then stays empty.

pub mod arch;
pub mod configuration;
pub mod database;
pub mod error;
pub mod json;
pub mod jsonout;
pub mod lebytes;
pub mod pdb;
pub mod pe;
pub mod strmap;
pub mod strset;
pub mod syscalls;
pub mod text;
pub mod typext;
pub mod u32map;
pub mod winbindex;
