//! Verifies a toolchain installation: for every supported target platform
//! that is actually installed under a sysroot, the precompiled libraries the
//! platform requires must be present, each exactly once.
//!
//! The crate is pure logic: it parses library file names, tallies the
//! libraries found in a directory listing, and compares the tally against the
//! set a target requires. Reading the filesystem and reporting results are
//! left to the caller, which hands directory listings in as plain values.

pub mod parser;
pub mod registry;
pub mod scanner;
pub mod checks;
