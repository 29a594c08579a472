//! Detection and install-orchestration core of a Linux GPU driver manager.
//!
//! The library normalizes the output of system probes (PCI listings, the OS
//! release file, package-repository listings) into structured facts, compares
//! dotted version strings, and drives a single-flight install/remove state
//! machine that streams ordered progress events to an observer. All I/O is
//! left to the surrounding application; every function here is pure and
//! verified against its contract.

pub mod catalog;
pub mod detector;
pub mod i18n;
pub mod orchestrator;
pub mod strutil;
pub mod updater;
pub mod version;
