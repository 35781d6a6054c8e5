//! The decision core of a tiered EVM code cache.
//!
//! The backend thread of the runtime observes lookups, decides which bytecode to compile, which
//! persisted artifacts to load, and which compiled programs to evict. This crate holds those
//! decisions; performing them (reading the artifact store, opening libraries, talking to the
//! compiler workers) is the caller's part.
pub mod admission;
pub mod backend;
pub mod bytecode;
pub mod clock;
pub mod config;
pub mod events;
pub mod keymap;
pub mod keys;
pub mod linker;
pub mod resident;
pub mod storage;
pub mod sums;
