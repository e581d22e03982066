//! Failure/repair bookkeeping for software artifacts: every break that is
//! repaired is recorded, counted and ranked, and the lessons it taught are kept.
//!
//! Values are binary64 floating-point numbers held by their IEEE-754 encoding
//! ([`Float64`]). The library compares encodings; arithmetic on values (sums,
//! averages, square roots) is done by the caller, who hands the library the
//! binary64 sum where a repair adds value.

pub mod artifact;
pub mod break_type;
pub mod clock;
pub mod distribution;
pub mod error;
pub mod float_bits;
pub mod ledger;
pub mod policy;
pub mod ranking;
pub mod repair;

pub use artifact::KintsugiArtifact;
pub use break_type::BreakType;
pub use clock::uuid_stamp;
pub use distribution::CategoryCounts;
pub use error::KintsugiError;
pub use float_bits::Float64;
pub use ledger::KintsugiLedger;
pub use policy::KintsugiPolicy;
pub use repair::KintsugiRepair;
