//! Resolves a raw memory address against a textual memory-map snapshot.
//!
//! The library parses line-oriented memory-map records into typed
//! range/permission/backing descriptors, finds the record whose address
//! range contains a query address, and classifies the matched region by
//! its permission bits and backing-file name, disambiguating several
//! mappings that share one backing file through an occurrence count.
//! Reading the map text and printing results are left to the caller.

pub mod classify;
pub mod decimal;
pub mod fields;
pub mod hex;
pub mod histogram;
pub mod record;
pub mod resolve;
pub mod textops;

pub use classify::RegionKind;
pub use classify::classify;
pub use classify::determine_region_type;
pub use hex::parse_hex_str;
pub use record::MemoryRegionRecord;
pub use record::parse_line;
pub use resolve::RegionClassification;
pub use resolve::resolve;
