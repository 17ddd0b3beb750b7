//! Cross-reference lookup engine over three related record sets: hardware
//! assemblies, drive/enclosure pairings, and support tickets.
//!
//! The engine searches all three sets for a case-insensitive substring,
//! follows the foreign-key links between them (assembly -> drive -> ticket)
//! into a deduplicated report, decodes a legacy numeric build-date encoding
//! with a warranty status, and derives startup summary tables (frequency
//! counts, top-N rankings, parent-name grouping, colour legend indices).
//! Loading the snapshots from disk and all terminal output stay outside.

pub mod aggregate;
pub mod correlate;
pub mod dates;
pub mod model;
pub mod numbers;
pub mod query;
pub mod render;
pub mod search;
pub mod snapshot;
pub mod text;
