//! A verified engine that builds a single, deduplicated inventory of
//! installed applications from several overlapping, individually
//! unreliable sources.
//!
//! The crate normalizes raw record fields, filters out uninstaller and
//! update noise, deduplicates candidates across sources by a derived
//! identity under a fixed trust order, back-fills missing icon locations
//! through a layered fallback search, and sorts the result by
//! case-insensitive name.  All raw data (registry values, resolved
//! shortcuts, directory listings, script output) is collected by the
//! caller and handed in as plain values; everything the engine decides
//! is verified.

pub mod adapters;
pub mod aggregate;
pub mod dedup;
pub mod filter;
pub mod icons;
pub mod matching;
pub mod normalize;
pub mod paths;
pub mod record;
pub mod sort;
pub mod text;
pub mod tokens;
