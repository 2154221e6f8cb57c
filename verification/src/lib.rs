//! Resolution of logical "virtual database" (VDB) names onto backend engines.
//!
//! A [`vdb::VDB`] owns an ordered mapping from engine index to a per-engine
//! database name, together with a routing kind: a combinator returns every
//! mapped engine, a distributor picks a single one by load balancing or by a
//! mutable fail-over primary.  A [`collection::VDBCollection`] owns many VDBs
//! keyed by name and resolves a comma-separated name list into one aggregated,
//! per-engine result.

pub mod collection;
pub mod engine_map;
pub mod errors;
pub mod seq_keys;
pub mod text;
pub mod vdb;
