//! Driver-side logic of a YCSB load-testing harness for a key-value store:
//! translation of the generator's textual operation log into store calls,
//! the feeder state machine of one driver, and latency statistics that can
//! be merged across concurrently running drivers.

pub mod call;
pub mod driver;
pub mod error;
pub mod feeder;
pub mod feeder_laws;
pub mod keys;
pub mod order;
pub mod sort;
pub mod stats;
pub mod stats_laws;
pub mod text;
pub mod translate;
