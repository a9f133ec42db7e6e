//! Building blocks shared by the entities and the algorithms.
pub mod capped;
pub mod generators;
pub mod numeric;
pub mod parameters;
pub mod sums;
pub mod traits;
