//! Decision support: utility scoring as a named extension point.

pub mod utility;

pub use utility::UtilityFunction;
