//! Semantic Versioning 2.0.0: validation of version strings and computation
//! of the next version for a bump command.

pub mod bump;
pub mod chars;
pub mod decimal;
pub mod dotted;
pub mod ident;
pub mod laws;
pub mod usage;
pub mod validate;
pub mod version;
