//! Foreign-function interface support.
pub mod error;
