//! A loader for Wavefront OBJ geometry: text lines in, a mesh description out.
//!
//! Every function of this crate is verified. Numbers are kept as the literals
//! that were read, checked against the grammar of floating-point literals;
//! turning a literal into a machine float is left to the caller.

pub mod error;
pub mod index;
pub mod laws;
pub mod number;
pub mod obj;
pub mod text;

pub use error::LoadingError;
pub use number::Scalar;
pub use obj::{Entry, ObjData};
