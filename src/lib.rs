//! Loading of line-oriented geometry (`.obj`) and material (`.mtl`) text into a
//! mesh partitioned by material.
//!
//! The library works on the bytes of the files. Numeric values are validated
//! and kept as their literal text; resolving them to machine floats is left to
//! the caller.

pub mod assemble;
pub mod error;
pub mod laws;
pub mod number;
pub mod mtl;
pub mod obj;
pub mod text;
pub mod texture;
