//! Formatting of the primitive and standard types.

pub mod array;
pub mod bin;
pub mod collections;
pub mod float;
pub mod hex;
pub mod ixx;
pub mod owned;
pub mod prim;
pub mod ptr;
pub mod records;
pub mod text;
pub mod tuple;
pub mod uxx;
