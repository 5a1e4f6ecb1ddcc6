//! Plain value types: addresses, sizes and typed pointers.

pub mod address;
pub mod pointer64;
pub mod size;
