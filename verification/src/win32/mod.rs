//! The Windows kernel layer: its configuration, and the search for the
//! kernel image.

pub mod ntos;
pub mod plugins;
