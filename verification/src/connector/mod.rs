//! Connectors: providers of physical memory that live in plugin libraries.

pub mod plugin;
