//! Memory introspection core: address and pointer values, memory maps,
//! virtual-to-physical translation, caches and the connector inventory.

pub mod dataview;
pub mod error;
pub mod types;
pub mod plugins;
pub mod architecture;
pub mod win32;
pub mod connector;
pub mod mem;
