//! Access to the target's memory: remapping, physical providers,
//! translation, caches and the virtual view built from them.

pub mod mem_map;
pub mod cache;
pub mod dummy;
pub mod phys;
pub mod virt_mem;
pub mod virt_translate;
