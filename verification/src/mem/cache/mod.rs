//! Caches over the provider and over the translator, with the validators
//! that decide how long an entry may be served.

pub mod page_cache;
pub mod tlb_cache;
pub mod validator;
