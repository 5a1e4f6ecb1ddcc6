//! Argument strings and the plumbing shared by everything that is
//! configured through them.

pub mod args;
pub mod text;
