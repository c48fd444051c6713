//! Property checks over the persistent `OrdMap` and `Vector` collections of `im`.

pub mod persistent;
pub mod text;
pub mod keys;
pub mod properties;
pub mod adapters;
pub mod report;
