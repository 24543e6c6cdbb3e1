//! Rewrites fragment shaders written against a shader playground's
//! implicit-uniform conventions into explicit-uniform form, and compiles the
//! result to a binary shader intermediate format, with an aggregated
//! diagnostic when the in-process path and the external fallback both fail.

pub mod compile;
pub mod laws;
pub mod rewrite;
pub mod scan;
pub mod text;
