//! A static type checker for an optionally annotated scripting language: nested
//! scopes, a small type model, per-construct inference and diagnostics.

pub mod ast;
pub mod checker;
pub mod environment;
pub mod pretty_printer;
pub mod report;
pub mod type_var;
