//! Type checking of generic sum-type declarations.
//!
//! The crate checks a parsed sum-type ("enum"-style) declaration: it binds the
//! declaration's type parameters in a fresh scope, resolves every variant's
//! payload type to a canonical identifier from a shared interner, and
//! assembles a fully-qualified checked declaration. Failures are recorded as
//! diagnostics and never abort the check: a failed type parameter is retained
//! with the error-recovery sentinel substituted, a failed variant is dropped
//! from the output.

pub mod ast;
pub mod checker;
pub mod diagnostics;
pub mod interner;
pub mod laws;
pub mod resolver;
pub mod scope;
