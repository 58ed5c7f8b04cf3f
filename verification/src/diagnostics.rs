//! The diagnostic sink. Checking failures are recorded through
//! `sway_error`'s `Handler` and never unwind; every recording hands back an
//! `ErrorEmitted` token, the proof that the failure was surfaced.
//!
//! The handler is modelled as the sequence of [`DiagView`] values it holds,
//! named by the uninterpreted function [`handler_errors`].

use vstd::prelude::*;
use crate::ast::Span;
use sway_error::error::CompileError;
use sway_error::handler::{ErrorEmitted, Handler};

verus! {

/// One type-checking failure, together with the names it is about.
#[derive(Clone, Debug, PartialEq, Eq)]
pub enum Diagnostic {
    /// A name was bound twice within one scope.
    DuplicateDeclaration { name: String, span: Span },
    /// A type parameter's constraint names an unknown trait.
    ConstraintViolation { param: String, constraint: String, span: Span },
    /// A variant's payload type reference could not be resolved.
    TypeResolutionFailure { name: String, span: Span },
    /// A generic type was referenced without its mandatory explicit arguments.
    MissingTypeArguments { name: String, span: Span },
}

/// The mathematical value of a [`Diagnostic`]: its kind and its names as
/// character sequences. The span is not part of the value: the sink the
/// diagnostics land in does not retain this library's source offsets (see
/// [`emit_error`]), so nothing may be proved about them.
pub enum DiagView {
    DuplicateDeclaration { name: Seq<char> },
    ConstraintViolation { param: Seq<char>, constraint: Seq<char> },
    TypeResolutionFailure { name: Seq<char> },
    MissingTypeArguments { name: Seq<char> },
}

impl View for Diagnostic {
    type V = DiagView;

    open spec fn view(&self) -> DiagView {
        match self {
            Diagnostic::DuplicateDeclaration { name, .. } => DiagView::DuplicateDeclaration {
                name: name@,
            },
            Diagnostic::ConstraintViolation { param, constraint, .. } => {
                DiagView::ConstraintViolation { param: param@, constraint: constraint@ }
            },
            Diagnostic::TypeResolutionFailure { name, .. } => DiagView::TypeResolutionFailure {
                name: name@,
            },
            Diagnostic::MissingTypeArguments { name, .. } => DiagView::MissingTypeArguments {
                name: name@,
            },
        }
    }
}

#[verifier::external_type_specification]
#[verifier::external_body]
pub struct ExHandler(Handler);

#[verifier::external_type_specification]
#[verifier::external_body]
pub struct ExErrorEmitted(ErrorEmitted);

/// The diagnostics that `h` holds, in the order they were emitted, each read
/// as the [`DiagView`] it stands for.
pub uninterp spec fn handler_errors(h: Handler) -> Seq<DiagView>;

/// Relies on `Handler::default`: a fresh handler's error sink is empty.
#[verifier::external_body]
pub fn new_handler() -> (h: Handler)
    ensures
        handler_errors(h) == Seq::<DiagView>::empty(),
{
    Handler::default()
}

/// Relies on `Handler::emit_err`: it appends the given error to the handler's
/// sink and returns the token proving that the error was recorded. The
/// diagnostic is converted to the matching `CompileError`. The span offsets
/// are not carried over — `sway_error` spans index a source text this library
/// does not hold, so the error is built with a placeholder span — which is
/// why [`DiagView`], the value pushed here, holds no span.
#[verifier::external_body]
pub fn emit_error(h: &mut Handler, d: Diagnostic) -> (t: ErrorEmitted)
    ensures
        handler_errors(*final(h)) == handler_errors(*old(h)).push(d@),
{
    let sp = sway_types::Span::dummy();
    let err = match d {
        Diagnostic::DuplicateDeclaration { name, .. } => CompileError::MultipleDefinitionsOfName { name: sway_types::Ident::new_no_span(name).into() },
        Diagnostic::ConstraintViolation { param, constraint, .. } => CompileError::TraitConstraintMissing { param, trait_name: constraint, span: sp },
        Diagnostic::TypeResolutionFailure { name, .. } => CompileError::UnknownTypeName { name, span: sp },
        Diagnostic::MissingTypeArguments { name, .. } => CompileError::NeedsTypeArguments { name: sway_types::Ident::new_no_span(name), span: sp },
    };
    h.emit_err(err)
}

} // verus!
