//! What can go wrong in the kernel.

use crate::ast::Name;
use crate::ast::NameView;
use crate::ast::Span;
use crate::ast::Term;
use crate::ast::TermView;
use vstd::prelude::*;

verus! {

/// A failure that a well-formed module never causes.
#[derive(Clone, Copy, Debug, PartialEq, Eq, Structural)]
pub enum Fault {
    /// A bound variable reached type inference without having been opened.
    UnboundVariable,
    /// A placeholder reached type inference.
    UntypedPlaceholder,
    /// An integer literal reached type inference, which gives it no type.
    UnsupportedLiteral,
    /// A local was asked for under a name that is not a bound variable's.
    NotDeBruijn,
    /// A term was to be closed over a name that is not a local's.
    NotLocal,
    /// A datatype was declared under a name that is not a global's.
    NotGlobal,
    /// A recursor lacks its scrutinee or the premise of a constructor.
    MalformedRecursor,
    /// Reduction went on for more nested steps than the budget allows.
    StepBudgetExhausted,
    /// An index or a depth left the range of `usize`.
    IndexOverflow,
    /// No tag is left for a new local.
    LocalsExhausted,
}

/// An error of the kernel.
#[derive(Debug, PartialEq)]
pub enum Error {
    /// The name is neither defined nor declared.
    UnknownVariable(Name),
    /// The name is in use already.
    NameExists(Name),
    /// The module has no function `main`.
    NoMain,
    /// Two terms that should be definitionally equal are not: the span of
    /// the term that was checked, the two normal forms, and the pairs of
    /// subterms at which they differ.
    DefUnequal(Span, Term, Term, Vec<(Term, Term)>),
    /// The function of an application has no function type: the span of the
    /// application, the function and the argument.
    ApplicationMismatch(Span, Term, Term),
    /// A module could not be loaded.
    Import(String),
    /// Several errors at once.
    Many(Vec<Error>),
    /// A failure that a well-formed module never causes.
    Internal(Fault),
}

/// What an error is, without spans and hints.
pub enum ErrorView {
    UnknownVariable(NameView),
    NameExists(NameView),
    NoMain,
    DefUnequal { lhs: TermView, rhs: TermView, log: Seq<(TermView, TermView)> },
    ApplicationMismatch { fun: TermView, arg: TermView },
    Import(Seq<char>),
    Many(Seq<ErrorView>),
    Internal(Fault),
}

/// The views of a sequence of pairs of terms.
pub open spec fn pairs_view(pairs: Seq<(Term, Term)>) -> Seq<(TermView, TermView)> {
    Seq::new(pairs.len(), |i: int| (pairs[i].0@, pairs[i].1@))
}

/// The view of an error.
pub open spec fn error_view(error: Error) -> ErrorView
    decreases error,
{
    match error {
        Error::UnknownVariable(name) => ErrorView::UnknownVariable(name@),
        Error::NameExists(name) => ErrorView::NameExists(name@),
        Error::NoMain => ErrorView::NoMain,
        Error::DefUnequal(_, lhs, rhs, log) => ErrorView::DefUnequal {
            lhs: lhs@,
            rhs: rhs@,
            log: pairs_view(log@),
        },
        Error::ApplicationMismatch(_, fun, arg) => ErrorView::ApplicationMismatch {
            fun: fun@,
            arg: arg@,
        },
        Error::Import(message) => ErrorView::Import(message@),
        Error::Many(errors) => ErrorView::Many(
            Seq::new(
                errors@.len(),
                |i: int|
                    if 0 <= i < errors@.len() {
                        error_view(errors@[i])
                    } else {
                        ErrorView::NoMain
                    },
            ),
        ),
        Error::Internal(fault) => ErrorView::Internal(fault),
    }
}

impl View for Error {
    type V = ErrorView;

    open spec fn view(&self) -> ErrorView {
        error_view(*self)
    }
}

/// The views of a sequence of errors.
pub open spec fn errors_view(errors: Seq<Error>) -> Seq<ErrorView> {
    Seq::new(errors.len(), |i: int| errors[i]@)
}

/// The errors in the view of a batch are the views of its errors.
pub proof fn lemma_many_view(errors: Vec<Error>)
    ensures
        Error::Many(errors)@ == ErrorView::Many(errors_view(errors@)),
{
    assert(Error::Many(errors)@->Many_0 =~= errors_view(errors@));
}

/// The failure `fault`, as an error of any result type.
pub fn fail<T>(fault: Fault) -> (r: Result<T, Error>)
    ensures
        r matches Err(e) && e@ == ErrorView::Internal(fault),
{
    Err(Error::Internal(fault))
}

} // verus!
