//! The term algebra: shifting, instantiation and abstraction of bound
//! variables, application spines, and structural rewriting.
//!
//! Indices and binder depths are machine integers. The functions here say
//! `None` where one of them would leave the range of `usize`, and the
//! executable versions then fail with `Fault::IndexOverflow`.

use crate::ast::lemma_recursor_view;
use crate::ast::term_view;
use crate::ast::terms_view;
use crate::ast::Name;
use crate::ast::NameView;
use crate::ast::Span;
use crate::ast::Term;
use crate::ast::TermView;
use crate::error::Error;
use crate::error::ErrorView;
use crate::error::fail;
use crate::error::Fault;
use vstd::prelude::*;

verus! {

/// The terms of `items`, where all are there.
pub open spec fn collect(items: Seq<Option<TermView>>) -> Option<Seq<TermView>> {
    if forall|i: int| 0 <= i < items.len() ==> (#[trigger] items[i]) is Some {
        Some(Seq::new(items.len(), |i: int| items[i]->0))
    } else {
        None
    }
}

/// The lambda of two parts, where both are there.
pub open spec fn lambda_of(ty: Option<TermView>, body: Option<TermView>) -> Option<TermView> {
    match (ty, body) {
        (Some(ty), Some(body)) => Some(TermView::Lambda { ty: Box::new(ty), body: Box::new(body) }),
        _ => None,
    }
}

/// The function type of two parts, where both are there.
pub open spec fn forall_of(ty: Option<TermView>, term: Option<TermView>) -> Option<TermView> {
    match (ty, term) {
        (Some(ty), Some(term)) => Some(TermView::Forall { ty: Box::new(ty), term: Box::new(term) }),
        _ => None,
    }
}

/// The application of two parts, where both are there.
pub open spec fn app_of(fun: Option<TermView>, arg: Option<TermView>) -> Option<TermView> {
    match (fun, arg) {
        (Some(fun), Some(arg)) => Some(TermView::App { fun: Box::new(fun), arg: Box::new(arg) }),
        _ => None,
    }
}

/// The recursor with the arguments `args`, where they are there.
pub open spec fn recursor_of(ty_name: NameView, offset: nat, args: Option<Seq<TermView>>) -> Option<
    TermView,
> {
    match args {
        Some(args) => Some(TermView::Recursor { ty_name, offset, args }),
        None => None,
    }
}

/// `t` with every bound-variable index that is at least `cutoff` raised by
/// `by`. Each binder passed raises the cutoff by one.
pub open spec fn shift(t: TermView, by: nat, cutoff: nat) -> Option<TermView>
    decreases t,
{
    match t {
        TermView::Var { name: NameView::DeBruijn { index } } => {
            if index < cutoff {
                Some(t)
            } else if index + by <= usize::MAX {
                Some(TermView::Var { name: NameView::DeBruijn { index: index + by } })
            } else {
                None
            }
        },
        TermView::Lambda { ty, body } => {
            if cutoff >= usize::MAX {
                None
            } else {
                lambda_of(shift(*ty, by, cutoff), shift(*body, by, cutoff + 1))
            }
        },
        TermView::Forall { ty, term } => {
            if cutoff >= usize::MAX {
                None
            } else {
                forall_of(shift(*ty, by, cutoff), shift(*term, by, cutoff + 1))
            }
        },
        TermView::App { fun, arg } => app_of(shift(*fun, by, cutoff), shift(*arg, by, cutoff)),
        TermView::Recursor { ty_name, offset, args } => recursor_of(
            ty_name,
            offset,
            collect(shift_each(args, by, cutoff)),
        ),
        _ => Some(t),
    }
}

/// `shift` of each term of `terms`.
pub open spec fn shift_each(terms: Seq<TermView>, by: nat, cutoff: nat) -> Seq<Option<TermView>>
    decreases terms,
{
    Seq::new(
        terms.len(),
        |i: int|
            if 0 <= i < terms.len() {
                shift(terms[i], by, cutoff)
            } else {
                None
            },
    )
}

/// `t` with the bound variable of index `depth` replaced by `value`, whose
/// own free indices are raised by `depth`, and every greater index lowered
/// by one. Each binder passed raises `depth` by one.
pub open spec fn instantiate_at(t: TermView, value: TermView, depth: nat) -> Option<TermView>
    decreases t,
{
    match t {
        TermView::Var { name: NameView::DeBruijn { index } } => {
            if index == depth {
                shift(value, depth, 0)
            } else if index > depth {
                Some(TermView::Var { name: NameView::DeBruijn { index: (index - 1) as nat } })
            } else {
                Some(t)
            }
        },
        TermView::Lambda { ty, body } => {
            if depth >= usize::MAX {
                None
            } else {
                lambda_of(instantiate_at(*ty, value, depth), instantiate_at(*body, value, depth + 1))
            }
        },
        TermView::Forall { ty, term } => {
            if depth >= usize::MAX {
                None
            } else {
                forall_of(instantiate_at(*ty, value, depth), instantiate_at(*term, value, depth + 1))
            }
        },
        TermView::App { fun, arg } => app_of(
            instantiate_at(*fun, value, depth),
            instantiate_at(*arg, value, depth),
        ),
        TermView::Recursor { ty_name, offset, args } => recursor_of(
            ty_name,
            offset,
            collect(instantiate_at_each(args, value, depth)),
        ),
        _ => Some(t),
    }
}

/// `instantiate_at` of each term of `terms`.
pub open spec fn instantiate_at_each(terms: Seq<TermView>, value: TermView, depth: nat) -> Seq<
    Option<TermView>,
>
    decreases terms,
{
    Seq::new(
        terms.len(),
        |i: int|
            if 0 <= i < terms.len() {
                instantiate_at(terms[i], value, depth)
            } else {
                None
            },
    )
}

/// The body `t` of a binder with `value` put for the bound variable.
pub open spec fn instantiate(t: TermView, value: TermView) -> Option<TermView> {
    instantiate_at(t, value, 0)
}

/// `t` with the local of tag `number` replaced by the bound variable of
/// index `depth`, and every index that is at least `depth` raised by one.
/// Each binder passed raises `depth` by one.
pub open spec fn abstract_at(t: TermView, number: nat, depth: nat) -> Option<TermView>
    decreases t,
{
    match t {
        TermView::Var { name: NameView::Local { number: tag, ty } } => {
            if tag == number {
                Some(TermView::Var { name: NameView::DeBruijn { index: depth } })
            } else {
                Some(t)
            }
        },
        TermView::Var { name: NameView::DeBruijn { index } } => {
            if index < depth {
                Some(t)
            } else if index + 1 <= usize::MAX {
                Some(TermView::Var { name: NameView::DeBruijn { index: index + 1 } })
            } else {
                None
            }
        },
        TermView::Lambda { ty, body } => {
            if depth >= usize::MAX {
                None
            } else {
                lambda_of(abstract_at(*ty, number, depth), abstract_at(*body, number, depth + 1))
            }
        },
        TermView::Forall { ty, term } => {
            if depth >= usize::MAX {
                None
            } else {
                forall_of(abstract_at(*ty, number, depth), abstract_at(*term, number, depth + 1))
            }
        },
        TermView::App { fun, arg } => app_of(
            abstract_at(*fun, number, depth),
            abstract_at(*arg, number, depth),
        ),
        TermView::Recursor { ty_name, offset, args } => recursor_of(
            ty_name,
            offset,
            collect(abstract_at_each(args, number, depth)),
        ),
        _ => Some(t),
    }
}

/// `abstract_at` of each term of `terms`.
pub open spec fn abstract_at_each(terms: Seq<TermView>, number: nat, depth: nat) -> Seq<
    Option<TermView>,
>
    decreases terms,
{
    Seq::new(
        terms.len(),
        |i: int|
            if 0 <= i < terms.len() {
                abstract_at(terms[i], number, depth)
            } else {
                None
            },
    )
}

/// The body of a binder that `t` becomes when closed over the local of tag
/// `number`.
pub open spec fn abstr(t: TermView, number: nat) -> Option<TermView> {
    abstract_at(t, number, 0)
}

/// The variable at the head of an application spine; `None` for a term
/// that is no spine of a variable.
pub open spec fn head(t: TermView) -> Option<TermView>
    decreases t,
{
    match t {
        TermView::App { fun, arg } => head(*fun),
        TermView::Var { name } => Some(t),
        _ => None,
    }
}

/// The arguments of an application spine, first to last; `None` for a term
/// that is no application.
pub open spec fn spine(t: TermView) -> Option<Seq<TermView>>
    decreases t,
{
    match t {
        TermView::App { fun, arg } => Some(
            match spine(*fun) {
                Some(before) => before.push(*arg),
                None => seq![*arg],
            },
        ),
        _ => None,
    }
}

/// `head` applied to the terms of `args`, one after the other.
pub open spec fn apply_all(head: TermView, args: Seq<TermView>) -> TermView
    decreases args.len(),
{
    if args.len() == 0 {
        head
    } else {
        apply_all(TermView::App { fun: Box::new(head), arg: Box::new(args[0]) }, args.drop_first())
    }
}

/// A test on terms that depends on nothing but the term's view.
pub trait TermPredicate {
    /// What the test needs to hold of itself to be decided.
    spec fn valid(&self) -> bool;

    /// Whether the test holds of `t`.
    spec fn holds(&self, t: TermView) -> bool;

    /// Decides the test.
    fn test(&self, t: &Term) -> (r: bool)
        requires
            self.valid(),
        ensures
            r == self.holds(t@),
    ;
}

/// The test of `p`, as a function on views.
pub open spec fn test_of<P: TermPredicate>(p: P) -> spec_fn(TermView) -> bool {
    |t: TermView| p.holds(t)
}

/// `t` with every subterm on which `p` holds replaced by `rhs`. A subterm
/// that is replaced is not looked into.
pub open spec fn replace(t: TermView, rhs: TermView, p: spec_fn(TermView) -> bool) -> TermView
    decreases t,
{
    if p(t) {
        rhs
    } else {
        match t {
            TermView::Lambda { ty, body } => TermView::Lambda {
                ty: Box::new(replace(*ty, rhs, p)),
                body: Box::new(replace(*body, rhs, p)),
            },
            TermView::Forall { ty, term } => TermView::Forall {
                ty: Box::new(replace(*ty, rhs, p)),
                term: Box::new(replace(*term, rhs, p)),
            },
            TermView::App { fun, arg } => TermView::App {
                fun: Box::new(replace(*fun, rhs, p)),
                arg: Box::new(replace(*arg, rhs, p)),
            },
            TermView::Recursor { ty_name, offset, args } => TermView::Recursor {
                ty_name,
                offset,
                args: replace_each(args, rhs, p),
            },
            _ => t,
        }
    }
}

/// `replace` of each term of `terms`.
pub open spec fn replace_each(terms: Seq<TermView>, rhs: TermView, p: spec_fn(TermView) -> bool)
    -> Seq<TermView>
    decreases terms,
{
    Seq::new(
        terms.len(),
        |i: int|
            if 0 <= i < terms.len() {
                replace(terms[i], rhs, p)
            } else {
                TermView::Type
            },
    )
}

/// Two tests that agree on every term replace the same subterms.
pub proof fn lemma_replace_agrees(
    t: TermView,
    rhs: TermView,
    p: spec_fn(TermView) -> bool,
    q: spec_fn(TermView) -> bool,
)
    requires
        forall|x: TermView| #[trigger] p(x) == q(x),
    ensures
        replace(t, rhs, p) == replace(t, rhs, q),
    decreases t,
{
    if !p(t) {
        match t {
            TermView::Lambda { ty, body } => {
                lemma_replace_agrees(*ty, rhs, p, q);
                lemma_replace_agrees(*body, rhs, p, q);
            },
            TermView::Forall { ty, term } => {
                lemma_replace_agrees(*ty, rhs, p, q);
                lemma_replace_agrees(*term, rhs, p, q);
            },
            TermView::App { fun, arg } => {
                lemma_replace_agrees(*fun, rhs, p, q);
                lemma_replace_agrees(*arg, rhs, p, q);
            },
            TermView::Recursor { ty_name, offset, args } => {
                assert forall|i: int| 0 <= i < args.len() implies replace(args[i], rhs, p)
                    == replace(args[i], rhs, q) by {
                    lemma_replace_agrees(args[i], rhs, p, q);
                }
                assert(replace_each(args, rhs, p) =~= replace_each(args, rhs, q));
            },
            _ => {},
        }
    }
}

/// `Term::shift` of each term of `terms`; the first failure where one fails.
fn shift_terms(terms: &Vec<Term>, by: usize, depth: usize) -> (r: Result<Vec<Term>, Error>)
    ensures
        match r {
            Ok(v) => {
                &&& v@.len() == terms@.len()
                &&& forall|i: int|
                    0 <= i < terms@.len() ==> shift(terms@[i]@, by as nat, depth as nat) == Some(
                        (#[trigger] v@[i])@,
                    )
            },
            Err(e) => {
                &&& e@ == ErrorView::Internal(Fault::IndexOverflow)
                &&& exists|i: int|
                    0 <= i < terms@.len() && (#[trigger] shift(terms@[i]@, by as nat, depth as nat)) is None
            },
        },
    decreases terms,
{
    let mut v: Vec<Term> = Vec::new();
    let mut i: usize = 0;
    while i < terms.len()
        invariant
            i <= terms.len(),
            v@.len() == i,
            forall|j: int|
                0 <= j < i ==> shift(terms@[j]@, by as nat, depth as nat) == Some((#[trigger] v@[j])@),
        decreases terms.len() - i,
    {
        match terms[i].shift(by, depth) {
            Ok(t) => {
                v.push(t);
            },
            Err(e) => {
                assert(shift(terms@[i as int]@, by as nat, depth as nat) is None);
                return Err(e);
            },
        }
        i = i + 1;
    }
    Ok(v)
}

impl Term {
    /// The term with every bound-variable index that is at least `depth`
    /// raised by `by`. Each binder passed raises `depth` by one. Fails with
    /// `Fault::IndexOverflow` where an index or a depth leaves the range of
    /// `usize`.
    pub fn shift(&self, by: usize, depth: usize) -> (r: Result<Term, Error>)
        ensures
            match r {
                Ok(t) => shift(self@, by as nat, depth as nat) == Some(t@),
                Err(e) => shift(self@, by as nat, depth as nat) is None && e@ == ErrorView::Internal(
                    Fault::IndexOverflow,
                ),
            },
        decreases self,
    {
        proof {
            reveal_with_fuel(term_view, 2);
        }
        match self {
            Term::Var { name: Name::DeBruijn { index, span, repr } } => {
                if *index < depth {
                    Ok(self.clone())
                } else if *index <= usize::MAX - by {
                    Ok(
                        Term::Var {
                            name: Name::DeBruijn {
                                index: *index + by,
                                span: *span,
                                repr: repr.clone(),
                            },
                        },
                    )
                } else {
                    fail(Fault::IndexOverflow)
                }
            },
            Term::Lambda { span, name, ty, body } => {
                if depth == usize::MAX {
                    return fail(Fault::IndexOverflow);
                }
                let ty = match (&**ty).shift(by, depth) {
                    Ok(t) => t,
                    Err(e) => {
                        return Err(e);
                    },
                };
                let body = match (&**body).shift(by, depth + 1) {
                    Ok(t) => t,
                    Err(e) => {
                        return Err(e);
                    },
                };
                Ok(
                    Term::Lambda {
                        span: *span,
                        name: name.clone(),
                        ty: Box::new(ty),
                        body: Box::new(body),
                    },
                )
            },
            Term::Forall { span, name, ty, term } => {
                if depth == usize::MAX {
                    return fail(Fault::IndexOverflow);
                }
                let ty = match (&**ty).shift(by, depth) {
                    Ok(t) => t,
                    Err(e) => {
                        return Err(e);
                    },
                };
                let term = match (&**term).shift(by, depth + 1) {
                    Ok(t) => t,
                    Err(e) => {
                        return Err(e);
                    },
                };
                Ok(
                    Term::Forall {
                        span: *span,
                        name: name.clone(),
                        ty: Box::new(ty),
                        term: Box::new(term),
                    },
                )
            },
            Term::App { span, fun, arg } => {
                let fun = match (&**fun).shift(by, depth) {
                    Ok(t) => t,
                    Err(e) => {
                        return Err(e);
                    },
                };
                let arg = match (&**arg).shift(by, depth) {
                    Ok(t) => t,
                    Err(e) => {
                        return Err(e);
                    },
                };
                Ok(Term::App { span: *span, fun: Box::new(fun), arg: Box::new(arg) })
            },
            Term::Recursor(ty_name, offset, args) => {
                proof {
                    lemma_recursor_view(*ty_name, *offset, *args);
                }
                let ghost parts = shift_each(terms_view(args@), by as nat, depth as nat);
                match shift_terms(args, by, depth) {
                    Ok(v) => {
                        let name = ty_name.clone();
                        proof {
                            lemma_recursor_view(name, *offset, v);
                            assert forall|i: int| 0 <= i < parts.len() implies (
                            #[trigger] parts[i]) is Some by {
                                assert(parts[i] == Some(v@[i]@));
                            }
                            assert(collect(parts)->0 =~= terms_view(v@));
                        }
                        Ok(Term::Recursor(name, *offset, v))
                    },
                    Err(e) => {
                        proof {
                            let i = choose|i: int|
                                0 <= i < args@.len() && (#[trigger] shift(args@[i]@, by as nat, depth as nat))
                                    is None;
                            assert(parts[i] is None);
                        }
                        Err(e)
                    },
                }
            },
            _ => Ok(self.clone()),
        }
    }
}

/// `Term::instantiate_at` of each term of `terms`; the first failure where
/// one fails.
fn instantiate_at_terms(terms: &Vec<Term>, value: &Term, depth: usize) -> (r: Result<Vec<Term>, Error>)
    ensures
        match r {
            Ok(v) => {
                &&& v@.len() == terms@.len()
                &&& forall|i: int|
                    0 <= i < terms@.len() ==> instantiate_at(terms@[i]@, value@, depth as nat) == Some(
                        (#[trigger] v@[i])@,
                    )
            },
            Err(e) => {
                &&& e@ == ErrorView::Internal(Fault::IndexOverflow)
                &&& exists|i: int|
                    0 <= i < terms@.len() && (#[trigger] instantiate_at(terms@[i]@, value@, depth as nat)) is None
            },
        },
    decreases terms,
{
    let mut v: Vec<Term> = Vec::new();
    let mut i: usize = 0;
    while i < terms.len()
        invariant
            i <= terms.len(),
            v@.len() == i,
            forall|j: int|
                0 <= j < i ==> instantiate_at(terms@[j]@, value@, depth as nat) == Some((#[trigger] v@[j])@),
        decreases terms.len() - i,
    {
        match terms[i].instantiate_at(value, depth) {
            Ok(t) => {
                v.push(t);
            },
            Err(e) => {
                assert(instantiate_at(terms@[i as int]@, value@, depth as nat) is None);
                return Err(e);
            },
        }
        i = i + 1;
    }
    Ok(v)
}

impl Term {
    /// The term with the bound variable of index `depth` replaced by
    /// `value`, whose own free indices are raised by `depth`, and every
    /// greater index lowered by one. Each binder passed raises `depth` by
    /// one. Fails with `Fault::IndexOverflow` where an index or a depth
    /// leaves the range of `usize`.
    pub fn instantiate_at(&self, value: &Term, depth: usize) -> (r: Result<Term, Error>)
        ensures
            match r {
                Ok(t) => instantiate_at(self@, value@, depth as nat) == Some(t@),
                Err(e) => instantiate_at(self@, value@, depth as nat) is None && e@ == ErrorView::Internal(
                    Fault::IndexOverflow,
                ),
            },
        decreases self,
    {
        proof {
            reveal_with_fuel(term_view, 2);
        }
        match self {
            Term::Var { name: Name::DeBruijn { index, span, repr } } => {
                if *index == depth {
                    value.shift(depth, 0)
                } else if *index > depth {
                    Ok(
                        Term::Var {
                            name: Name::DeBruijn {
                                index: *index - 1,
                                span: *span,
                                repr: repr.clone(),
                            },
                        },
                    )
                } else {
                    Ok(self.clone())
                }
            },
            Term::Lambda { span, name, ty, body } => {
                if depth == usize::MAX {
                    return fail(Fault::IndexOverflow);
                }
                let ty = match (&**ty).instantiate_at(value, depth) {
                    Ok(t) => t,
                    Err(e) => {
                        return Err(e);
                    },
                };
                let body = match (&**body).instantiate_at(value, depth + 1) {
                    Ok(t) => t,
                    Err(e) => {
                        return Err(e);
                    },
                };
                Ok(
                    Term::Lambda {
                        span: *span,
                        name: name.clone(),
                        ty: Box::new(ty),
                        body: Box::new(body),
                    },
                )
            },
            Term::Forall { span, name, ty, term } => {
                if depth == usize::MAX {
                    return fail(Fault::IndexOverflow);
                }
                let ty = match (&**ty).instantiate_at(value, depth) {
                    Ok(t) => t,
                    Err(e) => {
                        return Err(e);
                    },
                };
                let term = match (&**term).instantiate_at(value, depth + 1) {
                    Ok(t) => t,
                    Err(e) => {
                        return Err(e);
                    },
                };
                Ok(
                    Term::Forall {
                        span: *span,
                        name: name.clone(),
                        ty: Box::new(ty),
                        term: Box::new(term),
                    },
                )
            },
            Term::App { span, fun, arg } => {
                let fun = match (&**fun).instantiate_at(value, depth) {
                    Ok(t) => t,
                    Err(e) => {
                        return Err(e);
                    },
                };
                let arg = match (&**arg).instantiate_at(value, depth) {
                    Ok(t) => t,
                    Err(e) => {
                        return Err(e);
                    },
                };
                Ok(Term::App { span: *span, fun: Box::new(fun), arg: Box::new(arg) })
            },
            Term::Recursor(ty_name, offset, args) => {
                proof {
                    lemma_recursor_view(*ty_name, *offset, *args);
                }
                let ghost parts = instantiate_at_each(terms_view(args@), value@, depth as nat);
                match instantiate_at_terms(args, value, depth) {
                    Ok(v) => {
                        let name = ty_name.clone();
                        proof {
                            lemma_recursor_view(name, *offset, v);
                            assert forall|i: int| 0 <= i < parts.len() implies (
                            #[trigger] parts[i]) is Some by {
                                assert(parts[i] == Some(v@[i]@));
                            }
                            assert(collect(parts)->0 =~= terms_view(v@));
                        }
                        Ok(Term::Recursor(name, *offset, v))
                    },
                    Err(e) => {
                        proof {
                            let i = choose|i: int|
                                0 <= i < args@.len() && (#[trigger] instantiate_at(args@[i]@, value@, depth as nat))
                                    is None;
                            assert(parts[i] is None);
                        }
                        Err(e)
                    },
                }
            },
            _ => Ok(self.clone()),
        }
    }
}

/// `Term::abstract_at` of each term of `terms`; the first failure where one
/// fails.
fn abstract_at_terms(terms: &Vec<Term>, number: usize, hint: &String, depth: usize) -> (r: Result<Vec<Term>, Error>)
    ensures
        match r {
            Ok(v) => {
                &&& v@.len() == terms@.len()
                &&& forall|i: int|
                    0 <= i < terms@.len() ==> abstract_at(terms@[i]@, number as nat, depth as nat) == Some(
                        (#[trigger] v@[i])@,
                    )
            },
            Err(e) => {
                &&& e@ == ErrorView::Internal(Fault::IndexOverflow)
                &&& exists|i: int|
                    0 <= i < terms@.len() && (#[trigger] abstract_at(terms@[i]@, number as nat, depth as nat)) is None
            },
        },
    decreases terms,
{
    let mut v: Vec<Term> = Vec::new();
    let mut i: usize = 0;
    while i < terms.len()
        invariant
            i <= terms.len(),
            v@.len() == i,
            forall|j: int|
                0 <= j < i ==> abstract_at(terms@[j]@, number as nat, depth as nat) == Some((#[trigger] v@[j])@),
        decreases terms.len() - i,
    {
        match terms[i].abstract_at(number, hint, depth) {
            Ok(t) => {
                v.push(t);
            },
            Err(e) => {
                assert(abstract_at(terms@[i as int]@, number as nat, depth as nat) is None);
                return Err(e);
            },
        }
        i = i + 1;
    }
    Ok(v)
}

impl Term {
    /// The term with the local of tag `number` replaced by the bound
    /// variable of index `depth`, printed as `hint`, and every index that is
    /// at least `depth` raised by one. Each binder passed raises `depth` by
    /// one. Fails with `Fault::IndexOverflow` where an index or a depth
    /// leaves the range of `usize`.
    pub fn abstract_at(&self, number: usize, hint: &String, depth: usize) -> (r: Result<Term, Error>)
        ensures
            match r {
                Ok(t) => abstract_at(self@, number as nat, depth as nat) == Some(t@),
                Err(e) => abstract_at(self@, number as nat, depth as nat) is None && e@ == ErrorView::Internal(
                    Fault::IndexOverflow,
                ),
            },
        decreases self,
    {
        proof {
            reveal_with_fuel(term_view, 2);
        }
        match self {
            Term::Var { name: Name::Local { number: tag, .. } } => {
                if *tag == number {
                    Ok(
                        Term::Var {
                            name: Name::DeBruijn {
                                index: depth,
                                span: Span::dummy(),
                                repr: hint.clone(),
                            },
                        },
                    )
                } else {
                    Ok(self.clone())
                }
            },
            Term::Var { name: Name::DeBruijn { index, span, repr } } => {
                if *index < depth {
                    Ok(self.clone())
                } else if *index < usize::MAX {
                    Ok(
                        Term::Var {
                            name: Name::DeBruijn {
                                index: *index + 1,
                                span: *span,
                                repr: repr.clone(),
                            },
                        },
                    )
                } else {
                    fail(Fault::IndexOverflow)
                }
            },
            Term::Lambda { span, name, ty, body } => {
                if depth == usize::MAX {
                    return fail(Fault::IndexOverflow);
                }
                let ty = match (&**ty).abstract_at(number, hint, depth) {
                    Ok(t) => t,
                    Err(e) => {
                        return Err(e);
                    },
                };
                let body = match (&**body).abstract_at(number, hint, depth + 1) {
                    Ok(t) => t,
                    Err(e) => {
                        return Err(e);
                    },
                };
                Ok(
                    Term::Lambda {
                        span: *span,
                        name: name.clone(),
                        ty: Box::new(ty),
                        body: Box::new(body),
                    },
                )
            },
            Term::Forall { span, name, ty, term } => {
                if depth == usize::MAX {
                    return fail(Fault::IndexOverflow);
                }
                let ty = match (&**ty).abstract_at(number, hint, depth) {
                    Ok(t) => t,
                    Err(e) => {
                        return Err(e);
                    },
                };
                let term = match (&**term).abstract_at(number, hint, depth + 1) {
                    Ok(t) => t,
                    Err(e) => {
                        return Err(e);
                    },
                };
                Ok(
                    Term::Forall {
                        span: *span,
                        name: name.clone(),
                        ty: Box::new(ty),
                        term: Box::new(term),
                    },
                )
            },
            Term::App { span, fun, arg } => {
                let fun = match (&**fun).abstract_at(number, hint, depth) {
                    Ok(t) => t,
                    Err(e) => {
                        return Err(e);
                    },
                };
                let arg = match (&**arg).abstract_at(number, hint, depth) {
                    Ok(t) => t,
                    Err(e) => {
                        return Err(e);
                    },
                };
                Ok(Term::App { span: *span, fun: Box::new(fun), arg: Box::new(arg) })
            },
            Term::Recursor(ty_name, offset, args) => {
                proof {
                    lemma_recursor_view(*ty_name, *offset, *args);
                }
                let ghost parts = abstract_at_each(terms_view(args@), number as nat, depth as nat);
                match abstract_at_terms(args, number, hint, depth) {
                    Ok(v) => {
                        let name = ty_name.clone();
                        proof {
                            lemma_recursor_view(name, *offset, v);
                            assert forall|i: int| 0 <= i < parts.len() implies (
                            #[trigger] parts[i]) is Some by {
                                assert(parts[i] == Some(v@[i]@));
                            }
                            assert(collect(parts)->0 =~= terms_view(v@));
                        }
                        Ok(Term::Recursor(name, *offset, v))
                    },
                    Err(e) => {
                        proof {
                            let i = choose|i: int|
                                0 <= i < args@.len() && (#[trigger] abstract_at(args@[i]@, number as nat, depth as nat))
                                    is None;
                            assert(parts[i] is None);
                        }
                        Err(e)
                    },
                }
            },
            _ => Ok(self.clone()),
        }
    }
}

impl Term {
    /// The body of a binder, which this term is, with `value` put for the
    /// bound variable: the index 0 is replaced by `value`, and every other
    /// free index is lowered by one. Fails with `Fault::IndexOverflow`
    /// where an index or a depth leaves the range of `usize`.
    pub fn instantiate(&self, value: &Term) -> (r: Result<Term, Error>)
        ensures
            match r {
                Ok(t) => instantiate(self@, value@) == Some(t@),
                Err(e) => instantiate(self@, value@) is None && e@ == ErrorView::Internal(
                    Fault::IndexOverflow,
                ),
            },
    {
        self.instantiate_at(value, 0)
    }

    /// The body of a binder that this term becomes when closed over
    /// `local`: every occurrence of the local, found by its tag, becomes the
    /// bound variable, and every free index is raised by one. Fails with
    /// `Fault::NotLocal` where `local` is no local, and with
    /// `Fault::IndexOverflow` where an index or a depth leaves the range of
    /// `usize`.
    pub fn abstr(&self, local: &Name) -> (r: Result<Term, Error>)
        ensures
            match local@ {
                NameView::Local { number, ty } => match r {
                    Ok(t) => abstr(self@, number) == Some(t@),
                    Err(e) => abstr(self@, number) is None && e@ == ErrorView::Internal(
                        Fault::IndexOverflow,
                    ),
                },
                _ => r matches Err(e) && e@ == ErrorView::Internal(Fault::NotLocal),
            },
    {
        match local {
            Name::Local { number, repr, .. } => self.abstract_at(*number, repr, 0),
            _ => fail(Fault::NotLocal),
        }
    }
}

/// `replace_term` of each term of `terms`.
fn replace_terms<P: TermPredicate>(terms: &Vec<Term>, rhs: &Term, pred: &P) -> (r: Vec<Term>)
    requires
        pred.valid(),
    ensures
        terms_view(r@) == replace_each(terms_view(terms@), rhs@, test_of(*pred)),
    decreases terms,
{
    let mut v: Vec<Term> = Vec::new();
    let mut i: usize = 0;
    while i < terms.len()
        invariant
            pred.valid(),
            i <= terms.len(),
            v@.len() == i,
            forall|j: int| 0 <= j < i ==> (#[trigger] v@[j])@ == replace(terms@[j]@, rhs@, test_of(*pred)),
        decreases terms.len() - i,
    {
        v.push(terms[i].replace_term(rhs, pred));
        i = i + 1;
    }
    assert(terms_view(v@) =~= replace_each(terms_view(terms@), rhs@, test_of(*pred)));
    v
}

impl Name {
    /// The name, standing nowhere in the source.
    pub fn stripped(&self) -> (r: Name)
        ensures
            r@ == self@,
            (Term::Var { name: r }).span() == (Span { lo: 0, hi: 0 }),
    {
        match self {
            Name::DeBruijn { index, repr, .. } => Name::DeBruijn {
                index: *index,
                span: Span::dummy(),
                repr: repr.clone(),
            },
            Name::Qual { components, .. } => {
                let copy = self.clone();
                match copy {
                    Name::Qual { components, .. } => Name::Qual { span: Span::dummy(), components },
                    other => other,
                }
            },
            _ => self.clone(),
        }
    }
}

impl Term {
    /// The variable at the head of the application spine that this term is,
    /// standing nowhere in the source; `None` where the term is no spine of
    /// a variable.
    pub fn head(&self) -> (r: Option<Term>)
        ensures
            match r {
                Some(t) => head(self@) == Some(t@) && t.span() == (Span { lo: 0, hi: 0 }),
                None => head(self@) is None,
            },
        decreases self,
    {
        match self {
            Term::App { fun, .. } => (&**fun).head(),
            Term::Var { name } => Some(Term::Var { name: name.stripped() }),
            _ => None,
        }
    }

    /// The arguments of the application spine that this term is, first to
    /// last; `None` where the term is no application.
    pub fn args(&self) -> (r: Option<Vec<Term>>)
        ensures
            match r {
                Some(v) => spine(self@) == Some(terms_view(v@)),
                None => spine(self@) is None,
            },
        decreases self,
    {
        match self {
            Term::App { fun, arg, .. } => {
                let mut result = match (&**fun).args() {
                    Some(v) => v,
                    None => Vec::new(),
                };
                let ghost before = terms_view(result@);
                result.push((&**arg).clone());
                assert(terms_view(result@) =~= before.push(arg@));
                assert(before.len() == 0 ==> before.push(arg@) =~= seq![arg@]);
                Some(result)
            },
            _ => None,
        }
    }

    /// `head` applied to the terms of `args`, one after the other.
    pub fn apply_all(head: Term, args: Vec<Term>) -> (r: Term)
        ensures
            r@ == apply_all(head@, terms_view(args@)),
    {
        let mut result = head;
        let mut i: usize = 0;
        assert(terms_view(args@).skip(0) =~= terms_view(args@));
        while i < args.len()
            invariant
                i <= args.len(),
                apply_all(result@, terms_view(args@).skip(i as int)) == apply_all(
                    head@,
                    terms_view(args@),
                ),
            decreases args.len() - i,
        {
            let ghost rest = terms_view(args@).skip(i as int);
            assert(rest.drop_first() =~= terms_view(args@).skip(i + 1));
            result =
            Term::App {
                span: Span::dummy(),
                fun: Box::new(result),
                arg: Box::new(args[i].clone()),
            };
            i = i + 1;
        }
        result
    }

    /// The term with every subterm on which `pred` holds replaced by `rhs`.
    /// A subterm that is replaced is not looked into.
    pub fn replace_term<P: TermPredicate>(&self, rhs: &Term, pred: &P) -> (r: Term)
        requires
            pred.valid(),
        ensures
            r@ == replace(self@, rhs@, test_of(*pred)),
        decreases self,
    {
        if pred.test(self) {
            return rhs.clone();
        }
        match self {
            Term::Lambda { span, name, ty, body } => Term::Lambda {
                span: *span,
                name: name.clone(),
                ty: Box::new((&**ty).replace_term(rhs, pred)),
                body: Box::new((&**body).replace_term(rhs, pred)),
            },
            Term::Forall { span, name, ty, term } => Term::Forall {
                span: *span,
                name: name.clone(),
                ty: Box::new((&**ty).replace_term(rhs, pred)),
                term: Box::new((&**term).replace_term(rhs, pred)),
            },
            Term::App { span, fun, arg } => Term::App {
                span: *span,
                fun: Box::new((&**fun).replace_term(rhs, pred)),
                arg: Box::new((&**arg).replace_term(rhs, pred)),
            },
            Term::Recursor(ty_name, offset, args) => {
                let v = replace_terms(args, rhs, pred);
                let name = ty_name.clone();
                proof {
                    lemma_recursor_view(*ty_name, *offset, *args);
                    lemma_recursor_view(name, *offset, v);
                }
                Term::Recursor(name, *offset, v)
            },
            _ => self.clone(),
        }
    }
}

} // verus!
