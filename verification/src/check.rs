//! The bidirectional type checker.
//!
//! Inference opens a binder by putting a fresh local, which carries the
//! binder's type, for the bound variable of its body, and closes the type
//! of a lambda's body over that local again. The locals of one checking
//! context are tagged from a counter of its own, which starts at the
//! environment's.

use crate::ast::clone_terms;
use crate::ast::lemma_recursor_view;
use crate::ast::rec_name;
use crate::ast::term_view;
use crate::ast::terms_view;
use crate::ast::Literal;
use crate::ast::Name;
use crate::ast::NameView;
use crate::ast::Term;
use crate::ast::TermView;
use crate::env::EnvView;
use crate::env::TyCtxt;
use crate::error::fail;
use crate::error::Error;
use crate::error::ErrorView;
use crate::error::Fault;
use crate::eval::def_eq_spec;
use crate::eval::eval_spec;
use crate::eval::result_view;
use crate::subst::abstr;
use crate::subst::apply_all;
use crate::subst::collect;
use crate::subst::instantiate;
use crate::subst::instantiate_at;
use crate::subst::instantiate_at_each;
use vstd::prelude::*;

verus! {

/// The sum of the numbers of `s`.
pub open spec fn total(s: Seq<nat>) -> nat
    decreases s.len(),
{
    if s.len() == 0 {
        0
    } else {
        s[0] + total(s.drop_first())
    }
}

/// The weight of each argument of an application spine.
pub open spec fn weights(args: Seq<TermView>) -> Seq<nat>
    decreases args,
{
    Seq::new(
        args.len(),
        |i: int|
            if 0 <= i < args.len() {
                1 + size(args[i])
            } else {
                0
            },
    )
}

/// The size of a term: the number of its nodes, where a variable counts as
/// one whatever its name holds, and a recursor counts as the spine that
/// applies it.
pub open spec fn size(t: TermView) -> nat
    decreases t,
{
    match t {
        TermView::Lambda { ty, body } => 1 + size(*ty) + size(*body),
        TermView::Forall { ty, term } => 1 + size(*ty) + size(*term),
        TermView::App { fun, arg } => 1 + size(*fun) + size(*arg),
        TermView::Recursor { ty_name, offset, args } => 2 + total(weights(args)),
        _ => 1,
    }
}

/// A spine is as large as its head and its arguments together, with one
/// more for each application.
pub proof fn lemma_size_apply_all(h: TermView, args: Seq<TermView>)
    ensures
        size(apply_all(h, args)) == size(h) + total(weights(args)),
    decreases args.len(),
{
    if args.len() > 0 {
        let first = TermView::App { fun: Box::new(h), arg: Box::new(args[0]) };
        lemma_size_apply_all(first, args.drop_first());
        assert(weights(args).drop_first() =~= weights(args.drop_first()));
    }
}

/// Putting a variable that is not bound for a bound variable leaves the
/// size of a term as it is.
pub proof fn lemma_size_open(t: TermView, name: NameView, depth: nat)
    requires
        !(name is DeBruijn),
    ensures
        instantiate_at(t, TermView::Var { name }, depth) matches Some(r) ==> size(r) == size(t),
    decreases t,
{
    let value = TermView::Var { name };
    match t {
        TermView::Lambda { ty, body } => {
            lemma_size_open(*ty, name, depth);
            lemma_size_open(*body, name, depth + 1);
        },
        TermView::Forall { ty, term } => {
            lemma_size_open(*ty, name, depth);
            lemma_size_open(*term, name, depth + 1);
        },
        TermView::App { fun, arg } => {
            lemma_size_open(*fun, name, depth);
            lemma_size_open(*arg, name, depth);
        },
        TermView::Recursor { ty_name, offset, args } => {
            let parts = instantiate_at_each(args, value, depth);
            if let Some(opened) = collect(parts) {
                assert forall|i: int| 0 <= i < args.len() implies size(opened[i]) == size(
                    args[i],
                ) by {
                    assert(parts[i] is Some);
                    lemma_size_open(args[i], name, depth);
                }
                assert(weights(opened) =~= weights(args));
            }
        },
        _ => {},
    }
}

/// The type of the unit literal: the global `Unit`.
pub open spec fn unit_type() -> TermView {
    TermView::Var { name: NameView::Qual { components: seq!["Unit"@] } }
}

/// What a judgment comes to, and the tag that the next local gets after it.
pub struct Judged {
    pub result: Result<TermView, ErrorView>,
    pub counter: nat,
}

/// The failure `fault` of a judgment.
pub open spec fn faulty(fault: Fault, counter: nat) -> Judged {
    Judged { result: Err(ErrorView::Internal(fault)), counter }
}

/// The local that opens a binder of the type `ty`, under the tag `counter`.
pub open spec fn fresh(counter: nat, ty: TermView) -> TermView {
    TermView::Var { name: NameView::Local { number: counter, ty: Box::new(ty) } }
}

/// The type that `t` is inferred to have in `env`, with locals tagged from
/// `counter` on and evaluation within `fuel` nested steps.
pub open spec fn type_infer(env: EnvView, t: TermView, counter: nat, fuel: nat) -> Judged
    decreases size(t), 0nat,
{
    match t {
        TermView::Type => Judged { result: Ok(TermView::Type), counter },
        TermView::Literal { lit: Literal::Unit } => Judged { result: Ok(unit_type()), counter },
        TermView::Literal { lit: Literal::Int(_) } => faulty(Fault::UnsupportedLiteral, counter),
        TermView::Var { name: NameView::Local { number, ty } } => Judged {
            result: Ok(*ty),
            counter,
        },
        TermView::Var { name: NameView::Qual { components } } => Judged {
            result: match env.lookup(NameView::Qual { components }) {
                Some(ty) => Ok(ty),
                None => Err(ErrorView::UnknownVariable(NameView::Qual { components })),
            },
            counter,
        },
        TermView::Var { name: NameView::DeBruijn { index } } => faulty(
            Fault::UnboundVariable,
            counter,
        ),
        TermView::Var { name: NameView::Meta { number } } => faulty(
            Fault::UntypedPlaceholder,
            counter,
        ),
        TermView::App { fun, arg } => {
            let f = type_infer(env, *fun, counter, fuel);
            match f.result {
                Err(e) => f,
                Ok(fun_ty) => match eval_spec(env, fun_ty, fuel) {
                    Err(e) => Judged { result: Err(e), counter: f.counter },
                    Ok(TermView::Forall { ty, term }) => {
                        let a = type_check(env, *arg, *ty, f.counter, fuel);
                        match a.result {
                            Err(e) => a,
                            Ok(_) => match instantiate(*term, *arg) {
                                Some(r) => Judged { result: Ok(r), counter: a.counter },
                                None => faulty(Fault::IndexOverflow, a.counter),
                            },
                        }
                    },
                    Ok(_) => Judged {
                        result: Err(ErrorView::ApplicationMismatch { fun: *fun, arg: *arg }),
                        counter: f.counter,
                    },
                },
            }
        },
        TermView::Forall { ty, term } => {
            if counter >= usize::MAX {
                faulty(Fault::LocalsExhausted, counter)
            } else {
                match instantiate(*term, fresh(counter, *ty)) {
                    None => faulty(Fault::IndexOverflow, counter + 1),
                    Some(opened) => {
                        proof {
                            lemma_size_open(
                                *term,
                                NameView::Local { number: counter, ty: Box::new(*ty) },
                                0,
                            );
                        }
                        let d = type_check(env, *ty, TermView::Type, counter + 1, fuel);
                        match d.result {
                            Err(e) => d,
                            Ok(_) => {
                                let c = type_check(env, opened, TermView::Type, d.counter, fuel);
                                match c.result {
                                    Err(e) => c,
                                    Ok(_) => Judged {
                                        result: Ok(TermView::Type),
                                        counter: c.counter,
                                    },
                                }
                            },
                        }
                    },
                }
            }
        },
        TermView::Lambda { ty, body } => {
            if counter >= usize::MAX {
                faulty(Fault::LocalsExhausted, counter)
            } else {
                match instantiate(*body, fresh(counter, *ty)) {
                    None => faulty(Fault::IndexOverflow, counter + 1),
                    Some(opened) => {
                        proof {
                            lemma_size_open(
                                *body,
                                NameView::Local { number: counter, ty: Box::new(*ty) },
                                0,
                            );
                        }
                        let b = type_infer(env, opened, counter + 1, fuel);
                        match b.result {
                            Err(e) => b,
                            Ok(body_ty) => match abstr(body_ty, counter) {
                                Some(closed) => Judged {
                                    result: Ok(TermView::Forall { ty, term: Box::new(closed) }),
                                    counter: b.counter,
                                },
                                None => faulty(Fault::IndexOverflow, b.counter),
                            },
                        }
                    },
                }
            }
        },
        TermView::Recursor { ty_name, offset, args } => {
            match rec_name(ty_name) {
                None => faulty(Fault::MalformedRecursor, counter),
                Some(rec) => {
                    proof {
                        lemma_size_apply_all(TermView::Var { name: rec }, args);
                    }
                    type_infer(env, apply_all(TermView::Var { name: rec }, args), counter, fuel)
                },
            }
        },
    }
}

/// Whether `fun` is inferred to have a type that evaluates to something
/// other than a function type, so that applying `fun` is a mismatch.
pub open spec fn mismatches(env: EnvView, fun: TermView, counter: nat, fuel: nat) -> bool {
    type_infer(env, fun, counter, fuel).result matches Ok(fun_ty) && eval_spec(env, fun_ty, fuel)
        matches Ok(v) && !(v is Forall)
}

/// The normal form of the type `ty`, where `t` is inferred to have a type
/// definitionally equal to it; else the error of the inference or of the
/// comparison.
pub open spec fn type_check(env: EnvView, t: TermView, ty: TermView, counter: nat, fuel: nat)
    -> Judged
    decreases size(t), 1nat,
{
    let inferred = type_infer(env, t, counter, fuel);
    match inferred.result {
        Err(e) => inferred,
        Ok(infer_ty) => Judged {
            result: def_eq_spec(env, ty, infer_ty, fuel),
            counter: inferred.counter,
        },
    }
}


/// A local context for type checking one definition: the global context it
/// checks in, and the counter that tags its locals.
pub struct LocalCx<'tcx> {
    ty_cx: &'tcx TyCtxt,
    counter: usize,
    // Local entries in the typing context.
    locals: Vec<(Name, Term)>,
    // Reserved: equalities assumed while checking. Nothing consults them.
    equalities: Vec<(Term, Term)>,
}

impl<'tcx> LocalCx<'tcx> {
    /// The global environment that this context checks in.
    pub closed spec fn env(&self) -> EnvView {
        self.ty_cx@
    }

    /// The tag that the next local gets.
    pub closed spec fn counter(&self) -> nat {
        self.counter as nat
    }

    /// The step budget of evaluation.
    pub closed spec fn budget(&self) -> nat {
        self.ty_cx.budget()
    }

    /// The global environment is well formed.
    pub closed spec fn wf(&self) -> bool {
        self.ty_cx.wf()
    }

    /// A context that checks in `ty_cx`, with no locals yet. Its locals
    /// are tagged from the counter of `ty_cx` on.
    pub fn from_cx(ty_cx: &'tcx TyCtxt) -> (r: LocalCx<'tcx>)
        requires
            ty_cx.wf(),
        ensures
            r.wf(),
            r.env() == ty_cx@,
            r.counter() == ty_cx.counter(),
            r.budget() == ty_cx.budget(),
    {
        LocalCx {
            ty_cx,
            counter: ty_cx.local_counter(),
            locals: Vec::new(),
            equalities: Vec::new(),
        }
    }

    /// Makes a local with the hint `repr` and the type `ty`, under a tag
    /// that no local of this context has had; `Fault::LocalsExhausted`
    /// where no tag is left.
    pub fn local_with_repr(&mut self, repr: String, ty: Term) -> (r: Result<Name, Error>)
        requires
            old(self).wf(),
        ensures
            final(self).wf(),
            final(self).env() == old(self).env(),
            final(self).budget() == old(self).budget(),
            match r {
                Ok(name) => {
                    &&& old(self).counter() < usize::MAX
                    &&& name matches Name::Local { repr: hint, .. } && hint@ == repr@
                    &&& name@ == (NameView::Local {
                        number: old(self).counter(),
                        ty: Box::new(ty@),
                    })
                    &&& final(self).counter() == old(self).counter() + 1
                },
                Err(e) => {
                    &&& old(self).counter() == usize::MAX
                    &&& e@ == ErrorView::Internal(Fault::LocalsExhausted)
                    &&& final(self).counter() == old(self).counter()
                },
            },
    {
        if self.counter == usize::MAX {
            return fail(Fault::LocalsExhausted);
        }
        let new_local = Name::Local { number: self.counter, ty: Box::new(ty), repr };
        self.counter = self.counter + 1;
        Ok(new_local)
    }

    /// Makes a local for the binder whose bound variable is `name`, with the
    /// type `ty`: it takes the hint of `name`. `Fault::NotDeBruijn` where
    /// `name` is no bound variable.
    pub fn local(&mut self, name: &Name, ty: Term) -> (r: Result<Name, Error>)
        requires
            old(self).wf(),
        ensures
            final(self).wf(),
            final(self).env() == old(self).env(),
            final(self).budget() == old(self).budget(),
            match r {
                Ok(local) => {
                    &&& name@ is DeBruijn
                    &&& old(self).counter() < usize::MAX
                    &&& local@ == (NameView::Local {
                        number: old(self).counter(),
                        ty: Box::new(ty@),
                    })
                    &&& final(self).counter() == old(self).counter() + 1
                },
                Err(e) => {
                    &&& final(self).counter() == old(self).counter()
                    &&& if name@ is DeBruijn {
                        old(self).counter() == usize::MAX && e@ == ErrorView::Internal(
                            Fault::LocalsExhausted,
                        )
                    } else {
                        e@ == ErrorView::Internal(Fault::NotDeBruijn)
                    }
                },
            },
    {
        match name {
            Name::DeBruijn { repr, .. } => self.local_with_repr(repr.clone(), ty),
            _ => fail(Fault::NotDeBruijn),
        }
    }

    /// Checks that `term` has the type `ty`: infers the type of `term` and
    /// decides whether it is definitionally equal to `ty`. Returns the
    /// normal form of `ty` where it is. Where it is not, the error carries
    /// the span of `term`.
    pub fn type_check_term(&mut self, term: &Term, ty: &Term) -> (r: Result<Term, Error>)
        requires
            old(self).wf(),
        ensures
            final(self).wf(),
            final(self).env() == old(self).env(),
            final(self).budget() == old(self).budget(),
            result_view(r) == type_check(
                old(self).env(),
                term@,
                ty@,
                old(self).counter(),
                old(self).budget(),
            ).result,
            final(self).counter() == type_check(
                old(self).env(),
                term@,
                ty@,
                old(self).counter(),
                old(self).budget(),
            ).counter,
            type_infer(old(self).env(), term@, old(self).counter(), old(self).budget()).result
                is Ok ==> (r matches Err(Error::DefUnequal(at, _, _, _)) ==> at == term.span()),
        decreases size(term@), 1nat,
    {
        let infer_ty = match self.type_infer_term(term) {
            Ok(t) => t,
            Err(e) => {
                return Err(e);
            },
        };
        self.ty_cx.def_eq(term.get_span(), ty, &infer_ty)
    }

    /// Infers the type of `term`. A mismatch of the application that `term`
    /// is carries the span of `term`, and the type of a lambda carries the
    /// lambda's span and hint.
    pub fn type_infer_term(&mut self, term: &Term) -> (r: Result<Term, Error>)
        requires
            old(self).wf(),
        ensures
            final(self).wf(),
            final(self).env() == old(self).env(),
            final(self).budget() == old(self).budget(),
            result_view(r) == type_infer(
                old(self).env(),
                term@,
                old(self).counter(),
                old(self).budget(),
            ).result,
            final(self).counter() == type_infer(
                old(self).env(),
                term@,
                old(self).counter(),
                old(self).budget(),
            ).counter,
            (term matches Term::App { span, fun, .. } && mismatches(
                old(self).env(),
                fun@,
                old(self).counter(),
                old(self).budget(),
            )) ==> (r matches Err(Error::ApplicationMismatch(at, _, _)) && at == term.span()),
            (term matches Term::Lambda { span, name, .. } && r is Ok) ==> (r matches Ok(
                Term::Forall { span: s, name: n, .. },
            ) && s == term.span() && n@ == term->Lambda_name@),
        decreases size(term@), 0nat,
    {
        proof {
            reveal_with_fuel(term_view, 2);
            reveal_with_fuel(type_infer, 2);
        }
        match term {
            Term::Literal { lit, .. } => {
                match lit {
                    Literal::Int(_) => fail(Fault::UnsupportedLiteral),
                    Literal::Unit => Ok(Term::Var { name: Name::from_str("Unit") }),
                }
            },
            Term::Var { name } => {
                match name {
                    Name::Local { ty, .. } => Ok((&**ty).clone()),
                    Name::Qual { .. } => {
                        match self.ty_cx.lookup_global(name) {
                            Ok(t) => Ok(t.clone()),
                            Err(e) => Err(e),
                        }
                    },
                    Name::DeBruijn { .. } => fail(Fault::UnboundVariable),
                    Name::Meta { .. } => fail(Fault::UntypedPlaceholder),
                }
            },
            Term::App { fun, arg, span } => {
                let fun_ty = match self.type_infer_term(&**fun) {
                    Ok(t) => t,
                    Err(e) => {
                        return Err(e);
                    },
                };
                let fun_ty = match self.ty_cx.eval(&fun_ty) {
                    Ok(t) => t,
                    Err(e) => {
                        return Err(e);
                    },
                };
                match fun_ty {
                    Term::Forall { term: cod, ty: dom, .. } => {
                        match self.type_check_term(&**arg, &*dom) {
                            Ok(_) => {},
                            Err(e) => {
                                return Err(e);
                            },
                        }
                        (&*cod).instantiate(&**arg)
                    },
                    _ => Err(
                        Error::ApplicationMismatch(*span, (&**fun).clone(), (&**arg).clone()),
                    ),
                }
            },
            Term::Forall { name, ty, term: body, .. } => {
                let local = match self.local_with_repr(name.clone(), (&**ty).clone()) {
                    Ok(l) => l,
                    Err(e) => {
                        return Err(e);
                    },
                };
                let opened = match (&**body).instantiate(&local.to_term()) {
                    Ok(t) => t,
                    Err(e) => {
                        return Err(e);
                    },
                };
                proof {
                    lemma_size_open(body@, local@, 0);
                }
                match self.type_check_term(&**ty, &Term::Type) {
                    Ok(_) => {},
                    Err(e) => {
                        return Err(e);
                    },
                }
                match self.type_check_term(&opened, &Term::Type) {
                    Ok(_) => {},
                    Err(e) => {
                        return Err(e);
                    },
                }
                Ok(Term::Type)
            },
            Term::Lambda { name, ty, body, span } => {
                let local = match self.local_with_repr(name.clone(), (&**ty).clone()) {
                    Ok(l) => l,
                    Err(e) => {
                        return Err(e);
                    },
                };
                let opened = match (&**body).instantiate(&local.to_term()) {
                    Ok(t) => t,
                    Err(e) => {
                        return Err(e);
                    },
                };
                proof {
                    lemma_size_open(body@, local@, 0);
                }
                let body_ty = match self.type_infer_term(&opened) {
                    Ok(t) => t,
                    Err(e) => {
                        return Err(e);
                    },
                };
                let pi_body = match body_ty.abstr(&local) {
                    Ok(t) => t,
                    Err(e) => {
                        return Err(e);
                    },
                };
                Ok(
                    Term::Forall {
                        span: *span,
                        name: name.clone(),
                        ty: Box::new((&**ty).clone()),
                        term: Box::new(pi_body),
                    },
                )
            },
            Term::Type => Ok(Term::Type),
            Term::Recursor(ty_name, offset, args) => {
                proof {
                    lemma_recursor_view(*ty_name, *offset, *args);
                }
                let rec = match ty_name.recursor() {
                    Some(rec) => rec,
                    None => {
                        return fail(Fault::MalformedRecursor);
                    },
                };
                let applied = Term::apply_all(rec.to_term(), clone_terms(args));
                proof {
                    lemma_size_apply_all(TermView::Var { name: rec@ }, terms_view(args@));
                }
                self.type_infer_term(&applied)
            },
        }
    }

    /// The term itself: a local context does not reduce.
    pub fn evaluate(&self, term: &Term) -> (r: Term)
        ensures
            r@ == term@,
    {
        term.clone()
    }
}

} // verus!
