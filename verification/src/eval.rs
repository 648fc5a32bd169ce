//! The evaluator and definitional equality.
//!
//! `eval` normalizes by value: it unfolds definitions, applies functions to
//! evaluated arguments, and reduces recursors on constructors. It does not
//! reduce under a lambda. Definitions need not terminate, so reduction
//! runs under a budget: each function application and each recursor step
//! that is followed spends one unit for all that follows it, and with none
//! left `eval` fails with `Fault::StepBudgetExhausted`.

use crate::ast::clone_terms;
use crate::ast::ctors_view;
use crate::ast::lemma_recursor_view;
use crate::ast::term_view;
use crate::ast::terms_view;
use crate::ast::Name;
use crate::ast::NameView;
use crate::ast::Span;
use crate::ast::Term;
use crate::ast::TermView;
use crate::env::EnvView;
use crate::env::TyCtxt;
use crate::error::fail;
use crate::error::pairs_view;
use crate::error::Error;
use crate::error::ErrorView;
use crate::error::Fault;
use crate::subst::apply_all;
use crate::subst::head;
use crate::subst::instantiate;
use crate::subst::lemma_replace_agrees;
use crate::subst::replace;
use crate::subst::test_of;
use crate::subst::spine;
use crate::subst::TermPredicate;
use vstd::prelude::*;

verus! {

/// What a result is, without spans and hints.
pub open spec fn result_view(r: Result<Term, Error>) -> Result<TermView, ErrorView> {
    match r {
        Ok(t) => Ok(t@),
        Err(e) => Err(e@),
    }
}

/// The term that a name unfolds to: the body of its definition for a
/// global that has one, the variable itself for any other name.
pub open spec fn delta(env: EnvView, name: NameView) -> TermView {
    if name is Qual && env.definitions.contains_key(name) {
        env.definitions[name].1
    } else {
        TermView::Var { name }
    }
}

/// The index, from `from` on, of the first constructor whose name is the
/// variable `head`.
pub open spec fn first_ctor(ctors: Seq<(NameView, TermView)>, head: TermView, from: int) -> Option<
    int,
>
    decreases ctors.len() - from,
{
    if from < 0 || from >= ctors.len() {
        None
    } else if (TermView::Var { name: ctors[from].0 }) == head {
        Some(from)
    } else {
        first_ctor(ctors, head, from + 1)
    }
}

/// What one step of reduction leaves.
pub enum Step {
    /// A term that is the result.
    Value(TermView),
    /// A term that is yet to be evaluated, which costs one unit of budget.
    Reduce(TermView),
}

/// The step that applying the evaluated function `fun` to the evaluated
/// argument `arg` takes: the body with the argument put in for a lambda,
/// else the application itself, which is stuck.
pub open spec fn beta(fun: TermView, arg: TermView) -> Result<Step, ErrorView> {
    match fun {
        TermView::Lambda { ty, body } => match instantiate(*body, arg) {
            Some(t) => Ok(Step::Reduce(t)),
            None => Err(ErrorView::Internal(Fault::IndexOverflow)),
        },
        _ => Ok(Step::Value(TermView::App { fun: Box::new(fun), arg: Box::new(arg) })),
    }
}

/// The recursor with the arguments `args`, the last replaced by `last`.
pub open spec fn with_scrutinee(ty_name: NameView, offset: nat, args: Seq<TermView>, last: TermView)
    -> TermView {
    TermView::Recursor { ty_name, offset, args: args.update(args.len() - 1, last) }
}

/// The step that a recursor with the arguments `args` takes on the
/// evaluated scrutinee `scrutinee`, for a datatype with the constructors
/// `ctors`.
///
/// Where the scrutinee is a spine whose head is the constructor `i`, the
/// premise is the argument `i + offset`. For a constructor without
/// arguments the premise is the result. Otherwise the premise is applied to
/// the constructor's arguments and then to the recursor on the first of
/// them. Where the head is no constructor, the recursor is stuck and is the
/// result, with the evaluated scrutinee in it.
pub open spec fn iota(
    ctors: Seq<(NameView, TermView)>,
    ty_name: NameView,
    offset: nat,
    args: Seq<TermView>,
    scrutinee: TermView,
) -> Result<Step, ErrorView> {
    let stuck = Ok(Step::Value(with_scrutinee(ty_name, offset, args, scrutinee)));
    match head(scrutinee) {
        None => stuck,
        Some(h) => match first_ctor(ctors, h, 0) {
            None => stuck,
            Some(i) => {
                if i + offset >= args.len() {
                    Err(ErrorView::Internal(Fault::MalformedRecursor))
                } else {
                    let premise = args[i + offset];
                    match spine(scrutinee) {
                        None => Ok(Step::Value(premise)),
                        Some(fields) => Ok(
                            Step::Reduce(
                                apply_all(
                                    premise,
                                    fields.push(with_scrutinee(ty_name, offset, args, fields[0])),
                                ),
                            ),
                        ),
                    }
                }
            },
        },
    }
}

/// The normal form of `t` in `env`, reached within `fuel` nested steps.
pub open spec fn eval_spec(env: EnvView, t: TermView, fuel: nat) -> Result<TermView, ErrorView>
    decreases fuel, 1nat, t,
{
    match t {
        TermView::Var { name } => Ok(delta(env, name)),
        TermView::App { fun, arg } => match eval_spec(env, *fun, fuel) {
            Err(e) => Err(e),
            Ok(f) => match eval_spec(env, *arg, fuel) {
                Err(e) => Err(e),
                Ok(a) => follow(env, beta(f, a), fuel),
            },
        },
        TermView::Forall { ty, term } => match eval_spec(env, *ty, fuel) {
            Err(e) => Err(e),
            Ok(ty) => match eval_spec(env, *term, fuel) {
                Err(e) => Err(e),
                Ok(term) => Ok(TermView::Forall { ty: Box::new(ty), term: Box::new(term) }),
            },
        },
        TermView::Recursor { ty_name, offset, args } => {
            if !env.types.contains_key(ty_name) {
                Err(ErrorView::UnknownVariable(ty_name))
            } else if args.len() == 0 {
                Err(ErrorView::Internal(Fault::MalformedRecursor))
            } else {
                match eval_spec(env, args[args.len() - 1], fuel) {
                    Err(e) => Err(e),
                    Ok(scrutinee) => follow(
                        env,
                        iota(env.types[ty_name].ctors, ty_name, offset, args, scrutinee),
                        fuel,
                    ),
                }
            }
        },
        _ => Ok(t),
    }
}

/// What a step comes to: its value, or the normal form of what it leaves
/// to evaluate, for one unit of budget.
pub open spec fn follow(env: EnvView, step: Result<Step, ErrorView>, fuel: nat) -> Result<
    TermView,
    ErrorView,
>
    decreases fuel, 0nat, TermView::Type,
{
    match step {
        Err(e) => Err(e),
        Ok(Step::Value(t)) => Ok(t),
        Ok(Step::Reduce(t)) => {
            if fuel == 0 {
                Err(ErrorView::Internal(Fault::StepBudgetExhausted))
            } else {
                eval_spec(env, t, (fuel - 1) as nat)
            }
        },
    }
}


/// Whether applying `fun` to `arg` is stuck: both evaluate, and `fun` to
/// something other than a lambda.
pub open spec fn stuck_application(env: EnvView, fun: TermView, arg: TermView, fuel: nat) -> bool {
    eval_spec(env, fun, fuel) matches Ok(f) && !(f is Lambda) && eval_spec(env, arg, fuel) is Ok
}

/// Whether the result `r` of evaluating `term` carries what `term`
/// carried for diagnostics: the span and the hint of a function type, and
/// the span of an application that is stuck.
pub open spec fn keeps_metadata(env: EnvView, term: Term, r: Result<Term, Error>, fuel: nat)
    -> bool {
    match term {
        Term::Forall { span, name, .. } => r is Ok ==> (r matches Ok(
            Term::Forall { span: s, name: n, .. },
        ) && s == span && n@ == name@),
        Term::App { span, fun, arg } => stuck_application(env, fun@, arg@, fuel) ==> (
        r matches Ok(Term::App { span: s, .. }) && s == span),
        _ => true,
    }
}

/// The index of the first constructor of `ctors` whose name is the
/// variable `head`.
fn find_ctor(ctors: &Vec<(Name, Term)>, head: &Term) -> (r: Option<usize>)
    ensures
        match r {
            Some(i) => first_ctor(ctors_view(ctors@), head@, 0) == Some(i as int) && i
                < ctors@.len(),
            None => first_ctor(ctors_view(ctors@), head@, 0) is None,
        },
{
    let mut i: usize = 0;
    while i < ctors.len()
        invariant
            i <= ctors.len(),
            first_ctor(ctors_view(ctors@), head@, 0) == first_ctor(
                ctors_view(ctors@),
                head@,
                i as int,
            ),
        decreases ctors.len() - i,
    {
        let found = match head {
            Term::Var { name } => ctors[i].0.same(name),
            _ => false,
        };
        if found {
            return Some(i);
        }
        i = i + 1;
    }
    None
}

impl TyCtxt {
    /// The term that `n` unfolds to: the body of its definition for a
    /// global that has one, the variable itself for any other name.
    pub fn unfold_name(&self, n: &Name) -> (r: Result<Term, Error>)
        requires
            self.wf(),
        ensures
            r matches Ok(t) && t@ == delta(self@, n@),
    {
        match n {
            Name::Qual { .. } => {
                match self.definition(n) {
                    None => Ok(n.to_term()),
                    Some(t) => Ok(t.1.clone()),
                }
            },
            _ => Ok(n.to_term()),
        }
    }

    /// The normal form of `term`, reached within the step budget of this
    /// environment. A function type keeps its span and its hint, and an
    /// application that is stuck keeps its span.
    pub fn eval(&self, term: &Term) -> (r: Result<Term, Error>)
        requires
            self.wf(),
        ensures
            result_view(r) == eval_spec(self@, term@, self.budget()),
            keeps_metadata(self@, *term, r, self.budget()),
    {
        self.eval_with_budget(term, self.step_budget())
    }

    /// The normal form of `term`, reached within `fuel` nested steps. A
    /// function type keeps its span and its hint, and an application that is
    /// stuck keeps its span.
    pub fn eval_with_budget(&self, term: &Term, fuel: usize) -> (r: Result<Term, Error>)
        requires
            self.wf(),
        ensures
            result_view(r) == eval_spec(self@, term@, fuel as nat),
            keeps_metadata(self@, *term, r, fuel as nat),
        decreases fuel, term,
    {
        proof {
            reveal_with_fuel(term_view, 2);
            reveal_with_fuel(eval_spec, 2);
        }
        match term {
            Term::App { fun, arg, span } => {
                let efun = match self.eval_with_budget(&**fun, fuel) {
                    Ok(t) => t,
                    Err(e) => {
                        return Err(e);
                    },
                };
                // Arguments are evaluated before the call.
                let earg = match self.eval_with_budget(&**arg, fuel) {
                    Ok(t) => t,
                    Err(e) => {
                        return Err(e);
                    },
                };
                if let Term::Lambda { body, .. } = &efun {
                    let next = match (&**body).instantiate(&earg) {
                        Ok(t) => t,
                        Err(e) => {
                            return Err(e);
                        },
                    };
                    if fuel == 0 {
                        return fail(Fault::StepBudgetExhausted);
                    }
                    return self.eval_with_budget(&next, fuel - 1);
                }
                Ok(Term::App { fun: Box::new(efun), arg: Box::new(earg), span: *span })
            },
            Term::Forall { name, ty, term, span } => {
                let ety = match self.eval_with_budget(&**ty, fuel) {
                    Ok(t) => t,
                    Err(e) => {
                        return Err(e);
                    },
                };
                let eterm = match self.eval_with_budget(&**term, fuel) {
                    Ok(t) => t,
                    Err(e) => {
                        return Err(e);
                    },
                };
                Ok(
                    Term::Forall {
                        name: name.clone(),
                        ty: Box::new(ety),
                        term: Box::new(eterm),
                        span: *span,
                    },
                )
            },
            Term::Var { name } => self.unfold_name(name),
            Term::Recursor(ty_name, offset, ts) => {
                proof {
                    lemma_recursor_view(*ty_name, *offset, *ts);
                }
                let dt = match self.datatype(ty_name) {
                    None => {
                        return Err(Error::UnknownVariable(ty_name.clone()));
                    },
                    Some(dt) => dt,
                };
                if ts.len() == 0 {
                    return fail(Fault::MalformedRecursor);
                }
                let last = ts.len() - 1;
                let scrutinee = match self.eval_with_budget(&ts[last], fuel) {
                    Ok(t) => t,
                    Err(e) => {
                        return Err(e);
                    },
                };
                let found = match scrutinee.head() {
                    None => None,
                    Some(head) => find_ctor(&dt.ctors, &head),
                };
                match found {
                    None => {
                        // The scrutinee is no constructor's: the recursor
                        // is stuck.
                        let mut stuck = clone_terms(ts);
                        stuck.set(last, scrutinee);
                        let name = ty_name.clone();
                        proof {
                            lemma_recursor_view(name, *offset, stuck);
                            assert(terms_view(stuck@) =~= terms_view(ts@).update(
                                last as int,
                                scrutinee@,
                            ));
                        }
                        Ok(Term::Recursor(name, *offset, stuck))
                    },
                    Some(i) => {
                        if *offset >= ts.len() || i >= ts.len() - *offset {
                            return fail(Fault::MalformedRecursor);
                        }
                        let premise = ts[i + *offset].clone();
                        match scrutinee.args() {
                            None => Ok(premise),
                            Some(mut args) => {
                                assert(args@.len() > 0);
                                let mut tsprime = clone_terms(ts);
                                tsprime.set(last, args[0].clone());
                                let name = ty_name.clone();
                                proof {
                                    lemma_recursor_view(name, *offset, tsprime);
                                    assert(terms_view(tsprime@) =~= terms_view(ts@).update(
                                        last as int,
                                        args@[0]@,
                                    ));
                                }
                                let rec = Term::Recursor(name, *offset, tsprime);
                                let ghost fields = terms_view(args@);
                                args.push(rec);
                                proof {
                                    assert(terms_view(args@) =~= fields.push(rec@));
                                }
                                if fuel == 0 {
                                    return fail(Fault::StepBudgetExhausted);
                                }
                                let applied = Term::apply_all(premise, args);
                                self.eval_with_budget(&applied, fuel - 1)
                            },
                        }
                    },
                }
            },
            t => Ok(t.clone()),
        }
    }
}

/// Evaluation fails only for want of a datatype or with an internal fault.
pub proof fn lemma_eval_errors(env: EnvView, t: TermView, fuel: nat)
    ensures
        eval_spec(env, t, fuel) matches Err(e) ==> e is UnknownVariable || e is Internal,
    decreases fuel, t,
{
    reveal_with_fuel(eval_spec, 2);
    match t {
        TermView::App { fun, arg } => {
            lemma_eval_errors(env, *fun, fuel);
            lemma_eval_errors(env, *arg, fuel);
            if let Ok(f) = eval_spec(env, *fun, fuel) {
                if let Ok(a) = eval_spec(env, *arg, fuel) {
                    if let Ok(Step::Reduce(next)) = beta(f, a) {
                        if fuel > 0 {
                            lemma_eval_errors(env, next, (fuel - 1) as nat);
                        }
                    }
                }
            }
        },
        TermView::Forall { ty, term } => {
            lemma_eval_errors(env, *ty, fuel);
            lemma_eval_errors(env, *term, fuel);
        },
        TermView::Recursor { ty_name, offset, args } => {
            if env.types.contains_key(ty_name) && args.len() > 0 {
                lemma_eval_errors(env, args[args.len() - 1], fuel);
                if let Ok(scrutinee) = eval_spec(env, args[args.len() - 1], fuel) {
                    if let Ok(Step::Reduce(next)) = iota(
                        env.types[ty_name].ctors,
                        ty_name,
                        offset,
                        args,
                        scrutinee,
                    ) {
                        if fuel > 0 {
                            lemma_eval_errors(env, next, (fuel - 1) as nat);
                        }
                    }
                }
            }
        },
        _ => {},
    }
}

/// The pairs of subterms at which two terms differ, as a walk of both in
/// step finds them: it stops at the first pair that differs, so there is at
/// most one.
pub open spec fn differences(t: TermView, u: TermView) -> Seq<(TermView, TermView)>
    decreases t,
{
    match (t, u) {
        (TermView::App { fun: f1, arg: a1 }, TermView::App { fun: f2, arg: a2 }) => {
            let first = differences(*f1, *f2);
            if first.len() == 0 {
                differences(*a1, *a2)
            } else {
                first
            }
        },
        (TermView::Forall { ty: t1, term: b1 }, TermView::Forall { ty: t2, term: b2 }) => {
            let first = differences(*t1, *t2);
            if first.len() == 0 {
                differences(*b1, *b2)
            } else {
                first
            }
        },
        (TermView::Lambda { ty: t1, body: b1 }, TermView::Lambda { ty: t2, body: b2 }) => {
            let first = differences(*t1, *t2);
            if first.len() == 0 {
                differences(*b1, *b2)
            } else {
                first
            }
        },
        _ => if t == u {
            Seq::empty()
        } else {
            seq![(t, u)]
        },
    }
}

/// Two terms differ nowhere exactly if they are the same term.
pub proof fn lemma_differences_none(t: TermView, u: TermView)
    ensures
        differences(t, u).len() == 0 <==> t == u,
    decreases t,
{
    match (t, u) {
        (TermView::App { fun: f1, arg: a1 }, TermView::App { fun: f2, arg: a2 }) => {
            lemma_differences_none(*f1, *f2);
            lemma_differences_none(*a1, *a2);
        },
        (TermView::Forall { ty: t1, term: b1 }, TermView::Forall { ty: t2, term: b2 }) => {
            lemma_differences_none(*t1, *t2);
            lemma_differences_none(*b1, *b2);
        },
        (TermView::Lambda { ty: t1, body: b1 }, TermView::Lambda { ty: t2, body: b2 }) => {
            lemma_differences_none(*t1, *t2);
            lemma_differences_none(*b1, *b2);
        },
        _ => {},
    }
}

/// Whether `t1` and `t2` are the same up to spans and hints. Where they
/// are not, the first pair of subterms at which they differ is added to
/// `equalities`.
pub fn def_eq_modulo(t1: &Term, t2: &Term, equalities: &mut Vec<(Term, Term)>) -> (r: bool)
    ensures
        r == (t1@ == t2@),
        r == (differences(t1@, t2@).len() == 0),
        pairs_view(final(equalities)@) == pairs_view(old(equalities)@) + differences(t1@, t2@),
    decreases t1,
{
    proof {
        lemma_differences_none(t1@, t2@);
    }
    match (t1, t2) {
        (Term::App { fun: fun1, arg: arg1, .. }, Term::App { fun: fun2, arg: arg2, .. }) => {
            def_eq_modulo(&**fun1, &**fun2, equalities) && def_eq_modulo(
                &**arg1,
                &**arg2,
                equalities,
            )
        },
        (Term::Forall { ty: ty1, term: term1, .. }, Term::Forall { ty: ty2, term: term2, .. }) => {
            def_eq_modulo(&**ty1, &**ty2, equalities) && def_eq_modulo(
                &**term1,
                &**term2,
                equalities,
            )
        },
        (Term::Lambda { ty: ty1, body: body1, .. }, Term::Lambda { ty: ty2, body: body2, .. }) => {
            def_eq_modulo(&**ty1, &**ty2, equalities) && def_eq_modulo(
                &**body1,
                &**body2,
                equalities,
            )
        },
        (t, u) => {
            if t.same(u) {
                assert(pairs_view(equalities@) =~= pairs_view(equalities@) + differences(t1@, t2@));
                true
            } else {
                let ghost before = pairs_view(equalities@);
                equalities.push((t.clone(), u.clone()));
                assert(pairs_view(equalities@) =~= before + differences(t1@, t2@));
                false
            }
        },
    }
}

/// The common normal form of `t` and `u` in `env`, where they have one;
/// else the error of the evaluation that failed, or `DefUnequal` with the
/// two normal forms and where they differ.
pub open spec fn def_eq_spec(env: EnvView, t: TermView, u: TermView, fuel: nat) -> Result<
    TermView,
    ErrorView,
> {
    match eval_spec(env, t, fuel) {
        Err(e) => Err(e),
        Ok(lhs) => match eval_spec(env, u, fuel) {
            Err(e) => Err(e),
            Ok(rhs) => if lhs == rhs {
                Ok(lhs)
            } else {
                Err(ErrorView::DefUnequal { lhs, rhs, log: differences(lhs, rhs) })
            },
        },
    }
}

/// The test that a term is not definitionally equal to `target` in `env`.
pub open spec fn differs_from(env: EnvView, target: TermView, fuel: nat) -> spec_fn(
    TermView,
) -> bool {
    |t: TermView| def_eq_spec(env, t, target, fuel) is Err
}

/// The test that a term is not definitionally equal to `target` in `cx`.
pub struct Differs<'a> {
    pub cx: &'a TyCtxt,
    pub target: Term,
}

impl<'a> TermPredicate for Differs<'a> {
    open spec fn valid(&self) -> bool {
        self.cx.wf()
    }

    open spec fn holds(&self, t: TermView) -> bool {
        def_eq_spec(self.cx@, t, self.target@, self.cx.budget()) is Err
    }

    fn test(&self, t: &Term) -> (r: bool) {
        self.cx.def_eq(Span::dummy(), t, &self.target).is_err()
    }
}

impl TyCtxt {
    /// Decides whether `t` and `u` are definitionally equal: whether their
    /// normal forms are the same up to spans and hints. Returns the normal
    /// form where they are; `DefUnequal` with `span`, the two normal forms
    /// and where they differ, where they are not; the error of `eval` where
    /// either has no normal form within the budget.
    pub fn def_eq(&self, span: Span, t: &Term, u: &Term) -> (r: Result<Term, Error>)
        requires
            self.wf(),
        ensures
            result_view(r) == def_eq_spec(self@, t@, u@, self.budget()),
            r matches Err(Error::DefUnequal(at, _, _, _)) ==> at == span,
    {
        proof {
            lemma_eval_errors(self@, t@, self.budget());
            lemma_eval_errors(self@, u@, self.budget());
        }
        let t = match self.eval(t) {
            Ok(t) => t,
            Err(e) => {
                return Err(e);
            },
        };
        let u = match self.eval(u) {
            Ok(u) => u,
            Err(e) => {
                return Err(e);
            },
        };
        let mut inequalities: Vec<(Term, Term)> = Vec::new();
        let is_def_eq = def_eq_modulo(&t, &u, &mut inequalities);
        if is_def_eq {
            Ok(t)
        } else {
            assert(pairs_view(inequalities@) =~= differences(t@, u@));
            Err(Error::DefUnequal(span, t, u, inequalities))
        }
    }

    /// `t` with every subterm that is not definitionally equal to the
    /// variable `n` replaced by what `n` unfolds to. A subterm that is
    /// replaced is not looked into.
    pub fn unfold(&self, t: Term, n: &Name) -> (r: Result<Term, Error>)
        requires
            self.wf(),
        ensures
            r matches Ok(unfolded) && unfolded@ == replace(
                t@,
                delta(self@, n@),
                differs_from(self@, TermView::Var { name: n@ }, self.budget()),
            ),
    {
        let def_rhs = match self.unfold_name(n) {
            Ok(rhs) => rhs,
            Err(e) => {
                return Err(e);
            },
        };
        let nt = n.to_term();
        let differs = Differs { cx: self, target: nt };
        proof {
            lemma_replace_agrees(
                t@,
                def_rhs@,
                test_of(differs),
                differs_from(self@, TermView::Var { name: n@ }, self.budget()),
            );
        }
        Ok(t.replace_term(&def_rhs, &differs))
    }
}

} // verus!
