//! Recursors: the elimination principle of an inductive datatype, made from
//! its declaration.
//!
//! For a datatype `D : Π (x1 : T1) … (xn : Tn). Type` with the constructors
//! `c0 … c(k-1)`, the recursor takes, in order: `x1 … xn`; a motive
//! `C : Π (_ : D x1 … xn). Type`; one premise for each constructor; and the
//! scrutinee `s : D x1 … xn`. It returns `C s`. The premise of a constructor
//! `c : Π (a1 : A1) … (am : Am). R` takes the constructor's arguments, then
//! one hypothesis `C aj` for each argument whose type is headed by `D`, and
//! returns `C (c a1 … am)`.
//!
//! The recursor's body is the saturated recursor on all these, with the
//! offset `n + 1`, the number of arguments that stand before the premises.

use crate::ast::lemma_recursor_view;
use crate::ast::rec_name;
use crate::ast::term_view;
use crate::ast::terms_view;
use crate::ast::Data;
use crate::ast::DataView;
use crate::ast::Name;
use crate::ast::NameView;
use crate::ast::Span;
use crate::ast::Term;
use crate::ast::TermView;
use crate::env::EnvView;
use crate::env::TyCtxt;
use crate::error::fail;
use crate::error::Error;
use crate::error::ErrorView;
use crate::error::Fault;
use crate::subst::apply_all;
use crate::subst::head;
use vstd::prelude::*;

verus! {

/// The types of the binders that a type begins with, outermost first.
pub open spec fn binders(t: TermView) -> Seq<TermView>
    decreases t,
{
    match t {
        TermView::Forall { ty, term } => seq![*ty] + binders(*term),
        _ => Seq::empty(),
    }
}

/// The function type that binds variables of the types `doms`, outermost
/// first, over `body`.
pub open spec fn pis(doms: Seq<TermView>, body: TermView) -> TermView
    decreases doms.len(),
{
    if doms.len() == 0 {
        body
    } else {
        TermView::Forall { ty: Box::new(doms[0]), term: Box::new(pis(doms.drop_first(), body)) }
    }
}

/// The function that binds variables of the types `doms`, outermost first,
/// over `body`.
pub open spec fn lambdas(doms: Seq<TermView>, body: TermView) -> TermView
    decreases doms.len(),
{
    if doms.len() == 0 {
        body
    } else {
        TermView::Lambda {
            ty: Box::new(doms[0]),
            body: Box::new(lambdas(doms.drop_first(), body)),
        }
    }
}

/// The bound variable of index `index`.
pub open spec fn bound(index: nat) -> TermView {
    TermView::Var { name: NameView::DeBruijn { index } }
}

/// The variables of `count` binders in a row, outermost first, where the
/// innermost of them has the index `low`.
pub open spec fn bound_run(count: nat, low: nat) -> Seq<TermView> {
    Seq::new(count, |j: int| bound((low + count - 1 - j) as nat))
}

/// The datatype `d` applied to the variables of its `n` binders, the last
/// of which has the index `low`.
pub open spec fn family(d: NameView, n: nat, low: nat) -> TermView {
    apply_all(TermView::Var { name: d }, bound_run(n, low))
}

/// The type of the motive of `d`, which has `n` binders, where the last of
/// them has the index 0.
pub open spec fn motive_type(d: NameView, n: nat) -> TermView {
    TermView::Forall { ty: Box::new(family(d, n, 0)), term: Box::new(TermView::Type) }
}

/// Whether an argument of the type `field` is of the datatype `d` itself.
pub open spec fn is_recursive(d: NameView, field: TermView) -> bool {
    head(field) == Some(TermView::Var { name: d })
}

/// The types of the hypotheses for the arguments from `from` on of a
/// constructor with the argument types `fields`. A hypothesis stands under
/// all the arguments and under the `made` hypotheses before it, where the
/// motive has the index `motive + made`.
pub open spec fn hypotheses(d: NameView, fields: Seq<TermView>, motive: nat, from: nat, made: nat)
    -> Seq<TermView>
    decreases fields.len() - from,
{
    if from >= fields.len() {
        Seq::empty()
    } else if is_recursive(d, fields[from as int]) {
        seq![
            TermView::App {
                fun: Box::new(bound(motive + made)),
                arg: Box::new(bound((fields.len() - 1 - from + made) as nat)),
            },
        ] + hypotheses(d, fields, motive, from + 1, made + 1)
    } else {
        hypotheses(d, fields, motive, from + 1, made)
    }
}

/// The type of the premise of the constructor `ctor` of the type `ctor_ty`,
/// where the motive has the index `motive`.
pub open spec fn premise_type(d: NameView, ctor: NameView, ctor_ty: TermView, motive: nat)
    -> TermView {
    let fields = binders(ctor_ty);
    let m = fields.len();
    let hyps = hypotheses(d, fields, motive + m, 0, 0);
    pis(
        fields,
        pis(
            hyps,
            TermView::App {
                fun: Box::new(bound(motive + m + hyps.len())),
                arg: Box::new(apply_all(TermView::Var { name: ctor }, bound_run(m, hyps.len()))),
            },
        ),
    )
}

/// The types of the premises of a datatype's constructors, in order. Each
/// stands under the motive and the premises before it.
pub open spec fn premise_types(d: NameView, ctors: Seq<(NameView, TermView)>) -> Seq<TermView> {
    Seq::new(ctors.len(), |i: int| premise_type(d, ctors[i].0, ctors[i].1, i as nat))
}

/// The type of the recursor of `data`.
pub open spec fn recursor_type(data: DataView) -> TermView {
    let doms = binders(data.ty);
    let n = doms.len();
    let k = data.ctors.len();
    pis(
        doms,
        TermView::Forall {
            ty: Box::new(motive_type(data.name, n)),
            term: Box::new(
                pis(
                    premise_types(data.name, data.ctors),
                    TermView::Forall {
                        ty: Box::new(family(data.name, n, k + 1)),
                        term: Box::new(
                            TermView::App { fun: Box::new(bound(k + 1)), arg: Box::new(bound(0)) },
                        ),
                    },
                ),
            ),
        },
    )
}

/// The recursor of `data`: the function of all the recursor's arguments
/// that is the saturated recursor on them.
pub open spec fn recursor_term(data: DataView) -> TermView {
    let doms = binders(data.ty);
    let n = doms.len();
    let k = data.ctors.len();
    lambdas(
        doms,
        TermView::Lambda {
            ty: Box::new(motive_type(data.name, n)),
            body: Box::new(
                lambdas(
                    premise_types(data.name, data.ctors),
                    TermView::Lambda {
                        ty: Box::new(family(data.name, n, k + 1)),
                        body: Box::new(
                            TermView::Recursor {
                                ty_name: data.name,
                                offset: n + 1,
                                args: bound_run(n + k + 2, 0),
                            },
                        ),
                    },
                ),
            ),
        },
    )
}

/// Whether every index of the recursor of `data` and of its type fits in a
/// `usize`.
pub open spec fn recursor_fits(data: DataView) -> bool {
    &&& binders(data.ty).len() + data.ctors.len() + 2 <= usize::MAX
    &&& forall|i: int|
        0 <= i < data.ctors.len() ==> i + 2 * binders((#[trigger] data.ctors[i]).1).len()
            <= usize::MAX
}


/// The types of a sequence of binders, each with its hint.
pub open spec fn doms_view(doms: Seq<(String, Term)>) -> Seq<TermView> {
    Seq::new(doms.len(), |i: int| doms[i].1@)
}

/// The binders that the type `ty` begins with, outermost first: the hint
/// and the type of each.
fn binders_of(ty: &Term) -> (r: Vec<(String, Term)>)
    ensures
        doms_view(r@) == binders(ty@),
{
    let mut found: Vec<(String, Term)> = Vec::new();
    let mut rest: &Term = ty;
    assert(doms_view(found@) + binders(rest@) =~= binders(ty@));
    loop
        invariant
            doms_view(found@) + binders(rest@) == binders(ty@),
        ensures
            doms_view(found@) == binders(ty@),
        decreases rest,
    {
        match rest {
            Term::Forall { name, ty: dom, term, .. } => {
                let ghost before = doms_view(found@);
                found.push((name.clone(), (&**dom).clone()));
                assert(doms_view(found@) =~= before + seq![dom@]);
                assert(doms_view(found@) + binders(term@) =~= before + binders(rest@));
                rest = &**term;
            },
            _ => {
                assert(doms_view(found@) + binders(rest@) =~= doms_view(found@));
                break ;
            },
        }
    }
    found
}

/// The function type that binds variables of the types `doms`, outermost
/// first, over `body`.
fn wrap_pis(doms: &Vec<(String, Term)>, body: Term) -> (r: Term)
    ensures
        r@ == pis(doms_view(doms@), body@),
{
    let mut result = body;
    let mut i: usize = doms.len();
    assert(doms_view(doms@).skip(i as int) =~= Seq::<TermView>::empty());
    while i > 0
        invariant
            i <= doms.len(),
            result@ == pis(doms_view(doms@).skip(i as int), body@),
        decreases i,
    {
        i = i - 1;
        assert(doms_view(doms@).skip(i as int).drop_first() =~= doms_view(doms@).skip(i + 1));
        result =
        Term::Forall {
            span: Span::dummy(),
            name: doms[i].0.clone(),
            ty: Box::new(doms[i].1.clone()),
            term: Box::new(result),
        };
    }
    assert(doms_view(doms@).skip(0) =~= doms_view(doms@));
    result
}

/// The function that binds variables of the types `doms`, outermost first,
/// over `body`.
fn wrap_lambdas(doms: &Vec<(String, Term)>, body: Term) -> (r: Term)
    ensures
        r@ == lambdas(doms_view(doms@), body@),
{
    let mut result = body;
    let mut i: usize = doms.len();
    assert(doms_view(doms@).skip(i as int) =~= Seq::<TermView>::empty());
    while i > 0
        invariant
            i <= doms.len(),
            result@ == lambdas(doms_view(doms@).skip(i as int), body@),
        decreases i,
    {
        i = i - 1;
        assert(doms_view(doms@).skip(i as int).drop_first() =~= doms_view(doms@).skip(i + 1));
        result =
        Term::Lambda {
            span: Span::dummy(),
            name: doms[i].0.clone(),
            ty: Box::new(doms[i].1.clone()),
            body: Box::new(result),
        };
    }
    assert(doms_view(doms@).skip(0) =~= doms_view(doms@));
    result
}

/// The bound variable of index `index`, printed as `hint`.
fn bound_var(index: usize, hint: &str) -> (r: Term)
    ensures
        r@ == bound(index as nat),
{
    proof {
        reveal_with_fuel(term_view, 2);
    }
    Term::Var { name: Name::DeBruijn { index, span: Span::dummy(), repr: hint.to_owned() } }
}

/// The variables of `count` binders in a row, outermost first, where the
/// innermost of them has the index `low`.
fn bound_run_of(count: usize, low: usize) -> (r: Vec<Term>)
    requires
        low + count <= usize::MAX,
    ensures
        terms_view(r@) == bound_run(count as nat, low as nat),
{
    let mut vars: Vec<Term> = Vec::new();
    let mut j: usize = 0;
    while j < count
        invariant
            j <= count,
            low + count <= usize::MAX,
            vars@.len() == j,
            forall|i: int|
                0 <= i < j ==> (#[trigger] vars@[i])@ == bound((low + count - 1 - i) as nat),
        decreases count - j,
    {
        vars.push(bound_var(low + (count - 1 - j), "x"));
        j = j + 1;
    }
    assert(terms_view(vars@) =~= bound_run(count as nat, low as nat));
    vars
}

/// The datatype `d` applied to the variables of its `n` binders, the last
/// of which has the index `low`.
fn family_of(d: &Name, n: usize, low: usize) -> (r: Term)
    requires
        low + n <= usize::MAX,
    ensures
        r@ == family(d@, n as nat, low as nat),
{
    Term::apply_all(d.to_term(), bound_run_of(n, low))
}

/// The hypotheses of a constructor with the arguments `fields`, where the
/// motive has the index `motive` under the arguments.
fn hypotheses_of(d: &Name, fields: &Vec<(String, Term)>, motive: usize) -> (r: Vec<
    (String, Term),
>)
    requires
        motive + fields@.len() <= usize::MAX,
    ensures
        doms_view(r@) == hypotheses(d@, doms_view(fields@), motive as nat, 0, 0),
        r@.len() <= fields@.len(),
{
    let target = d.to_term();
    let mut hyps: Vec<(String, Term)> = Vec::new();
    let mut from: usize = 0;
    let ghost all = doms_view(fields@);
    assert(doms_view(hyps@) + hypotheses(d@, all, motive as nat, 0, 0) =~= hypotheses(
        d@,
        all,
        motive as nat,
        0,
        0,
    ));
    while from < fields.len()
        invariant
            from <= fields.len(),
            hyps@.len() <= from,
            all == doms_view(fields@),
            target@ == (TermView::Var { name: d@ }),
            motive + fields@.len() <= usize::MAX,
            doms_view(hyps@) + hypotheses(d@, all, motive as nat, from as nat, hyps@.len() as nat)
                == hypotheses(d@, all, motive as nat, 0, 0),
        decreases fields.len() - from,
    {
        let recursive = match fields[from].1.head() {
            Some(h) => h.same(&target),
            None => false,
        };
        if recursive {
            let made = hyps.len();
            let hyp = Term::App {
                span: Span::dummy(),
                fun: Box::new(bound_var(motive + made, "C")),
                arg: Box::new(bound_var(fields.len() - 1 - from + made, "x")),
            };
            let ghost before = doms_view(hyps@);
            hyps.push(("ih".to_owned(), hyp));
            proof {
                assert(doms_view(hyps@) =~= before + seq![hyp@]);
                assert(doms_view(hyps@) + hypotheses(
                    d@,
                    all,
                    motive as nat,
                    (from + 1) as nat,
                    (made + 1) as nat,
                ) =~= before + hypotheses(d@, all, motive as nat, from as nat, made as nat));
            }
        }
        from = from + 1;
    }
    assert(doms_view(hyps@) + Seq::<TermView>::empty() =~= doms_view(hyps@));
    hyps
}

/// The type of the premise of the constructor `ctor` with the arguments
/// `fields`, where the motive has the index `motive`.
fn premise_type_of(d: &Name, ctor: &Name, ctor_ty: &Term, motive: usize) -> (r: Option<Term>)
    ensures
        match r {
            Some(t) => t@ == premise_type(d@, ctor@, ctor_ty@, motive as nat) && motive + 2
                * binders(ctor_ty@).len() <= usize::MAX,
            None => motive + 2 * binders(ctor_ty@).len() > usize::MAX,
        },
{
    let fields = binders_of(ctor_ty);
    let m = fields.len();
    if m > (usize::MAX - motive) / 2 {
        return None;
    }
    let hyps = hypotheses_of(d, &fields, motive + m);
    let made = hyps.len();
    let result = Term::App {
        span: Span::dummy(),
        fun: Box::new(bound_var(motive + m + made, "C")),
        arg: Box::new(Term::apply_all(ctor.to_term(), bound_run_of(m, made))),
    };
    Some(wrap_pis(&fields, wrap_pis(&hyps, result)))
}

/// Gives `ty_cx` the recursor of the datatype `data`: its type as an
/// axiom, and its type and body as a definition, both under the name of the
/// datatype with `rec` added. Whatever was held under that name is
/// replaced.
///
/// Fails, and leaves `ty_cx` as it was, with `Fault::NotGlobal` where the
/// datatype's name is no global's, and with `Fault::IndexOverflow` where an
/// index of the recursor does not fit in a `usize`.
pub fn make_recursor(ty_cx: &mut TyCtxt, data: &Data) -> (r: Result<(), Error>)
    requires
        old(ty_cx).wf(),
    ensures
        final(ty_cx).wf(),
        final(ty_cx).counter() == old(ty_cx).counter(),
        final(ty_cx).budget() == old(ty_cx).budget(),
        final(ty_cx).source() == old(ty_cx).source(),
        match rec_name(data@.name) {
            None => {
                &&& r matches Err(e) && e@ == ErrorView::Internal(Fault::NotGlobal)
                &&& final(ty_cx)@ == old(ty_cx)@
            },
            Some(rec) => if recursor_fits(data@) {
                &&& r is Ok
                &&& final(ty_cx)@ == (EnvView {
                    axioms: old(ty_cx)@.axioms.insert(rec, recursor_type(data@)),
                    definitions: old(ty_cx)@.definitions.insert(
                        rec,
                        (recursor_type(data@), recursor_term(data@)),
                    ),
                    ..old(ty_cx)@
                })
            } else {
                &&& r matches Err(e) && e@ == ErrorView::Internal(Fault::IndexOverflow)
                &&& final(ty_cx)@ == old(ty_cx)@
            },
        },
{
    let rec = match data.name.recursor() {
        Some(rec) => rec,
        None => {
            return fail(Fault::NotGlobal);
        },
    };
    let doms = binders_of(&data.ty);
    let n = doms.len();
    let k = data.ctors.len();
    if n > usize::MAX - 2 || k > usize::MAX - 2 - n {
        return fail(Fault::IndexOverflow);
    }
    let mut premises: Vec<(String, Term)> = Vec::new();
    let mut i: usize = 0;
    while i < k
        invariant
            i <= k,
            k == data.ctors@.len(),
            ty_cx.wf(),
            ty_cx@ == old(ty_cx)@,
            ty_cx.counter() == old(ty_cx).counter(),
            ty_cx.budget() == old(ty_cx).budget(),
            ty_cx.source() == old(ty_cx).source(),
            rec_name(data@.name) == Some(rec@),
            n == binders(data@.ty).len(),
            n + k + 2 <= usize::MAX,
            premises@.len() == i,
            forall|j: int|
                0 <= j < i ==> (#[trigger] premises@[j]).1@ == premise_type(
                    data@.name,
                    data@.ctors[j].0,
                    data@.ctors[j].1,
                    j as nat,
                ),
            forall|j: int|
                0 <= j < i ==> j + 2 * binders((#[trigger] data@.ctors[j]).1).len() <= usize::MAX,
        decreases k - i,
    {
        match premise_type_of(&data.name, &data.ctors[i].0, &data.ctors[i].1, i) {
            Some(p) => {
                premises.push(("p".to_owned(), p));
            },
            None => {
                assert(i + 2 * binders(data@.ctors[i as int].1).len() > usize::MAX);
                return fail(Fault::IndexOverflow);
            },
        }
        i = i + 1;
    }
    assert(doms_view(premises@) =~= premise_types(data@.name, data@.ctors));
    let motive: (String, Term) = (
        "C".to_owned(),
        Term::Forall {
            span: Span::dummy(),
            name: "x".to_owned(),
            ty: Box::new(family_of(&data.name, n, 0)),
            term: Box::new(Term::Type),
        },
    );
    assert(motive.1@ == motive_type(data@.name, n as nat));
    let scrutinee_ty = family_of(&data.name, n, k + 1);
    let result_ty = Term::App {
        span: Span::dummy(),
        fun: Box::new(bound_var(k + 1, "C")),
        arg: Box::new(bound_var(0, "s")),
    };
    assert(result_ty@ == (TermView::App {
        fun: Box::new(bound((k + 1) as nat)),
        arg: Box::new(bound(0)),
    }));
    let rec_ty = wrap_pis(
        &doms,
        Term::Forall {
            span: Span::dummy(),
            name: motive.0.clone(),
            ty: Box::new(motive.1.clone()),
            term: Box::new(
                wrap_pis(
                    &premises,
                    Term::Forall {
                        span: Span::dummy(),
                        name: "s".to_owned(),
                        ty: Box::new(scrutinee_ty.clone()),
                        term: Box::new(result_ty),
                    },
                ),
            ),
        },
    );
    assert(rec_ty@ == recursor_type(data@));
    let args = bound_run_of(n + k + 2, 0);
    let saturated_name = data.name.clone();
    proof {
        lemma_recursor_view(saturated_name, (n + 1) as usize, args);
    }
    let saturated = Term::Recursor(saturated_name, n + 1, args);
    let rec_term = wrap_lambdas(
        &doms,
        Term::Lambda {
            span: Span::dummy(),
            name: motive.0,
            ty: Box::new(motive.1),
            body: Box::new(
                wrap_lambdas(
                    &premises,
                    Term::Lambda {
                        span: Span::dummy(),
                        name: "s".to_owned(),
                        ty: Box::new(scrutinee_ty),
                        body: Box::new(saturated),
                    },
                ),
            ),
        },
    );
    assert(recursor_fits(data@));
    ty_cx.insert_axiom(rec.clone(), rec_ty.clone());
    ty_cx.insert_definition(rec, rec_ty, rec_term);
    Ok(())
}

} // verus!
