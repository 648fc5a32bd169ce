//! Laws of the kernel: what holds of its functions together.

use crate::ast::term_view;
use crate::ast::NameView;
use crate::ast::Span;
use crate::ast::Term;
use crate::ast::TermView;
use crate::ast::ItemView;
use crate::check::fresh;
use crate::check::type_infer;
use crate::env::main_name;
use crate::env::EnvView;
use crate::error::ErrorView;
use crate::error::Fault;
use crate::eval::beta;
use crate::eval::def_eq_spec;
use crate::eval::delta;
use crate::eval::eval_spec;
use crate::eval::first_ctor;
use crate::eval::iota;
use crate::eval::with_scrutinee;
use crate::eval::Step;
use crate::subst::abstract_at;
use crate::subst::abstract_at_each;
use crate::subst::apply_all;
use crate::subst::collect;
use crate::subst::head;
use crate::subst::instantiate;
use crate::subst::instantiate_at;
use crate::subst::instantiate_at_each;
use crate::subst::spine;
use crate::typeck::check_defs;
use crate::typeck::check_item;
use crate::typeck::declare_item;
use vstd::prelude::*;

verus! {

/// Whether the local of tag `number` occurs in `t`. The types that locals
/// carry are not looked into.
pub open spec fn mentions_local(t: TermView, number: nat) -> bool
    decreases t,
{
    match t {
        TermView::Var { name: NameView::Local { number: tag, ty } } => tag == number,
        TermView::Lambda { ty, body } => mentions_local(*ty, number) || mentions_local(
            *body,
            number,
        ),
        TermView::Forall { ty, term } => mentions_local(*ty, number) || mentions_local(
            *term,
            number,
        ),
        TermView::App { fun, arg } => mentions_local(*fun, number) || mentions_local(*arg, number),
        TermView::Recursor { ty_name, offset, args } => exists|i: int|
            0 <= i < args.len() && mentions_local(#[trigger] args[i], number),
        _ => false,
    }
}

/// Whether every bound-variable index of `t` fits in a `usize`. The types
/// that locals carry are not looked into.
pub open spec fn bounded(t: TermView) -> bool
    decreases t,
{
    match t {
        TermView::Var { name: NameView::DeBruijn { index } } => index <= usize::MAX,
        TermView::Lambda { ty, body } => bounded(*ty) && bounded(*body),
        TermView::Forall { ty, term } => bounded(*ty) && bounded(*term),
        TermView::App { fun, arg } => bounded(*fun) && bounded(*arg),
        TermView::Recursor { ty_name, offset, args } => forall|i: int|
            0 <= i < args.len() ==> bounded(#[trigger] args[i]),
        _ => true,
    }
}

/// The view of every term is bounded.
pub proof fn lemma_view_bounded(t: Term)
    ensures
        bounded(t@),
    decreases t,
{
    reveal_with_fuel(term_view, 2);
    match t {
        Term::Lambda { ty, body, .. } => {
            lemma_view_bounded(*ty);
            lemma_view_bounded(*body);
        },
        Term::Forall { ty, term, .. } => {
            lemma_view_bounded(*ty);
            lemma_view_bounded(*term);
        },
        Term::App { fun, arg, .. } => {
            lemma_view_bounded(*fun);
            lemma_view_bounded(*arg);
        },
        Term::Recursor(ty_name, offset, args) => {
            assert forall|i: int| 0 <= i < args@.len() implies bounded(
                #[trigger] t@->Recursor_args[i],
            ) by {
                lemma_view_bounded(args@[i]);
            }
        },
        _ => {},
    }
}

/// Opening and closing are inverse. Putting a local that does not occur in
/// `b` for the bound variable of index `depth`, and then closing over that
/// local at the same depth, gives `b` back.
pub proof fn law_open_close(b: TermView, number: nat, ty: TermView, depth: nat)
    requires
        !mentions_local(b, number),
        bounded(b),
    ensures
        instantiate_at(b, fresh(number, ty), depth) matches Some(opened) ==> abstract_at(
            opened,
            number,
            depth,
        ) == Some(b),
    decreases b,
{
    let x = fresh(number, ty);
    match b {
        TermView::Lambda { ty: dom, body } => {
            law_open_close(*dom, number, ty, depth);
            law_open_close(*body, number, ty, depth + 1);
        },
        TermView::Forall { ty: dom, term } => {
            law_open_close(*dom, number, ty, depth);
            law_open_close(*term, number, ty, depth + 1);
        },
        TermView::App { fun, arg } => {
            law_open_close(*fun, number, ty, depth);
            law_open_close(*arg, number, ty, depth);
        },
        TermView::Recursor { ty_name, offset, args } => {
            let parts = instantiate_at_each(args, x, depth);
            if let Some(opened) = collect(parts) {
                let back = abstract_at_each(opened, number, depth);
                assert forall|i: int| 0 <= i < args.len() implies (#[trigger] back[i]) == Some(
                    args[i],
                ) by {
                    assert(parts[i] is Some);
                    assert(!mentions_local(args[i], number));
                    assert(bounded(args[i]));
                    law_open_close(args[i], number, ty, depth);
                }
                assert(collect(back)->0 =~= args);
            }
        },
        _ => {},
    }
}

/// The instantiation/abstraction round trip, for the body of a binder: for
/// a local `x` that does not occur in `b`, `b.instantiate(x).abstr(x)` is
/// `b`.
pub proof fn law_instantiate_abstr(b: Term, number: nat, ty: TermView)
    requires
        !mentions_local(b@, number),
    ensures
        instantiate(b@, fresh(number, ty)) matches Some(opened) ==> crate::subst::abstr(
            opened,
            number,
        ) == Some(b@),
{
    lemma_view_bounded(b);
    law_open_close(b@, number, ty, 0);
}

/// Binder hints and spans do not matter to definitional equality: two
/// function types that differ in nothing else have the same view, and are
/// definitionally equal wherever they have a normal form at all.
pub proof fn law_hints_do_not_matter(
    env: EnvView,
    span1: Span,
    span2: Span,
    hint1: String,
    hint2: String,
    ty: Term,
    body: Term,
    fuel: nat,
)
    ensures
        ({
            let a = Term::Forall { span: span1, name: hint1, ty: Box::new(ty), term: Box::new(body) };
            let b = Term::Forall { span: span2, name: hint2, ty: Box::new(ty), term: Box::new(body) };
            &&& a@ == b@
            &&& def_eq_spec(env, a@, b@, fuel) == eval_spec(env, a@, fuel)
        }),
{
}

/// The beta rule: a lambda applied to an argument is the lambda's body
/// with the evaluated argument put in, evaluated for one unit of budget.
pub proof fn law_beta(env: EnvView, ty: TermView, body: TermView, arg: TermView, fuel: nat)
    ensures
        eval_spec(
            env,
            TermView::App {
                fun: Box::new(TermView::Lambda { ty: Box::new(ty), body: Box::new(body) }),
                arg: Box::new(arg),
            },
            fuel,
        ) == match eval_spec(env, arg, fuel) {
            Err(e) => Err(e),
            Ok(value) => match instantiate(body, value) {
                None => Err(ErrorView::Internal(Fault::IndexOverflow)),
                Some(t) => if fuel == 0 {
                    Err(ErrorView::Internal(Fault::StepBudgetExhausted))
                } else {
                    eval_spec(env, t, (fuel - 1) as nat)
                },
            },
        },
{
    reveal_with_fuel(eval_spec, 2);
}

/// The beta rule for an argument that is a normal form already:
/// `eval(App(Lambda { body }, a))` is `eval(body.instantiate(a))`, with one
/// unit of budget less.
pub proof fn law_beta_normal_argument(
    env: EnvView,
    ty: TermView,
    body: TermView,
    arg: TermView,
    fuel: nat,
)
    requires
        eval_spec(env, arg, fuel) == Ok::<TermView, ErrorView>(arg),
        instantiate(body, arg) is Some,
        fuel > 0,
    ensures
        eval_spec(
            env,
            TermView::App {
                fun: Box::new(TermView::Lambda { ty: Box::new(ty), body: Box::new(body) }),
                arg: Box::new(arg),
            },
            fuel,
        ) == eval_spec(env, instantiate(body, arg)->0, (fuel - 1) as nat),
{
    law_beta(env, ty, body, arg, fuel);
}

/// The delta rule: a global with a definition evaluates to the body of the
/// definition as it stands, and any other name to itself.
pub proof fn law_delta(env: EnvView, name: NameView, fuel: nat)
    ensures
        name is Qual && env.definitions.contains_key(name) ==> eval_spec(
            env,
            TermView::Var { name },
            fuel,
        ) == Ok::<TermView, ErrorView>(env.definitions[name].1),
        !env.definitions.contains_key(name) ==> eval_spec(env, TermView::Var { name }, fuel)
            == Ok::<TermView, ErrorView>(TermView::Var { name }),
{
}

/// The delta rule for a definition whose body is a normal form already:
/// `eval(Var(f))` is `eval(body)`.
pub proof fn law_delta_normal_body(env: EnvView, name: NameView, fuel: nat)
    requires
        name is Qual,
        env.definitions.contains_key(name),
        eval_spec(env, env.definitions[name].1, fuel) == Ok::<TermView, ErrorView>(
            env.definitions[name].1,
        ),
    ensures
        eval_spec(env, TermView::Var { name }, fuel) == eval_spec(
            env,
            env.definitions[name].1,
            fuel,
        ),
{
}

/// The iota rule for a constructor without arguments: a recursor whose
/// scrutinee is the constructor `i` of its datatype, which has no
/// definition, evaluates to the premise of that constructor as it stands.
pub proof fn law_iota_nullary(
    env: EnvView,
    ty_name: NameView,
    offset: nat,
    args: Seq<TermView>,
    ctor: NameView,
    i: int,
    fuel: nat,
)
    requires
        env.types.contains_key(ty_name),
        args.len() > 0,
        args[args.len() - 1] == (TermView::Var { name: ctor }),
        !env.definitions.contains_key(ctor),
        first_ctor(env.types[ty_name].ctors, TermView::Var { name: ctor }, 0) == Some(i),
        i + offset < args.len(),
    ensures
        eval_spec(env, TermView::Recursor { ty_name, offset, args }, fuel) == Ok::<
            TermView,
            ErrorView,
        >(args[i + offset]),
{
    reveal_with_fuel(eval_spec, 2);
}

/// The iota rule for a constructor with arguments: a recursor whose
/// scrutinee evaluates to the constructor `i` applied to `fields` evaluates
/// as the premise of that constructor applied to the fields and then to
/// the recursor on the first field, with one unit of budget less.
pub proof fn law_iota_fields(
    env: EnvView,
    ty_name: NameView,
    offset: nat,
    args: Seq<TermView>,
    scrutinee: TermView,
    ctor: TermView,
    fields: Seq<TermView>,
    i: int,
    fuel: nat,
)
    requires
        env.types.contains_key(ty_name),
        args.len() > 0,
        eval_spec(env, args[args.len() - 1], fuel) == Ok::<TermView, ErrorView>(scrutinee),
        head(scrutinee) == Some(ctor),
        spine(scrutinee) == Some(fields),
        first_ctor(env.types[ty_name].ctors, ctor, 0) == Some(i),
        i + offset < args.len(),
        fuel > 0,
    ensures
        eval_spec(env, TermView::Recursor { ty_name, offset, args }, fuel) == eval_spec(
            env,
            apply_all(
                args[i + offset],
                fields.push(
                    TermView::Recursor {
                        ty_name,
                        offset,
                        args: args.update(args.len() - 1, fields[0]),
                    },
                ),
            ),
            (fuel - 1) as nat,
        ),
{
    reveal_with_fuel(eval_spec, 2);
}

/// A recursor whose scrutinee evaluates to a term that no constructor of
/// its datatype heads is stuck: it evaluates to itself, with the evaluated
/// scrutinee in it.
pub proof fn law_iota_stuck(
    env: EnvView,
    ty_name: NameView,
    offset: nat,
    args: Seq<TermView>,
    scrutinee: TermView,
    fuel: nat,
)
    requires
        env.types.contains_key(ty_name),
        args.len() > 0,
        eval_spec(env, args[args.len() - 1], fuel) == Ok::<TermView, ErrorView>(scrutinee),
        head(scrutinee) matches Some(h) ==> first_ctor(env.types[ty_name].ctors, h, 0) is None,
    ensures
        eval_spec(env, TermView::Recursor { ty_name, offset, args }, fuel) == Ok::<
            TermView,
            ErrorView,
        >(with_scrutinee(ty_name, offset, args, scrutinee)),
{
    reveal_with_fuel(eval_spec, 2);
}

/// Applying a term whose inferred type is `Type` to an argument is an
/// application mismatch.
pub proof fn law_application_mismatch(
    env: EnvView,
    fun: TermView,
    arg: TermView,
    counter: nat,
    fuel: nat,
)
    requires
        type_infer(env, fun, counter, fuel).result == Ok::<TermView, ErrorView>(TermView::Type),
    ensures
        type_infer(
            env,
            TermView::App { fun: Box::new(fun), arg: Box::new(arg) },
            counter,
            fuel,
        ).result == Err::<TermView, ErrorView>(ErrorView::ApplicationMismatch { fun, arg }),
{
    reveal_with_fuel(type_infer, 2);
}

/// Whether a declaration is a function named `main`.
pub open spec fn declares_main(item: ItemView) -> bool {
    item matches ItemView::Fn(f) && f.name == main_name()
}

/// A module without a function named `main` leaves an environment without
/// one, if the environment it started from had none: `get_main_body` then
/// fails with `NoMain`.
pub proof fn law_no_main(env: EnvView, defs: Seq<ItemView>, counter: nat, fuel: nat)
    requires
        !env.functions.contains_key(main_name()),
        forall|i: int| 0 <= i < defs.len() ==> !declares_main(#[trigger] defs[i]),
    ensures
        !check_defs(env, defs, counter, fuel).env.functions.contains_key(main_name()),
    decreases defs.len(),
{
    if defs.len() > 0 {
        assert(!declares_main(defs[0]));
        if let Ok(declared) = declare_item(env, defs[0]) {
            if check_item(declared, defs[0], counter, fuel) is Ok {
                assert forall|i: int| 0 <= i < defs.drop_first().len() implies !declares_main(
                    #[trigger] defs.drop_first()[i],
                ) by {
                    assert(defs.drop_first()[i] == defs[i + 1]);
                }
                law_no_main(declared, defs.drop_first(), counter, fuel);
            }
        }
    }
}

/// Whether no constructor of `ctors` heads `scrutinee`, so that a recursor
/// on it is stuck.
pub open spec fn heads_no_ctor(ctors: Seq<(NameView, TermView)>, scrutinee: TermView) -> bool {
    head(scrutinee) matches Some(h) ==> first_ctor(ctors, h, 0) is None
}

/// Whether `t` is a normal form in `env`: a term in which the evaluator
/// finds nothing to reduce. A lambda is one whatever its body holds.
pub open spec fn normal(env: EnvView, t: TermView) -> bool
    decreases t,
{
    match t {
        TermView::Var { name } => delta(env, name) == t,
        TermView::App { fun, arg } => normal(env, *fun) && normal(env, *arg) && !(*fun is Lambda),
        TermView::Forall { ty, term } => normal(env, *ty) && normal(env, *term),
        TermView::Recursor { ty_name, offset, args } => {
            &&& env.types.contains_key(ty_name)
            &&& args.len() > 0
            &&& normal(env, args[args.len() - 1])
            &&& heads_no_ctor(env.types[ty_name].ctors, args[args.len() - 1])
        },
        _ => true,
    }
}

/// A normal form evaluates to itself, within any budget.
pub proof fn law_normal_forms_are_fixed(env: EnvView, t: TermView, fuel: nat)
    requires
        normal(env, t),
    ensures
        eval_spec(env, t, fuel) == Ok::<TermView, ErrorView>(t),
    decreases t,
{
    reveal_with_fuel(eval_spec, 2);
    match t {
        TermView::App { fun, arg } => {
            law_normal_forms_are_fixed(env, *fun, fuel);
            law_normal_forms_are_fixed(env, *arg, fuel);
        },
        TermView::Forall { ty, term } => {
            law_normal_forms_are_fixed(env, *ty, fuel);
            law_normal_forms_are_fixed(env, *term, fuel);
        },
        TermView::Recursor { ty_name, offset, args } => {
            law_normal_forms_are_fixed(env, args[args.len() - 1], fuel);
            assert(args.update(args.len() - 1, args[args.len() - 1]) =~= args);
        },
        _ => {},
    }
}

/// Whether the evaluation of `t` hands out a term that it has not
/// evaluated and that is no normal form. The evaluator does so in two
/// places: a global unfolds to the body of its definition as it stands,
/// and a recursor on a constructor without arguments reduces to that
/// constructor's premise as it stands.
pub open spec fn hands_out_unevaluated(env: EnvView, t: TermView, fuel: nat) -> bool
    decreases fuel, t,
{
    match t {
        TermView::Var { name } => !normal(env, delta(env, name)),
        TermView::App { fun, arg } => match (eval_spec(env, *fun, fuel), eval_spec(env, *arg, fuel)) {
            (Ok(f), Ok(a)) => match beta(f, a) {
                Ok(Step::Reduce(next)) => fuel > 0 && hands_out_unevaluated(
                    env,
                    next,
                    (fuel - 1) as nat,
                ),
                _ => hands_out_unevaluated(env, *fun, fuel) || hands_out_unevaluated(
                    env,
                    *arg,
                    fuel,
                ),
            },
            _ => false,
        },
        TermView::Forall { ty, term } => hands_out_unevaluated(env, *ty, fuel)
            || hands_out_unevaluated(env, *term, fuel),
        TermView::Recursor { ty_name, offset, args } => {
            if env.types.contains_key(ty_name) && args.len() > 0 {
                match eval_spec(env, args[args.len() - 1], fuel) {
                    Ok(scrutinee) => match iota(
                        env.types[ty_name].ctors,
                        ty_name,
                        offset,
                        args,
                        scrutinee,
                    ) {
                        Ok(Step::Reduce(next)) => fuel > 0 && hands_out_unevaluated(
                            env,
                            next,
                            (fuel - 1) as nat,
                        ),
                        Ok(Step::Value(value)) => if heads_no_ctor(
                            env.types[ty_name].ctors,
                            scrutinee,
                        ) {
                            hands_out_unevaluated(env, args[args.len() - 1], fuel)
                        } else {
                            !normal(env, value)
                        },
                        Err(_) => false,
                    },
                    Err(_) => false,
                }
            } else {
                false
            }
        },
        _ => false,
    }
}

/// What an evaluation comes to is a normal form, unless the evaluation
/// hands out a term that it has not evaluated and that is none.
pub proof fn law_eval_reaches_normal_form(env: EnvView, t: TermView, fuel: nat)
    requires
        eval_spec(env, t, fuel) is Ok,
        !hands_out_unevaluated(env, t, fuel),
    ensures
        normal(env, eval_spec(env, t, fuel)->Ok_0),
    decreases fuel, t,
{
    reveal_with_fuel(eval_spec, 2);
    match t {
        TermView::App { fun, arg } => {
            let f = eval_spec(env, *fun, fuel)->Ok_0;
            let a = eval_spec(env, *arg, fuel)->Ok_0;
            match beta(f, a) {
                Ok(Step::Reduce(next)) => {
                    law_eval_reaches_normal_form(env, next, (fuel - 1) as nat);
                },
                _ => {
                    law_eval_reaches_normal_form(env, *fun, fuel);
                    law_eval_reaches_normal_form(env, *arg, fuel);
                },
            }
        },
        TermView::Forall { ty, term } => {
            law_eval_reaches_normal_form(env, *ty, fuel);
            law_eval_reaches_normal_form(env, *term, fuel);
        },
        TermView::Recursor { ty_name, offset, args } => {
            let scrutinee = eval_spec(env, args[args.len() - 1], fuel)->Ok_0;
            match iota(env.types[ty_name].ctors, ty_name, offset, args, scrutinee) {
                Ok(Step::Reduce(next)) => {
                    law_eval_reaches_normal_form(env, next, (fuel - 1) as nat);
                },
                Ok(Step::Value(value)) => {
                    if heads_no_ctor(env.types[ty_name].ctors, scrutinee) {
                        law_eval_reaches_normal_form(env, args[args.len() - 1], fuel);
                    }
                },
                Err(_) => {},
            }
        },
        _ => {},
    }
}

/// Normalization is idempotent: what an evaluation comes to evaluates to
/// itself, within any budget, unless the evaluation hands out a term that
/// it has not evaluated and that is no normal form.
pub proof fn law_eval_idempotent(env: EnvView, t: TermView, fuel: nat, again: nat)
    requires
        eval_spec(env, t, fuel) is Ok,
        !hands_out_unevaluated(env, t, fuel),
    ensures
        eval_spec(env, eval_spec(env, t, fuel)->Ok_0, again) == eval_spec(env, t, fuel),
{
    law_eval_reaches_normal_form(env, t, fuel);
    law_normal_forms_are_fixed(env, eval_spec(env, t, fuel)->Ok_0, again);
}

/// The budget only cuts evaluation off: what an evaluation comes to within
/// one budget, it comes to within every larger one, unless the smaller
/// budget was exhausted.
pub proof fn law_budget_only_cuts_off(env: EnvView, t: TermView, fuel: nat, more: nat)
    requires
        fuel <= more,
        eval_spec(env, t, fuel) != Err::<TermView, ErrorView>(
            ErrorView::Internal(Fault::StepBudgetExhausted),
        ),
    ensures
        eval_spec(env, t, more) == eval_spec(env, t, fuel),
    decreases fuel, t,
{
    reveal_with_fuel(eval_spec, 2);
    match t {
        TermView::App { fun, arg } => {
            law_budget_only_cuts_off(env, *fun, fuel, more);
            if let Ok(f) = eval_spec(env, *fun, fuel) {
                law_budget_only_cuts_off(env, *arg, fuel, more);
                if let Ok(a) = eval_spec(env, *arg, fuel) {
                    if let Ok(Step::Reduce(next)) = beta(f, a) {
                        law_budget_only_cuts_off(
                            env,
                            next,
                            (fuel - 1) as nat,
                            (more - 1) as nat,
                        );
                    }
                }
            }
        },
        TermView::Forall { ty, term } => {
            law_budget_only_cuts_off(env, *ty, fuel, more);
            if eval_spec(env, *ty, fuel) is Ok {
                law_budget_only_cuts_off(env, *term, fuel, more);
            }
        },
        TermView::Recursor { ty_name, offset, args } => {
            if env.types.contains_key(ty_name) && args.len() > 0 {
                law_budget_only_cuts_off(env, args[args.len() - 1], fuel, more);
                if let Ok(scrutinee) = eval_spec(env, args[args.len() - 1], fuel) {
                    if let Ok(Step::Reduce(next)) = iota(
                        env.types[ty_name].ctors,
                        ty_name,
                        offset,
                        args,
                        scrutinee,
                    ) {
                        law_budget_only_cuts_off(
                            env,
                            next,
                            (fuel - 1) as nat,
                            (more - 1) as nat,
                        );
                    }
                }
            }
        },
        _ => {},
    }
}

/// Definitional equality is an equivalence on the terms that have a normal
/// form within the budget: a term is equal to itself, and equality can be
/// turned round and chained.
pub proof fn law_def_eq_is_an_equivalence(
    env: EnvView,
    t: TermView,
    u: TermView,
    v: TermView,
    fuel: nat,
)
    ensures
        eval_spec(env, t, fuel) is Ok ==> def_eq_spec(env, t, t, fuel) == eval_spec(env, t, fuel),
        def_eq_spec(env, t, u, fuel) is Ok <==> def_eq_spec(env, u, t, fuel) is Ok,
        def_eq_spec(env, t, u, fuel) is Ok && def_eq_spec(env, u, v, fuel) is Ok ==> def_eq_spec(
            env,
            t,
            v,
            fuel,
        ) == def_eq_spec(env, t, u, fuel),
{
}

/// The walk of two terms in step finds at most one difference, and none
/// exactly if the terms are the same.
pub proof fn law_differences(t: TermView, u: TermView)
    ensures
        crate::eval::differences(t, u).len() <= 1,
        crate::eval::differences(t, u).len() == 0 <==> t == u,
    decreases t,
{
    crate::eval::lemma_differences_none(t, u);
    match (t, u) {
        (TermView::App { fun: f1, arg: a1 }, TermView::App { fun: f2, arg: a2 }) => {
            law_differences(*f1, *f2);
            law_differences(*a1, *a2);
        },
        (TermView::Forall { ty: t1, term: b1 }, TermView::Forall { ty: t2, term: b2 }) => {
            law_differences(*t1, *t2);
            law_differences(*b1, *b2);
        },
        (TermView::Lambda { ty: t1, body: b1 }, TermView::Lambda { ty: t2, body: b2 }) => {
            law_differences(*t1, *t2);
            law_differences(*b1, *b2);
        },
        _ => {},
    }
}

} // verus!
