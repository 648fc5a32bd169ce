//! The recursor that a datatype is given, applied to all its arguments,
//! reduces to the saturated recursor on them.

use crate::ast::DataView;
use crate::ast::NameView;
use crate::ast::TermView;
use crate::env::EnvView;
use crate::error::ErrorView;
use crate::error::Fault;
use crate::eval::beta;
use crate::eval::eval_spec;
use crate::eval::follow;
use crate::inductive::binders;
use crate::inductive::bound;
use crate::inductive::bound_run;
use crate::inductive::family;
use crate::inductive::lambdas;
use crate::inductive::motive_type;
use crate::inductive::premise_types;
use crate::inductive::recursor_term;
use crate::subst::apply_all;
use crate::subst::collect;
use crate::subst::instantiate_at;
use crate::subst::instantiate_at_each;
use crate::subst::shift;
use crate::subst::shift_each;
use vstd::prelude::*;

verus! {

/// Whether every bound variable of `t` is bound within `t` or by one of
/// the `depth` binders around it.
pub open spec fn closed(t: TermView, depth: nat) -> bool
    decreases t,
{
    match t {
        TermView::Var { name: NameView::DeBruijn { index } } => index < depth,
        TermView::Lambda { ty, body } => closed(*ty, depth) && closed(*body, depth + 1),
        TermView::Forall { ty, term } => closed(*ty, depth) && closed(*term, depth + 1),
        TermView::App { fun, arg } => closed(*fun, depth) && closed(*arg, depth),
        TermView::Recursor { ty_name, offset, args } => forall|i: int|
            0 <= i < args.len() ==> closed(#[trigger] args[i], depth),
        _ => true,
    }
}

/// Shifting from the depth at which a term is closed leaves it as it is.
pub proof fn lemma_shift_closed(t: TermView, by: nat, cutoff: nat)
    requires
        closed(t, cutoff),
    ensures
        shift(t, by, cutoff) matches Some(r) ==> r == t,
    decreases t,
{
    match t {
        TermView::Lambda { ty, body } => {
            lemma_shift_closed(*ty, by, cutoff);
            lemma_shift_closed(*body, by, cutoff + 1);
        },
        TermView::Forall { ty, term } => {
            lemma_shift_closed(*ty, by, cutoff);
            lemma_shift_closed(*term, by, cutoff + 1);
        },
        TermView::App { fun, arg } => {
            lemma_shift_closed(*fun, by, cutoff);
            lemma_shift_closed(*arg, by, cutoff);
        },
        TermView::Recursor { ty_name, offset, args } => {
            let parts = shift_each(args, by, cutoff);
            if let Some(shifted) = collect(parts) {
                assert forall|i: int| 0 <= i < args.len() implies shifted[i] == args[i] by {
                    assert(parts[i] is Some);
                    lemma_shift_closed(args[i], by, cutoff);
                }
                assert(shifted =~= args);
            }
        },
        _ => {},
    }
}

/// Instantiating at or beyond the depth at which a term is closed leaves
/// it as it is.
pub proof fn lemma_instantiate_closed(t: TermView, value: TermView, depth: nat, within: nat)
    requires
        closed(t, within),
        within <= depth,
    ensures
        instantiate_at(t, value, depth) matches Some(r) ==> r == t,
    decreases t,
{
    match t {
        TermView::Lambda { ty, body } => {
            lemma_instantiate_closed(*ty, value, depth, within);
            lemma_instantiate_closed(*body, value, depth + 1, within + 1);
        },
        TermView::Forall { ty, term } => {
            lemma_instantiate_closed(*ty, value, depth, within);
            lemma_instantiate_closed(*term, value, depth + 1, within + 1);
        },
        TermView::App { fun, arg } => {
            lemma_instantiate_closed(*fun, value, depth, within);
            lemma_instantiate_closed(*arg, value, depth, within);
        },
        TermView::Recursor { ty_name, offset, args } => {
            let parts = instantiate_at_each(args, value, depth);
            if let Some(opened) = collect(parts) {
                assert forall|i: int| 0 <= i < args.len() implies opened[i] == args[i] by {
                    assert(parts[i] is Some);
                    lemma_instantiate_closed(args[i], value, depth, within);
                }
                assert(opened =~= args);
            }
        },
        _ => {},
    }
}

/// The first `j` of `args`, followed by the variables of the binders that
/// are yet to be instantiated.
pub open spec fn partly_applied(args: Seq<TermView>, j: int) -> Seq<TermView> {
    args.take(j) + bound_run((args.len() - j) as nat, 0)
}

/// Instantiating the outermost binder that is left with the argument it
/// takes puts that argument in its place.
pub proof fn lemma_instantiate_partly_applied(
    ty_name: NameView,
    offset: nat,
    args: Seq<TermView>,
    j: int,
)
    requires
        0 <= j < args.len(),
        forall|i: int| 0 <= i <= j ==> closed(#[trigger] args[i], 0),
    ensures
        instantiate_at(
            TermView::Recursor { ty_name, offset, args: partly_applied(args, j) },
            args[j],
            (args.len() - j - 1) as nat,
        ) matches Some(r) ==> r == (TermView::Recursor {
            ty_name,
            offset,
            args: partly_applied(args, j + 1),
        }),
{
    let depth = (args.len() - j - 1) as nat;
    let before = partly_applied(args, j);
    let parts = instantiate_at_each(before, args[j], depth);
    if let Some(opened) = collect(parts) {
        assert forall|i: int| 0 <= i < args.len() implies opened[i] == partly_applied(
            args,
            j + 1,
        )[i] by {
            assert(parts[i] is Some);
            if i < j {
                assert(before[i] == args[i]);
                lemma_instantiate_closed(args[i], args[j], depth, 0);
            } else if i == j {
                assert(before[i] == bound(depth));
                lemma_shift_closed(args[j], depth, 0);
            } else {
                assert(before[i] == bound((args.len() - 1 - i) as nat));
            }
        }
        assert(opened =~= partly_applied(args, j + 1));
    }
}

/// The types `doms` of binders in a row, each with `value` put for the
/// bound variable of index `depth` outside the first of them.
pub open spec fn opened_doms(doms: Seq<TermView>, value: TermView, depth: nat) -> Seq<TermView> {
    Seq::new(doms.len(), |i: int| instantiate_at(doms[i], value, (depth + i) as nat)->0)
}

/// Instantiating a function of several arguments instantiates the types of
/// its binders and its body, the body under all the binders.
pub proof fn lemma_instantiate_lambdas(
    doms: Seq<TermView>,
    body: TermView,
    value: TermView,
    depth: nat,
)
    ensures
        instantiate_at(lambdas(doms, body), value, depth) matches Some(r) ==> {
            &&& instantiate_at(body, value, depth + doms.len()) is Some
            &&& r == lambdas(
                opened_doms(doms, value, depth),
                instantiate_at(body, value, depth + doms.len())->0,
            )
        },
    decreases doms.len(),
{
    if doms.len() > 0 {
        let rest = doms.drop_first();
        lemma_instantiate_lambdas(rest, body, value, depth + 1);
        if instantiate_at(lambdas(doms, body), value, depth) is Some {
            let now = opened_doms(doms, value, depth);
            assert(now.drop_first() =~= opened_doms(rest, value, depth + 1));
        }
    } else {
        assert(opened_doms(doms, value, depth) =~= Seq::<TermView>::empty());
    }
}

/// A function over binders in two runs is a function over the first run
/// whose body is a function over the second.
pub proof fn lemma_lambdas_concat(first: Seq<TermView>, second: Seq<TermView>, body: TermView)
    ensures
        lambdas(first + second, body) == lambdas(first, lambdas(second, body)),
    decreases first.len(),
{
    if first.len() == 0 {
        assert(first + second =~= second);
    } else {
        assert((first + second).drop_first() =~= first.drop_first() + second);
        lemma_lambdas_concat(first.drop_first(), second, body);
    }
}

/// What applying a function that evaluates as `fun` to `arg` comes to.
pub open spec fn applied(
    env: EnvView,
    fun: Result<TermView, ErrorView>,
    arg: TermView,
    fuel: nat,
) -> Result<TermView, ErrorView> {
    match fun {
        Err(e) => Err(e),
        Ok(f) => match eval_spec(env, arg, fuel) {
            Err(e) => Err(e),
            Ok(a) => follow(env, beta(f, a), fuel),
        },
    }
}

/// What applying a function that evaluates as `fun` to the terms of
/// `args`, one after the other, comes to.
pub open spec fn applied_to_all(
    env: EnvView,
    fun: Result<TermView, ErrorView>,
    args: Seq<TermView>,
    fuel: nat,
) -> Result<TermView, ErrorView>
    decreases args.len(),
{
    if args.len() == 0 {
        fun
    } else {
        applied_to_all(env, applied(env, fun, args[0], fuel), args.drop_first(), fuel)
    }
}

/// A spine evaluates as its head, evaluated, applied to its arguments.
pub proof fn lemma_eval_spine(env: EnvView, h: TermView, args: Seq<TermView>, fuel: nat)
    ensures
        eval_spec(env, apply_all(h, args), fuel) == applied_to_all(
            env,
            eval_spec(env, h, fuel),
            args,
            fuel,
        ),
    decreases args.len(),
{
    if args.len() > 0 {
        let first = TermView::App { fun: Box::new(h), arg: Box::new(args[0]) };
        lemma_eval_spine(env, first, args.drop_first(), fuel);
    }
}

/// An error of the function is the error of the application.
pub proof fn lemma_error_spreads(env: EnvView, e: ErrorView, args: Seq<TermView>, fuel: nat)
    ensures
        applied_to_all(env, Err(e), args, fuel) == Err::<TermView, ErrorView>(e),
    decreases args.len(),
{
    if args.len() > 0 {
        lemma_error_spreads(env, e, args.drop_first(), fuel);
    }
}

/// A function that has taken the first `j` arguments of a recursor, applied
/// to the rest, comes to the saturated recursor on all of them.
proof fn lemma_saturates_from(
    env: EnvView,
    ty_name: NameView,
    offset: nat,
    doms: Seq<TermView>,
    args: Seq<TermView>,
    j: int,
    fuel: nat,
)
    requires
        0 <= j < args.len(),
        doms.len() == args.len() - j,
        forall|i: int| 0 <= i < args.len() ==> closed(#[trigger] args[i], 0),
        forall|i: int|
            0 <= i < args.len() ==> eval_spec(env, #[trigger] args[i], fuel) == Ok::<
                TermView,
                ErrorView,
            >(args[i]),
        fuel >= 1,
    ensures
        ({
            let r = applied_to_all(
                env,
                Ok(
                    lambdas(
                        doms,
                        TermView::Recursor { ty_name, offset, args: partly_applied(args, j) },
                    ),
                ),
                args.skip(j),
                fuel,
            );
            r == Err::<TermView, ErrorView>(ErrorView::Internal(Fault::IndexOverflow)) || r
                == eval_spec(
                env,
                TermView::Recursor { ty_name, offset, args },
                (fuel - 1) as nat,
            )
        }),
    decreases args.len() - j,
{
    reveal_with_fuel(eval_spec, 2);
    let saturated = TermView::Recursor { ty_name, offset, args };
    let inner = TermView::Recursor { ty_name, offset, args: partly_applied(args, j) };
    let fun = lambdas(doms, inner);
    let body = lambdas(doms.drop_first(), inner);
    let rest = args.skip(j);
    assert(rest[0] == args[j]);
    assert(rest.drop_first() =~= args.skip(j + 1));
    let step = applied(env, Ok(fun), args[j], fuel);
    assert(fun == (TermView::Lambda { ty: Box::new(doms[0]), body: Box::new(body) }));
    assert(applied_to_all(env, Ok(fun), rest, fuel) == applied_to_all(
        env,
        step,
        rest.drop_first(),
        fuel,
    ));
    match instantiate_at(body, args[j], 0) {
        None => {
            assert(step == Err::<TermView, ErrorView>(ErrorView::Internal(Fault::IndexOverflow)));
            lemma_error_spreads(
                env,
                ErrorView::Internal(Fault::IndexOverflow),
                rest.drop_first(),
                fuel,
            );
        },
        Some(next) => {
            lemma_instantiate_lambdas(doms.drop_first(), inner, args[j], 0);
            lemma_instantiate_partly_applied(ty_name, offset, args, j);
            let left = opened_doms(doms.drop_first(), args[j], 0);
            let after = TermView::Recursor { ty_name, offset, args: partly_applied(args, j + 1) };
            assert(next == lambdas(left, after));
            assert(step == eval_spec(env, next, (fuel - 1) as nat));
            if j + 1 == args.len() {
                assert(partly_applied(args, j + 1) =~= args);
                assert(left.len() == 0);
                assert(next == saturated);
                assert(rest.drop_first().len() == 0);
            } else {
                assert(next == (TermView::Lambda {
                    ty: Box::new(left[0]),
                    body: Box::new(lambdas(left.drop_first(), after)),
                }));
                assert(step == Ok::<TermView, ErrorView>(next));
                lemma_saturates_from(env, ty_name, offset, left, args, j + 1, fuel);
            }
        },
    }
}

/// Every binder of the recursor of `data`, outermost first: the binders of
/// the datatype, the motive, the premises, and the scrutinee.
pub open spec fn recursor_binders(data: DataView) -> Seq<TermView> {
    let n = binders(data.ty).len();
    binders(data.ty) + seq![motive_type(data.name, n)] + premise_types(data.name, data.ctors)
        + seq![family(data.name, n, data.ctors.len() + 1)]
}

/// The recursor of `data` is a function over all its binders, whose body is
/// the saturated recursor on their variables.
pub proof fn lemma_recursor_term_shape(data: DataView)
    ensures
        recursor_term(data) == lambdas(
            recursor_binders(data),
            TermView::Recursor {
                ty_name: data.name,
                offset: binders(data.ty).len() + 1,
                args: bound_run(binders(data.ty).len() + data.ctors.len() + 2, 0),
            },
        ),
        recursor_binders(data).len() == binders(data.ty).len() + data.ctors.len() + 2,
{
    let n = binders(data.ty).len();
    let k = data.ctors.len();
    let inner = TermView::Recursor {
        ty_name: data.name,
        offset: n + 1,
        args: bound_run(n + k + 2, 0),
    };
    let scrutinee = seq![family(data.name, n, k + 1)];
    let premises = premise_types(data.name, data.ctors);
    let motive = seq![motive_type(data.name, n)];
    assert(lambdas(scrutinee, inner) == (TermView::Lambda {
        ty: Box::new(scrutinee[0]),
        body: Box::new(lambdas(scrutinee.drop_first(), inner)),
    }));
    lemma_lambdas_concat(premises, scrutinee, inner);
    let under_motive = lambdas(premises + scrutinee, inner);
    assert(lambdas(motive, under_motive) == (TermView::Lambda {
        ty: Box::new(motive[0]),
        body: Box::new(lambdas(motive.drop_first(), under_motive)),
    }));
    lemma_lambdas_concat(motive, premises + scrutinee, inner);
    lemma_lambdas_concat(binders(data.ty), motive + (premises + scrutinee), inner);
    assert(recursor_binders(data) =~= binders(data.ty) + (motive + (premises + scrutinee)));
}

/// The recursor of a datatype, applied to all its arguments, reduces to the
/// saturated recursor on them, for one unit of budget.
///
/// `head` is any term that evaluates to the recursor of `data`, such as the
/// recursor's name where `data` has been declared. The arguments are normal
/// forms without free bound variables, one for each binder of the recursor.
/// The application fails only where an index leaves the range of `usize`.
pub proof fn law_recursor_saturates(
    env: EnvView,
    data: DataView,
    head: TermView,
    args: Seq<TermView>,
    fuel: nat,
)
    requires
        eval_spec(env, head, fuel) == Ok::<TermView, ErrorView>(recursor_term(data)),
        args.len() == binders(data.ty).len() + data.ctors.len() + 2,
        forall|i: int| 0 <= i < args.len() ==> closed(#[trigger] args[i], 0),
        forall|i: int|
            0 <= i < args.len() ==> eval_spec(env, #[trigger] args[i], fuel) == Ok::<
                TermView,
                ErrorView,
            >(args[i]),
        fuel >= 1,
    ensures
        ({
            let r = eval_spec(env, apply_all(head, args), fuel);
            r == Err::<TermView, ErrorView>(ErrorView::Internal(Fault::IndexOverflow)) || r
                == eval_spec(
                env,
                TermView::Recursor {
                    ty_name: data.name,
                    offset: binders(data.ty).len() + 1,
                    args,
                },
                (fuel - 1) as nat,
            )
        }),
{
    lemma_recursor_term_shape(data);
    lemma_eval_spine(env, head, args, fuel);
    assert(partly_applied(args, 0) =~= bound_run(args.len(), 0));
    assert(args.skip(0) =~= args);
    lemma_saturates_from(
        env,
        data.name,
        binders(data.ty).len() + 1,
        recursor_binders(data),
        args,
        0,
        fuel,
    );
}

} // verus!
