use hubris::ast::{Data, Extern, Function, Item, Literal, Module, Name, SourceMap, Span, Term};
use hubris::check::LocalCx;
use hubris::env::{TyCtxt, DEFAULT_STEP_BUDGET};
use hubris::error::{Error, Fault};
use hubris::eval::def_eq_modulo;
use hubris::loader::name_to_path;

fn name(s: &str) -> Name {
    Name::from_str(s)
}

fn path(parts: &[&str]) -> Name {
    Name::qualified(parts.iter().map(|p| p.to_string()).collect())
}

fn global(s: &str) -> Term {
    name(s).to_term()
}

fn bound(index: usize) -> Term {
    Term::Var { name: Name::de_bruijn(index, format!("x{}", index)) }
}

fn app(fun: Term, arg: Term) -> Term {
    Term::App { span: Span::dummy(), fun: Box::new(fun), arg: Box::new(arg) }
}

fn lam(hint: &str, ty: Term, body: Term) -> Term {
    Term::Lambda { span: Span::dummy(), name: hint.to_string(), ty: Box::new(ty), body: Box::new(body) }
}

fn pi(hint: &str, ty: Term, term: Term) -> Term {
    Term::Forall { span: Span::dummy(), name: hint.to_string(), ty: Box::new(ty), term: Box::new(term) }
}

fn local(number: usize, hint: &str, ty: Term) -> Name {
    Name::Local { number, repr: hint.to_string(), ty: Box::new(ty) }
}

fn nat_type() -> Term {
    global("Nat")
}

fn zero() -> Term {
    global("zero")
}

fn succ(n: Term) -> Term {
    app(global("succ"), n)
}

fn nat_data() -> Data {
    Data {
        span: Span::dummy(),
        name: name("Nat"),
        ty: Term::Type,
        ctors: vec![(name("zero"), nat_type()), (name("succ"), pi("n", nat_type(), nat_type()))],
    }
}

fn function(n: &str, ret_ty: Term, body: Term) -> Function {
    Function { span: Span::dummy(), name: name(n), ret_ty, body }
}

fn module(defs: Vec<Item>) -> Module {
    Module { span: Span::dummy(), name: name("test"), imports: vec![], defs }
}

fn source_map() -> SourceMap {
    SourceMap::from_file("test.hb".to_string(), String::new())
}

fn two() -> Term {
    succ(succ(zero()))
}

fn nat_rec() -> Term {
    path(&["Nat", "rec"]).to_term()
}

/// `add m n`, by recursion on `m`.
fn add_body() -> Term {
    let motive = lam("_", nat_type(), nat_type());
    let step = lam("k", nat_type(), lam("ih", nat_type(), succ(bound(0))));
    lam(
        "m",
        nat_type(),
        lam("n", nat_type(), app(app(app(app(nat_rec(), motive), bound(0)), step), bound(1))),
    )
}

fn arithmetic() -> Module {
    module(vec![
        Item::Data(nat_data()),
        Item::Fn(function("two", nat_type(), two())),
        Item::Fn(function("id_nat", pi("n", nat_type(), nat_type()), lam("n", nat_type(), bound(0)))),
        Item::Fn(function("add", pi("m", nat_type(), pi("n", nat_type(), nat_type())), add_body())),
    ])
}

fn checked(m: &Module) -> TyCtxt {
    TyCtxt::from_module(m, source_map()).expect("the module checks")
}

#[test]
fn a_datatype_and_a_definition_check_and_evaluate() {
    let cx = checked(&module(vec![
        Item::Data(nat_data()),
        Item::Fn(function("two", nat_type(), two())),
    ]));
    assert!(cx.in_scope(&name("Nat")));
    assert!(cx.in_scope(&name("zero")));
    assert!(cx.in_scope(&name("succ")));
    assert!(cx.in_scope(&name("two")));
    assert!(cx.in_scope(&path(&["Nat", "rec"])));
    assert!(!cx.in_scope(&name("three")));
    assert_eq!(cx.eval(&global("two")), Ok(two()));
}

#[test]
fn the_identity_function_applies() {
    let cx = checked(&arithmetic());
    assert_eq!(cx.eval(&app(global("id_nat"), global("two"))), Ok(two()));
}

#[test]
fn addition_by_the_recursor() {
    let cx = checked(&arithmetic());
    let one = succ(zero());
    assert_eq!(cx.eval(&app(app(global("add"), one.clone()), one)), Ok(two()));
    let three = succ(two());
    assert_eq!(
        cx.eval(&app(app(global("add"), two()), three)),
        Ok(succ(succ(succ(succ(succ(zero()))))))
    );
    assert_eq!(cx.eval(&app(app(global("add"), zero()), zero())), Ok(zero()));
}

#[test]
fn a_body_of_the_wrong_type_is_refused() {
    let bad = Term::Literal { span: Span::new(3, 7), lit: Literal::Unit };
    let unit = Data { span: Span::dummy(), name: name("Unit"), ty: Term::Type, ctors: vec![] };
    let result = TyCtxt::from_module(
        &module(vec![
            Item::Data(nat_data()),
            Item::Data(unit),
            Item::Fn(function("bad", nat_type(), bad)),
        ]),
        source_map(),
    );
    match result {
        Err(Error::DefUnequal(span, lhs, rhs, log)) => {
            assert_eq!(span, Span::new(3, 7));
            assert_eq!(lhs, nat_type());
            assert_eq!(rhs, global("Unit"));
            assert_eq!(log, vec![(nat_type(), global("Unit"))]);
        }
        other => panic!("expected DefUnequal, got {:?}", other.err()),
    }
}

#[test]
fn type_is_not_a_natural_number() {
    let result = TyCtxt::from_module(
        &module(vec![Item::Data(nat_data()), Item::Fn(function("bad", nat_type(), Term::Type))]),
        source_map(),
    );
    assert_eq!(
        result.err(),
        Some(Error::DefUnequal(Span::dummy(), nat_type(), Term::Type, vec![(nat_type(), Term::Type)]))
    );
}

#[test]
fn an_argument_of_the_wrong_type_is_refused() {
    let cx = checked(&module(vec![
        Item::Data(nat_data()),
        Item::Fn(function("f", pi("n", nat_type(), nat_type()), lam("n", nat_type(), bound(0)))),
    ]));
    let mut lcx = LocalCx::from_cx(&cx);
    assert_eq!(
        lcx.type_infer_term(&app(global("f"), Term::Type)),
        Err(Error::DefUnequal(Span::dummy(), nat_type(), Term::Type, vec![(nat_type(), Term::Type)]))
    );
    assert_eq!(lcx.type_infer_term(&app(global("f"), zero())), Ok(nat_type()));
}

#[test]
fn merging_reports_each_shared_name_once() {
    let mut first = TyCtxt::empty();
    first.declare_def(&function("x", nat_type(), zero()));
    let mut second = TyCtxt::empty();
    second.declare_def(&function("x", nat_type(), zero()));
    assert_eq!(first.merge(second), Err(Error::Many(vec![Error::NameExists(name("x"))])));
    assert!(first.in_scope(&name("x")));
}

#[test]
fn merging_modules_that_share_declarations() {
    let declarations = || {
        module(vec![Item::Data(nat_data()), Item::Fn(function("x", nat_type(), zero()))])
    };
    let mut first = checked(&declarations());
    let second = checked(&declarations());
    let errors = match first.merge(second) {
        Err(Error::Many(errors)) => errors,
        other => panic!("expected Many, got {:?}", other),
    };
    let expected =
        [name("Nat"), name("zero"), name("succ"), path(&["Nat", "rec"]), name("x")];
    assert_eq!(errors.len(), expected.len());
    for n in expected.iter() {
        let count = errors.iter().filter(|e| **e == Error::NameExists(n.clone())).count();
        assert_eq!(count, 1, "{:?}", n);
    }
}

#[test]
fn merging_without_shared_names_adds_everything() {
    let mut first = checked(&module(vec![Item::Data(nat_data())]));
    let mut second = TyCtxt::empty();
    second.declare_extern(&Extern { span: Span::dummy(), name: name("print"), term: nat_type() });
    second.declare_def(&function("main", nat_type(), zero()));
    assert_eq!(first.merge(second), Ok(()));
    assert!(first.in_scope(&name("print")));
    assert!(first.in_scope(&name("main")));
    assert!(first.in_scope(&name("zero")));
    assert_eq!(first.get_main_body(), Ok(&zero()));
    assert_eq!(first.lookup_global(&name("print")), Ok(&nat_type()));
}

#[test]
fn merging_puts_the_other_entry_in_place_of_the_own() {
    let mut first = TyCtxt::empty();
    first.declare_extern(&Extern { span: Span::dummy(), name: name("c"), term: nat_type() });
    let mut second = TyCtxt::empty();
    second.declare_extern(&Extern { span: Span::dummy(), name: name("c"), term: Term::Type });
    assert_eq!(first.merge(second), Err(Error::Many(vec![Error::NameExists(name("c"))])));
    assert_eq!(first.lookup_global(&name("c")), Ok(&Term::Type));
}

#[test]
fn a_name_in_maps_of_different_kinds_does_not_collide() {
    let mut first = TyCtxt::empty();
    first.declare_extern(&Extern { span: Span::dummy(), name: name("c"), term: nat_type() });
    let mut second = TyCtxt::empty();
    second.declare_def(&function("c", Term::Type, nat_type()));
    assert_eq!(first.merge(second), Ok(()));
    assert_eq!(first.lookup_global(&name("c")), Ok(&Term::Type));
}

#[test]
fn evaluation_is_deterministic_and_ignores_spans_and_hints() {
    let cx = checked(&arithmetic());
    let term = app(app(global("add"), two()), two());
    let first = cx.eval(&term);
    let second = cx.eval(&term);
    assert_eq!(first, second);
    let respanned = Term::App {
        span: Span::new(10, 20),
        fun: Box::new(Term::App {
            span: Span::new(10, 15),
            fun: Box::new(Term::Var {
                name: Name::Qual { span: Span::new(10, 13), components: vec!["add".to_string()] },
            }),
            arg: Box::new(two()),
        }),
        arg: Box::new(two()),
    };
    assert_eq!(cx.eval(&respanned), first);
}

#[test]
fn evaluating_a_normal_form_changes_nothing() {
    let cx = checked(&arithmetic());
    let terms = vec![
        app(app(global("add"), two()), two()),
        app(global("id_nat"), two()),
        global("two"),
        app(global("succ"), global("two")),
        pi("n", app(global("id_nat"), nat_type()), nat_type()),
        app(app(app(app(nat_rec(), lam("_", nat_type(), nat_type())), zero()), global("id_nat")), bound(0)),
        lam("n", nat_type(), app(global("id_nat"), bound(0))),
        Term::Type,
    ];
    for term in terms {
        let value = cx.eval(&term).expect("the term evaluates");
        assert_eq!(cx.eval(&value), Ok(value.clone()), "{:?}", term);
    }
}

#[test]
fn opening_and_closing_a_body_gives_it_back() {
    let x = local(7, "x", nat_type());
    let bodies = vec![
        bound(0),
        bound(3),
        app(bound(0), bound(1)),
        lam("y", bound(0), app(bound(1), app(bound(0), bound(2)))),
        pi("y", nat_type(), pi("z", bound(1), app(bound(2), bound(5)))),
        Term::Recursor(name("Nat"), 1, vec![bound(0), lam("y", nat_type(), bound(1)), zero()]),
        Term::Var { name: local(8, "other", nat_type()) },
    ];
    for body in bodies {
        let opened = body.instantiate(&x.to_term()).expect("opens");
        assert_eq!(opened.abstr(&x), Ok(body.clone()), "{:?}", body);
    }
}

#[test]
fn instantiate_replaces_index_zero_and_lowers_the_rest() {
    let value = app(zero(), bound(4));
    assert_eq!(bound(0).instantiate(&value), Ok(value.clone()));
    assert_eq!(bound(1).instantiate(&value), Ok(bound(0)));
    assert_eq!(bound(5).instantiate(&value), Ok(bound(4)));
    // Under a binder the value's free indices are raised.
    assert_eq!(
        lam("y", bound(0), app(bound(1), bound(0))).instantiate(&value),
        Ok(lam("y", value.clone(), app(app(zero(), bound(5)), bound(0))))
    );
    assert_eq!(
        pi("y", nat_type(), pi("z", nat_type(), bound(2))).instantiate(&bound(0)),
        Ok(pi("y", nat_type(), pi("z", nat_type(), bound(2))))
    );
    // Bound variables of the value itself stay as they are.
    assert_eq!(
        lam("y", nat_type(), bound(1)).instantiate(&lam("z", nat_type(), app(bound(0), bound(1)))),
        Ok(lam("y", nat_type(), lam("z", nat_type(), app(bound(0), bound(2)))))
    );
    assert_eq!(
        Term::Recursor(name("Nat"), 1, vec![bound(0), bound(1)]).instantiate(&zero()),
        Ok(Term::Recursor(name("Nat"), 1, vec![zero(), bound(0)]))
    );
}

#[test]
fn shift_raises_the_free_indices() {
    assert_eq!(bound(2).shift(3, 0), Ok(bound(5)));
    assert_eq!(bound(2).shift(3, 3), Ok(bound(2)));
    assert_eq!(
        lam("y", bound(0), app(bound(0), bound(1))).shift(2, 0),
        Ok(lam("y", bound(2), app(bound(0), bound(3))))
    );
    assert_eq!(zero().shift(2, 0), Ok(zero()));
}

#[test]
fn an_index_that_leaves_the_range_is_an_error() {
    let overflow = Err(Error::Internal(Fault::IndexOverflow));
    assert_eq!(bound(usize::MAX).shift(1, 0), overflow);
    assert_eq!(bound(usize::MAX - 1).shift(1, 0), Ok(bound(usize::MAX)));
    assert_eq!(
        lam("y", nat_type(), bound(1)).instantiate(&bound(usize::MAX)),
        overflow
    );
    assert_eq!(bound(usize::MAX).abstr(&local(0, "x", nat_type())), overflow);
}

#[test]
fn abstr_replaces_the_local_by_its_tag() {
    let x = local(3, "x", nat_type());
    let same_tag = local(3, "renamed", Term::Type);
    let term = app(x.to_term(), lam("y", nat_type(), app(same_tag.to_term(), bound(0))));
    assert_eq!(
        term.abstr(&x),
        Ok(app(bound(0), lam("y", nat_type(), app(bound(1), bound(0)))))
    );
    assert_eq!(bound(0).abstr(&x), Ok(bound(1)));
    assert_eq!(zero().abstr(&name("x")), Err(Error::Internal(Fault::NotLocal)));
}

#[test]
fn binder_hints_and_spans_do_not_count_for_equality() {
    let cx = checked(&arithmetic());
    let a = pi("n", nat_type(), app(global("id_nat"), bound(0)));
    let b = Term::Forall {
        span: Span::new(1, 2),
        name: "m".to_string(),
        ty: Box::new(nat_type()),
        term: Box::new(app(global("id_nat"), Term::Var { name: Name::de_bruijn(0, "m".to_string()) })),
    };
    assert_eq!(a, b);
    assert!(cx.def_eq(Span::dummy(), &a, &b).is_ok());
    assert_ne!(bound(0), bound(1));
    assert_ne!(pi("n", nat_type(), bound(0)), pi("n", nat_type(), bound(1)));
    assert_ne!(pi("n", nat_type(), bound(0)), lam("n", nat_type(), bound(0)));
    assert_ne!(local(1, "x", nat_type()).to_term(), local(2, "x", nat_type()).to_term());
    assert_ne!(local(1, "x", nat_type()).to_term(), local(1, "x", Term::Type).to_term());
    assert_eq!(local(1, "x", nat_type()).to_term(), local(1, "y", nat_type()).to_term());
    assert_ne!(path(&["Nat", "rec"]).to_term(), path(&["Nat"]).to_term());
    assert_ne!(
        Term::Literal { span: Span::dummy(), lit: Literal::Int(1) },
        Term::Literal { span: Span::dummy(), lit: Literal::Int(2) }
    );
    assert_eq!(
        Term::Literal { span: Span::new(0, 1), lit: Literal::Int(1) },
        Term::Literal { span: Span::new(5, 6), lit: Literal::Int(1) }
    );
    assert_ne!(Term::Var { name: Name::Meta { number: 1 } }, Term::Var { name: Name::Meta { number: 2 } });
}

#[test]
fn definitional_equality_goes_through_reduction() {
    let cx = checked(&arithmetic());
    let one = succ(zero());
    assert_eq!(
        cx.def_eq(Span::dummy(), &app(app(global("add"), one.clone()), one.clone()), &global("two")),
        Ok(two())
    );
    assert_eq!(
        cx.def_eq(Span::new(4, 9), &global("two"), &one),
        Err(Error::DefUnequal(Span::new(4, 9), two(), one, vec![(succ(zero()), zero())]))
    );
}

#[test]
fn the_walk_in_step_stops_at_the_first_difference() {
    let mut log = vec![];
    assert!(def_eq_modulo(&two(), &two(), &mut log));
    assert!(log.is_empty());
    let left = app(app(zero(), nat_type()), Term::Type);
    let right = app(app(nat_type(), zero()), nat_type());
    assert!(!def_eq_modulo(&left, &right, &mut log));
    assert_eq!(log, vec![(zero(), nat_type())]);
    assert!(!def_eq_modulo(&lam("x", nat_type(), zero()), &pi("x", nat_type(), zero()), &mut log));
    assert_eq!(log.len(), 2);
    assert_eq!(log[1], (lam("x", nat_type(), zero()), pi("x", nat_type(), zero())));
}

#[test]
fn the_beta_rule() {
    let cx = checked(&arithmetic());
    let body = app(global("succ"), bound(0));
    let arg = two();
    let reduced = body.instantiate(&arg).unwrap();
    assert_eq!(cx.eval(&app(lam("n", nat_type(), body), arg)), cx.eval(&reduced));
    assert_eq!(cx.eval(&reduced), Ok(succ(two())));
    // The argument is evaluated before it is put in.
    assert_eq!(
        cx.eval(&app(lam("n", nat_type(), lam("m", nat_type(), bound(1))), global("two"))),
        Ok(lam("m", nat_type(), two()))
    );
}

#[test]
fn a_stuck_application_is_its_own_normal_form() {
    let cx = checked(&arithmetic());
    let x = local(0, "x", nat_type()).to_term();
    assert_eq!(
        cx.eval(&app(x.clone(), global("two"))),
        Ok(app(x, two()))
    );
    assert_eq!(cx.eval(&app(Term::Type, zero())), Ok(app(Term::Type, zero())));
}

#[test]
fn the_delta_rule() {
    let cx = checked(&arithmetic());
    assert_eq!(cx.eval(&global("two")), cx.eval(&two()));
    assert_eq!(cx.eval(&global("zero")), Ok(global("zero")));
    assert_eq!(cx.eval(&global("nowhere")), Ok(global("nowhere")));
    assert_eq!(cx.unfold_name(&name("two")), Ok(two()));
    assert_eq!(cx.unfold_name(&name("succ")), Ok(global("succ")));
    assert_eq!(cx.unfold_name(&Name::de_bruijn(2, "x".to_string())), Ok(bound(2)));
    let x = local(4, "x", nat_type());
    assert_eq!(cx.unfold_name(&x), Ok(x.to_term()));
    assert_eq!(cx.eval(&bound(3)), Ok(bound(3)));
    assert_eq!(
        cx.eval(&Term::Var { name: Name::Meta { number: 1 } }),
        Ok(Term::Var { name: Name::Meta { number: 1 } })
    );
}

#[test]
fn a_definition_unfolds_to_its_body_as_it_stands() {
    let mut cx = checked(&arithmetic());
    let four = app(app(global("add"), two()), two());
    cx.declare_def(&function("four", nat_type(), four.clone()));
    assert_eq!(cx.eval(&global("four")), Ok(four.clone()));
    assert_eq!(cx.eval(&four), Ok(succ(succ(two()))));
}

#[test]
fn lambdas_types_and_literals_are_values() {
    let cx = checked(&arithmetic());
    let redex = app(global("id_nat"), zero());
    assert_eq!(cx.eval(&lam("n", nat_type(), redex.clone())), Ok(lam("n", nat_type(), redex.clone())));
    assert_eq!(cx.eval(&Term::Type), Ok(Term::Type));
    let seven = Term::Literal { span: Span::dummy(), lit: Literal::Int(7) };
    assert_eq!(cx.eval(&seven), Ok(seven.clone()));
    // A function type is evaluated on both sides.
    assert_eq!(
        cx.eval(&pi("n", redex.clone(), redex)),
        Ok(pi("n", zero(), zero()))
    );
}

#[test]
fn the_iota_rule_for_a_constructor_without_arguments() {
    let cx = checked(&arithmetic());
    let premise_zero = app(global("id_nat"), two());
    let recursor = Term::Recursor(
        name("Nat"),
        1,
        vec![lam("_", nat_type(), nat_type()), premise_zero.clone(), global("id_nat"), zero()],
    );
    // The premise is the result as it stands.
    assert_eq!(cx.eval(&recursor), Ok(premise_zero));
}

#[test]
fn the_iota_rule_for_a_constructor_with_arguments() {
    let cx = checked(&arithmetic());
    let motive = lam("_", nat_type(), nat_type());
    let step = lam("k", nat_type(), lam("ih", nat_type(), succ(succ(bound(0)))));
    let on = |scrutinee: Term| {
        Term::Recursor(name("Nat"), 1, vec![motive.clone(), zero(), step.clone(), scrutinee])
    };
    let one = succ(zero());
    let unfolded = Term::apply_all(step.clone(), vec![one.clone(), on(one.clone())]);
    assert_eq!(cx.eval(&on(two())), cx.eval(&unfolded));
    assert_eq!(cx.eval(&on(two())), Ok(succ(succ(two()))));
}

#[test]
fn the_recursor_recurses_on_the_first_argument_of_the_constructor() {
    let mut cx = TyCtxt::empty();
    let list = Data {
        span: Span::dummy(),
        name: name("List"),
        ty: Term::Type,
        ctors: vec![
            (name("nil"), global("List")),
            (name("cons"), pi("t", global("List"), pi("h", nat_type(), global("List")))),
        ],
    };
    assert_eq!(cx.declare_datatype(&nat_data()), Ok(()));
    assert_eq!(cx.declare_datatype(&list), Ok(()));
    let motive = lam("_", global("List"), nat_type());
    // The length: the head is dropped, the result for the tail counted up.
    let step = lam("t", global("List"), lam("h", nat_type(), lam("ih", nat_type(), succ(bound(0)))));
    let cons = |t: Term, h: Term| app(app(global("cons"), t), h);
    let on = |scrutinee: Term| {
        Term::Recursor(name("List"), 1, vec![motive.clone(), zero(), step.clone(), scrutinee])
    };
    let tail = cons(global("nil"), zero());
    let list = cons(tail.clone(), two());
    let unfolded = Term::apply_all(step.clone(), vec![tail.clone(), two(), on(tail)]);
    assert_eq!(cx.eval(&on(list.clone())), cx.eval(&unfolded));
    assert_eq!(cx.eval(&on(list)), Ok(two()));
}

#[test]
fn a_recursor_on_a_neutral_scrutinee_is_stuck() {
    let cx = checked(&arithmetic());
    let x = local(0, "x", nat_type()).to_term();
    let args = |scrutinee: Term| {
        vec![lam("_", nat_type(), nat_type()), zero(), global("id_nat"), scrutinee]
    };
    assert_eq!(
        cx.eval(&Term::Recursor(name("Nat"), 1, args(x.clone()))),
        Ok(Term::Recursor(name("Nat"), 1, args(x.clone())))
    );
    // The scrutinee is evaluated all the same.
    assert_eq!(
        cx.eval(&Term::Recursor(name("Nat"), 1, args(app(global("id_nat"), x.clone())))),
        Ok(Term::Recursor(name("Nat"), 1, args(x)))
    );
    assert_eq!(
        cx.eval(&Term::Recursor(name("Nat"), 1, args(Term::Type))),
        Ok(Term::Recursor(name("Nat"), 1, args(Term::Type)))
    );
    assert_eq!(
        cx.eval(&Term::Recursor(name("Nat"), 1, args(global("two_")))),
        Ok(Term::Recursor(name("Nat"), 1, args(global("two_"))))
    );
}

#[test]
fn a_recursor_that_lacks_an_argument_is_malformed() {
    let cx = checked(&arithmetic());
    let malformed = Err(Error::Internal(Fault::MalformedRecursor));
    assert_eq!(cx.eval(&Term::Recursor(name("Nat"), 1, vec![])), malformed);
    assert_eq!(cx.eval(&Term::Recursor(name("Nat"), 3, vec![nat_type(), zero()])), malformed);
    assert_eq!(cx.eval(&Term::Recursor(name("Nat"), usize::MAX, vec![nat_type(), zero()])), malformed);
    assert_eq!(
        cx.eval(&Term::Recursor(name("Tree"), 1, vec![zero()])),
        Err(Error::UnknownVariable(name("Tree")))
    );
}

#[test]
fn evaluation_gives_up_when_the_budget_is_spent() {
    let mut cx = checked(&arithmetic());
    // A term that reduces to itself.
    let omega_half = lam("x", nat_type(), app(bound(0), bound(0)));
    let omega = app(omega_half.clone(), omega_half);
    assert_eq!(cx.eval(&omega), Err(Error::Internal(Fault::StepBudgetExhausted)));
    assert_eq!(cx.step_budget(), DEFAULT_STEP_BUDGET);
    let one = succ(zero());
    let sum = app(app(global("add"), one.clone()), one);
    cx.set_step_budget(3);
    assert_eq!(cx.eval(&sum), Err(Error::Internal(Fault::StepBudgetExhausted)));
    assert_eq!(cx.eval_with_budget(&sum, 64), Ok(two()));
    assert_eq!(cx.eval_with_budget(&app(global("id_nat"), zero()), 0),
        Err(Error::Internal(Fault::StepBudgetExhausted)));
    assert_eq!(cx.eval_with_budget(&app(global("id_nat"), zero()), 1), Ok(zero()));
    assert_eq!(cx.eval_with_budget(&two(), 0), Ok(two()));
}

#[test]
fn applying_a_term_of_type_type_is_a_mismatch() {
    let cx = checked(&arithmetic());
    let mut lcx = LocalCx::from_cx(&cx);
    let application = Term::App {
        span: Span::new(2, 9),
        fun: Box::new(nat_type()),
        arg: Box::new(zero()),
    };
    assert_eq!(
        lcx.type_infer_term(&application),
        Err(Error::ApplicationMismatch(Span::new(2, 9), nat_type(), zero()))
    );
    assert_eq!(
        lcx.type_infer_term(&app(Term::Type, zero())),
        Err(Error::ApplicationMismatch(Span::dummy(), Term::Type, zero()))
    );
    assert_eq!(
        lcx.type_infer_term(&app(zero(), zero())),
        Err(Error::ApplicationMismatch(Span::dummy(), zero(), zero()))
    );
}

#[test]
fn a_module_without_main_has_no_main_body() {
    let cx = checked(&arithmetic());
    assert_eq!(cx.get_main_body(), Err(Error::NoMain));
    assert_eq!(TyCtxt::empty().get_main_body(), Err(Error::NoMain));
    let with_main = checked(&module(vec![
        Item::Data(nat_data()),
        Item::Fn(function("main", nat_type(), succ(zero()))),
    ]));
    assert_eq!(with_main.get_main_body(), Ok(&succ(zero())));
    // An external named `main` is no function.
    let mut external = TyCtxt::empty();
    external.declare_extern(&Extern { span: Span::dummy(), name: name("main"), term: nat_type() });
    assert_eq!(external.get_main_body(), Err(Error::NoMain));
}

#[test]
fn inference_by_the_form_of_the_term() {
    let unit = Data { span: Span::dummy(), name: name("Unit"), ty: Term::Type, ctors: vec![] };
    let cx = checked(&module(vec![Item::Data(nat_data()), Item::Data(unit)]));
    let mut lcx = LocalCx::from_cx(&cx);
    assert_eq!(lcx.type_infer_term(&Term::Type), Ok(Term::Type));
    assert_eq!(
        lcx.type_infer_term(&Term::Literal { span: Span::dummy(), lit: Literal::Unit }),
        Ok(global("Unit"))
    );
    assert_eq!(
        lcx.type_infer_term(&Term::Literal { span: Span::dummy(), lit: Literal::Int(3) }),
        Err(Error::Internal(Fault::UnsupportedLiteral))
    );
    assert_eq!(lcx.type_infer_term(&local(9, "x", nat_type()).to_term()), Ok(nat_type()));
    assert_eq!(lcx.type_infer_term(&zero()), Ok(nat_type()));
    assert_eq!(lcx.type_infer_term(&nat_type()), Ok(Term::Type));
    assert_eq!(lcx.type_infer_term(&global("succ")), Ok(pi("n", nat_type(), nat_type())));
    assert_eq!(
        lcx.type_infer_term(&global("nowhere")),
        Err(Error::UnknownVariable(name("nowhere")))
    );
    assert_eq!(lcx.type_infer_term(&bound(0)), Err(Error::Internal(Fault::UnboundVariable)));
    assert_eq!(
        lcx.type_infer_term(&Term::Var { name: Name::Meta { number: 0 } }),
        Err(Error::Internal(Fault::UntypedPlaceholder))
    );
    assert_eq!(lcx.type_infer_term(&succ(zero())), Ok(nat_type()));
    assert_eq!(lcx.type_infer_term(&pi("n", nat_type(), nat_type())), Ok(Term::Type));
    assert_eq!(
        lcx.type_infer_term(&lam("n", nat_type(), succ(bound(0)))),
        Ok(pi("n", nat_type(), nat_type()))
    );
    // The type of a dependent function mentions its argument.
    let family = local(100, "F", pi("n", nat_type(), Term::Type)).to_term();
    let element = local(101, "f", pi("n", nat_type(), app(family.clone(), bound(0)))).to_term();
    assert_eq!(
        lcx.type_infer_term(&lam("n", nat_type(), app(element.clone(), bound(0)))),
        Ok(pi("n", nat_type(), app(family.clone(), bound(0))))
    );
    assert_eq!(
        lcx.type_infer_term(&app(element, two())),
        Ok(app(family, two()))
    );
}

#[test]
fn a_function_type_over_a_term_that_is_no_type_is_refused() {
    let cx = checked(&arithmetic());
    let mut lcx = LocalCx::from_cx(&cx);
    assert_eq!(
        lcx.type_infer_term(&pi("n", zero(), nat_type())),
        Err(Error::DefUnequal(Span::dummy(), Term::Type, nat_type(), vec![(Term::Type, nat_type())]))
    );
    assert_eq!(
        lcx.type_infer_term(&pi("n", nat_type(), bound(0))),
        Err(Error::DefUnequal(Span::dummy(), Term::Type, nat_type(), vec![(Term::Type, nat_type())]))
    );
}

#[test]
fn checking_returns_the_normal_form_of_the_type() {
    let cx = checked(&arithmetic());
    let mut lcx = LocalCx::from_cx(&cx);
    let ty = app(lam("T", Term::Type, bound(0)), nat_type());
    assert_eq!(lcx.type_check_term(&two(), &ty), Ok(nat_type()));
    assert_eq!(
        lcx.type_check_term(&two(), &Term::Type),
        Err(Error::DefUnequal(Span::dummy(), Term::Type, nat_type(), vec![(Term::Type, nat_type())]))
    );
    assert_eq!(lcx.evaluate(&ty), ty);
}

#[test]
fn the_type_of_a_saturated_recursor() {
    let cx = checked(&arithmetic());
    let mut lcx = LocalCx::from_cx(&cx);
    let motive = lam("_", nat_type(), nat_type());
    let step = lam("k", nat_type(), lam("ih", nat_type(), succ(bound(0))));
    let recursor = Term::Recursor(name("Nat"), 1, vec![motive.clone(), zero(), step, two()]);
    // The motive is applied while the recursor's type is evaluated.
    assert_eq!(lcx.type_infer_term(&recursor), Ok(nat_type()));
    let family = local(50, "F", pi("n", nat_type(), Term::Type)).to_term();
    let neutral = Term::Recursor(
        name("Nat"),
        1,
        vec![
            family.clone(),
            local(51, "z", app(family.clone(), zero())).to_term(),
            local(
                52,
                "s",
                pi(
                    "n",
                    nat_type(),
                    pi("ih", app(family.clone(), bound(0)), app(family.clone(), succ(bound(1)))),
                ),
            )
            .to_term(),
            two(),
        ],
    );
    assert_eq!(lcx.type_infer_term(&neutral), Ok(app(family, two())));
    assert_eq!(lcx.type_check_term(&recursor, &nat_type()), Ok(nat_type()));
    let wrong = Term::Recursor(name("Nat"), 1, vec![motive, Term::Type]);
    assert!(matches!(lcx.type_infer_term(&wrong), Err(Error::DefUnequal(..))));
    let local_name = Term::Recursor(local(0, "D", Term::Type), 1, vec![zero()]);
    assert_eq!(
        lcx.type_infer_term(&local_name),
        Err(Error::Internal(Fault::MalformedRecursor))
    );
}

#[test]
fn the_recursor_of_the_natural_numbers() {
    let cx = checked(&module(vec![Item::Data(nat_data())]));
    let c_zero = app(bound(0), zero());
    let c_succ = pi("n", nat_type(), pi("ih", app(bound(2), bound(0)), app(bound(3), succ(bound(1)))));
    let expected_type = pi(
        "C",
        pi("x", nat_type(), Term::Type),
        pi("p", c_zero.clone(), pi("p", c_succ.clone(), pi("s", nat_type(), app(bound(3), bound(0))))),
    );
    let rec = path(&["Nat", "rec"]);
    assert_eq!(cx.lookup_global(&rec), Ok(&expected_type));
    assert_eq!(cx.axiom_type(&rec), Some(&expected_type));
    let expected_term = lam(
        "C",
        pi("x", nat_type(), Term::Type),
        lam(
            "p",
            c_zero,
            lam(
                "p",
                c_succ,
                lam(
                    "s",
                    nat_type(),
                    Term::Recursor(name("Nat"), 1, vec![bound(3), bound(2), bound(1), bound(0)]),
                ),
            ),
        ),
    );
    assert_eq!(cx.eval(&rec.to_term()), Ok(expected_term));
    assert_eq!(cx.datatype(&name("Nat")).map(|d| d.ctors.len()), Some(2));
    assert_eq!(cx.lookup_global(&name("Nat")), Ok(&Term::Type));
    assert_eq!(cx.lookup_global(&name("succ")), Ok(&pi("n", nat_type(), nat_type())));
}

#[test]
fn the_recursor_of_a_family_takes_its_indices_first() {
    let mut cx = TyCtxt::empty();
    assert_eq!(cx.declare_datatype(&nat_data()), Ok(()));
    // Fin : Nat -> Type, with one constructor `top : Π (n : Nat). Fin n`.
    let fin = Data {
        span: Span::dummy(),
        name: name("Fin"),
        ty: pi("n", nat_type(), Term::Type),
        ctors: vec![(name("top"), pi("n", nat_type(), app(global("Fin"), bound(0))))],
    };
    assert_eq!(cx.declare_datatype(&fin), Ok(()));
    let expected_type = pi(
        "n",
        nat_type(),
        pi(
            "C",
            pi("x", app(global("Fin"), bound(0)), Term::Type),
            pi(
                "p",
                pi("n", nat_type(), app(bound(1), app(global("top"), bound(0)))),
                pi("s", app(global("Fin"), bound(2)), app(bound(2), bound(0))),
            ),
        ),
    );
    assert_eq!(cx.lookup_global(&path(&["Fin", "rec"])), Ok(&expected_type));
    let body = match cx.definition(&path(&["Fin", "rec"])) {
        Some((_, body)) => body.clone(),
        None => panic!("the recursor is defined"),
    };
    let mut innermost = &body;
    while let Term::Lambda { body, .. } = innermost {
        innermost = body;
    }
    assert_eq!(
        innermost,
        &Term::Recursor(name("Fin"), 2, vec![bound(3), bound(2), bound(1), bound(0)])
    );
}

#[test]
fn declaring_a_name_twice_fails() {
    let mut cx = TyCtxt::empty();
    assert_eq!(cx.declare_datatype(&nat_data()), Ok(()));
    assert_eq!(cx.declare_datatype(&nat_data()), Err(Error::NameExists(name("Nat"))));
    let clash_with_ctor = Data {
        span: Span::dummy(),
        name: name("Other"),
        ty: Term::Type,
        ctors: vec![(name("one"), global("Other")), (name("zero"), global("Other"))],
    };
    assert_eq!(cx.declare_datatype(&clash_with_ctor), Err(Error::NameExists(name("zero"))));
    assert!(!cx.in_scope(&name("Other")));
    assert!(!cx.in_scope(&name("one")));
    assert!(cx.datatype(&name("Other")).is_none());
    let twice = Data {
        span: Span::dummy(),
        name: name("Bool"),
        ty: Term::Type,
        ctors: vec![(name("t"), global("Bool")), (name("t"), global("Bool"))],
    };
    assert_eq!(cx.declare_datatype(&twice), Err(Error::NameExists(name("t"))));
    let own_name = Data {
        span: Span::dummy(),
        name: name("Loop"),
        ty: Term::Type,
        ctors: vec![(name("Loop"), global("Loop"))],
    };
    assert_eq!(cx.declare_datatype(&own_name), Err(Error::NameExists(name("Loop"))));
    let not_global = Data {
        span: Span::dummy(),
        name: local(0, "D", Term::Type),
        ty: Term::Type,
        ctors: vec![],
    };
    assert_eq!(cx.declare_datatype(&not_global), Err(Error::Internal(Fault::NotGlobal)));
    assert!(cx.is_taken(&name("Nat")));
    assert!(!cx.is_taken(&name("Bool")));
}

#[test]
fn a_module_stops_at_the_first_declaration_that_fails() {
    let mut cx = TyCtxt::empty();
    let result = cx.type_check_module(&module(vec![
        Item::Data(nat_data()),
        Item::Fn(function("bad", nat_type(), Term::Type)),
        Item::Fn(function("later", nat_type(), zero())),
    ]));
    assert!(matches!(result, Err(Error::DefUnequal(..))));
    assert!(cx.in_scope(&name("Nat")));
    assert!(cx.in_scope(&name("bad")));
    assert!(!cx.in_scope(&name("later")));
}

#[test]
fn a_declaration_is_in_scope_for_its_own_body_and_what_follows() {
    let forward = module(vec![
        Item::Data(nat_data()),
        Item::Fn(function("first", nat_type(), global("second"))),
        Item::Fn(function("second", nat_type(), zero())),
    ]);
    assert_eq!(
        TyCtxt::from_module(&forward, source_map()).err(),
        Some(Error::UnknownVariable(name("second")))
    );
    let in_order = module(vec![
        Item::Data(nat_data()),
        Item::Extern(Extern { span: Span::dummy(), name: name("input"), term: nat_type() }),
        Item::Fn(function("second", nat_type(), global("input"))),
        Item::Fn(function("first", nat_type(), global("second"))),
        Item::Fn(function("itself", nat_type(), global("itself"))),
    ]);
    let cx = checked(&in_order);
    assert_eq!(cx.eval(&global("first")), Ok(global("second")));
    assert_eq!(cx.type_check_def(&Item::Fn(function("g", nat_type(), two()))), Ok(()));
    assert_eq!(cx.type_check_def(&Item::Data(nat_data())), Ok(()));
}

#[test]
fn locals_are_tagged_in_order() {
    let mut cx = TyCtxt::empty();
    assert_eq!(
        cx.local_with_repr("a".to_string(), nat_type()),
        Ok(local(0, "a", nat_type()))
    );
    assert_eq!(
        cx.local(&Name::de_bruijn(5, "b".to_string()), Term::Type),
        Ok(local(1, "b", Term::Type))
    );
    assert_eq!(cx.local(&name("c"), nat_type()), Err(Error::Internal(Fault::NotDeBruijn)));
    assert_eq!(cx.local_counter(), 2);
    let mut lcx = LocalCx::from_cx(&cx);
    assert_eq!(lcx.local_with_repr("d".to_string(), nat_type()), Ok(local(2, "d", nat_type())));
    assert_eq!(
        lcx.local(&Name::de_bruijn(0, "e".to_string()), nat_type()),
        Ok(local(3, "e", nat_type()))
    );
    assert_eq!(lcx.local(&name("f"), nat_type()), Err(Error::Internal(Fault::NotDeBruijn)));
    match cx.local_with_repr("hint".to_string(), nat_type()) {
        Ok(Name::Local { repr, .. }) => assert_eq!(repr, "hint"),
        other => panic!("expected a local, got {:?}", other),
    }
}

#[test]
fn heads_and_arguments_of_spines() {
    let spine = app(app(global("cons"), zero()), two());
    assert_eq!(spine.head(), Some(global("cons")));
    assert_eq!(spine.args(), Some(vec![zero(), two()]));
    assert_eq!(zero().head(), Some(zero()));
    assert_eq!(zero().args(), None);
    assert_eq!(bound(1).head(), Some(bound(1)));
    assert_eq!(app(Term::Type, zero()).head(), None);
    assert_eq!(app(Term::Type, zero()).args(), Some(vec![zero()]));
    assert_eq!(lam("x", nat_type(), zero()).head(), None);
    assert_eq!(lam("x", nat_type(), zero()).args(), None);
    assert_eq!(Term::apply_all(global("cons"), vec![zero(), two()]), spine);
    assert_eq!(Term::apply_all(zero(), vec![]), zero());
    let spanned = Term::Var {
        name: Name::Qual { span: Span::new(3, 4), components: vec!["c".to_string()] },
    };
    assert_eq!(app(spanned, zero()).head().map(|h| h.get_span()), Some(Span::dummy()));
}

#[test]
fn spans_of_terms() {
    let at = Span::new(2, 5);
    assert_eq!(Term::Literal { span: at, lit: Literal::Unit }.get_span(), at);
    assert_eq!(Term::App { span: at, fun: Box::new(zero()), arg: Box::new(zero()) }.get_span(), at);
    assert_eq!(
        Term::Var { name: Name::Qual { span: at, components: vec![] } }.get_span(),
        at
    );
    assert_eq!(
        Term::Var { name: Name::DeBruijn { index: 0, span: at, repr: String::new() } }.get_span(),
        at
    );
    assert_eq!(Term::Type.get_span(), Span::dummy());
    assert_eq!(local(0, "x", nat_type()).to_term().get_span(), Span::dummy());
    assert_eq!(Span::dummy(), Span::new(0, 0));
}

#[test]
fn unfold_replaces_what_is_not_the_name() {
    let cx = checked(&arithmetic());
    // The term is definitionally equal to `two`: it stays, but its parts,
    // which are not, are replaced.
    assert_eq!(cx.unfold(two(), &name("two")), Ok(app(two(), two())));
    assert_eq!(cx.unfold(global("two"), &name("two")), Ok(global("two")));
    // The term is not: it is replaced whole by the body of `two`.
    assert_eq!(cx.unfold(zero(), &name("two")), Ok(two()));
    assert_eq!(cx.unfold(lam("x", nat_type(), global("two")), &name("two")), Ok(two()));
    // For a name without a definition, the name itself is put in.
    assert_eq!(cx.unfold(app(zero(), zero()), &name("zero")), Ok(zero()));
}

#[test]
fn paths_of_modules() {
    assert_eq!(name_to_path(&path(&["a", "b", "c"])), Some("a/b/c.hb".to_string()));
    assert_eq!(name_to_path(&name("prelude")), Some("prelude.hb".to_string()));
    assert_eq!(name_to_path(&path(&[])), None);
    assert_eq!(name_to_path(&Name::de_bruijn(0, "x".to_string())), None);
    assert_eq!(name_to_path(&local(0, "x", nat_type())), None);
    assert_eq!(name_to_path(&Name::Meta { number: 0 }), None);
}

#[test]
fn names_of_recursors() {
    assert_eq!(name("Nat").recursor(), Some(path(&["Nat", "rec"])));
    assert_eq!(path(&["a", "List"]).recursor(), Some(path(&["a", "List", "rec"])));
    assert_eq!(Name::de_bruijn(0, "x".to_string()).recursor(), None);
    assert_eq!(name("x"), path(&["x"]));
    assert_ne!(name("x"), Name::de_bruijn(0, "x".to_string()));
    assert_eq!(name("x").stripped(), name("x"));
}

#[test]
fn copies_are_equal_to_what_they_copy() {
    let term = lam(
        "x",
        pi("y", nat_type(), Term::Type),
        Term::Recursor(
            path(&["Nat"]),
            1,
            vec![app(bound(0), local(3, "l", nat_type()).to_term()), Term::Var { name: Name::Meta { number: 2 } }],
        ),
    );
    assert_eq!(term.clone(), term);
    let data = nat_data();
    let copy = data.clone();
    assert_eq!(copy.name, data.name);
    assert_eq!(copy.ty, data.ty);
    assert_eq!(copy.ctors, data.ctors);
    let f = function("f", nat_type(), zero());
    let g = f.clone();
    assert_eq!((g.name, g.ret_ty, g.body), (f.name, f.ret_ty, f.body));
}

#[test]
fn evaluation_keeps_spans_and_hints_for_diagnostics() {
    let cx = checked(&arithmetic());
    let family = Term::Forall {
        span: Span::new(4, 30),
        name: "count".to_string(),
        ty: Box::new(app(global("id_nat"), nat_type())),
        term: Box::new(nat_type()),
    };
    match cx.eval(&family) {
        Ok(Term::Forall { span, name, .. }) => {
            assert_eq!(span, Span::new(4, 30));
            assert_eq!(name, "count");
        }
        other => panic!("expected a function type, got {:?}", other),
    }
    let x = local(0, "x", nat_type()).to_term();
    let stuck = Term::App {
        span: Span::new(8, 12),
        fun: Box::new(x),
        arg: Box::new(app(global("id_nat"), zero())),
    };
    match cx.eval(&stuck) {
        Ok(Term::App { span, .. }) => assert_eq!(span, Span::new(8, 12)),
        other => panic!("expected an application, got {:?}", other),
    }
}

#[test]
fn the_type_of_a_lambda_keeps_its_span_and_hint() {
    let cx = checked(&arithmetic());
    let mut lcx = LocalCx::from_cx(&cx);
    let lambda = Term::Lambda {
        span: Span::new(1, 9),
        name: "count".to_string(),
        ty: Box::new(nat_type()),
        body: Box::new(succ(bound(0))),
    };
    match lcx.type_infer_term(&lambda) {
        Ok(Term::Forall { span, name, .. }) => {
            assert_eq!(span, Span::new(1, 9));
            assert_eq!(name, "count");
        }
        other => panic!("expected a function type, got {:?}", other),
    }
}

#[test]
fn a_larger_budget_changes_no_answer() {
    let cx = checked(&arithmetic());
    let sum = app(app(global("add"), two()), two());
    let within = cx.eval_with_budget(&sum, 16);
    assert_eq!(within, Ok(succ(succ(two()))));
    assert_eq!(cx.eval_with_budget(&sum, 17), within);
    assert_eq!(cx.eval_with_budget(&sum, 4096), within);
    let broken = Term::Recursor(name("Nat"), 9, vec![zero()]);
    assert_eq!(cx.eval_with_budget(&broken, 0), cx.eval_with_budget(&broken, 100));
}

#[test]
fn the_recursor_applied_to_all_its_arguments_is_the_saturated_recursor() {
    let cx = checked(&arithmetic());
    let args = vec![
        lam("_", nat_type(), nat_type()),
        zero(),
        lam("k", nat_type(), lam("ih", nat_type(), succ(succ(bound(0))))),
        two(),
    ];
    let applied = Term::apply_all(nat_rec(), args.clone());
    let saturated = Term::Recursor(name("Nat"), 1, args.clone());
    assert_eq!(cx.eval(&applied), cx.eval(&saturated));
    assert_eq!(cx.eval(&applied), Ok(succ(succ(two()))));
    // On a neutral scrutinee the saturated recursor itself is what is left.
    let x = local(0, "x", nat_type()).to_term();
    let mut neutral = args;
    neutral[3] = x;
    assert_eq!(
        cx.eval(&Term::apply_all(nat_rec(), neutral.clone())),
        Ok(Term::Recursor(name("Nat"), 1, neutral))
    );
}
