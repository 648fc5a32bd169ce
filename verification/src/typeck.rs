//! Checking a module: its declarations are made and checked one after the
//! other, each in the environment that those before it have left.

use crate::ast::rec_name;
use crate::ast::Data;
use crate::ast::DataView;
use crate::ast::Item;
use crate::ast::ItemView;
use crate::ast::Module;
use crate::ast::Name;
use crate::ast::NameView;
use crate::ast::SourceMap;
use crate::ast::TermView;
use crate::check::type_check;
use crate::check::LocalCx;
use crate::env::names_view;
use crate::env::EnvView;
use crate::env::TyCtxt;
use crate::env::DEFAULT_STEP_BUDGET;
use crate::error::fail;
use crate::error::Error;
use crate::error::ErrorView;
use crate::error::Fault;
use crate::inductive::make_recursor;
use crate::inductive::recursor_fits;
use crate::inductive::recursor_term;
use crate::inductive::recursor_type;
use vstd::prelude::*;

verus! {

/// The names that declaring a datatype brings into use: its own, those of
/// its constructors in order, and that of its recursor.
pub open spec fn introduced(data: DataView, rec: NameView) -> Seq<NameView> {
    seq![data.name] + Seq::new(data.ctors.len(), |i: int| data.ctors[i].0) + seq![rec]
}

/// The position, from `from` on, of the first of `names` that is in use in
/// `env` or stands among `names` before.
pub open spec fn first_clash(env: EnvView, names: Seq<NameView>, from: int) -> Option<int>
    decreases names.len() - from,
{
    if from < 0 || from >= names.len() {
        None
    } else if env.taken(names[from]) || names.take(from).contains(names[from]) {
        Some(from)
    } else {
        first_clash(env, names, from + 1)
    }
}

/// `axioms` with the first `count` constructors of `ctors` put in, each
/// with its type.
pub open spec fn with_ctors(
    axioms: Map<NameView, TermView>,
    ctors: Seq<(NameView, TermView)>,
    count: nat,
) -> Map<NameView, TermView>
    decreases count,
{
    if count == 0 {
        axioms
    } else {
        with_ctors(axioms, ctors, (count - 1) as nat).insert(
            ctors[count - 1].0,
            ctors[count - 1].1,
        )
    }
}

/// The environment that declaring the datatype `data` in `env` leaves: the
/// datatype is recorded; it, its constructors and its recursor are axioms
/// with their types; and the recursor is defined.
///
/// The declaration fails where the datatype's name is no global's, where
/// one of the names it brings is in use already or brought twice, and
/// where an index of the recursor does not fit in a `usize`.
pub open spec fn declare_datatype_spec(env: EnvView, data: DataView) -> Result<EnvView, ErrorView> {
    match rec_name(data.name) {
        None => Err(ErrorView::Internal(Fault::NotGlobal)),
        Some(rec) => match first_clash(env, introduced(data, rec), 0) {
            Some(i) => Err(ErrorView::NameExists(introduced(data, rec)[i])),
            None => if !recursor_fits(data) {
                Err(ErrorView::Internal(Fault::IndexOverflow))
            } else {
                Ok(
                    EnvView {
                        types: env.types.insert(data.name, data),
                        axioms: with_ctors(
                            env.axioms.insert(rec, recursor_type(data)).insert(
                                data.name,
                                data.ty,
                            ),
                            data.ctors,
                            data.ctors.len(),
                        ),
                        definitions: env.definitions.insert(
                            rec,
                            (recursor_type(data), recursor_term(data)),
                        ),
                        functions: env.functions,
                    },
                )
            },
        },
    }
}

/// The environment that declaring `item` in `env` leaves.
pub open spec fn declare_item(env: EnvView, item: ItemView) -> Result<EnvView, ErrorView> {
    match item {
        ItemView::Data(d) => declare_datatype_spec(env, d),
        ItemView::Fn(f) => Ok(
            EnvView {
                functions: env.functions.insert(f.name, f),
                definitions: env.definitions.insert(f.name, (f.ret_ty, f.body)),
                ..env
            },
        ),
        ItemView::Extern(e) => Ok(EnvView { axioms: env.axioms.insert(e.name, e.term), ..env }),
    }
}

/// Whether `item` checks in `env`: a function's body must have its
/// declared type; a datatype and an external have nothing to check.
pub open spec fn check_item(env: EnvView, item: ItemView, counter: nat, fuel: nat) -> Result<
    (),
    ErrorView,
> {
    match item {
        ItemView::Fn(f) => match type_check(env, f.body, f.ret_ty, counter, fuel).result {
            Ok(_) => Ok(()),
            Err(e) => Err(e),
        },
        _ => Ok(()),
    }
}

/// What checking a run of declarations leaves: the environment, and the
/// first error if there was one.
pub struct Checked {
    pub env: EnvView,
    pub result: Result<(), ErrorView>,
}

/// Declares and checks `defs` in order, each in the environment that those
/// before it have left, and stops at the first that fails.
pub open spec fn check_defs(env: EnvView, defs: Seq<ItemView>, counter: nat, fuel: nat) -> Checked
    decreases defs.len(),
{
    if defs.len() == 0 {
        Checked { env, result: Ok(()) }
    } else {
        match declare_item(env, defs[0]) {
            Err(e) => Checked { env, result: Err(e) },
            Ok(declared) => match check_item(declared, defs[0], counter, fuel) {
                Err(e) => Checked { env: declared, result: Err(e) },
                Ok(_) => check_defs(declared, defs.drop_first(), counter, fuel),
            },
        }
    }
}

/// The declarations of a module.
pub open spec fn defs_view(defs: Seq<Item>) -> Seq<ItemView> {
    Seq::new(defs.len(), |i: int| defs[i]@)
}

/// Whether the name at `at` stands among `names` before `at`.
fn occurs_before(names: &Vec<Name>, at: usize) -> (r: bool)
    requires
        at < names@.len(),
    ensures
        r == names_view(names@).take(at as int).contains(names@[at as int]@),
{
    let ghost before = names_view(names@).take(at as int);
    let mut i: usize = 0;
    while i < at
        invariant
            i <= at,
            at < names@.len(),
            before == names_view(names@).take(at as int),
            forall|j: int| 0 <= j < i ==> before[j] != names@[at as int]@,
        decreases at - i,
    {
        if names[i].same(&names[at]) {
            assert(before[i as int] == names@[at as int]@);
            return true;
        }
        i = i + 1;
    }
    false
}

impl TyCtxt {
    /// Declares the datatype `data_type`: records it; makes it and each of
    /// its constructors an axiom with its type; and gives it a recursor.
    ///
    /// Fails, and leaves the environment as it was, where a name that the
    /// declaration brings is in use already or brought twice
    /// (`NameExists`), where the datatype's name is no global's, and where
    /// an index of the recursor does not fit in a `usize`.
    pub fn declare_datatype(&mut self, data_type: &Data) -> (r: Result<(), Error>)
        requires
            old(self).wf(),
        ensures
            final(self).wf(),
            final(self).counter() == old(self).counter(),
            final(self).budget() == old(self).budget(),
            final(self).source() == old(self).source(),
            match declare_datatype_spec(old(self)@, data_type@) {
                Ok(env) => r is Ok && final(self)@ == env,
                Err(e) => r matches Err(x) && x@ == e && final(self)@ == old(self)@,
            },
    {
        let rec = match data_type.name.recursor() {
            Some(rec) => rec,
            None => {
                return fail(Fault::NotGlobal);
            },
        };
        let ghost names = introduced(data_type@, rec@);
        let mut brought: Vec<Name> = Vec::new();
        brought.push(data_type.name.clone());
        let mut c: usize = 0;
        while c < data_type.ctors.len()
            invariant
                c <= data_type.ctors.len(),
                brought@.len() == c + 1,
                brought@[0]@ == data_type@.name,
                forall|j: int| 0 <= j < c ==> (#[trigger] brought@[j + 1])@ == data_type@.ctors[j].0,
            decreases data_type.ctors.len() - c,
        {
            brought.push(data_type.ctors[c].0.clone());
            c = c + 1;
        }
        brought.push(rec.clone());
        assert(names_view(brought@) =~= names) by {
            assert forall|j: int| 0 <= j < names.len() implies names_view(brought@)[j]
                == names[j] by {
                if 1 <= j < names.len() - 1 {
                    assert(brought@[(j - 1) + 1]@ == data_type@.ctors[j - 1].0);
                }
            }
        }
        let mut i: usize = 0;
        while i < brought.len()
            invariant
                i <= brought.len(),
                self.wf(),
                *self == *old(self),
                rec_name(data_type@.name) == Some(rec@),
                names == introduced(data_type@, rec@),
                names_view(brought@) == names,
                first_clash(self@, names, 0) == first_clash(self@, names, i as int),
            decreases brought.len() - i,
        {
            if self.is_taken(&brought[i]) || occurs_before(&brought, i) {
                return Err(Error::NameExists(brought[i].clone()));
            }
            i = i + 1;
        }
        // The recursor first: where it cannot be made, nothing is declared.
        match make_recursor(self, data_type) {
            Ok(_) => {},
            Err(e) => {
                return Err(e);
            },
        }
        self.insert_type(data_type.clone());
        // The type is a constant of the type `ty`.
        self.insert_axiom(data_type.name.clone(), data_type.ty.clone());
        // Each constructor is a constant of the type that its declaration
        // ascribes to it.
        let ghost base = self@.axioms;
        let mut k: usize = 0;
        while k < data_type.ctors.len()
            invariant
                k <= data_type.ctors.len(),
                self.wf(),
                self.counter() == old(self).counter(),
                self.budget() == old(self).budget(),
                self.source() == old(self).source(),
                self@ == (EnvView {
                    types: old(self)@.types.insert(data_type@.name, data_type@),
                    axioms: with_ctors(base, data_type@.ctors, k as nat),
                    definitions: old(self)@.definitions.insert(
                        rec@,
                        (recursor_type(data_type@), recursor_term(data_type@)),
                    ),
                    functions: old(self)@.functions,
                }),
            decreases data_type.ctors.len() - k,
        {
            let name = data_type.ctors[k].0.clone();
            let ty = data_type.ctors[k].1.clone();
            self.insert_axiom(name, ty);
            k = k + 1;
        }
        Ok(())
    }

    /// Checks the declaration `def` in this environment: the body of a
    /// function against its declared type. A datatype and an external have
    /// nothing to check.
    pub fn type_check_def(&self, def: &Item) -> (r: Result<(), Error>)
        requires
            self.wf(),
        ensures
            match check_item(self@, def@, self.counter(), self.budget()) {
                Ok(_) => r is Ok,
                Err(e) => r matches Err(x) && x@ == e,
            },
    {
        match def {
            Item::Fn(fun) => {
                let mut lcx = LocalCx::from_cx(self);
                match lcx.type_check_term(&fun.body, &fun.ret_ty) {
                    Ok(_) => Ok(()),
                    Err(e) => Err(e),
                }
            },
            _ => Ok(()),
        }
    }

    /// Declares `def` and then checks it. Where the declaration fails, the
    /// environment is left as it was; where the check fails, the
    /// declaration stays.
    pub fn declare_and_check(&mut self, def: &Item) -> (r: Result<(), Error>)
        requires
            old(self).wf(),
        ensures
            final(self).wf(),
            final(self).counter() == old(self).counter(),
            final(self).budget() == old(self).budget(),
            final(self).source() == old(self).source(),
            match declare_item(old(self)@, def@) {
                Err(e) => r matches Err(x) && x@ == e && final(self)@ == old(self)@,
                Ok(declared) => {
                    &&& final(self)@ == declared
                    &&& match check_item(declared, def@, old(self).counter(), old(self).budget()) {
                        Ok(_) => r is Ok,
                        Err(e) => r matches Err(x) && x@ == e,
                    }
                },
            },
    {
        match def {
            Item::Data(d) => {
                match self.declare_datatype(d) {
                    Ok(_) => {},
                    Err(e) => {
                        return Err(e);
                    },
                }
            },
            Item::Fn(f) => {
                self.declare_def(f);
            },
            Item::Extern(e) => {
                self.declare_extern(e);
            },
        }
        self.type_check_def(def)
    }

    /// Declares and checks the declarations of `module` in order, each in
    /// the environment that those before it have left, and stops at the
    /// first that fails: what was declared until then stays declared.
    pub fn type_check_module(&mut self, module: &Module) -> (r: Result<(), Error>)
        requires
            old(self).wf(),
        ensures
            final(self).wf(),
            final(self).counter() == old(self).counter(),
            final(self).budget() == old(self).budget(),
            final(self).source() == old(self).source(),
            final(self)@ == check_defs(
                old(self)@,
                module@.defs,
                old(self).counter(),
                old(self).budget(),
            ).env,
            match check_defs(
                old(self)@,
                module@.defs,
                old(self).counter(),
                old(self).budget(),
            ).result {
                Ok(_) => r is Ok,
                Err(e) => r matches Err(x) && x@ == e,
            },
    {
        let ghost defs = module@.defs;
        let ghost goal = check_defs(self@, defs, self.counter(), self.budget());
        let mut i: usize = 0;
        assert(defs.skip(0) =~= defs);
        while i < module.defs.len()
            invariant
                i <= module.defs.len(),
                self.wf(),
                self.counter() == old(self).counter(),
                self.budget() == old(self).budget(),
                self.source() == old(self).source(),
                defs == module@.defs,
                defs.len() == module.defs@.len(),
                goal == check_defs(
                    old(self)@,
                    module@.defs,
                    old(self).counter(),
                    old(self).budget(),
                ),
                check_defs(self@, defs.skip(i as int), self.counter(), self.budget()) == goal,
            decreases module.defs.len() - i,
        {
            proof {
                assert(defs.skip(i as int)[0] == module.defs@[i as int]@);
                assert(defs.skip(i as int).drop_first() =~= defs.skip(i + 1));
            }
            match self.declare_and_check(&module.defs[i]) {
                Ok(_) => {},
                Err(e) => {
                    return Err(e);
                },
            }
            i = i + 1;
        }
        Ok(())
    }

    /// The environment that checking `module` leaves, starting from the
    /// empty one; the first error where a declaration fails.
    pub fn from_module(module: &Module, source_map: SourceMap) -> (r: Result<TyCtxt, Error>)
        ensures
            match check_defs(TyCtxt::empty_view(), module@.defs, 0, DEFAULT_STEP_BUDGET as nat).result {
                Ok(_) => r matches Ok(cx) && cx.wf() && cx@ == check_defs(
                    TyCtxt::empty_view(),
                    module@.defs,
                    0,
                    DEFAULT_STEP_BUDGET as nat,
                ).env && cx.counter() == 0 && cx.budget() == DEFAULT_STEP_BUDGET
                    && cx.source() == source_map,
                Err(e) => r matches Err(x) && x@ == e,
            },
    {
        let mut ty_cx = TyCtxt::empty();
        ty_cx.set_source_map(source_map);
        match ty_cx.type_check_module(module) {
            Ok(_) => Ok(ty_cx),
            Err(e) => Err(e),
        }
    }
}

} // verus!
