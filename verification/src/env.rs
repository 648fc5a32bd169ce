//! The global environment: what a module has declared so far.

use crate::ast::Data;
use crate::ast::DataView;
use crate::ast::Extern;
use crate::ast::Function;
use crate::ast::FunctionView;
use crate::ast::Name;
use crate::ast::NameView;
use crate::ast::SourceMap;
use crate::ast::Term;
use crate::ast::TermView;
use crate::error::errors_view;
use crate::error::fail;
use crate::error::lemma_many_view;
use crate::error::Error;
use crate::error::ErrorView;
use crate::error::Fault;
use crate::names::NameMap;
use vstd::prelude::*;

verus! {

/// How many nested reduction steps `eval` takes before it gives up, unless
/// the environment is told otherwise.
pub const DEFAULT_STEP_BUDGET: usize = 1024;

/// What an environment holds, without spans and hints.
pub struct EnvView {
    /// The datatypes, by name.
    pub types: Map<NameView, DataView>,
    /// The functions, by name.
    pub functions: Map<NameView, FunctionView>,
    /// The declared type of each name that has no body.
    pub axioms: Map<NameView, TermView>,
    /// The declared type and the body of each name that has one.
    pub definitions: Map<NameView, (TermView, TermView)>,
}

/// A global context for type checking: the declarations made so far, the
/// counter that tags locals, and the step budget of `eval`.
pub struct TyCtxt {
    pub(crate) types: NameMap<Data>,
    pub(crate) functions: NameMap<Function>,
    pub(crate) axioms: NameMap<Term>,
    pub(crate) definitions: NameMap<(Term, Term)>,
    pub source_map: SourceMap,
    pub(crate) local_counter: usize,
    pub(crate) step_budget: usize,
}

/// The views of the datatypes of a map.
pub open spec fn types_view(m: Map<NameView, Data>) -> Map<NameView, DataView> {
    Map::new(|k: NameView| m.contains_key(k), |k: NameView| m[k]@)
}

/// The views of the functions of a map.
pub open spec fn functions_view(m: Map<NameView, Function>) -> Map<NameView, FunctionView> {
    Map::new(|k: NameView| m.contains_key(k), |k: NameView| m[k]@)
}

/// The views of the types of a map.
pub open spec fn axioms_view(m: Map<NameView, Term>) -> Map<NameView, TermView> {
    Map::new(|k: NameView| m.contains_key(k), |k: NameView| m[k]@)
}

/// The views of the types and bodies of a map.
pub open spec fn definitions_view(m: Map<NameView, (Term, Term)>) -> Map<
    NameView,
    (TermView, TermView),
> {
    Map::new(|k: NameView| m.contains_key(k), |k: NameView| (m[k].0@, m[k].1@))
}

impl EnvView {
    /// Whether `name` has a declared type.
    pub open spec fn in_scope(self, name: NameView) -> bool {
        self.axioms.contains_key(name) || self.definitions.contains_key(name)
    }

    /// Whether `name` is in use: as a datatype, an axiom or a definition.
    pub open spec fn taken(self, name: NameView) -> bool {
        self.types.contains_key(name) || self.in_scope(name)
    }

    /// The declared type of `name`: that of its definition where it has
    /// one, else that of its axiom.
    pub open spec fn lookup(self, name: NameView) -> Option<TermView> {
        if self.definitions.contains_key(name) {
            Some(self.definitions[name].0)
        } else if self.axioms.contains_key(name) {
            Some(self.axioms[name])
        } else {
            None
        }
    }

    /// Whether both environments hold `name` in maps of the same kind.
    pub open spec fn collides(self, other: EnvView, name: NameView) -> bool {
        ||| self.types.contains_key(name) && other.types.contains_key(name)
        ||| self.functions.contains_key(name) && other.functions.contains_key(name)
        ||| self.axioms.contains_key(name) && other.axioms.contains_key(name)
        ||| self.definitions.contains_key(name) && other.definitions.contains_key(name)
    }

    /// This environment with every entry of `other` put into it.
    pub open spec fn merged(self, other: EnvView) -> EnvView {
        EnvView {
            types: self.types.union_prefer_right(other.types),
            functions: self.functions.union_prefer_right(other.functions),
            axioms: self.axioms.union_prefer_right(other.axioms),
            definitions: self.definitions.union_prefer_right(other.definitions),
        }
    }
}

/// The name `main`.
pub open spec fn main_name() -> NameView {
    NameView::Qual { components: seq!["main"@] }
}

/// The views of a sequence of names.
pub open spec fn names_view(names: Seq<Name>) -> Seq<NameView> {
    Seq::new(names.len(), |i: int| names[i]@)
}

/// Whether `name` is among `names`.
fn listed(names: &Vec<Name>, name: &Name) -> (r: bool)
    ensures
        r == names_view(names@).contains(name@),
{
    let mut i: usize = 0;
    while i < names.len()
        invariant
            i <= names.len(),
            forall|j: int| 0 <= j < i ==> names@[j]@ != name@,
        decreases names.len() - i,
    {
        if names[i].same(name) {
            assert(names_view(names@)[i as int] == name@);
            return true;
        }
        i = i + 1;
    }
    false
}

/// Puts every entry of `from` into `into`, and adds to `clashes` each name
/// that both held and that is not yet listed there.
fn absorb<V>(into: &mut NameMap<V>, from: NameMap<V>, clashes: &mut Vec<Name>)
    requires
        old(into).wf(),
        from.wf(),
        names_view(old(clashes)@).no_duplicates(),
    ensures
        final(into).wf(),
        final(into).map() == old(into).map().union_prefer_right(from.map()),
        names_view(final(clashes)@).no_duplicates(),
        forall|k: NameView|
            names_view(final(clashes)@).contains(k) <==> names_view(old(clashes)@).contains(k) || (
            old(into).map().contains_key(k) && from.map().contains_key(k)),
{
    let ghost into0 = into.map();
    let ghost from0 = from.map();
    let ghost clashes0 = names_view(clashes@);
    let mut from = from;
    loop
        invariant
            into.wf(),
            from.wf(),
            forall|k: NameView| #[trigger]
                from.map().contains_key(k) ==> from0.contains_key(k) && from.map()[k] == from0[k],
            forall|k: NameView|
                into.map().contains_key(k) <==> into0.contains_key(k) || (from0.contains_key(k)
                    && !from.map().contains_key(k)),
            forall|k: NameView| #[trigger]
                into.map().contains_key(k) ==> into.map()[k] == if from0.contains_key(k)
                    && !from.map().contains_key(k) {
                    from0[k]
                } else {
                    into0[k]
                },
            names_view(clashes@).no_duplicates(),
            forall|k: NameView|
                names_view(clashes@).contains(k) <==> clashes0.contains(k) || (
                into0.contains_key(k) && from0.contains_key(k) && !from.map().contains_key(k)),
        ensures
            into.wf(),
            into.map() == into0.union_prefer_right(from0),
            names_view(clashes@).no_duplicates(),
            forall|k: NameView|
                names_view(clashes@).contains(k) <==> clashes0.contains(k) || (
                into0.contains_key(k) && from0.contains_key(k)),
        decreases from.count(),
    {
        let ghost from_before = from.map();
        let ghost into_before = into.map();
        let ghost clashes_before = names_view(clashes@);
        match from.pop() {
            Some((name, value)) => {
                let ghost key = name@;
                let copy = name.clone();
                let existed = into.insert(name, value);
                assert(existed == into0.contains_key(key));
                if existed && !listed(clashes, &copy) {
                    let ghost before = names_view(clashes@);
                    clashes.push(copy);
                    proof {
                        assert(names_view(clashes@) =~= before.push(key));
                        assert forall|k: NameView|
                            names_view(clashes@).contains(k) <==> before.contains(k) || k
                                == key by {
                            if before.contains(k) {
                                let i = choose|i: int| 0 <= i < before.len() && before[i] == k;
                                assert(names_view(clashes@)[i] == k);
                            }
                            if k == key {
                                assert(names_view(clashes@)[before.len() as int] == k);
                            }
                        }
                    }
                }
                assert forall|k: NameView|
                    names_view(clashes@).contains(k) <==> clashes0.contains(k) || (
                    into0.contains_key(k) && from0.contains_key(k) && !from.map().contains_key(
                        k,
                    )) by {
                    assert(clashes_before.contains(k) <==> clashes0.contains(k) || (
                    into0.contains_key(k) && from0.contains_key(k) && !from_before.contains_key(
                        k,
                    )));
                    assert(from.map().contains_key(k) <==> from_before.contains_key(k) && k
                        != key);
                }
            },
            None => {
                assert(into.map() =~= into0.union_prefer_right(from0));
                break ;
            },
        }
    }
}

impl TyCtxt {
    /// No map holds a name twice.
    pub closed spec fn wf(&self) -> bool {
        &&& self.types.wf()
        &&& self.functions.wf()
        &&& self.axioms.wf()
        &&& self.definitions.wf()
    }

    /// The source text that diagnostics refer to.
    pub closed spec fn source(&self) -> SourceMap {
        self.source_map
    }

    /// The tag that the next local gets.
    pub closed spec fn counter(&self) -> nat {
        self.local_counter as nat
    }

    /// How many nested reduction steps `eval` takes before it gives up.
    pub closed spec fn budget(&self) -> nat {
        self.step_budget as nat
    }
}

impl View for TyCtxt {
    type V = EnvView;

    closed spec fn view(&self) -> EnvView {
        EnvView {
            types: types_view(self.types.map()),
            functions: functions_view(self.functions.map()),
            axioms: axioms_view(self.axioms.map()),
            definitions: definitions_view(self.definitions.map()),
        }
    }
}

impl TyCtxt {
    /// What the environment with no declarations holds.
    pub open spec fn empty_view() -> EnvView {
        EnvView {
            types: Map::empty(),
            functions: Map::empty(),
            axioms: Map::empty(),
            definitions: Map::empty(),
        }
    }

    /// The environment with no declarations.
    pub fn empty() -> (r: TyCtxt)
        ensures
            r.wf(),
            r@ == TyCtxt::empty_view(),
            r.counter() == 0,
            r.budget() == DEFAULT_STEP_BUDGET,
    {
        let r = TyCtxt {
            types: NameMap::new(),
            functions: NameMap::new(),
            axioms: NameMap::new(),
            definitions: NameMap::new(),
            source_map: SourceMap::from_file(String::new(), String::new()),
            local_counter: 0,
            step_budget: DEFAULT_STEP_BUDGET,
        };
        assert(r@.types =~= Map::<NameView, DataView>::empty());
        assert(r@.functions =~= Map::<NameView, FunctionView>::empty());
        assert(r@.axioms =~= Map::<NameView, TermView>::empty());
        assert(r@.definitions =~= Map::<NameView, (TermView, TermView)>::empty());
        r
    }

    /// Sets the source text that diagnostics refer to.
    pub fn set_source_map(&mut self, source_map: SourceMap)
        requires
            old(self).wf(),
        ensures
            final(self).wf(),
            final(self)@ == old(self)@,
            final(self).counter() == old(self).counter(),
            final(self).budget() == old(self).budget(),
            final(self).source() == source_map,
    {
        self.source_map = source_map;
    }

    /// Sets how many nested reduction steps `eval` takes before it gives up.
    pub fn set_step_budget(&mut self, budget: usize)
        requires
            old(self).wf(),
        ensures
            final(self).wf(),
            final(self)@ == old(self)@,
            final(self).counter() == old(self).counter(),
            final(self).budget() == budget,
            final(self).source() == old(self).source(),
    {
        self.step_budget = budget;
    }

    /// How many nested reduction steps `eval` takes before it gives up.
    pub fn step_budget(&self) -> (r: usize)
        ensures
            r == self.budget(),
    {
        self.step_budget
    }

    /// The tag that the next local gets.
    pub fn local_counter(&self) -> (r: usize)
        ensures
            r == self.counter(),
    {
        self.local_counter
    }

    /// The datatype `name`, if there is one.
    pub fn datatype(&self, name: &Name) -> (r: Option<&Data>)
        requires
            self.wf(),
        ensures
            match r {
                Some(d) => self@.types.contains_key(name@) && d@ == self@.types[name@],
                None => !self@.types.contains_key(name@),
            },
    {
        self.types.get(name)
    }

    /// The declared type and the body of `name`, if it has a body.
    pub fn definition(&self, name: &Name) -> (r: Option<&(Term, Term)>)
        requires
            self.wf(),
        ensures
            match r {
                Some(d) => self@.definitions.contains_key(name@) && (d.0@, d.1@)
                    == self@.definitions[name@],
                None => !self@.definitions.contains_key(name@),
            },
    {
        self.definitions.get(name)
    }

    /// The declared type of `name`, if it is an axiom.
    pub fn axiom_type(&self, name: &Name) -> (r: Option<&Term>)
        requires
            self.wf(),
        ensures
            match r {
                Some(ty) => self@.axioms.contains_key(name@) && ty@ == self@.axioms[name@],
                None => !self@.axioms.contains_key(name@),
            },
    {
        self.axioms.get(name)
    }

    /// Whether `name` has a declared type: as an axiom or as a definition.
    pub fn in_scope(&self, name: &Name) -> (r: bool)
        requires
            self.wf(),
        ensures
            r == self@.in_scope(name@),
    {
        self.axioms.contains_key(name) || self.definitions.contains_key(name)
    }

    /// The declared type of `name`: that of its definition where it has one,
    /// else that of its axiom; `UnknownVariable` where it has neither.
    pub fn lookup_global(&self, name: &Name) -> (r: Result<&Term, Error>)
        requires
            self.wf(),
        ensures
            match r {
                Ok(ty) => self@.lookup(name@) == Some(ty@),
                Err(e) => self@.lookup(name@) is None && e@ == ErrorView::UnknownVariable(name@),
            },
    {
        match self.definitions.get(name) {
            None => {
                match self.axioms.get(name) {
                    None => Err(Error::UnknownVariable(name.clone())),
                    Some(t) => Ok(t),
                }
            },
            Some(t) => Ok(&t.0),
        }
    }

    /// The body of the function `main`; `NoMain` where there is none.
    pub fn get_main_body(&self) -> (r: Result<&Term, Error>)
        requires
            self.wf(),
        ensures
            match r {
                Ok(body) => self@.functions.contains_key(main_name()) && body@
                    == self@.functions[main_name()].body,
                Err(e) => !self@.functions.contains_key(main_name()) && e@ == ErrorView::NoMain,
            },
    {
        match self.functions.get(&Name::from_str("main")) {
            None => Err(Error::NoMain),
            Some(f) => Ok(&f.body),
        }
    }

    /// Whether `name` is in use: as a datatype, an axiom or a definition.
    pub fn is_taken(&self, name: &Name) -> (r: bool)
        requires
            self.wf(),
        ensures
            r == self@.taken(name@),
    {
        self.types.contains_key(name) || self.axioms.contains_key(name)
            || self.definitions.contains_key(name)
    }

    /// Records the datatype `data` under its name.
    pub(crate) fn insert_type(&mut self, data: Data)
        requires
            old(self).wf(),
        ensures
            final(self).wf(),
            final(self)@ == (EnvView {
                types: old(self)@.types.insert(data@.name, data@),
                ..old(self)@
            }),
            final(self).counter() == old(self).counter(),
            final(self).budget() == old(self).budget(),
            final(self).source() == old(self).source(),
    {
        self.types.insert(data.name.clone(), data);
        proof {
            assert(final(self)@.types =~= old(self)@.types.insert(data@.name, data@));
        }
    }

    /// Records `ty` as the declared type of the axiom `name`.
    pub(crate) fn insert_axiom(&mut self, name: Name, ty: Term)
        requires
            old(self).wf(),
        ensures
            final(self).wf(),
            final(self)@ == (EnvView {
                axioms: old(self)@.axioms.insert(name@, ty@),
                ..old(self)@
            }),
            final(self).counter() == old(self).counter(),
            final(self).budget() == old(self).budget(),
            final(self).source() == old(self).source(),
    {
        self.axioms.insert(name, ty);
        proof {
            assert(final(self)@.axioms =~= old(self)@.axioms.insert(name@, ty@));
        }
    }

    /// Records `ty` and `body` as the definition of `name`.
    pub(crate) fn insert_definition(&mut self, name: Name, ty: Term, body: Term)
        requires
            old(self).wf(),
        ensures
            final(self).wf(),
            final(self)@ == (EnvView {
                definitions: old(self)@.definitions.insert(name@, (ty@, body@)),
                ..old(self)@
            }),
            final(self).counter() == old(self).counter(),
            final(self).budget() == old(self).budget(),
            final(self).source() == old(self).source(),
    {
        self.definitions.insert(name, (ty, body));
        proof {
            assert(final(self)@.definitions =~= old(self)@.definitions.insert(
                name@,
                (ty@, body@),
            ));
        }
    }

    /// Records the function `f` and its definition. A function or a
    /// definition of the same name is replaced. The body is not checked.
    pub fn declare_def(&mut self, f: &Function)
        requires
            old(self).wf(),
        ensures
            final(self).wf(),
            final(self)@ == (EnvView {
                functions: old(self)@.functions.insert(f@.name, f@),
                definitions: old(self)@.definitions.insert(f@.name, (f@.ret_ty, f@.body)),
                ..old(self)@
            }),
            final(self).counter() == old(self).counter(),
            final(self).budget() == old(self).budget(),
            final(self).source() == old(self).source(),
    {
        self.functions.insert(f.name.clone(), f.clone());
        self.definitions.insert(f.name.clone(), (f.ret_ty.clone(), f.body.clone()));
        proof {
            assert(final(self)@.functions =~= old(self)@.functions.insert(f@.name, f@));
            assert(final(self)@.definitions =~= old(self)@.definitions.insert(
                f@.name,
                (f@.ret_ty, f@.body),
            ));
        }
    }

    /// Declares the external `e`: an axiom with its declared type. An axiom
    /// of the same name is replaced.
    pub fn declare_extern(&mut self, e: &Extern)
        requires
            old(self).wf(),
        ensures
            final(self).wf(),
            final(self)@ == (EnvView {
                axioms: old(self)@.axioms.insert(e@.name, e@.term),
                ..old(self)@
            }),
            final(self).counter() == old(self).counter(),
            final(self).budget() == old(self).budget(),
            final(self).source() == old(self).source(),
    {
        self.axioms.insert(e.name.clone(), e.term.clone());
        proof {
            assert(final(self)@.axioms =~= old(self)@.axioms.insert(e@.name, e@.term));
        }
    }

    /// Makes a local with the hint `repr` and the type `ty`, under a tag
    /// that no local of this environment has had;
    /// `Fault::LocalsExhausted` where no tag is left.
    pub fn local_with_repr(&mut self, repr: String, ty: Term) -> (r: Result<Name, Error>)
        requires
            old(self).wf(),
        ensures
            final(self).wf(),
            final(self)@ == old(self)@,
            final(self).budget() == old(self).budget(),
            final(self).source() == old(self).source(),
            match r {
                Ok(name) => {
                    &&& old(self).counter() < usize::MAX
                    &&& name matches Name::Local { repr: hint, .. } && hint@ == repr@
                    &&& name@ == (NameView::Local {
                        number: old(self).counter(),
                        ty: Box::new(ty@),
                    })
                    &&& final(self).counter() == old(self).counter() + 1
                },
                Err(e) => {
                    &&& old(self).counter() == usize::MAX
                    &&& e@ == ErrorView::Internal(Fault::LocalsExhausted)
                    &&& final(self).counter() == old(self).counter()
                },
            },
    {
        if self.local_counter == usize::MAX {
            return fail(Fault::LocalsExhausted);
        }
        let new_local = Name::Local { number: self.local_counter, ty: Box::new(ty), repr };
        self.local_counter = self.local_counter + 1;
        Ok(new_local)
    }

    /// Makes a local for the binder whose bound variable is `name`, with the
    /// type `ty`: it takes the hint of `name`. `Fault::NotDeBruijn` where
    /// `name` is no bound variable.
    pub fn local(&mut self, name: &Name, ty: Term) -> (r: Result<Name, Error>)
        requires
            old(self).wf(),
        ensures
            final(self).wf(),
            final(self)@ == old(self)@,
            final(self).budget() == old(self).budget(),
            final(self).source() == old(self).source(),
            match r {
                Ok(local) => {
                    &&& name@ is DeBruijn
                    &&& old(self).counter() < usize::MAX
                    &&& local@ == (NameView::Local {
                        number: old(self).counter(),
                        ty: Box::new(ty@),
                    })
                    &&& final(self).counter() == old(self).counter() + 1
                },
                Err(e) => {
                    &&& final(self).counter() == old(self).counter()
                    &&& if name@ is DeBruijn {
                        old(self).counter() == usize::MAX && e@ == ErrorView::Internal(
                            Fault::LocalsExhausted,
                        )
                    } else {
                        e@ == ErrorView::Internal(Fault::NotDeBruijn)
                    }
                },
            },
    {
        match name {
            Name::DeBruijn { repr, .. } => self.local_with_repr(repr.clone(), ty),
            _ => fail(Fault::NotDeBruijn),
        }
    }

    /// Puts every entry of `other` into this environment, in place of what
    /// was held under the same name. Fails where the two held a name in
    /// maps of the same kind, with one `NameExists` for each such name; the
    /// entries are put in all the same.
    pub fn merge(&mut self, other: TyCtxt) -> (r: Result<(), Error>)
        requires
            old(self).wf(),
            other.wf(),
        ensures
            final(self).wf(),
            final(self)@ == old(self)@.merged(other@),
            final(self).counter() == old(self).counter(),
            final(self).budget() == old(self).budget(),
            final(self).source() == old(self).source(),
            r is Ok <==> forall|k: NameView| !old(self)@.collides(other@, k),
            r matches Err(e) ==> {
                &&& e@ matches ErrorView::Many(errors)
                &&& errors.no_duplicates()
                &&& forall|i: int| 0 <= i < errors.len() ==> (#[trigger] errors[i]) is NameExists
                &&& forall|k: NameView|
                    errors.contains(ErrorView::NameExists(k)) <==> old(self)@.collides(other@, k)
            },
    {
        let ghost mine = self@;
        let ghost theirs = other@;
        let TyCtxt { types, functions, axioms, definitions, .. } = other;
        let mut clashes: Vec<Name> = Vec::new();
        absorb(&mut self.types, types, &mut clashes);
        absorb(&mut self.functions, functions, &mut clashes);
        absorb(&mut self.axioms, axioms, &mut clashes);
        absorb(&mut self.definitions, definitions, &mut clashes);
        proof {
            assert(self@.types =~= mine.types.union_prefer_right(theirs.types));
            assert(self@.functions =~= mine.functions.union_prefer_right(theirs.functions));
            assert(self@.axioms =~= mine.axioms.union_prefer_right(theirs.axioms));
            assert(self@.definitions =~= mine.definitions.union_prefer_right(theirs.definitions));
            assert forall|k: NameView| #[trigger]
                mine.collides(theirs, k) <==> names_view(clashes@).contains(k) by {}
        }
        if clashes.len() != 0 {
            let mut errors: Vec<Error> = Vec::new();
            let mut i: usize = 0;
            while i < clashes.len()
                invariant
                    i <= clashes.len(),
                    errors@.len() == i,
                    forall|j: int|
                        0 <= j < i ==> (#[trigger] errors@[j])@ == ErrorView::NameExists(
                            clashes@[j]@,
                        ),
                decreases clashes.len() - i,
            {
                errors.push(Error::NameExists(clashes[i].clone()));
                i = i + 1;
            }
            proof {
                lemma_many_view(errors);
                let views = errors_view(errors@);
                let names = names_view(clashes@);
                assert forall|a: int, b: int| 0 <= a < views.len() && 0 <= b < views.len() && a
                    != b implies views[a] != views[b] by {
                    assert(names[a] != names[b]);
                }
                assert forall|k: NameView|
                    views.contains(ErrorView::NameExists(k)) <==> names.contains(k) by {
                    if views.contains(ErrorView::NameExists(k)) {
                        let j = choose|j: int|
                            0 <= j < views.len() && views[j] == ErrorView::NameExists(k);
                        assert(names[j] == k);
                    }
                    if names.contains(k) {
                        let j = choose|j: int| 0 <= j < names.len() && names[j] == k;
                        assert(views[j] == ErrorView::NameExists(k));
                    }
                }
                assert(names.contains(names[0]));
                assert(mine.collides(theirs, names[0]));
            }
            Err(Error::Many(errors))
        } else {
            proof {
                assert forall|k: NameView| !mine.collides(theirs, k) by {
                    assert(mine.collides(theirs, k) <==> names_view(clashes@).contains(k));
                }
            }
            Ok(())
        }
    }
}

} // verus!
