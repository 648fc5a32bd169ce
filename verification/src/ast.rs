//! Names and terms of the core language, and the declarations that a module
//! is made of.
//!
//! Every type has a view that forgets where in the source a thing stood and
//! which hint its binders were printed with. Equality, reduction and typing
//! are all stated over views, so none of them can depend on either.

use vstd::prelude::*;

verus! {

/// A range of the source text, kept for diagnostics only.
#[derive(Clone, Copy, Debug, PartialEq, Eq)]
pub struct Span {
    pub lo: usize,
    pub hi: usize,
}

impl Span {
    /// The range from the byte offset `lo` up to the byte offset `hi`.
    pub fn new(lo: usize, hi: usize) -> (s: Span)
        ensures
            s == (Span { lo, hi }),
    {
        Span { lo, hi }
    }

    /// The span of a term that stands nowhere in the source.
    pub fn dummy() -> (s: Span)
        ensures
            s == (Span { lo: 0, hi: 0 }),
    {
        Span { lo: 0, hi: 0 }
    }
}

/// A primitive literal.
#[derive(Clone, Copy, Debug, PartialEq, Eq, Structural)]
pub enum Literal {
    Int(i64),
    Unit,
}

/// The identity of a variable.
#[derive(Debug)]
pub enum Name {
    /// An occurrence of a bound variable: the number of binders between it
    /// and its own, and the hint to print it with.
    DeBruijn { index: usize, span: Span, repr: String },
    /// A free variable made while checking: its tag, hint and type.
    Local { number: usize, repr: String, ty: Box<Term> },
    /// A global, by its path.
    Qual { span: Span, components: Vec<String> },
    /// A placeholder that reduction treats as a constant.
    Meta { number: usize },
}

/// A term of the core language.
#[derive(Debug)]
#[allow(inconsistent_fields)]
pub enum Term {
    Literal { span: Span, lit: Literal },
    Var { name: Name },
    /// A function. `name` is the binder's hint; `body` refers to the bound
    /// variable by the index 0.
    Lambda { span: Span, name: String, ty: Box<Term>, body: Box<Term> },
    /// A dependent function type, with the binder convention of `Lambda`.
    Forall { span: Span, name: String, ty: Box<Term>, term: Box<Term> },
    App { span: Span, fun: Box<Term>, arg: Box<Term> },
    /// A saturated recursor of the datatype named: the premise of the
    /// datatype's constructor `i` is the argument `i + offset`, and the last
    /// argument is the scrutinee.
    Recursor(Name, usize, Vec<Term>),
    Type,
}

/// What a name is, without its span and hint.
pub enum NameView {
    DeBruijn { index: nat },
    Local { number: nat, ty: Box<TermView> },
    Qual { components: Seq<Seq<char>> },
    Meta { number: nat },
}

/// What a term is, without spans and hints.
pub enum TermView {
    Literal { lit: Literal },
    Var { name: NameView },
    Lambda { ty: Box<TermView>, body: Box<TermView> },
    Forall { ty: Box<TermView>, term: Box<TermView> },
    App { fun: Box<TermView>, arg: Box<TermView> },
    Recursor { ty_name: NameView, offset: nat, args: Seq<TermView> },
    Type,
}

/// The path of a qualified name, component by component.
pub open spec fn path_view(components: Seq<String>) -> Seq<Seq<char>> {
    Seq::new(components.len(), |i: int| components[i]@)
}

/// The view of a name.
pub open spec fn name_view(name: Name) -> NameView
    decreases name,
{
    match name {
        Name::DeBruijn { index, .. } => NameView::DeBruijn { index: index as nat },
        Name::Local { number, ty, .. } => NameView::Local {
            number: number as nat,
            ty: Box::new(term_view(*ty)),
        },
        Name::Qual { components, .. } => NameView::Qual { components: path_view(components@) },
        Name::Meta { number } => NameView::Meta { number: number as nat },
    }
}

/// The view of a term.
pub open spec fn term_view(term: Term) -> TermView
    decreases term,
{
    match term {
        Term::Literal { lit, .. } => TermView::Literal { lit },
        Term::Var { name } => TermView::Var { name: name_view(name) },
        Term::Lambda { ty, body, .. } => TermView::Lambda {
            ty: Box::new(term_view(*ty)),
            body: Box::new(term_view(*body)),
        },
        Term::Forall { ty, term, .. } => TermView::Forall {
            ty: Box::new(term_view(*ty)),
            term: Box::new(term_view(*term)),
        },
        Term::App { fun, arg, .. } => TermView::App {
            fun: Box::new(term_view(*fun)),
            arg: Box::new(term_view(*arg)),
        },
        Term::Recursor(ty_name, offset, args) => TermView::Recursor {
            ty_name: name_view(ty_name),
            offset: offset as nat,
            args: Seq::new(
                args@.len(),
                |i: int|
                    if 0 <= i < args@.len() {
                        term_view(args@[i])
                    } else {
                        TermView::Type
                    },
            ),
        },
        Term::Type => TermView::Type,
    }
}

impl View for Name {
    type V = NameView;

    open spec fn view(&self) -> NameView {
        name_view(*self)
    }
}

impl View for Term {
    type V = TermView;

    open spec fn view(&self) -> TermView {
        term_view(*self)
    }
}

/// The views of a sequence of terms.
pub open spec fn terms_view(terms: Seq<Term>) -> Seq<TermView> {
    Seq::new(terms.len(), |i: int| terms[i]@)
}


/// A copy of a path.
fn clone_path(components: &Vec<String>) -> (r: Vec<String>)
    ensures
        path_view(r@) == path_view(components@),
{
    let mut r: Vec<String> = Vec::new();
    let mut i: usize = 0;
    while i < components.len()
        invariant
            i <= components.len(),
            r@.len() == i,
            forall|j: int| 0 <= j < i ==> r@[j]@ == components@[j]@,
        decreases components.len() - i,
    {
        r.push(components[i].clone());
        i = i + 1;
    }
    assert(path_view(r@) =~= path_view(components@));
    r
}

/// Whether two paths have the same components.
fn same_path(a: &Vec<String>, b: &Vec<String>) -> (r: bool)
    ensures
        r == (path_view(a@) == path_view(b@)),
{
    if a.len() != b.len() {
        assert(path_view(a@).len() != path_view(b@).len());
        return false;
    }
    let mut i: usize = 0;
    while i < a.len()
        invariant
            i <= a.len(),
            a.len() == b.len(),
            forall|j: int| 0 <= j < i ==> a@[j]@ == b@[j]@,
        decreases a.len() - i,
    {
        if !(a[i] == b[i]) {
            assert(path_view(a@)[i as int] != path_view(b@)[i as int]);
            return false;
        }
        i = i + 1;
    }
    assert(path_view(a@) =~= path_view(b@));
    true
}

/// Copies of the terms of a vector, in order.
pub fn clone_terms(terms: &Vec<Term>) -> (r: Vec<Term>)
    ensures
        terms_view(r@) == terms_view(terms@),
    decreases terms,
{
    let mut r: Vec<Term> = Vec::new();
    let mut i: usize = 0;
    while i < terms.len()
        invariant
            i <= terms.len(),
            r@.len() == i,
            forall|j: int| 0 <= j < i ==> r@[j]@ == terms@[j]@,
        decreases terms.len() - i,
    {
        r.push(terms[i].clone());
        i = i + 1;
    }
    assert(terms_view(r@) =~= terms_view(terms@));
    r
}

/// Whether two vectors hold equal terms in the same order.
fn same_terms(a: &Vec<Term>, b: &Vec<Term>) -> (r: bool)
    ensures
        r == (terms_view(a@) == terms_view(b@)),
    decreases a,
{
    if a.len() != b.len() {
        assert(terms_view(a@).len() != terms_view(b@).len());
        return false;
    }
    let mut i: usize = 0;
    while i < a.len()
        invariant
            i <= a.len(),
            a.len() == b.len(),
            forall|j: int| 0 <= j < i ==> a@[j]@ == b@[j]@,
        decreases a.len() - i,
    {
        if !a[i].same(&b[i]) {
            assert(terms_view(a@)[i as int] != terms_view(b@)[i as int]);
            return false;
        }
        i = i + 1;
    }
    assert(terms_view(a@) =~= terms_view(b@));
    true
}

/// The arguments in the view of a recursor are the views of its arguments.
pub proof fn lemma_recursor_view(ty_name: Name, offset: usize, args: Vec<Term>)
    ensures
        Term::Recursor(ty_name, offset, args)@ == (TermView::Recursor {
            ty_name: ty_name@,
            offset: offset as nat,
            args: terms_view(args@),
        }),
{
    assert(Term::Recursor(ty_name, offset, args)@->Recursor_args =~= terms_view(args@));
}

impl Clone for Name {
    fn clone(&self) -> (r: Name)
        ensures
            r@ == self@,
        decreases self,
    {
        match self {
            Name::DeBruijn { index, span, repr } => Name::DeBruijn {
                index: *index,
                span: *span,
                repr: repr.clone(),
            },
            Name::Local { number, repr, ty } => Name::Local {
                number: *number,
                repr: repr.clone(),
                ty: Box::new((&**ty).clone()),
            },
            Name::Qual { span, components } => Name::Qual {
                span: *span,
                components: clone_path(components),
            },
            Name::Meta { number } => Name::Meta { number: *number },
        }
    }
}

impl Clone for Term {
    fn clone(&self) -> (r: Term)
        ensures
            r@ == self@,
        decreases self,
    {
        match self {
            Term::Literal { span, lit } => Term::Literal { span: *span, lit: *lit },
            Term::Var { name } => Term::Var { name: name.clone() },
            Term::Lambda { span, name, ty, body } => Term::Lambda {
                span: *span,
                name: name.clone(),
                ty: Box::new((&**ty).clone()),
                body: Box::new((&**body).clone()),
            },
            Term::Forall { span, name, ty, term } => Term::Forall {
                span: *span,
                name: name.clone(),
                ty: Box::new((&**ty).clone()),
                term: Box::new((&**term).clone()),
            },
            Term::App { span, fun, arg } => Term::App {
                span: *span,
                fun: Box::new((&**fun).clone()),
                arg: Box::new((&**arg).clone()),
            },
            Term::Recursor(ty_name, offset, args) => {
                let copies = clone_terms(args);
                let name = ty_name.clone();
                proof {
                    lemma_recursor_view(*ty_name, *offset, *args);
                    lemma_recursor_view(name, *offset, copies);
                }
                Term::Recursor(name, *offset, copies)
            },
            Term::Type => Term::Type,
        }
    }
}

/// The name of the recursor of the datatype `ty_name`: its path with `rec`
/// added. Only a global has one.
pub open spec fn rec_name(ty_name: NameView) -> Option<NameView> {
    match ty_name {
        NameView::Qual { components } => Some(
            NameView::Qual { components: components.push("rec"@) },
        ),
        _ => None,
    }
}

impl Name {
    /// The name of the recursor of the datatype of this name: its path with
    /// `rec` added. Only a global has one.
    pub fn recursor(&self) -> (r: Option<Name>)
        ensures
            match r {
                Some(name) => rec_name(self@) == Some(name@),
                None => rec_name(self@) is None,
            },
    {
        match self {
            Name::Qual { span, components } => {
                let mut path = clone_path(components);
                path.push("rec".to_owned());
                assert(path_view(path@) =~= path_view(components@).push("rec"@));
                Some(Name::Qual { span: *span, components: path })
            },
            _ => None,
        }
    }

    /// The global whose path is the one component `s`.
    pub fn from_str(s: &str) -> (r: Name)
        ensures
            r@ == (NameView::Qual { components: seq![s@] }),
    {
        let mut components: Vec<String> = Vec::new();
        components.push(s.to_owned());
        assert(path_view(components@) =~= seq![s@]);
        Name::Qual { span: Span::dummy(), components }
    }

    /// The global with the path `components`.
    pub fn qualified(components: Vec<String>) -> (r: Name)
        ensures
            r@ == (NameView::Qual { components: path_view(components@) }),
    {
        Name::Qual { span: Span::dummy(), components }
    }

    /// The bound variable with the index `index`, printed as `repr`.
    pub fn de_bruijn(index: usize, repr: String) -> (r: Name)
        ensures
            r@ == (NameView::DeBruijn { index: index as nat }),
    {
        Name::DeBruijn { index, span: Span::dummy(), repr }
    }

    /// The variable of this name, as a term.
    pub fn to_term(&self) -> (r: Term)
        ensures
            r@ == (TermView::Var { name: self@ }),
    {
        Term::Var { name: self.clone() }
    }

    /// Whether two names are equal: globals by their paths, bound variables
    /// by their indices, locals by their tags and types, placeholders by
    /// their numbers. Spans and hints do not count.
    pub fn same(&self, other: &Name) -> (r: bool)
        ensures
            r == (self@ == other@),
        decreases self,
    {
        match (self, other) {
            (Name::DeBruijn { index: i, .. }, Name::DeBruijn { index: j, .. }) => *i == *j,
            (Name::Local { number: a, ty: t, .. }, Name::Local { number: b, ty: u, .. }) => {
                *a == *b && (&**t).same(&**u)
            },
            (Name::Qual { components: a, .. }, Name::Qual { components: b, .. }) => same_path(
                a,
                b,
            ),
            (Name::Meta { number: a }, Name::Meta { number: b }) => *a == *b,
            _ => false,
        }
    }
}

impl Term {
    /// Whether two terms are equal up to spans and binder hints.
    pub fn same(&self, other: &Term) -> (r: bool)
        ensures
            r == (self@ == other@),
        decreases self,
    {
        match (self, other) {
            (Term::Literal { lit: a, .. }, Term::Literal { lit: b, .. }) => *a == *b,
            (Term::Var { name: a }, Term::Var { name: b }) => a.same(b),
            (Term::Lambda { ty: t, body: a, .. }, Term::Lambda { ty: u, body: b, .. }) => {
                (&**t).same(&**u) && (&**a).same(&**b)
            },
            (Term::Forall { ty: t, term: a, .. }, Term::Forall { ty: u, term: b, .. }) => {
                (&**t).same(&**u) && (&**a).same(&**b)
            },
            (Term::App { fun: f, arg: a, .. }, Term::App { fun: g, arg: b, .. }) => {
                (&**f).same(&**g) && (&**a).same(&**b)
            },
            (Term::Recursor(n, i, a), Term::Recursor(m, j, b)) => {
                proof {
                    lemma_recursor_view(*n, *i, *a);
                    lemma_recursor_view(*m, *j, *b);
                }
                n.same(m) && *i == *j && same_terms(a, b)
            },
            (Term::Type, Term::Type) => true,
            _ => false,
        }
    }

    /// The span of the term's root.
    pub open spec fn span(&self) -> Span {
        match self {
            Term::Literal { span, .. } => *span,
            Term::Var { name } => match name {
                Name::DeBruijn { span, .. } => *span,
                Name::Qual { span, .. } => *span,
                _ => Span { lo: 0, hi: 0 },
            },
            Term::Lambda { span, .. } => *span,
            Term::Forall { span, .. } => *span,
            Term::App { span, .. } => *span,
            _ => Span { lo: 0, hi: 0 },
        }
    }

    /// The span that the root of the term carries; that of its name for a
    /// variable, and the dummy span where none is kept.
    pub fn get_span(&self) -> (s: Span)
        ensures
            s == self.span(),
    {
        match self {
            Term::Literal { span, .. } => *span,
            Term::Var { name } => match name {
                Name::DeBruijn { span, .. } => *span,
                Name::Qual { span, .. } => *span,
                _ => Span::dummy(),
            },
            Term::Lambda { span, .. } => *span,
            Term::Forall { span, .. } => *span,
            Term::App { span, .. } => *span,
            _ => Span::dummy(),
        }
    }
}

impl PartialEq for Name {
    fn eq(&self, other: &Name) -> (r: bool) {
        self.same(other)
    }
}

impl vstd::std_specs::cmp::PartialEqSpecImpl for Name {
    open spec fn obeys_eq_spec() -> bool {
        true
    }

    open spec fn eq_spec(&self, other: &Name) -> bool {
        self@ == other@
    }
}

impl PartialEq for Term {
    fn eq(&self, other: &Term) -> (r: bool) {
        self.same(other)
    }
}

impl vstd::std_specs::cmp::PartialEqSpecImpl for Term {
    open spec fn obeys_eq_spec() -> bool {
        true
    }

    open spec fn eq_spec(&self, other: &Term) -> bool {
        self@ == other@
    }
}


/// An inductive datatype: its name, its type, and its constructors with
/// their types, in order.
#[derive(Debug)]
pub struct Data {
    pub span: Span,
    pub name: Name,
    pub ty: Term,
    pub ctors: Vec<(Name, Term)>,
}

/// A function: its name, its declared type and its body.
#[derive(Debug)]
pub struct Function {
    pub span: Span,
    pub name: Name,
    pub ret_ty: Term,
    pub body: Term,
}

/// An external declaration: a name and its declared type.
#[derive(Debug)]
pub struct Extern {
    pub span: Span,
    pub name: Name,
    pub term: Term,
}

/// One declaration of a module.
#[derive(Debug)]
pub enum Item {
    Data(Data),
    Fn(Function),
    Extern(Extern),
}

/// An elaborated module.
#[derive(Debug)]
pub struct Module {
    pub span: Span,
    pub name: Name,
    pub imports: Vec<Name>,
    pub defs: Vec<Item>,
}

/// The text of a source file, kept for diagnostics.
#[derive(Debug)]
pub struct SourceMap {
    pub file_name: String,
    pub source: String,
}

impl SourceMap {
    /// The source map of the file named `file_name` with the text `source`.
    pub fn from_file(file_name: String, source: String) -> (r: SourceMap)
        ensures
            r.file_name@ == file_name@,
            r.source@ == source@,
    {
        SourceMap { file_name, source }
    }
}

/// What a datatype is, without spans and hints.
pub struct DataView {
    pub name: NameView,
    pub ty: TermView,
    pub ctors: Seq<(NameView, TermView)>,
}

/// What a function is, without spans and hints.
pub struct FunctionView {
    pub name: NameView,
    pub ret_ty: TermView,
    pub body: TermView,
}

/// What an external declaration is, without spans and hints.
pub struct ExternView {
    pub name: NameView,
    pub term: TermView,
}

/// What a declaration is, without spans and hints.
pub enum ItemView {
    Data(DataView),
    Fn(FunctionView),
    Extern(ExternView),
}

/// What a module is, without spans and hints.
pub struct ModuleView {
    pub name: NameView,
    pub imports: Seq<NameView>,
    pub defs: Seq<ItemView>,
}

/// The views of a sequence of constructors.
pub open spec fn ctors_view(ctors: Seq<(Name, Term)>) -> Seq<(NameView, TermView)> {
    Seq::new(ctors.len(), |i: int| (ctors[i].0@, ctors[i].1@))
}

impl View for Data {
    type V = DataView;

    open spec fn view(&self) -> DataView {
        DataView { name: self.name@, ty: self.ty@, ctors: ctors_view(self.ctors@) }
    }
}

impl View for Function {
    type V = FunctionView;

    open spec fn view(&self) -> FunctionView {
        FunctionView { name: self.name@, ret_ty: self.ret_ty@, body: self.body@ }
    }
}

impl View for Extern {
    type V = ExternView;

    open spec fn view(&self) -> ExternView {
        ExternView { name: self.name@, term: self.term@ }
    }
}

impl View for Item {
    type V = ItemView;

    open spec fn view(&self) -> ItemView {
        match self {
            Item::Data(d) => ItemView::Data(d@),
            Item::Fn(f) => ItemView::Fn(f@),
            Item::Extern(e) => ItemView::Extern(e@),
        }
    }
}

impl View for Module {
    type V = ModuleView;

    open spec fn view(&self) -> ModuleView {
        ModuleView {
            name: self.name@,
            imports: Seq::new(self.imports@.len(), |i: int| self.imports@[i]@),
            defs: Seq::new(self.defs@.len(), |i: int| self.defs@[i]@),
        }
    }
}

impl Clone for Data {
    fn clone(&self) -> (r: Data)
        ensures
            r@ == self@,
    {
        let mut ctors: Vec<(Name, Term)> = Vec::new();
        let mut i: usize = 0;
        while i < self.ctors.len()
            invariant
                i <= self.ctors.len(),
                ctors@.len() == i,
                forall|j: int|
                    0 <= j < i ==> ctors@[j].0@ == self.ctors@[j].0@ && ctors@[j].1@
                        == self.ctors@[j].1@,
            decreases self.ctors.len() - i,
        {
            ctors.push((self.ctors[i].0.clone(), self.ctors[i].1.clone()));
            i = i + 1;
        }
        assert(ctors_view(ctors@) =~= ctors_view(self.ctors@));
        Data { span: self.span, name: self.name.clone(), ty: self.ty.clone(), ctors }
    }
}

impl Clone for Function {
    fn clone(&self) -> (r: Function)
        ensures
            r@ == self@,
    {
        Function {
            span: self.span,
            name: self.name.clone(),
            ret_ty: self.ret_ty.clone(),
            body: self.body.clone(),
        }
    }
}

} // verus!
