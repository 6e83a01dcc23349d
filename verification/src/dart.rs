//! The nodes that a parse yields, and what each of them stands for.
//!
//! Every piece of text in a node is a span of the input. In contracts a span is
//! the sequence of its bytes, and each node type has a view made of such
//! sequences.

use vstd::prelude::*;
use vstd::string::StringSliceAdditionalSpecFns;

verus! {

/// The bytes of each span of a list, in order.
pub open spec fn texts_view(v: Seq<&str>) -> Seq<Seq<u8>> {
    Seq::new(v.len(), |i: int| v[i].spec_bytes())
}

/// A comment, with its delimiters.
#[derive(Debug, Clone, Copy, PartialEq, Eq)]
pub enum Comment<'s> {
    /// From `//` to the end of the line, the line feed included.
    SingleLine(&'s str),
    /// From `/*` to the first `*/`.
    MultiLine(&'s str),
}

/// What a [`Comment`] stands for.
pub ghost enum CommentModel {
    SingleLine(Seq<u8>),
    MultiLine(Seq<u8>),
}

impl<'s> View for Comment<'s> {
    type V = CommentModel;

    open spec fn view(&self) -> CommentModel {
        match self {
            Comment::SingleLine(t) => CommentModel::SingleLine(t.spec_bytes()),
            Comment::MultiLine(t) => CommentModel::MultiLine(t.spec_bytes()),
        }
    }
}

/// The names that a directive lets through or keeps out.
#[derive(Debug, PartialEq, Eq)]
pub enum Filter<'s> {
    Show(Vec<&'s str>),
    Hide(Vec<&'s str>),
}

/// What a [`Filter`] stands for.
pub ghost enum FilterModel {
    Show(Seq<Seq<u8>>),
    Hide(Seq<Seq<u8>>),
}

impl<'s> View for Filter<'s> {
    type V = FilterModel;

    open spec fn view(&self) -> FilterModel {
        match self {
            Filter::Show(names) => FilterModel::Show(texts_view(names@)),
            Filter::Hide(names) => FilterModel::Hide(texts_view(names@)),
        }
    }
}

/// What follows the keyword of an `import` or `export` directive.
pub ghost struct ImportModel {
    /// The quoted URI, without its quotes.
    pub target: Seq<u8>,
    /// The identifier behind `as`.
    pub alias: Option<Seq<u8>>,
    /// The `show` or `hide` list.
    pub filter: Option<FilterModel>,
}

/// The view of an optional span.
pub open spec fn opt_text_view(t: Option<&str>) -> Option<Seq<u8>> {
    match t {
        Some(t) => Some(t.spec_bytes()),
        None => None,
    }
}

/// The view of an optional filter.
pub open spec fn opt_filter_view(f: Option<Filter>) -> Option<FilterModel> {
    match f {
        Some(f) => Some(f@),
        None => None,
    }
}

/// An `import` directive.
#[derive(Debug, PartialEq, Eq)]
pub struct Import<'s> {
    /// The quoted URI, without its quotes.
    pub target: &'s str,
    /// The identifier behind `as`.
    pub alias: Option<&'s str>,
    /// The `show` or `hide` list.
    pub filter: Option<Filter<'s>>,
}

impl<'s> View for Import<'s> {
    type V = ImportModel;

    open spec fn view(&self) -> ImportModel {
        ImportModel {
            target: self.target.spec_bytes(),
            alias: opt_text_view(self.alias),
            filter: opt_filter_view(self.filter),
        }
    }
}

impl<'s> Import<'s> {
    /// The import of `target`, with no alias and no filter.
    pub fn target(target: &'s str) -> (r: Self)
        ensures
            r@ == (ImportModel { target: target.spec_bytes(), alias: None, filter: None }),
    {
        Import { target, alias: None, filter: None }
    }

    /// The import of `target` under the name `alias`, with no filter.
    pub fn target_as(target: &'s str, alias: &'s str) -> (r: Self)
        ensures
            r@ == (ImportModel {
                target: target.spec_bytes(),
                alias: Some(alias.spec_bytes()),
                filter: None,
            }),
    {
        Import { target, alias: Some(alias), filter: None }
    }
}

/// An `export` directive.
#[derive(Debug, PartialEq, Eq)]
pub struct Export<'s> {
    /// The quoted URI, without its quotes.
    pub target: &'s str,
    /// The identifier behind `as`.
    pub alias: Option<&'s str>,
    /// The `show` or `hide` list.
    pub filter: Option<Filter<'s>>,
}

impl<'s> View for Export<'s> {
    type V = ImportModel;

    open spec fn view(&self) -> ImportModel {
        ImportModel {
            target: self.target.spec_bytes(),
            alias: opt_text_view(self.alias),
            filter: opt_filter_view(self.filter),
        }
    }
}

/// A directive at the head of a source unit.
#[derive(Debug, PartialEq, Eq)]
pub enum Directive<'s> {
    Import(Import<'s>),
    Export(Export<'s>),
    /// `part`, with the quoted path of the part, without its quotes.
    Part(&'s str),
}

/// What a [`Directive`] stands for.
pub ghost enum DirectiveModel {
    Import(ImportModel),
    Export(ImportModel),
    Part(Seq<u8>),
}

impl<'s> View for Directive<'s> {
    type V = DirectiveModel;

    open spec fn view(&self) -> DirectiveModel {
        match self {
            Directive::Import(i) => DirectiveModel::Import(i@),
            Directive::Export(e) => DirectiveModel::Export(e@),
            Directive::Part(t) => DirectiveModel::Part(t.spec_bytes()),
        }
    }
}

/// A reference to a type: a name, its type arguments and a nullability mark.
#[derive(Debug, PartialEq, Eq)]
pub struct IdentifierExt<'s> {
    /// The name, dots included where it is qualified.
    pub name: &'s str,
    /// The arguments between `<` and `>`, in source order.
    pub type_args: Vec<IdentifierExt<'s>>,
    /// Whether a `?` follows the name or its closing `>`.
    pub is_nullable: bool,
}

/// What an [`IdentifierExt`] stands for.
pub ghost struct TypeModel {
    pub name: Seq<u8>,
    pub type_args: Seq<TypeModel>,
    pub is_nullable: bool,
}

/// The view of each type reference of a list, in order.
pub open spec fn types_view(v: Seq<IdentifierExt>) -> Seq<TypeModel> {
    Seq::new(v.len(), |i: int| v[i]@)
}

/// The view of an optional type reference.
pub open spec fn opt_type_view(t: Option<IdentifierExt>) -> Option<TypeModel> {
    match t {
        Some(t) => Some(t@),
        None => None,
    }
}

impl<'s> View for IdentifierExt<'s> {
    type V = TypeModel;

    open spec fn view(&self) -> TypeModel {
        self.model()
    }
}

impl<'s> IdentifierExt<'s> {
    /// The name, the views of the arguments and the nullability mark.
    pub open spec fn model(&self) -> TypeModel
        decreases self,
    {
        TypeModel {
            name: self.name.spec_bytes(),
            type_args: Seq::new(
                self.type_args@.len(),
                |i: int|
                    if 0 <= i < self.type_args@.len() {
                        self.type_args@[i].model()
                    } else {
                        arbitrary()
                    },
            ),
            is_nullable: self.is_nullable,
        }
    }

    /// The arguments of a type reference are the views of its arguments.
    pub proof fn lemma_view(&self)
        ensures
            self@.name == self.name.spec_bytes(),
            self@.type_args == types_view(self.type_args@),
            self@.is_nullable == self.is_nullable,
    {
        assert(self@.type_args =~= types_view(self.type_args@));
    }

    /// The plain type `name`: no arguments, not nullable.
    pub fn name(name: &'s str) -> (r: Self)
        ensures
            r@ == (TypeModel {
                name: name.spec_bytes(),
                type_args: Seq::empty(),
                is_nullable: false,
            }),
    {
        let r = IdentifierExt { name, type_args: Vec::new(), is_nullable: false };
        assert(r@.type_args =~= Seq::empty());
        r
    }
}

/// A modifier of a variable declaration.
#[derive(Debug, Clone, Copy, PartialEq, Eq, Hash)]
pub enum VarModifier {
    Const,
    Final,
    Late,
    Static,
}

/// The modifiers of a variable declaration: a set, so neither the order in which
/// they were written nor a repetition is kept.
#[derive(Debug, Clone, Copy, PartialEq, Eq, Hash)]
pub struct VarModifierSet {
    pub has_const: bool,
    pub has_final: bool,
    pub has_late: bool,
    pub has_static: bool,
}

impl View for VarModifierSet {
    type V = Set<VarModifier>;

    open spec fn view(&self) -> Set<VarModifier> {
        Set::new(|m: VarModifier| self.has(m))
    }
}

impl VarModifierSet {
    /// Whether `m` is in the set.
    pub open spec fn has(&self, m: VarModifier) -> bool {
        match m {
            VarModifier::Const => self.has_const,
            VarModifier::Final => self.has_final,
            VarModifier::Late => self.has_late,
            VarModifier::Static => self.has_static,
        }
    }

    /// The empty set.
    pub fn new() -> (r: Self)
        ensures
            r@ == Set::<VarModifier>::empty(),
    {
        let r = VarModifierSet {
            has_const: false,
            has_final: false,
            has_late: false,
            has_static: false,
        };
        assert(r@ =~= Set::<VarModifier>::empty());
        r
    }

    /// Puts `m` into the set; where it is there already, the set stays as it is.
    pub fn insert(&mut self, m: VarModifier)
        ensures
            final(self)@ == old(self)@.insert(m),
    {
        match m {
            VarModifier::Const => {
                self.has_const = true;
            },
            VarModifier::Final => {
                self.has_final = true;
            },
            VarModifier::Late => {
                self.has_late = true;
            },
            VarModifier::Static => {
                self.has_static = true;
            },
        }
        assert(self@ =~= old(self)@.insert(m));
    }

    /// Tests whether `m` is in the set.
    pub fn contains(&self, m: VarModifier) -> (r: bool)
        ensures
            r == self@.contains(m),
    {
        match m {
            VarModifier::Const => self.has_const,
            VarModifier::Final => self.has_final,
            VarModifier::Late => self.has_late,
            VarModifier::Static => self.has_static,
        }
    }

    /// Tests whether the set holds no modifier.
    pub fn is_empty(&self) -> (r: bool)
        ensures
            r == (self@ == Set::<VarModifier>::empty()),
    {
        let r = !(self.has_const || self.has_final || self.has_late || self.has_static);
        proof {
            if r {
                assert(self@ =~= Set::<VarModifier>::empty());
            } else {
                assert(self@.contains(VarModifier::Const) || self@.contains(VarModifier::Final)
                    || self@.contains(VarModifier::Late) || self@.contains(VarModifier::Static));
            }
        }
        r
    }

    /// The set of the modifiers listed in `items`.
    pub fn from_iter<const N: usize>(items: [VarModifier; N]) -> (r: Self)
        ensures
            r@ == items@.to_set(),
    {
        let mut r = VarModifierSet::new();
        let mut i: usize = 0;
        while i < N
            invariant
                i <= N,
                items@.len() == N,
                r@ == items@.subrange(0, i as int).to_set(),
            decreases N - i,
        {
            r.insert(items[i]);
            proof {
                let after = items@.subrange(0, i + 1);
                assert(after.drop_last() =~= items@.subrange(0, i as int));
                assert(after.last() == items@[i as int]);
                assert(after.drop_last().to_set().insert(after.last()) =~= after.to_set());
            }
            i += 1;
        }
        assert(items@.subrange(0, N as int) =~= items@);
        r
    }
}

/// A modifier of a class declaration. The introducing keywords `class` and
/// `mixin` count as modifiers too.
#[derive(Debug, Clone, Copy, PartialEq, Eq, Hash)]
pub enum ClassModifier {
    Abstract,
    Class,
    Mixin,
    Interface,
    Sealed,
    Base,
    Final,
}

/// The modifiers of a class declaration: a set, so neither the order in which
/// they were written nor a repetition is kept.
#[derive(Debug, Clone, Copy, PartialEq, Eq, Hash)]
pub struct ClassModifierSet {
    pub has_abstract: bool,
    pub has_class: bool,
    pub has_mixin: bool,
    pub has_interface: bool,
    pub has_sealed: bool,
    pub has_base: bool,
    pub has_final: bool,
}

impl View for ClassModifierSet {
    type V = Set<ClassModifier>;

    open spec fn view(&self) -> Set<ClassModifier> {
        Set::new(|m: ClassModifier| self.has(m))
    }
}

impl ClassModifierSet {
    /// Whether `m` is in the set.
    pub open spec fn has(&self, m: ClassModifier) -> bool {
        match m {
            ClassModifier::Abstract => self.has_abstract,
            ClassModifier::Class => self.has_class,
            ClassModifier::Mixin => self.has_mixin,
            ClassModifier::Interface => self.has_interface,
            ClassModifier::Sealed => self.has_sealed,
            ClassModifier::Base => self.has_base,
            ClassModifier::Final => self.has_final,
        }
    }

    /// The empty set.
    pub fn new() -> (r: Self)
        ensures
            r@ == Set::<ClassModifier>::empty(),
    {
        let r = ClassModifierSet {
            has_abstract: false,
            has_class: false,
            has_mixin: false,
            has_interface: false,
            has_sealed: false,
            has_base: false,
            has_final: false,
        };
        assert(r@ =~= Set::<ClassModifier>::empty());
        r
    }

    /// Puts `m` into the set; where it is there already, the set stays as it is.
    pub fn insert(&mut self, m: ClassModifier)
        ensures
            final(self)@ == old(self)@.insert(m),
    {
        match m {
            ClassModifier::Abstract => {
                self.has_abstract = true;
            },
            ClassModifier::Class => {
                self.has_class = true;
            },
            ClassModifier::Mixin => {
                self.has_mixin = true;
            },
            ClassModifier::Interface => {
                self.has_interface = true;
            },
            ClassModifier::Sealed => {
                self.has_sealed = true;
            },
            ClassModifier::Base => {
                self.has_base = true;
            },
            ClassModifier::Final => {
                self.has_final = true;
            },
        }
        assert(self@ =~= old(self)@.insert(m));
    }

    /// Tests whether `m` is in the set.
    pub fn contains(&self, m: ClassModifier) -> (r: bool)
        ensures
            r == self@.contains(m),
    {
        match m {
            ClassModifier::Abstract => self.has_abstract,
            ClassModifier::Class => self.has_class,
            ClassModifier::Mixin => self.has_mixin,
            ClassModifier::Interface => self.has_interface,
            ClassModifier::Sealed => self.has_sealed,
            ClassModifier::Base => self.has_base,
            ClassModifier::Final => self.has_final,
        }
    }

    /// The set of the modifiers listed in `items`.
    pub fn from_iter<const N: usize>(items: [ClassModifier; N]) -> (r: Self)
        ensures
            r@ == items@.to_set(),
    {
        let mut r = ClassModifierSet::new();
        let mut i: usize = 0;
        while i < N
            invariant
                i <= N,
                items@.len() == N,
                r@ == items@.subrange(0, i as int).to_set(),
            decreases N - i,
        {
            r.insert(items[i]);
            proof {
                let after = items@.subrange(0, i + 1);
                assert(after.drop_last() =~= items@.subrange(0, i as int));
                assert(after.last() == items@[i as int]);
                assert(after.drop_last().to_set().insert(after.last()) =~= after.to_set());
            }
            i += 1;
        }
        assert(items@.subrange(0, N as int) =~= items@);
        r
    }
}

/// A top-level variable declaration.
#[derive(Debug, PartialEq, Eq)]
pub struct Var<'s> {
    pub modifiers: VarModifierSet,
    /// The declared type; `None` where the type is left to inference.
    pub var_type: Option<IdentifierExt<'s>>,
    pub name: &'s str,
    /// The text of the expression behind `=`, as it was written.
    pub initializer: Option<&'s str>,
}

/// What a [`Var`] stands for.
pub ghost struct VarModel {
    pub modifiers: Set<VarModifier>,
    pub var_type: Option<TypeModel>,
    pub name: Seq<u8>,
    pub initializer: Option<Seq<u8>>,
}

impl<'s> View for Var<'s> {
    type V = VarModel;

    open spec fn view(&self) -> VarModel {
        VarModel {
            modifiers: self.modifiers@,
            var_type: opt_type_view(self.var_type),
            name: self.name.spec_bytes(),
            initializer: opt_text_view(self.initializer),
        }
    }
}

/// A class declaration.
#[derive(Debug, PartialEq, Eq)]
pub struct Class<'s> {
    pub modifiers: ClassModifierSet,
    pub name: &'s str,
    /// The type behind `extends`.
    pub extends: Option<IdentifierExt<'s>>,
    /// The types behind `implements`, in source order.
    pub implements: Vec<IdentifierExt<'s>>,
    /// The body as it was written, from its `{` to the matching `}`.
    pub body: &'s str,
}

/// What a [`Class`] stands for.
pub ghost struct ClassModel {
    pub modifiers: Set<ClassModifier>,
    pub name: Seq<u8>,
    pub extends: Option<TypeModel>,
    pub implements: Seq<TypeModel>,
    pub body: Seq<u8>,
}

impl<'s> View for Class<'s> {
    type V = ClassModel;

    open spec fn view(&self) -> ClassModel {
        ClassModel {
            modifiers: self.modifiers@,
            name: self.name.spec_bytes(),
            extends: opt_type_view(self.extends),
            implements: types_view(self.implements@),
            body: self.body.spec_bytes(),
        }
    }
}

/// One node of a parsed source unit.
#[derive(Debug, PartialEq, Eq)]
pub enum Dart<'s> {
    /// Text that is kept as it is: a run of whitespace, or a run of text that
    /// begins no construct of the grammar.
    Verbatim(&'s str),
    Comment(Comment<'s>),
    Directive(Directive<'s>),
    Var(Var<'s>),
    /// A function declaration, kept as text.
    Func(&'s str),
    Class(Class<'s>),
}

/// What a [`Dart`] node stands for.
pub ghost enum NodeModel {
    Verbatim(Seq<u8>),
    Comment(CommentModel),
    Directive(DirectiveModel),
    Var(VarModel),
    Func(Seq<u8>),
    Class(ClassModel),
}

impl<'s> View for Dart<'s> {
    type V = NodeModel;

    open spec fn view(&self) -> NodeModel {
        match self {
            Dart::Verbatim(t) => NodeModel::Verbatim(t.spec_bytes()),
            Dart::Comment(c) => NodeModel::Comment(c@),
            Dart::Directive(d) => NodeModel::Directive(d@),
            Dart::Var(v) => NodeModel::Var(v@),
            Dart::Func(t) => NodeModel::Func(t.spec_bytes()),
            Dart::Class(c) => NodeModel::Class(c@),
        }
    }
}

/// The view of each node of a list, in order.
pub open spec fn nodes_view(v: Seq<Dart>) -> Seq<NodeModel> {
    Seq::new(v.len(), |i: int| v[i]@)
}

/// Why a parse failed, with the byte offset at which it did.
#[derive(Debug, Clone, Copy, PartialEq, Eq)]
pub enum ParseError {
    /// A directive, a variable declaration or a class declaration begins at
    /// `offset` with its keyword, and what follows does not complete it.
    Syntax { offset: usize },
    /// The position `offset` yields no node at all. A parse of a text never ends
    /// so: where no construct begins, the text is kept verbatim.
    Unconsumed { offset: usize },
}

impl ParseError {
    /// The byte offset at which the parse failed.
    pub fn offset(&self) -> (r: usize)
        ensures
            r == match *self {
                ParseError::Syntax { offset } => offset,
                ParseError::Unconsumed { offset } => offset,
            },
    {
        match *self {
            ParseError::Syntax { offset } => offset,
            ParseError::Unconsumed { offset } => offset,
        }
    }
}

} // verus!
