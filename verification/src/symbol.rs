//! Symbols of the Verse API and their mathematical views.
use vstd::prelude::*;

use crate::text::views;

verus! {

#[derive(Debug, Clone, Copy, PartialEq, Eq, Hash, Structural)]
pub enum Visibility {
    Public,
    Private,
    Protected,
    Internal,
    EpicInternal,
}

#[derive(Debug, Clone, Copy, PartialEq, Eq, Hash, Structural)]
pub enum Tag {
    Public,
    Private,
    Protected,
    Internal,
    EpicInternal,
    Native,
    NativeCallable,
    Computes,
    Reads,
    Writes,
    Allocates,
    Transacts,
    Decides,
    Suspends,
    Predicts,
    Converges,
    Override,
    Final,
    Abstract,
    Concrete,
    Unique,
    Castable,
    Persistable,
    Localizes,
}

#[derive(Debug, Clone, Copy, PartialEq, Eq, Hash, Structural)]
pub enum SymbolKind {
    Module,
    Class,
    Interface,
    Enum,
    Struct,
    Method,
    Field,
    Function,
    TypeAlias,
}

pub open spec fn visibility_text(v: Visibility) -> Seq<char> {
    match v {
        Visibility::Public => "public"@,
        Visibility::Private => "private"@,
        Visibility::Protected => "protected"@,
        Visibility::Internal => "internal"@,
        Visibility::EpicInternal => "epic_internal"@,
    }
}

pub open spec fn tag_text(t: Tag) -> Seq<char> {
    match t {
        Tag::Public => "public"@,
        Tag::Private => "private"@,
        Tag::Protected => "protected"@,
        Tag::Internal => "internal"@,
        Tag::EpicInternal => "epic_internal"@,
        Tag::Native => "native"@,
        Tag::NativeCallable => "native_callable"@,
        Tag::Computes => "computes"@,
        Tag::Reads => "reads"@,
        Tag::Writes => "writes"@,
        Tag::Allocates => "allocates"@,
        Tag::Transacts => "transacts"@,
        Tag::Decides => "decides"@,
        Tag::Suspends => "suspends"@,
        Tag::Predicts => "predicts"@,
        Tag::Converges => "converges"@,
        Tag::Override => "override"@,
        Tag::Final => "final"@,
        Tag::Abstract => "abstract"@,
        Tag::Concrete => "concrete"@,
        Tag::Unique => "unique"@,
        Tag::Castable => "castable"@,
        Tag::Persistable => "persistable"@,
        Tag::Localizes => "localizes"@,
    }
}

pub open spec fn symbol_kind_text(k: SymbolKind) -> Seq<char> {
    match k {
        SymbolKind::Module => "module"@,
        SymbolKind::Class => "class"@,
        SymbolKind::Interface => "interface"@,
        SymbolKind::Enum => "enum"@,
        SymbolKind::Struct => "struct"@,
        SymbolKind::Method => "method"@,
        SymbolKind::Field => "field"@,
        SymbolKind::Function => "function"@,
        SymbolKind::TypeAlias => "type_alias"@,
    }
}

impl Visibility {
    /// The keyword that spells this visibility.
    pub fn text(&self) -> (r: &'static str)
        ensures
            r@ == visibility_text(*self),
    {
        match self {
            Visibility::Public => "public",
            Visibility::Private => "private",
            Visibility::Protected => "protected",
            Visibility::Internal => "internal",
            Visibility::EpicInternal => "epic_internal",
        }
    }
}

impl Tag {
    /// The specifier or effect keyword that spells this tag.
    pub fn text(&self) -> (r: &'static str)
        ensures
            r@ == tag_text(*self),
    {
        match self {
            Tag::Public => "public",
            Tag::Private => "private",
            Tag::Protected => "protected",
            Tag::Internal => "internal",
            Tag::EpicInternal => "epic_internal",
            Tag::Native => "native",
            Tag::NativeCallable => "native_callable",
            Tag::Computes => "computes",
            Tag::Reads => "reads",
            Tag::Writes => "writes",
            Tag::Allocates => "allocates",
            Tag::Transacts => "transacts",
            Tag::Decides => "decides",
            Tag::Suspends => "suspends",
            Tag::Predicts => "predicts",
            Tag::Converges => "converges",
            Tag::Override => "override",
            Tag::Final => "final",
            Tag::Abstract => "abstract",
            Tag::Concrete => "concrete",
            Tag::Unique => "unique",
            Tag::Castable => "castable",
            Tag::Persistable => "persistable",
            Tag::Localizes => "localizes",
        }
    }
}

impl SymbolKind {
    /// The lower-case name of this kind.
    pub fn text(&self) -> (r: &'static str)
        ensures
            r@ == symbol_kind_text(*self),
    {
        match self {
            SymbolKind::Module => "module",
            SymbolKind::Class => "class",
            SymbolKind::Interface => "interface",
            SymbolKind::Enum => "enum",
            SymbolKind::Struct => "struct",
            SymbolKind::Method => "method",
            SymbolKind::Field => "field",
            SymbolKind::Function => "function",
            SymbolKind::TypeAlias => "type_alias",
        }
    }
}

#[derive(Debug, Clone)]
pub struct Param {
    pub name: String,
    pub param_type: String,
    pub default_value: Option<String>,
    pub is_local: bool,
}

#[derive(Debug, Clone)]
pub struct Location {
    pub source: String,
    pub line: u32,
}

#[derive(Debug)]
pub enum SymbolDetail {
    Class {
        specifiers: Vec<String>,
        parents: Vec<String>,
        type_params: Vec<String>,
        members: Vec<Symbol>,
    },
    Method {
        receiver: Option<String>,
        params: Vec<Param>,
        effects: Vec<Tag>,
        return_type: String,
        is_var: bool,
    },
    Field { var_kind: Option<String>, type_expr: String, default_value: Option<String> },
    Module { path: String, usings: Vec<String> },
    Enum { variants: Vec<String> },
    Interface { methods: Vec<Symbol> },
}

#[derive(Debug)]
pub struct Symbol {
    pub name: String,
    pub kind: SymbolKind,
    pub visibility: Visibility,
    pub tags: Vec<Tag>,
    pub doc: Option<String>,
    pub location: Location,
    pub detail: SymbolDetail,
}

/// View of a `Param`.
pub struct ParamV {
    pub name: Seq<char>,
    pub param_type: Seq<char>,
    pub default_value: Option<Seq<char>>,
    pub is_local: bool,
}

/// View of a `Location`.
pub struct LocationV {
    pub source: Seq<char>,
    pub line: u32,
}

/// View of a `SymbolDetail`.
pub enum DetailV {
    Class {
        specifiers: Seq<Seq<char>>,
        parents: Seq<Seq<char>>,
        type_params: Seq<Seq<char>>,
        members: Seq<SymbolV>,
    },
    Method {
        receiver: Option<Seq<char>>,
        params: Seq<ParamV>,
        effects: Seq<Tag>,
        return_type: Seq<char>,
        is_var: bool,
    },
    Field { var_kind: Option<Seq<char>>, type_expr: Seq<char>, default_value: Option<Seq<char>> },
    Module { path: Seq<char>, usings: Seq<Seq<char>> },
    Enum { variants: Seq<Seq<char>> },
    Interface { methods: Seq<SymbolV> },
}

/// View of a `Symbol`.
pub struct SymbolV {
    pub name: Seq<char>,
    pub kind: SymbolKind,
    pub visibility: Visibility,
    pub tags: Seq<Tag>,
    pub doc: Option<Seq<char>>,
    pub location: LocationV,
    pub detail: DetailV,
}

pub open spec fn opt_view(o: Option<String>) -> Option<Seq<char>> {
    match o {
        Some(s) => Some(s@),
        None => None,
    }
}

pub open spec fn param_view(p: Param) -> ParamV {
    ParamV {
        name: p.name@,
        param_type: p.param_type@,
        default_value: opt_view(p.default_value),
        is_local: p.is_local,
    }
}

pub open spec fn params_view(ps: Seq<Param>) -> Seq<ParamV> {
    Seq::new(ps.len(), |i: int| param_view(ps[i]))
}

pub open spec fn symbol_view(s: Symbol) -> SymbolV
    decreases s, 1int,
{
    SymbolV {
        name: s.name@,
        kind: s.kind,
        visibility: s.visibility,
        tags: s.tags@,
        doc: opt_view(s.doc),
        location: LocationV { source: s.location.source@, line: s.location.line },
        detail: detail_view(s.detail),
    }
}

pub open spec fn detail_view(d: SymbolDetail) -> DetailV
    decreases d, 0int,
{
    match d {
        SymbolDetail::Class { specifiers, parents, type_params, members } => DetailV::Class {
            specifiers: views(specifiers@),
            parents: views(parents@),
            type_params: views(type_params@),
            members: symbols_view(members@),
        },
        SymbolDetail::Method { receiver, params, effects, return_type, is_var } =>
            DetailV::Method {
            receiver: opt_view(receiver),
            params: params_view(params@),
            effects: effects@,
            return_type: return_type@,
            is_var,
        },
        SymbolDetail::Field { var_kind, type_expr, default_value } => DetailV::Field {
            var_kind: opt_view(var_kind),
            type_expr: type_expr@,
            default_value: opt_view(default_value),
        },
        SymbolDetail::Module { path, usings } => DetailV::Module {
            path: path@,
            usings: views(usings@),
        },
        SymbolDetail::Enum { variants } => DetailV::Enum { variants: views(variants@) },
        SymbolDetail::Interface { methods } => DetailV::Interface {
            methods: symbols_view(methods@),
        },
    }
}

pub open spec fn symbols_view(s: Seq<Symbol>) -> Seq<SymbolV>
    decreases s, 2int,
{
    if s.len() == 0 {
        Seq::empty()
    } else {
        symbols_view(s.drop_last()).push(symbol_view(s.last()))
    }
}

pub proof fn lemma_symbols_view_len(s: Seq<Symbol>)
    ensures
        symbols_view(s).len() == s.len(),
    decreases s.len(),
{
    if s.len() > 0 {
        lemma_symbols_view_len(s.drop_last());
    }
}

pub proof fn lemma_symbols_view_index(s: Seq<Symbol>, i: int)
    requires
        0 <= i < s.len(),
    ensures
        symbols_view(s).len() == s.len(),
        symbols_view(s)[i] == symbol_view(s[i]),
    decreases s.len(),
{
    lemma_symbols_view_len(s);
    if i < s.len() - 1 {
        lemma_symbols_view_index(s.drop_last(), i);
    }
}

pub proof fn lemma_symbols_view_push(s: Seq<Symbol>, x: Symbol)
    ensures
        symbols_view(s.push(x)) == symbols_view(s).push(symbol_view(x)),
{
    assert(s.push(x).drop_last() =~= s);
}

impl View for Param {
    type V = ParamV;

    open spec fn view(&self) -> ParamV {
        param_view(*self)
    }
}

impl View for Location {
    type V = LocationV;

    open spec fn view(&self) -> LocationV {
        LocationV { source: self.source@, line: self.line }
    }
}

impl View for SymbolDetail {
    type V = DetailV;

    open spec fn view(&self) -> DetailV {
        detail_view(*self)
    }
}

impl View for Symbol {
    type V = SymbolV;

    open spec fn view(&self) -> SymbolV {
        symbol_view(*self)
    }
}

/// An empty list of texts.
pub fn no_strings() -> (r: Vec<String>)
    ensures
        views(r@) == Seq::<Seq<char>>::empty(),
{
    let r: Vec<String> = Vec::new();
    assert(views(r@) =~= Seq::<Seq<char>>::empty());
    r
}

/// An empty list of symbols.
pub fn no_symbols() -> (r: Vec<Symbol>)
    ensures
        symbols_view(r@) == Seq::<SymbolV>::empty(),
{
    Vec::new()
}

/// Copy of an optional text.
pub fn copy_opt(o: &Option<String>) -> (r: Option<String>)
    ensures
        opt_view(r) == opt_view(*o),
{
    match o {
        Some(s) => Some(s.clone()),
        None => None,
    }
}

/// Copy of a list of texts.
pub fn copy_strings(v: &Vec<String>) -> (r: Vec<String>)
    ensures
        views(r@) == views(v@),
{
    let mut r: Vec<String> = Vec::new();
    let mut i: usize = 0;
    while i < v.len()
        invariant
            i <= v.len(),
            r@.len() == i,
            forall|k: int| 0 <= k < i ==> #[trigger] r@[k]@ == v@[k]@,
        decreases v.len() - i,
    {
        r.push(v[i].clone());
        i = i + 1;
    }
    assert(views(r@) =~= views(v@));
    r
}

/// Copy of a list of tags.
pub fn copy_tags(v: &Vec<Tag>) -> (r: Vec<Tag>)
    ensures
        r@ == v@,
{
    let mut r: Vec<Tag> = Vec::new();
    let mut i: usize = 0;
    while i < v.len()
        invariant
            i <= v.len(),
            r@ == v@.take(i as int),
        decreases v.len() - i,
    {
        r.push(v[i]);
        i = i + 1;
        assert(r@ =~= v@.take(i as int));
    }
    assert(v@.take(v@.len() as int) =~= v@);
    r
}

impl Param {
    /// A copy with the same view.
    pub fn copy(&self) -> (r: Param)
        ensures
            r@ == self@,
    {
        Param {
            name: self.name.clone(),
            param_type: self.param_type.clone(),
            default_value: copy_opt(&self.default_value),
            is_local: self.is_local,
        }
    }
}

/// Copy of a list of parameters.
pub fn copy_params(v: &Vec<Param>) -> (r: Vec<Param>)
    ensures
        params_view(r@) == params_view(v@),
{
    let mut r: Vec<Param> = Vec::new();
    let mut i: usize = 0;
    while i < v.len()
        invariant
            i <= v.len(),
            r@.len() == i,
            forall|k: int| 0 <= k < i ==> #[trigger] r@[k]@ == v@[k]@,
        decreases v.len() - i,
    {
        r.push(v[i].copy());
        i = i + 1;
    }
    assert forall|k: int| 0 <= k < r@.len() implies params_view(r@)[k] == params_view(v@)[k] by {
        assert(r@[k]@ == v@[k]@);
    }
    assert(params_view(r@) =~= params_view(v@));
    r
}

impl Location {
    /// A copy with the same view.
    pub fn copy(&self) -> (r: Location)
        ensures
            r@ == self@,
    {
        Location { source: self.source.clone(), line: self.line }
    }
}

impl SymbolDetail {
    /// A copy with the same view.
    pub fn copy(&self) -> (r: SymbolDetail)
        ensures
            r@ == self@,
        decreases self, 0int,
    {
        match self {
            SymbolDetail::Class { specifiers, parents, type_params, members } => {
                SymbolDetail::Class {
                    specifiers: copy_strings(specifiers),
                    parents: copy_strings(parents),
                    type_params: copy_strings(type_params),
                    members: copy_symbols(members),
                }
            },
            SymbolDetail::Method { receiver, params, effects, return_type, is_var } => {
                SymbolDetail::Method {
                    receiver: copy_opt(receiver),
                    params: copy_params(params),
                    effects: copy_tags(effects),
                    return_type: return_type.clone(),
                    is_var: *is_var,
                }
            },
            SymbolDetail::Field { var_kind, type_expr, default_value } => SymbolDetail::Field {
                var_kind: copy_opt(var_kind),
                type_expr: type_expr.clone(),
                default_value: copy_opt(default_value),
            },
            SymbolDetail::Module { path, usings } => SymbolDetail::Module {
                path: path.clone(),
                usings: copy_strings(usings),
            },
            SymbolDetail::Enum { variants } => SymbolDetail::Enum {
                variants: copy_strings(variants),
            },
            SymbolDetail::Interface { methods } => SymbolDetail::Interface {
                methods: copy_symbols(methods),
            },
        }
    }
}

impl Symbol {
    pub fn new(
        name: String,
        kind: SymbolKind,
        visibility: Visibility,
        location: Location,
        detail: SymbolDetail,
    ) -> (r: Self)
        ensures
            r@ == (SymbolV {
                name: name@,
                kind,
                visibility,
                tags: Seq::empty(),
                doc: None,
                location: location@,
                detail: detail@,
            }),
    {
        let r = Symbol { name, kind, visibility, tags: Vec::new(), doc: None, location, detail };
        assert(r@.tags =~= Seq::<Tag>::empty());
        r
    }

    /// A copy with the same view.
    pub fn copy(&self) -> (r: Symbol)
        ensures
            r@ == self@,
        decreases self, 1int,
    {
        Symbol {
            name: self.name.clone(),
            kind: self.kind,
            visibility: self.visibility,
            tags: copy_tags(&self.tags),
            doc: copy_opt(&self.doc),
            location: self.location.copy(),
            detail: self.detail.copy(),
        }
    }
}

impl Clone for SymbolDetail {
    fn clone(&self) -> (r: Self)
        ensures
            r@ == self@,
    {
        self.copy()
    }
}

impl Clone for Symbol {
    fn clone(&self) -> (r: Self)
        ensures
            r@ == self@,
    {
        self.copy()
    }
}

/// Copy of a list of symbols.
pub fn copy_symbols(v: &Vec<Symbol>) -> (r: Vec<Symbol>)
    ensures
        symbols_view(r@) == symbols_view(v@),
    decreases v, 2int,
{
    let mut r: Vec<Symbol> = Vec::new();
    let mut i: usize = 0;
    while i < v.len()
        invariant
            i <= v.len(),
            symbols_view(r@) == symbols_view(v@.take(i as int)),
        decreases v.len() - i,
    {
        let c = v[i].copy();
        proof {
            lemma_symbols_view_push(r@, c);
            assert(v@.take(i + 1) =~= v@.take(i as int).push(v@[i as int]));
            lemma_symbols_view_push(v@.take(i as int), v@[i as int]);
        }
        r.push(c);
        i = i + 1;
    }
    assert(v@.take(v@.len() as int) =~= v@);
    r
}

} // verus!
