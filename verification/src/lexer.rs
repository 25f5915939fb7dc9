//! Token kinds of the Verse digest syntax and the tag keywords.
use vstd::prelude::*;

verus! {

#[derive(Debug, Clone, Copy, PartialEq, Eq, Structural)]
pub enum TokenKind {
    Module,
    Class,
    Enum,
    Struct,
    Interface,
    Using,
    Var,
    External,
    LBrace,
    RBrace,
    LParen,
    RParen,
    LBracket,
    RBracket,
    Colon,
    Equals,
    Comma,
    Dot,
    Arrow,
    Pipe,
    EqualsEquals,
    LessThan,
    GreaterThan,
    Tag,
    Decorator,
    Path,
    DocComment,
    BlockComment,
    Comment,
    Newline,
    Eof,
    Ident,
    TypeIdent,
}

/// How a token kind is written.
pub open spec fn token_kind_text(k: TokenKind) -> Seq<char> {
    match k {
        TokenKind::Module => "module"@,
        TokenKind::Class => "class"@,
        TokenKind::Enum => "enum"@,
        TokenKind::Struct => "struct"@,
        TokenKind::Interface => "interface"@,
        TokenKind::Using => "using"@,
        TokenKind::Var => "var"@,
        TokenKind::External => "external"@,
        TokenKind::LBrace => "{"@,
        TokenKind::RBrace => "}"@,
        TokenKind::LParen => "("@,
        TokenKind::RParen => ")"@,
        TokenKind::LBracket => "["@,
        TokenKind::RBracket => "]"@,
        TokenKind::Colon => ":"@,
        TokenKind::Equals => "="@,
        TokenKind::Comma => ","@,
        TokenKind::Dot => "."@,
        TokenKind::Arrow => "->"@,
        TokenKind::Pipe => "|"@,
        TokenKind::EqualsEquals => "=="@,
        TokenKind::LessThan => "<"@,
        TokenKind::GreaterThan => ">"@,
        TokenKind::Tag => "tag"@,
        TokenKind::Decorator => "decorator"@,
        TokenKind::Path => "path"@,
        TokenKind::DocComment => "doc_comment"@,
        TokenKind::BlockComment => "block_comment"@,
        TokenKind::Comment => "comment"@,
        TokenKind::Newline => "newline"@,
        TokenKind::Eof => "eof"@,
        TokenKind::Ident => "ident"@,
        TokenKind::TypeIdent => "type_ident"@,
    }
}

impl TokenKind {
    /// How this token kind is written.
    pub fn text(&self) -> (r: &'static str)
        ensures
            r@ == token_kind_text(*self),
    {
        match self {
            TokenKind::Module => "module",
            TokenKind::Class => "class",
            TokenKind::Enum => "enum",
            TokenKind::Struct => "struct",
            TokenKind::Interface => "interface",
            TokenKind::Using => "using",
            TokenKind::Var => "var",
            TokenKind::External => "external",
            TokenKind::LBrace => "{",
            TokenKind::RBrace => "}",
            TokenKind::LParen => "(",
            TokenKind::RParen => ")",
            TokenKind::LBracket => "[",
            TokenKind::RBracket => "]",
            TokenKind::Colon => ":",
            TokenKind::Equals => "=",
            TokenKind::Comma => ",",
            TokenKind::Dot => ".",
            TokenKind::Arrow => "->",
            TokenKind::Pipe => "|",
            TokenKind::EqualsEquals => "==",
            TokenKind::LessThan => "<",
            TokenKind::GreaterThan => ">",
            TokenKind::Tag => "tag",
            TokenKind::Decorator => "decorator",
            TokenKind::Path => "path",
            TokenKind::DocComment => "doc_comment",
            TokenKind::BlockComment => "block_comment",
            TokenKind::Comment => "comment",
            TokenKind::Newline => "newline",
            TokenKind::Eof => "eof",
            TokenKind::Ident => "ident",
            TokenKind::TypeIdent => "type_ident",
        }
    }
}

#[derive(Debug, Clone)]
pub struct Token {
    pub kind: TokenKind,
    pub text: String,
    pub line: u32,
    pub col: u32,
}

impl Token {
    pub fn new(kind: TokenKind, text: String, line: u32, col: u32) -> (r: Self)
        ensures
            r.kind == kind,
            r.text@ == text@,
            r.line == line,
            r.col == col,
    {
        Token { kind, text, line, col }
    }
}

pub open spec fn strs_view(v: Seq<&str>) -> Seq<Seq<char>> {
    Seq::new(v.len(), |i: int| v[i]@)
}

/// Visibility specifiers.
pub open spec fn visibility_tag_words() -> Seq<Seq<char>> {
    seq![
        "public"@,
        "private"@,
        "protected"@,
        "internal"@,
        "epic_internal"@,
    ]
}

/// Visibility specifiers.
pub fn visibility_tags() -> (r: Vec<&'static str>)
    ensures
        strs_view(r@) == visibility_tag_words(),
{
    let r = vec![
        "public",
        "private",
        "protected",
        "internal",
        "epic_internal",
    ];
    assert(strs_view(r@) =~= visibility_tag_words());
    r
}

/// Effect specifiers.
pub open spec fn effect_tag_words() -> Seq<Seq<char>> {
    seq![
        "computes"@,
        "reads"@,
        "writes"@,
        "allocates"@,
        "transacts"@,
        "decides"@,
        "suspends"@,
        "predicts"@,
        "converges"@,
    ]
}

/// Effect specifiers.
pub fn effect_tags() -> (r: Vec<&'static str>)
    ensures
        strs_view(r@) == effect_tag_words(),
{
    let r = vec![
        "computes",
        "reads",
        "writes",
        "allocates",
        "transacts",
        "decides",
        "suspends",
        "predicts",
        "converges",
    ];
    assert(strs_view(r@) =~= effect_tag_words());
    r
}

/// Class and method specifiers.
pub open spec fn specifier_tag_words() -> Seq<Seq<char>> {
    seq![
        "abstract"@,
        "final"@,
        "final_super"@,
        "override"@,
        "native"@,
        "native_callable"@,
        "concrete"@,
        "unique"@,
        "castable"@,
        "persistable"@,
        "final_super_base"@,
    ]
}

/// Class and method specifiers.
pub fn specifier_tags() -> (r: Vec<&'static str>)
    ensures
        strs_view(r@) == specifier_tag_words(),
{
    let r = vec![
        "abstract",
        "final",
        "final_super",
        "override",
        "native",
        "native_callable",
        "concrete",
        "unique",
        "castable",
        "persistable",
        "final_super_base",
    ];
    assert(strs_view(r@) =~= specifier_tag_words());
    r
}

} // verus!
