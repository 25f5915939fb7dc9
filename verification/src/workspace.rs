//! Symbols declared in an open document: variables, classes, struct,
//! interface, enum and type declarations, functions and extension methods,
//! each recognised on a line of its own.
use vstd::prelude::*;

use crate::symbol::{
    DetailV, Location, LocationV, Param, Symbol, SymbolDetail, SymbolKind, SymbolV, Tag, Visibility,
};
use crate::text::{
    back_ident, chars_of, find_char, find_char_from, ident_at, ident_back, ident_char, ident_end,
    ident_start, is_ident_char, lemma_lines_from_len, lines, occurs_at, occurs_at_exec, skip_ident,
    skip_ws, slice_chars, split_lines, starts_with, starts_with_exec, string_of, string_of_all,
    to_string, trim, trimmed, ws_end,
};

verus! {

#[derive(Debug, Clone)]
pub struct WorkspaceSymbol {
    pub name: String,
    pub kind: SymbolKind,
    pub location: Location,
    pub detail: SymbolDetail,
}

/// View of a `WorkspaceSymbol`.
pub struct WorkspaceSymbolV {
    pub name: Seq<char>,
    pub kind: SymbolKind,
    pub location: LocationV,
    pub detail: DetailV,
}

impl View for WorkspaceSymbol {
    type V = WorkspaceSymbolV;

    open spec fn view(&self) -> WorkspaceSymbolV {
        WorkspaceSymbolV {
            name: self.name@,
            kind: self.kind,
            location: self.location@,
            detail: self.detail@,
        }
    }
}

pub open spec fn ws_symbols_view(v: Seq<WorkspaceSymbol>) -> Seq<WorkspaceSymbolV> {
    Seq::new(v.len(), |i: int| v[i]@)
}

/// A field with no declared type, default or `var`.
pub open spec fn plain_field() -> DetailV {
    DetailV::Field { var_kind: None, type_expr: Seq::empty(), default_value: None }
}

/// The location of a document line.
pub open spec fn workspace_location(line: u32) -> LocationV {
    LocationV { source: "workspace"@, line }
}

/// The parser symbol for a workspace symbol: public, without tags or
/// documentation.
pub open spec fn parser_symbol(w: WorkspaceSymbolV) -> SymbolV {
    SymbolV {
        name: w.name,
        kind: w.kind,
        visibility: Visibility::Public,
        tags: Seq::empty(),
        doc: None,
        location: w.location,
        detail: w.detail,
    }
}

impl WorkspaceSymbol {
    /// A symbol of the document with no details.
    pub fn new(name: String, kind: SymbolKind, line: u32) -> (r: Self)
        ensures
            r@ == (WorkspaceSymbolV {
                name: name@,
                kind,
                location: workspace_location(line),
                detail: plain_field(),
            }),
    {
        WorkspaceSymbol {
            name,
            kind,
            location: Location { source: to_string("workspace"), line },
            detail: SymbolDetail::Field {
                var_kind: None,
                type_expr: String::new(),
                default_value: None,
            },
        }
    }

    /// This symbol as a public parser symbol, without tags or documentation.
    pub fn to_parser_symbol(&self) -> (r: Symbol)
        ensures
            r@ == parser_symbol(self@),
    {
        Symbol::new(
            self.name.clone(),
            self.kind,
            Visibility::Public,
            self.location.copy(),
            self.detail.copy(),
        )
    }
}

/// `<[^>]+>\s+` at `i`: the position after it.
pub open spec fn group_then_ws(s: Seq<char>, i: int) -> Option<int> {
    if 0 <= i < s.len() && s[i] == '<' {
        let q = find_char(s, i + 1, '>');
        if i + 1 < q < s.len() && ws_end(s, q + 1) > q + 1 {
            Some(ws_end(s, q + 1))
        } else {
            None
        }
    } else {
        None
    }
}

/// `^\s*kw\s+(<[^>]+>\s+)?` then an identifier: the identifier's span.
pub open spec fn keyword_name(s: Seq<char>, kw: Seq<char>) -> Option<(int, int)> {
    let p0 = ws_end(s, 0);
    let p1 = ws_end(s, p0 + kw.len());
    if !occurs_at(s, p0, kw) || p1 == p0 + kw.len() {
        None
    } else {
        let p2 = if p1 < s.len() && s[p1] == '<' {
            match group_then_ws(s, p1) {
                Some(x) => x,
                None => -1,
            }
        } else {
            p1
        };
        if ident_at(s, p2) {
            Some((p2, ident_end(s, p2)))
        } else {
            None
        }
    }
}

/// A variable declaration `var<spec> Name : Type = Default`, read as the
/// whole-line pattern
/// `^\s*var\s+(<[^>]+>\s+)?NAME\s*:\s*([^=]+)(?:\s*=\s*(.+))?$`:
/// the name's span, where the type starts and where the first `=` after it is.
pub open spec fn var_decl(s: Seq<char>) -> Option<(int, int, int, int)> {
    match keyword_name(s, "var"@) {
        Some((a, b)) => {
            let w = ws_end(s, b);
            if w < s.len() && s[w] == ':' {
                let c = w + 1;
                let e = find_char(s, c, '=');
                if e > c && (e == s.len() || e + 1 < s.len()) {
                    Some((a, b, c, e))
                } else {
                    None
                }
            } else {
                None
            }
        },
        None => None,
    }
}

/// Whitespace, an optional `:`, whitespace, then the end of the line.
pub open spec fn colon_tail(s: Seq<char>, x: int) -> bool {
    let y = ws_end(s, x);
    let z = if y < s.len() && s[y] == ':' {
        y + 1
    } else {
        y
    };
    ws_end(s, z) == s.len()
}

/// A class header, read as the whole-line pattern
/// `^\s*class\s+(<[^>]+>\s+)?NAME\s*(\([^)]*\))?\s*:?\s*$`: the name's span.
pub open spec fn class_decl(s: Seq<char>) -> Option<(int, int)> {
    match keyword_name(s, "class"@) {
        Some((a, b)) => {
            let w = ws_end(s, b);
            let x = if w < s.len() && s[w] == '(' {
                let q = find_char(s, w + 1, ')');
                if q < s.len() {
                    q + 1
                } else {
                    -1
                }
            } else {
                w
            };
            if x >= 0 && colon_tail(s, x) {
                Some((a, b))
            } else {
                None
            }
        },
        None => None,
    }
}

/// Position after an optional `<...>` group at `n` (-1 when it is not closed).
pub open spec fn after_angle(s: Seq<char>, n: int) -> int {
    if 0 <= n < s.len() && s[n] == '<' {
        let q = find_char(s, n + 1, '>');
        if q < s.len() {
            q + 1
        } else {
            -1
        }
    } else {
        n
    }
}

/// The keyword `kw` at `v`, not followed by an identifier character.
pub open spec fn keyword_at(s: Seq<char>, v: int, kw: Seq<char>) -> bool {
    occurs_at(s, v, kw) && (v + kw.len() == s.len() || !is_ident_char(s[v + kw.len()]))
}

/// A type definition `Name<spec> := struct`, `interface`, `enum` or
/// `type`: the name's span, the kind and where the keyword ends.
pub open spec fn type_def(s: Seq<char>) -> Option<(int, int, SymbolKind, int)> {
    let p = ws_end(s, 0);
    if !ident_at(s, p) {
        None
    } else {
        let n = ident_end(s, p);
        let m = after_angle(s, n);
        let w = ws_end(s, m);
        if m < 0 || !occurs_at(s, w, ":="@) {
            None
        } else {
            let v = ws_end(s, w + 2);
            if keyword_at(s, v, "struct"@) {
                Some((p, n, SymbolKind::Struct, v + 6))
            } else if keyword_at(s, v, "interface"@) {
                Some((p, n, SymbolKind::Interface, v + 9))
            } else if keyword_at(s, v, "enum"@) {
                Some((p, n, SymbolKind::Enum, v + 4))
            } else if keyword_at(s, v, "type"@) {
                Some((p, n, SymbolKind::TypeAlias, v + 4))
            } else {
                None
            }
        }
    }
}

/// An indented function definition `Name<spec>(params)<effects>:Return`:
/// the name's span and the span of the return type (up to a `=`).
pub open spec fn function_decl(s: Seq<char>) -> Option<(int, int, int, int)> {
    let p = ws_end(s, 0);
    if p == 0 || !ident_at(s, p) {
        None
    } else {
        let n = ident_end(s, p);
        let m = after_angle(s, n);
        if m < 0 || m >= s.len() || s[m] != '(' {
            None
        } else {
            let c = find_char(s, m + 1, ')');
            let y = after_angle(s, c + 1);
            if c >= s.len() || y < 0 {
                None
            } else {
                let z = ws_end(s, y);
                if z < s.len() && s[z] == ':' {
                    Some((p, n, z + 1, find_char(s, z + 1, '=')))
                } else {
                    None
                }
            }
        }
    }
}

/// An extension method `(Receiver).Name(...)`, read as the pattern
/// `^\s*\(([^)]+)\)\.NAME\s*\([^)]*\)`: the spans of receiver and name.
pub open spec fn ext_decl(s: Seq<char>) -> Option<(int, int, int, int)> {
    let p = ws_end(s, 0);
    if !(p < s.len() && s[p] == '(') {
        None
    } else {
        let r = find_char(s, p + 1, ')');
        if r <= p + 1 || r >= s.len() || r + 1 >= s.len() || s[r + 1] != '.' || !ident_at(s, r + 2) {
            None
        } else {
            let n = ident_end(s, r + 2);
            let w = ws_end(s, n);
            if w < s.len() && s[w] == '(' && find_char(s, w + 1, ')') < s.len() {
                Some((p + 1, r, r + 2, n))
            } else {
                None
            }
        }
    }
}

/// The symbol a type definition declares.
pub open spec fn type_def_detail(s: Seq<char>, kind: SymbolKind, k: int) -> DetailV {
    match kind {
        SymbolKind::Interface => DetailV::Interface { methods: Seq::empty() },
        SymbolKind::Enum => DetailV::Enum { variants: Seq::empty() },
        SymbolKind::TypeAlias => DetailV::Field {
            var_kind: None,
            type_expr: trim(s.subrange(k, s.len() as int)),
            default_value: None,
        },
        _ => DetailV::Class {
            specifiers: Seq::empty(),
            parents: Seq::empty(),
            type_params: Seq::empty(),
            members: Seq::empty(),
        },
    }
}

/// The symbol declared on line `s` (numbered `num`), if any: a variable,
/// a class, a type definition, a function or an extension method, tried in
/// that order; blank lines and `#` or `//` comments declare nothing.
pub open spec fn line_symbol(s: Seq<char>, num: u32) -> Option<WorkspaceSymbolV> {
    let t = trim(s);
    if t.len() == 0 || starts_with(t, "#"@) || starts_with(t, "//"@) {
        None
    } else if let Some((a, b, c, e)) = var_decl(s) {
        Some(
            WorkspaceSymbolV {
                name: s.subrange(a, b),
                kind: SymbolKind::Field,
                location: workspace_location(num),
                detail: DetailV::Field {
                    var_kind: Some("var"@),
                    type_expr: trim(s.subrange(c, e)),
                    default_value: if e < s.len() {
                        Some(trim(s.subrange(e + 1, s.len() as int)))
                    } else {
                        None
                    },
                },
            },
        )
    } else if let Some((a, b)) = class_decl(s) {
        Some(
            WorkspaceSymbolV {
                name: s.subrange(a, b),
                kind: SymbolKind::Class,
                location: workspace_location(num),
                detail: DetailV::Class {
                    specifiers: Seq::empty(),
                    parents: Seq::empty(),
                    type_params: Seq::empty(),
                    members: Seq::empty(),
                },
            },
        )
    } else if let Some((a, b, kind, k)) = type_def(s) {
        Some(
            WorkspaceSymbolV {
                name: s.subrange(a, b),
                kind,
                location: workspace_location(num),
                detail: type_def_detail(s, kind, k),
            },
        )
    } else if let Some((a, b, x, y)) = function_decl(s) {
        Some(
            WorkspaceSymbolV {
                name: s.subrange(a, b),
                kind: SymbolKind::Function,
                location: workspace_location(num),
                detail: DetailV::Method {
                    receiver: None,
                    params: Seq::empty(),
                    effects: Seq::empty(),
                    return_type: trim(s.subrange(x, y)),
                    is_var: false,
                },
            },
        )
    } else if let Some((ra, rb, a, b)) = ext_decl(s) {
        Some(
            WorkspaceSymbolV {
                name: s.subrange(a, b),
                kind: SymbolKind::Method,
                location: workspace_location(num),
                detail: DetailV::Method {
                    receiver: Some(s.subrange(ra, rb)),
                    params: Seq::empty(),
                    effects: Seq::empty(),
                    return_type: Seq::empty(),
                    is_var: false,
                },
            },
        )
    } else {
        None
    }
}

/// Symbols of the first `k` lines; lines are numbered from 1.
pub open spec fn symbols_of_lines(ls: Seq<Seq<char>>, k: int) -> Seq<WorkspaceSymbolV>
    decreases k,
{
    if k <= 0 {
        Seq::empty()
    } else {
        let rest = symbols_of_lines(ls, k - 1);
        match line_symbol(ls[k - 1], k as u32) {
            Some(w) => rest.push(w),
            None => rest,
        }
    }
}

/// Symbols declared in `text`, in line order.
pub open spec fn workspace_symbols(text: Seq<char>) -> Seq<WorkspaceSymbolV> {
    symbols_of_lines(lines(text), lines(text).len() as int)
}

proof fn lemma_ident_span(s: Seq<char>, a: int)
    requires
        ident_at(s, a),
    ensures
        a < ident_end(s, a) <= s.len(),
        s.subrange(a, ident_end(s, a))[0] == s[a],
{
    assert(ident_end(s, a) == ident_end(s, a + 1));
    crate::text::lemma_ident_end_bounds(s, a + 1);
}

/// A line that can declare a symbol: not blank, and no `#` or `//` comment.
pub open spec fn declaring_line(s: Seq<char>) -> bool {
    trim(s).len() > 0 && !starts_with(trim(s), "#"@) && !starts_with(trim(s), "//"@)
}

proof fn lemma_line_symbol_name(s: Seq<char>, num: u32)
    ensures
        match line_symbol(s, num) {
            Some(w) => w.location == workspace_location(num) && w.name.len() > 0
                && crate::text::is_ident_start(w.name[0]) && declaring_line(s),
            None => true,
        },
{
    if let Some((a, b, c, e)) = var_decl(s) {
        lemma_ident_span(s, a);
    } else if let Some((a, b)) = class_decl(s) {
        lemma_ident_span(s, a);
    } else if let Some((a, b, kind, k)) = type_def(s) {
        lemma_ident_span(s, a);
    } else if let Some((a, b, x, y)) = function_decl(s) {
        lemma_ident_span(s, a);
    } else if let Some((ra, rb, a, b)) = ext_decl(s) {
        lemma_ident_span(s, a);
    }
}

/// Symbols of a document come in line order, one line at most each, on
/// lines of the document (numbered from 1) that are neither blank nor
/// comments, and are named by identifiers.
pub proof fn workspace_symbols_in_line_order(text: Seq<char>)
    requires
        lines(text).len() < u32::MAX,
    ensures
        forall|i: int|
            0 <= i < workspace_symbols(text).len() ==> {
                let w = #[trigger] workspace_symbols(text)[i];
                &&& 1 <= w.location.line <= lines(text).len()
                &&& w.location.source == "workspace"@
                &&& w.name.len() > 0
                &&& crate::text::is_ident_start(w.name[0])
                &&& declaring_line(lines(text)[w.location.line - 1])
            },
        forall|i: int, j: int|
            0 <= i < j < workspace_symbols(text).len() ==> (#[trigger] workspace_symbols(
                text,
            )[i]).location.line < (#[trigger] workspace_symbols(text)[j]).location.line,
{
    lemma_lines_from_len(text, 0);
    lemma_symbols_of_lines(lines(text), lines(text).len() as int);
}

proof fn lemma_symbols_of_lines(ls: Seq<Seq<char>>, k: int)
    requires
        k <= ls.len() < u32::MAX,
    ensures
        forall|i: int|
            0 <= i < symbols_of_lines(ls, k).len() ==> {
                let w = #[trigger] symbols_of_lines(ls, k)[i];
                &&& 1 <= w.location.line <= k
                &&& w.location.source == "workspace"@
                &&& w.name.len() > 0
                &&& crate::text::is_ident_start(w.name[0])
                &&& declaring_line(ls[w.location.line - 1])
            },
        forall|i: int, j: int|
            0 <= i < j < symbols_of_lines(ls, k).len() ==> (#[trigger] symbols_of_lines(
                ls,
                k,
            )[i]).location.line < (#[trigger] symbols_of_lines(ls, k)[j]).location.line,
    decreases k,
{
    if k > 0 {
        lemma_symbols_of_lines(ls, k - 1);
        lemma_line_symbol_name(ls[k - 1], k as u32);
        let rest = symbols_of_lines(ls, k - 1);
        let all = symbols_of_lines(ls, k);
        assert forall|i: int| 0 <= i < all.len() implies {
            let w = #[trigger] all[i];
            &&& 1 <= w.location.line <= k
            &&& w.location.source == "workspace"@
            &&& w.name.len() > 0
            &&& crate::text::is_ident_start(w.name[0])
            &&& declaring_line(ls[w.location.line - 1])
        } by {
            if i < rest.len() {
                assert(all[i] == rest[i]);
            }
        }
        assert forall|i: int, j: int| 0 <= i < j < all.len() implies (#[trigger] all[i]).location.line
            < (#[trigger] all[j]).location.line by {
            assert(all[i] == rest[i]);
            if j < rest.len() {
                assert(all[j] == rest[j]);
            }
        }
    }
}

pub(crate) fn group_then_ws_exec(s: &Vec<char>, i: usize) -> (r: Option<usize>)
    requires
        i <= s.len(),
    ensures
        match r {
            Some(x) => group_then_ws(s@, i as int) == Some(x as int) && x <= s.len(),
            None => group_then_ws(s@, i as int) is None,
        },
{
    if i < s.len() && s[i] == '<' {
        let q = find_char_from(s, i + 1, '>');
        if i + 1 < q && q < s.len() {
            let w = skip_ws(s, q + 1);
            if w > q + 1 {
                return Some(w);
            }
        }
    }
    None
}

fn keyword_name_exec(s: &Vec<char>, kw: &Vec<char>) -> (r: Option<(usize, usize)>)
    ensures
        match r {
            Some((a, b)) => keyword_name(s@, kw@) == Some((a as int, b as int)) && a <= b
                <= s.len(),
            None => keyword_name(s@, kw@) is None,
        },
{
    let p0 = skip_ws(s, 0);
    if !occurs_at_exec(s, p0, kw) {
        return None;
    }
    let p1 = skip_ws(s, p0 + kw.len());
    if p1 == p0 + kw.len() {
        return None;
    }
    let p2 = if p1 < s.len() && s[p1] == '<' {
        match group_then_ws_exec(s, p1) {
            Some(x) => x,
            None => {
                return None;
            },
        }
    } else {
        p1
    };
    if p2 < s.len() && ident_start(s[p2]) {
        Some((p2, skip_ident(s, p2)))
    } else {
        None
    }
}

fn var_decl_exec(s: &Vec<char>) -> (r: Option<(usize, usize, usize, usize)>)
    ensures
        match r {
            Some((a, b, c, e)) => var_decl(s@) == Some((a as int, b as int, c as int, e as int))
                && a <= b <= c <= e <= s.len(),
            None => var_decl(s@) is None,
        },
{
    let var_kw = chars_of("var");
    match keyword_name_exec(s, &var_kw) {
        Some((a, b)) => {
            let w = skip_ws(s, b);
            if w < s.len() && s[w] == ':' {
                let c = w + 1;
                let e = find_char_from(s, c, '=');
                if e > c && (e == s.len() || e + 1 < s.len()) {
                    return Some((a, b, c, e));
                }
            }
            None
        },
        None => None,
    }
}

fn colon_tail_exec(s: &Vec<char>, x: usize) -> (r: bool)
    requires
        x <= s.len(),
    ensures
        r == colon_tail(s@, x as int),
{
    let y = skip_ws(s, x);
    let z = if y < s.len() && s[y] == ':' {
        y + 1
    } else {
        y
    };
    skip_ws(s, z) == s.len()
}

fn class_decl_exec(s: &Vec<char>) -> (r: Option<(usize, usize)>)
    ensures
        match r {
            Some((a, b)) => class_decl(s@) == Some((a as int, b as int)) && a <= b <= s.len(),
            None => class_decl(s@) is None,
        },
{
    let class_kw = chars_of("class");
    match keyword_name_exec(s, &class_kw) {
        Some((a, b)) => {
            let w = skip_ws(s, b);
            let x = if w < s.len() && s[w] == '(' {
                let q = find_char_from(s, w + 1, ')');
                if q < s.len() {
                    q + 1
                } else {
                    return None;
                }
            } else {
                w
            };
            if colon_tail_exec(s, x) {
                Some((a, b))
            } else {
                None
            }
        },
        None => None,
    }
}

fn after_angle_exec(s: &Vec<char>, n: usize) -> (r: Option<usize>)
    requires
        n <= s.len(),
    ensures
        match r {
            Some(m) => after_angle(s@, n as int) == m && n <= m <= s.len(),
            None => after_angle(s@, n as int) == -1,
        },
{
    if n < s.len() && s[n] == '<' {
        let q = find_char_from(s, n + 1, '>');
        if q < s.len() {
            Some(q + 1)
        } else {
            None
        }
    } else {
        Some(n)
    }
}

fn keyword_at_exec(s: &Vec<char>, v: usize, kw: &str) -> (r: bool)
    ensures
        r == keyword_at(s@, v as int, kw@),
{
    let k = chars_of(kw);
    if !occurs_at_exec(s, v, &k) {
        return false;
    }
    let slen = s.len();
    assert(v + k@.len() <= slen);
    let end = v + k.len();
    end == s.len() || !ident_char(s[end])
}

fn type_def_exec(s: &Vec<char>) -> (r: Option<(usize, usize, SymbolKind, usize)>)
    ensures
        match r {
            Some((a, b, kind, k)) => type_def(s@) == Some((a as int, b as int, kind, k as int))
                && a <= b <= s.len() && k <= s.len(),
            None => type_def(s@) is None,
        },
{
    let p = skip_ws(s, 0);
    if !(p < s.len() && ident_start(s[p])) {
        return None;
    }
    let n = skip_ident(s, p);
    let m = match after_angle_exec(s, n) {
        Some(m) => m,
        None => {
            return None;
        },
    };
    let w = skip_ws(s, m);
    let def = chars_of(":=");
    if !occurs_at_exec(s, w, &def) {
        return None;
    }
    proof {
        reveal_strlit(":=");
    }
    let v = skip_ws(s, w + 2);
    proof {
        reveal_strlit("struct");
        reveal_strlit("interface");
        reveal_strlit("enum");
        reveal_strlit("type");
    }
    if keyword_at_exec(s, v, "struct") {
        Some((p, n, SymbolKind::Struct, v + 6))
    } else if keyword_at_exec(s, v, "interface") {
        Some((p, n, SymbolKind::Interface, v + 9))
    } else if keyword_at_exec(s, v, "enum") {
        Some((p, n, SymbolKind::Enum, v + 4))
    } else if keyword_at_exec(s, v, "type") {
        Some((p, n, SymbolKind::TypeAlias, v + 4))
    } else {
        None
    }
}

fn function_decl_exec(s: &Vec<char>) -> (r: Option<(usize, usize, usize, usize)>)
    ensures
        match r {
            Some((a, b, x, y)) => function_decl(s@) == Some(
                (a as int, b as int, x as int, y as int),
            ) && a <= b <= s.len() && x <= y <= s.len(),
            None => function_decl(s@) is None,
        },
{
    let p = skip_ws(s, 0);
    if p == 0 || !(p < s.len() && ident_start(s[p])) {
        return None;
    }
    let n = skip_ident(s, p);
    let m = match after_angle_exec(s, n) {
        Some(m) => m,
        None => {
            return None;
        },
    };
    if m >= s.len() || s[m] != '(' {
        return None;
    }
    let c = find_char_from(s, m + 1, ')');
    if c >= s.len() {
        return None;
    }
    let y = match after_angle_exec(s, c + 1) {
        Some(y) => y,
        None => {
            return None;
        },
    };
    let z = skip_ws(s, y);
    if z < s.len() && s[z] == ':' {
        let e = find_char_from(s, z + 1, '=');
        Some((p, n, z + 1, e))
    } else {
        None
    }
}

fn ext_decl_exec(s: &Vec<char>) -> (r: Option<(usize, usize, usize, usize)>)
    ensures
        match r {
            Some((ra, rb, a, b)) => ext_decl(s@) == Some(
                (ra as int, rb as int, a as int, b as int),
            ) && ra <= rb <= s.len() && a <= b <= s.len(),
            None => ext_decl(s@) is None,
        },
{
    let p = skip_ws(s, 0);
    if !(p < s.len() && s[p] == '(') {
        return None;
    }
    let r = find_char_from(s, p + 1, ')');
    if r <= p + 1 || r >= s.len() || r + 1 >= s.len() || s[r + 1] != '.' || !(r + 2 < s.len() && ident_start(
        s[r + 2],
    )) {
        return None;
    }
    let n = skip_ident(s, r + 2);
    let w = skip_ws(s, n);
    if w < s.len() && s[w] == '(' && find_char_from(s, w + 1, ')') < s.len() {
        Some((p + 1, r, r + 2, n))
    } else {
        None
    }
}

/// `trim(s[a..b])` as a `String`.
fn trimmed_string(s: &Vec<char>, a: usize, b: usize) -> (r: String)
    requires
        a <= b <= s.len(),
    ensures
        r@ == trim(s@.subrange(a as int, b as int)),
{
    let piece = slice_chars(s, a, b);
    let t = trimmed(&piece);
    string_of_all(&t)
}

fn no_strings() -> (r: Vec<String>)
    ensures
        crate::text::views(r@) == Seq::<Seq<char>>::empty(),
{
    crate::symbol::no_strings()
}

fn empty_class() -> (r: SymbolDetail)
    ensures
        r@ == (DetailV::Class {
            specifiers: Seq::empty(),
            parents: Seq::empty(),
            type_params: Seq::empty(),
            members: Seq::empty(),
        }),
{
    let r = SymbolDetail::Class {
        specifiers: no_strings(),
        parents: no_strings(),
        type_params: no_strings(),
        members: crate::symbol::no_symbols(),
    };
    r
}

fn bare_method(receiver: Option<String>, return_type: String) -> (r: SymbolDetail)
    ensures
        r@ == (DetailV::Method {
            receiver: crate::symbol::opt_view(receiver),
            params: Seq::empty(),
            effects: Seq::empty(),
            return_type: return_type@,
            is_var: false,
        }),
{
    let params: Vec<Param> = Vec::new();
    let effects: Vec<Tag> = Vec::new();
    let r = SymbolDetail::Method { receiver, params, effects, return_type, is_var: false };
    assert(crate::symbol::params_view(params@) =~= Seq::empty());
    assert(effects@ =~= Seq::empty());
    r
}

fn at_line(line: u32) -> (r: Location)
    ensures
        r@ == workspace_location(line),
{
    Location { source: to_string("workspace"), line }
}

/// The symbol declared on one line (see `line_symbol`).
fn symbol_on_line(s: &Vec<char>, num: u32) -> (r: Option<WorkspaceSymbol>)
    ensures
        match r {
            Some(w) => line_symbol(s@, num) == Some(w@),
            None => line_symbol(s@, num) is None,
        },
{
    let t = trimmed(s);
    let hash = chars_of("#");
    let slashes = chars_of("//");
    if t.len() == 0 || starts_with_exec(&t, &hash) || starts_with_exec(&t, &slashes) {
        return None;
    }
    if let Some((a, b, c, e)) = var_decl_exec(s) {
        let default_value = if e < s.len() {
            Some(trimmed_string(s, e + 1, s.len()))
        } else {
            None
        };
        return Some(
            WorkspaceSymbol {
                name: string_of(s, a, b),
                kind: SymbolKind::Field,
                location: at_line(num),
                detail: SymbolDetail::Field {
                    var_kind: Some(to_string("var")),
                    type_expr: trimmed_string(s, c, e),
                    default_value,
                },
            },
        );
    }
    if let Some((a, b)) = class_decl_exec(s) {
        return Some(
            WorkspaceSymbol {
                name: string_of(s, a, b),
                kind: SymbolKind::Class,
                location: at_line(num),
                detail: empty_class(),
            },
        );
    }
    if let Some((a, b, kind, k)) = type_def_exec(s) {
        let detail = match kind {
            SymbolKind::Interface => SymbolDetail::Interface { methods: crate::symbol::no_symbols() },
            SymbolKind::Enum => SymbolDetail::Enum { variants: no_strings() },
            SymbolKind::TypeAlias => SymbolDetail::Field {
                var_kind: None,
                type_expr: trimmed_string(s, k, s.len()),
                default_value: None,
            },
            _ => empty_class(),
        };
        return Some(
            WorkspaceSymbol { name: string_of(s, a, b), kind, location: at_line(num), detail },
        );
    }
    if let Some((a, b, x, y)) = function_decl_exec(s) {
        let ret = trimmed_string(s, x, y);
        return Some(
            WorkspaceSymbol {
                name: string_of(s, a, b),
                kind: SymbolKind::Function,
                location: at_line(num),
                detail: bare_method(None, ret),
            },
        );
    }
    if let Some((ra, rb, a, b)) = ext_decl_exec(s) {
        let receiver = string_of(s, ra, rb);
        return Some(
            WorkspaceSymbol {
                name: string_of(s, a, b),
                kind: SymbolKind::Method,
                location: at_line(num),
                detail: bare_method(Some(receiver), String::new()),
            },
        );
    }
    None
}

/// Symbols declared in `text`, one at most per line, in line order; lines
/// are numbered from 1.
pub fn parse_verse_symbols(text: &str) -> (r: Vec<WorkspaceSymbol>)
    requires
        lines(text@).len() < u32::MAX,
    ensures
        ws_symbols_view(r@) == workspace_symbols(text@),
{
    let tv = chars_of(text);
    let ls = split_lines(&tv);
    proof {
        lemma_lines_from_len(text@, 0);
    }
    let mut symbols: Vec<WorkspaceSymbol> = Vec::new();
    let mut i: usize = 0;
    while i < ls.len()
        invariant
            i <= ls@.len() == lines(text@).len(),
            ls@.len() < u32::MAX,
            forall|k: int| 0 <= k < ls@.len() ==> #[trigger] ls@[k]@ == lines(text@)[k],
            ws_symbols_view(symbols@) == symbols_of_lines(lines(text@), i as int),
        decreases ls@.len() - i,
    {
        match symbol_on_line(&ls[i], (i + 1) as u32) {
            Some(w) => {
                symbols.push(w);
            },
            None => {},
        }
        i = i + 1;
        assert(ws_symbols_view(symbols@) =~= symbols_of_lines(lines(text@), i as int));
    }
    symbols
}

/// Declared type of the variable whose name ends `prefix`: the type of the
/// first variable of `content` with that name and a non-empty type.
pub open spec fn buffer_type(content: Seq<char>, prefix: Seq<char>) -> Option<Seq<char>> {
    let a = ident_back(prefix, prefix.len() as int);
    let name = prefix.subrange(a, prefix.len() as int);
    if a == prefix.len() {
        None
    } else {
        typed_var(workspace_symbols(content), name)
    }
}

/// Type of the first field of `syms` named `name` with a non-empty type.
pub open spec fn typed_var(syms: Seq<WorkspaceSymbolV>, name: Seq<char>) -> Option<Seq<char>>
    decreases syms.len(),
{
    if syms.len() == 0 {
        None
    } else {
        match syms[0].detail {
            DetailV::Field { type_expr, .. } => if syms[0].name == name && type_expr.len() > 0 {
                Some(type_expr)
            } else {
                typed_var(syms.drop_first(), name)
            },
            _ => typed_var(syms.drop_first(), name),
        }
    }
}

/// The declared type of the variable named by the identifier that ends
/// `prefix` (the text before a `.`), looked up among the declarations of
/// `content`.
pub fn find_type_in_buffer(content: &str, prefix: &str) -> (r: Option<String>)
    requires
        lines(content@).len() < u32::MAX,
    ensures
        crate::symbol::opt_view(r) == buffer_type(content@, prefix@),
{
    let pv = chars_of(prefix);
    let a = back_ident(&pv, pv.len());
    if a == pv.len() {
        return None;
    }
    let name = string_of(&pv, a, pv.len());
    let syms = parse_verse_symbols(content);
    let ghost sv = ws_symbols_view(syms@);
    assert(sv.skip(0) =~= sv);
    assert(buffer_type(content@, prefix@) == typed_var(sv, name@));
    let mut i: usize = 0;
    while i < syms.len()
        invariant
            i <= syms@.len(),
            sv == ws_symbols_view(syms@),
            buffer_type(content@, prefix@) == typed_var(sv.skip(i as int), name@),
        decreases syms@.len() - i,
    {
        proof {
            assert(sv.skip(i as int).drop_first() =~= sv.skip(i + 1));
            assert(sv.skip(i as int)[0] == syms@[i as int]@);
        }
        let w = &syms[i];
        match &w.detail {
            SymbolDetail::Field { var_kind, type_expr, default_value } => {
                if w.name == name && type_expr.as_str().unicode_len() > 0 {
                    proof {
                        let rest = sv.skip(i as int);
                        assert(rest.len() > 0);
                        assert(rest[0].detail == w@.detail);
                        assert(rest[0].name == name@);
                        assert(w@.detail == DetailV::Field {
                            var_kind: crate::symbol::opt_view(*var_kind),
                            type_expr: type_expr@,
                            default_value: crate::symbol::opt_view(*default_value),
                        });
                        assert(type_expr@.len() > 0);
                        assert(typed_var(rest, name@) == Some(type_expr@));
                    }
                    return Some(type_expr.clone());
                }
            },
            _ => {},
        }
        i = i + 1;
    }
    proof {
        assert(sv.skip(i as int) =~= Seq::<WorkspaceSymbolV>::empty());
    }
    None
}

} // verus!
