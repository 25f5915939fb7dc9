//! The answers to editor requests, computed from a document's text, the
//! cursor position and the symbol database.
use vstd::prelude::*;

use crate::completion::{
    canonical_type, complete_global, complete_member, complete_module_path, global_items,
    guess_type, guessed_type, items_view, member_items, module_path_items, resolve_type_canonical,
    CompletionItem, CompletionItemV,
};
use crate::database::{
    flatten, lemma_take_step, modules_view, public_symbols, refs_view, ModuleV, SymbolDb, SymbolDbV,
};
use crate::definition::{
    find_definition_at, sym_refs, target_index, GotoDefinitionResult, GotoDefinitionResultV,
};
use crate::hover::{find_symbol_at_cursor, format_hover_markdown, hover_markdown};
use crate::signature_help::before_cursor;
use crate::symbol::{
    lemma_symbols_view_index, lemma_symbols_view_len, symbols_view, Symbol, SymbolV,
};
use crate::text::{
    char_at_byte, chars_of, contains, contains_exec, is_boundary, lines, lowercase, slice_chars,
    split_lines, string_of_all, to_lower, utf8_len,
};
use crate::workspace::{
    buffer_type, find_type_in_buffer, ws_symbols_view, WorkspaceSymbol, WorkspaceSymbolV,
};

verus! {

/// Most results a workspace symbol search returns.
pub const MAX_WORKSPACE_SYMBOLS: usize = 50;

/// The cursor column is at a character boundary of its line, unless it lies
/// past the line's end.
pub open spec fn column_ok(content: Seq<char>, line: int, col: int) -> bool {
    0 <= line < lines(content).len() && col <= utf8_len(lines(content)[line]) ==> is_boundary(
        lines(content)[line],
        col,
    )
}

/// Completion items at byte column `col` of line `line`: after `name.`
/// the members of the variable's declared type (or of the type its name
/// suggests), after `/` the module paths, and every public symbol otherwise.
pub open spec fn completion_items(db: SymbolDbV, content: Seq<char>, line: int, col: int) -> Option<
    Seq<CompletionItemV>,
> {
    let ls = lines(content);
    if line < 0 || line >= ls.len() {
        None
    } else {
        let b = before_cursor(ls[line], col);
        Some(
            if b.len() > 0 && b.last() == '.' {
                let prefix = b.drop_last();
                match buffer_type(content, prefix) {
                    Some(t) => {
                        let m = member_items(db, canonical_type(db, t));
                        if m.len() > 0 {
                            m
                        } else {
                            global_items(db)
                        }
                    },
                    None => match guessed_type(prefix) {
                        Some(h) => member_items(db, h),
                        None => global_items(db),
                    },
                }
            } else if b.len() > 0 && b.last() == '/' {
                module_path_items(db.modules, lowercase(b))
            } else {
                global_items(db)
            },
        )
    }
}

/// Text of `line` before byte column `col` (see `before_cursor`).
fn text_before(line: &Vec<char>, col: usize) -> (r: Vec<char>)
    requires
        col <= utf8_len(line@) ==> is_boundary(line@, col as int),
    ensures
        r@ == before_cursor(line@, col as int),
{
    let r = match char_at_byte(line, col) {
        Some(k) => slice_chars(line, 0, k),
        None => {
            proof {
                if (col as int) <= utf8_len(line@) {
                    let k = choose|k: int|
                        0 <= k <= line@.len() && utf8_len(line@.take(k)) == col as int;
                    if k < line@.len() {
                        assert(exists|m: int|
                            0 <= m < line@.len() && utf8_len(line@.take(m)) == col as int);
                    }
                }
            }
            slice_chars(line, 0, line.len())
        },
    };
    assert(r@ =~= before_cursor(line@, col as int));
    r
}

/// Completion items for the cursor at (`line`, byte `col`) of `content`
/// (see `completion_items`); `None` when there is no such line.
pub fn complete_at(db: &SymbolDb, content: &str, line: u32, col: u32) -> (r: Option<
    Vec<CompletionItem>,
>)
    requires
        lines(content@).len() < u32::MAX,
        column_ok(content@, line as int, col as int),
    ensures
        match r {
            Some(v) => completion_items(db@, content@, line as int, col as int) == Some(
                items_view(v@),
            ),
            None => completion_items(db@, content@, line as int, col as int) is None,
        },
{
    let text = chars_of(content);
    let ls = split_lines(&text);
    if line as usize >= ls.len() {
        return None;
    }
    let current = &ls[line as usize];
    let before = text_before(current, col as usize);
    let n = before.len();
    if n > 0 && before[n - 1] == '.' {
        let prefix_v = slice_chars(&before, 0, n - 1);
        assert(prefix_v@ =~= before@.drop_last());
        let prefix = string_of_all(&prefix_v);
        match find_type_in_buffer(content, prefix.as_str()) {
            Some(type_expr) => {
                let canonical = match resolve_type_canonical(db, type_expr.as_str()) {
                    Some(c) => c,
                    None => {
                        return Some(complete_global(db));
                    },
                };
                let members = complete_member(db, canonical.as_str());
                if members.len() > 0 {
                    Some(members)
                } else {
                    Some(complete_global(db))
                }
            },
            None => match guess_type(prefix.as_str()) {
                Some(hint) => Some(complete_member(db, hint.as_str())),
                None => Some(complete_global(db)),
            },
        }
    } else if n > 0 && before[n - 1] == '/' {
        let b = string_of_all(&before);
        Some(complete_module_path(db, b.as_str()))
    } else {
        Some(complete_global(db))
    }
}

/// Hover text for the cursor at (`line`, byte `col`) of `content`: that of
/// the first public symbol named by the word at the cursor.
pub open spec fn hover_text(db: SymbolDbV, content: Seq<char>, line: int, col: int) -> Option<
    Seq<char>,
> {
    let syms = public_symbols(db.all_symbols);
    let i = target_index(content, line, col, syms);
    if 0 <= i < syms.len() {
        Some(hover_markdown(syms[i]))
    } else {
        None
    }
}

/// Hover text for the cursor at (`line`, byte `col`) of `content` (see
/// `hover_text`).
pub fn hover_at(db: &SymbolDb, content: &str, line: u32, col: u32) -> (r: Option<String>)
    ensures
        match r {
            Some(h) => hover_text(db@, content@, line as int, col as int) == Some(h@),
            None => hover_text(db@, content@, line as int, col as int) is None,
        },
{
    let symbols = db.get_public_symbols();
    assert(sym_refs(symbols@) =~= refs_view(symbols@));
    match find_symbol_at_cursor(content, line, col, symbols.as_slice()) {
        Some(symbol) => Some(format_hover_markdown(symbol)),
        None => None,
    }
}

/// Definition of the first public symbol named by the word at the cursor.
pub open spec fn definition_target(db: SymbolDbV, content: Seq<char>, line: int, col: int) -> Option<
    GotoDefinitionResultV,
> {
    let syms = public_symbols(db.all_symbols);
    let i = target_index(content, line, col, syms);
    if 0 <= i < syms.len() {
        Some(
            GotoDefinitionResultV {
                source: syms[i].location.source,
                line: syms[i].location.line,
                name: syms[i].name,
            },
        )
    } else {
        None
    }
}

/// Definition of the symbol named at (`line`, byte `col`) of `content`
/// (see `definition_target`).
pub fn definition_at(db: &SymbolDb, content: &str, line: u32, col: u32) -> (r: Option<
    GotoDefinitionResult,
>)
    ensures
        match r {
            Some(g) => definition_target(db@, content@, line as int, col as int) == Some(g@),
            None => definition_target(db@, content@, line as int, col as int) is None,
        },
{
    let symbols = db.get_public_symbols();
    assert(sym_refs(symbols@) =~= refs_view(symbols@));
    find_definition_at(content, line, col, symbols.as_slice())
}

/// Symbols of `ss` (held by the module named `module`) whose lower-cased
/// name contains `q`, each with that module's name.
pub open spec fn symbol_hits(ss: Seq<SymbolV>, module: Seq<char>, q: Seq<char>) -> Seq<
    (SymbolV, Seq<char>),
>
    decreases ss.len(),
{
    if ss.len() == 0 {
        Seq::empty()
    } else {
        let rest = symbol_hits(ss.drop_last(), module, q);
        if contains(lowercase(ss.last().name), q) {
            rest.push((ss.last(), module))
        } else {
            rest
        }
    }
}

/// Symbols of the database whose lower-cased name contains `q`, module
/// after module, each with the name of its module.
pub open spec fn database_hits(ms: Seq<ModuleV>, q: Seq<char>) -> Seq<(SymbolV, Seq<char>)>
    decreases ms.len(),
{
    if ms.len() == 0 {
        Seq::empty()
    } else {
        database_hits(ms.drop_last(), q) + symbol_hits(ms.last().symbols, ms.last().name, q)
    }
}

/// The hits of a module are its symbols whose lower-cased name contains the
/// query somewhere, in order, each paired with the module's name.
pub proof fn symbol_hits_are_substring_matches(ss: Seq<SymbolV>, module: Seq<char>, q: Seq<char>)
    ensures
        symbol_hits(ss, module, q) == ss.filter(|x: SymbolV| contains(lowercase(x.name), q)).map_values(
            |x: SymbolV| (x, module),
        ),
    decreases ss.len(),
{
    reveal(Seq::filter);
    let f = |x: SymbolV| contains(lowercase(x.name), q);
    let g = |x: SymbolV| (x, module);
    if ss.len() == 0 {
        assert(ss.filter(f).map_values(g) =~= Seq::<(SymbolV, Seq<char>)>::empty());
    } else {
        symbol_hits_are_substring_matches(ss.drop_last(), module, q);
        let r = ss.drop_last().filter(f);
        if f(ss.last()) {
            assert(r.push(ss.last()).map_values(g) =~= r.map_values(g).push((ss.last(), module)));
        }
    }
}

/// What a filter keeps comes from the sequence filtered.
proof fn lemma_filter_kept(s: Seq<SymbolV>, f: spec_fn(SymbolV) -> bool, k: int)
    requires
        0 <= k < s.filter(f).len(),
    ensures
        s.contains(s.filter(f)[k]),
    decreases s.len(),
{
    reveal(Seq::filter);
    let r = s.drop_last().filter(f);
    if f(s.last()) && k == r.len() {
        assert(s[s.len() - 1] == s.filter(f)[k]);
    } else {
        assert(s.filter(f)[k] == r[k]);
        lemma_filter_kept(s.drop_last(), f, k);
        let j = choose|j: int| 0 <= j < s.drop_last().len() && s.drop_last()[j] == r[k];
        assert(s[j] == s.drop_last()[j]);
    }
}

/// The symbols found by a workspace symbol query over the database are the
/// symbols of its modules, module after module, whose lower-cased name
/// contains the query somewhere: the same symbols, in the same order, as a
/// search of all symbols finds.
pub proof fn database_hits_are_substring_matches(ms: Seq<ModuleV>, q: Seq<char>)
    ensures
        database_hits(ms, q).map_values(|h: (SymbolV, Seq<char>)| h.0) == flatten(ms).filter(
            |x: SymbolV| contains(lowercase(x.name), q),
        ),
        forall|i: int|
            0 <= i < database_hits(ms, q).len() ==> exists|j: int|
                0 <= j < ms.len() && ms[j].name == (#[trigger] database_hits(ms, q)[i]).1
                    && ms[j].symbols.contains(database_hits(ms, q)[i].0),
    decreases ms.len(),
{
    let f = |x: SymbolV| contains(lowercase(x.name), q);
    let h0 = |h: (SymbolV, Seq<char>)| h.0;
    if ms.len() == 0 {
        reveal(Seq::filter);
        assert(database_hits(ms, q).map_values(h0) =~= flatten(ms).filter(f));
    } else {
        database_hits_are_substring_matches(ms.drop_last(), q);
        let last = ms.last();
        symbol_hits_are_substring_matches(last.symbols, last.name, q);
        let a = database_hits(ms.drop_last(), q);
        let b = symbol_hits(last.symbols, last.name, q);
        assert((a + b).map_values(h0) =~= a.map_values(h0) + b.map_values(h0));
        assert(b.map_values(h0) =~= last.symbols.filter(f));
        Seq::filter_distributes_over_add(flatten(ms.drop_last()), last.symbols, f);
        let all = database_hits(ms, q);
        assert(all == a + b);
        assert forall|i: int| 0 <= i < all.len() implies exists|j: int|
            0 <= j < ms.len() && ms[j].name == (#[trigger] all[i]).1 && ms[j].symbols.contains(
                all[i].0,
            ) by {
            if i < a.len() {
                assert(all[i] == a[i]);
                let j = choose|j: int|
                    0 <= j < ms.drop_last().len() && ms.drop_last()[j].name == (
                    #[trigger] a[i]).1 && ms.drop_last()[j].symbols.contains(a[i].0);
                assert(ms[j] == ms.drop_last()[j]);
            } else {
                let k = i - a.len();
                assert(all[i] == b[k]);
                let fl = last.symbols.filter(f);
                assert(b[k] == (fl[k], last.name));
                lemma_filter_kept(last.symbols, f, k);
                assert(ms[ms.len() - 1] == last);
            }
        }
    }
}

pub open spec fn hits_view(v: Seq<(&Symbol, &String)>) -> Seq<(SymbolV, Seq<char>)> {
    Seq::new(v.len(), |i: int| (v[i].0@, v[i].1@))
}

/// Symbols of the database matching a workspace symbol query: those whose
/// lower-cased name contains the lower-cased query, with their module's name.
pub fn database_symbols_matching<'a>(db: &'a SymbolDb, query: &str) -> (r: Vec<
    (&'a Symbol, &'a String),
>)
    ensures
        hits_view(r@) == database_hits(db@.modules, lowercase(query@)),
{
    let q = to_lower(query);
    let qv = chars_of(q.as_str());
    let mods = db.module_list();
    let ghost ms = modules_view(mods@);
    let mut out: Vec<(&'a Symbol, &'a String)> = Vec::new();
    let mut i: usize = 0;
    while i < mods.len()
        invariant
            i <= mods@.len(),
            ms == modules_view(mods@),
            ms == db@.modules,
            qv@ == lowercase(query@),
            hits_view(out@) == database_hits(ms.take(i as int), lowercase(query@)),
        decreases mods@.len() - i,
    {
        proof {
            lemma_take_step(ms, i as int);
        }
        let m = &mods[i];
        let ghost before = hits_view(out@);
        let ghost sv = symbols_view(m.symbols@);
        proof {
            lemma_symbols_view_len(m.symbols@);
        }
        let mut j: usize = 0;
        while j < m.symbols.len()
            invariant
                j <= m.symbols@.len(),
                sv == symbols_view(m.symbols@),
                sv.len() == m.symbols@.len(),
                qv@ == lowercase(query@),
                hits_view(out@) == before + symbol_hits(sv.take(j as int), m.name@, lowercase(
                    query@,
                )),
            decreases m.symbols@.len() - j,
        {
            proof {
                lemma_symbols_view_index(m.symbols@, j as int);
                lemma_take_step(sv, j as int);
            }
            let s = &m.symbols[j];
            let ln = to_lower(s.name.as_str());
            let lv = chars_of(ln.as_str());
            let ghost prev = symbol_hits(sv.take(j as int), m.name@, lowercase(query@));
            if contains_exec(&lv, &qv) {
                out.push((s, &m.name));
                assert(before + prev.push((s@, m.name@)) =~= (before + prev).push((s@, m.name@)));
            }
            assert(hits_view(out@) =~= before + symbol_hits(
                sv.take(j + 1),
                m.name@,
                lowercase(query@),
            ));
            j = j + 1;
        }
        proof {
            assert(sv.take(j as int) =~= sv);
            assert(ms[i as int] == m@);
        }
        i = i + 1;
    }
    proof {
        assert(ms.take(i as int) =~= ms);
    }
    out
}

/// Workspace symbols whose lower-cased name contains `q`, in order.
pub open spec fn workspace_hits(ws: Seq<WorkspaceSymbolV>, q: Seq<char>) -> Seq<WorkspaceSymbolV>
    decreases ws.len(),
{
    if ws.len() == 0 {
        Seq::empty()
    } else {
        let rest = workspace_hits(ws.drop_last(), q);
        if contains(lowercase(ws.last().name), q) {
            rest.push(ws.last())
        } else {
            rest
        }
    }
}

pub open spec fn ws_refs_view(v: Seq<&WorkspaceSymbol>) -> Seq<WorkspaceSymbolV> {
    Seq::new(v.len(), |i: int| v[i]@)
}

/// Symbols of a document matching a workspace symbol query: those whose
/// lower-cased name contains the lower-cased query.
pub fn workspace_symbols_matching<'a>(symbols: &'a [WorkspaceSymbol], query: &str) -> (r: Vec<
    &'a WorkspaceSymbol,
>)
    ensures
        ws_refs_view(r@) == workspace_hits(ws_symbols_view(symbols@), lowercase(query@)),
{
    let q = to_lower(query);
    let qv = chars_of(q.as_str());
    let ghost wv = ws_symbols_view(symbols@);
    let mut out: Vec<&'a WorkspaceSymbol> = Vec::new();
    let mut i: usize = 0;
    while i < symbols.len()
        invariant
            i <= symbols@.len(),
            wv == ws_symbols_view(symbols@),
            qv@ == lowercase(query@),
            ws_refs_view(out@) == workspace_hits(wv.take(i as int), lowercase(query@)),
        decreases symbols@.len() - i,
    {
        proof {
            lemma_take_step(wv, i as int);
        }
        let w = &symbols[i];
        let ln = to_lower(w.name.as_str());
        let lv = chars_of(ln.as_str());
        if contains_exec(&lv, &qv) {
            out.push(w);
        }
        assert(ws_refs_view(out@) =~= workspace_hits(wv.take(i + 1), lowercase(query@)));
        i = i + 1;
    }
    proof {
        assert(wv.take(i as int) =~= wv);
    }
    out
}

/// For each line of a document in order, the symbols among `syms` whose
/// name occurs in that line, with the line's index.
pub open spec fn line_hits(ls: Seq<Seq<char>>, syms: Seq<SymbolV>) -> Seq<(int, SymbolV)>
    decreases ls.len(),
{
    if ls.len() == 0 {
        Seq::empty()
    } else {
        line_hits(ls.drop_last(), syms) + names_in_line(ls.last(), ls.len() - 1, syms)
    }
}

/// The symbols among `syms` whose name occurs in `line`, with `idx`.
pub open spec fn names_in_line(line: Seq<char>, idx: int, syms: Seq<SymbolV>) -> Seq<(int, SymbolV)>
    decreases syms.len(),
{
    if syms.len() == 0 {
        Seq::empty()
    } else {
        let rest = names_in_line(line, idx, syms.drop_last());
        if contains(line, syms.last().name) {
            rest.push((idx, syms.last()))
        } else {
            rest
        }
    }
}

pub open spec fn line_refs_view(v: Seq<(usize, &Symbol)>) -> Seq<(int, SymbolV)> {
    Seq::new(v.len(), |i: int| (v[i].0 as int, v[i].1@))
}

/// Document symbols: for each line of `content`, the public symbols whose
/// name occurs in it, with the line's index.
pub fn document_symbol_lines<'a>(db: &'a SymbolDb, content: &str) -> (r: Vec<(usize, &'a Symbol)>)
    ensures
        line_refs_view(r@) == line_hits(lines(content@), public_symbols(db@.all_symbols)),
{
    let text = chars_of(content);
    let ls = split_lines(&text);
    let symbols = db.get_public_symbols();
    let ghost sv = refs_view(symbols@);
    let ghost lv = lines(content@);
    let mut out: Vec<(usize, &'a Symbol)> = Vec::new();
    let mut i: usize = 0;
    while i < ls.len()
        invariant
            i <= ls@.len() == lv.len(),
            lv == lines(content@),
            forall|k: int| 0 <= k < ls@.len() ==> #[trigger] ls@[k]@ == lv[k],
            sv == refs_view(symbols@),
            sv == public_symbols(db@.all_symbols),
            line_refs_view(out@) == line_hits(lv.take(i as int), sv),
        decreases ls@.len() - i,
    {
        let line = &ls[i];
        let ghost before = line_refs_view(out@);
        let mut j: usize = 0;
        while j < symbols.len()
            invariant
                j <= symbols@.len(),
                sv == refs_view(symbols@),
                line@ == lv[i as int],
                i < lv.len(),
                line_refs_view(out@) == before + names_in_line(line@, i as int, sv.take(j as int)),
            decreases symbols@.len() - j,
        {
            proof {
                lemma_take_step(sv, j as int);
            }
            let s = symbols[j];
            let nv = chars_of(s.name.as_str());
            let ghost prev = names_in_line(line@, i as int, sv.take(j as int));
            assert(sv[j as int] == s@);
            if contains_exec(line, &nv) {
                out.push((i, s));
                assert(before + prev.push((i as int, s@)) =~= (before + prev).push((i as int, s@)));
            }
            assert(line_refs_view(out@) =~= before + names_in_line(
                line@,
                i as int,
                sv.take(j + 1),
            ));
            j = j + 1;
        }
        proof {
            assert(sv.take(j as int) =~= sv);
            assert(lv.take(i + 1).drop_last() =~= lv.take(i as int));
            assert(lv.take(i + 1).last() == lv[i as int]);
            assert(line_hits(lv.take(i + 1), sv) == line_hits(lv.take(i as int), sv) + names_in_line(
                lv[i as int],
                i as int,
                sv,
            ));
        }
        i = i + 1;
    }
    proof {
        assert(lv.take(i as int) =~= lv);
    }
    out
}

} // verus!
