//! The symbol database: modules read from digest files and queries over
//! every symbol they hold.
use vstd::prelude::*;

use crate::parser::{
    from_source, keeps_and_adds_one, line_step, line_step_adds_at_most_one, line_step_keeps_source,
    Parser, ParserV, ParseState,
};
use crate::pattern::{decl_name, decl_name_end, using_from, using_path};
use crate::symbol::{
    copy_strings, copy_symbols, lemma_symbols_view_index, lemma_symbols_view_len,
    lemma_symbols_view_push, symbols_view, DetailV, Symbol, SymbolDetail, SymbolKind, SymbolV,
    Visibility,
};
use crate::text::{
    ascii_lower, ascii_lower_ignores_case, ascii_upper, is_ascii_text, chars_of, contains,
    contains_exec, lines, lowercase, occurs_at, split_lines, starts_with, starts_with_exec,
    string_of, string_of_all, to_lower, trim, trimmed, views,
};

verus! {

pub struct Module {
    pub name: String,
    pub path: String,
    pub usings: Vec<String>,
    pub symbols: Vec<Symbol>,
}

/// View of a `Module`.
pub struct ModuleV {
    pub name: Seq<char>,
    pub path: Seq<char>,
    pub usings: Seq<Seq<char>>,
    pub symbols: Seq<SymbolV>,
}

impl View for Module {
    type V = ModuleV;

    open spec fn view(&self) -> ModuleV {
        ModuleV {
            name: self.name@,
            path: self.path@,
            usings: views(self.usings@),
            symbols: symbols_view(self.symbols@),
        }
    }
}

pub open spec fn modules_view(ms: Seq<Module>) -> Seq<ModuleV> {
    Seq::new(ms.len(), |i: int| ms[i]@)
}

pub struct SymbolDb {
    pub modules: Vec<Module>,
    all_symbols: Vec<Symbol>,
}

/// View of a `SymbolDb`.
pub struct SymbolDbV {
    pub modules: Seq<ModuleV>,
    pub all_symbols: Seq<SymbolV>,
}

impl View for SymbolDb {
    type V = SymbolDbV;

    closed spec fn view(&self) -> SymbolDbV {
        SymbolDbV { modules: modules_view(self.modules@), all_symbols: symbols_view(self.all_symbols@) }
    }
}

/// The symbols of all modules, module after module.
pub open spec fn flatten(ms: Seq<ModuleV>) -> Seq<SymbolV>
    decreases ms.len(),
{
    if ms.len() == 0 {
        Seq::empty()
    } else {
        flatten(ms.drop_last()) + ms.last().symbols
    }
}

/// Index of the first module named `name` at or after `i`, or -1.
pub open spec fn module_index(ms: Seq<ModuleV>, name: Seq<char>, i: int) -> int
    decreases ms.len() - i,
{
    if i < 0 || i >= ms.len() {
        -1
    } else if ms[i].name == name {
        i
    } else {
        module_index(ms, name, i + 1)
    }
}

/// Stores `m` under its name: it replaces the module of that name, or
/// comes last when there is none.
pub open spec fn insert_module(ms: Seq<ModuleV>, m: ModuleV) -> Seq<ModuleV> {
    let i = module_index(ms, m.name, 0);
    if i >= 0 {
        ms.update(i, m)
    } else {
        ms.push(m)
    }
}

/// Bookkeeping while a digest is read.
pub struct DigestState {
    pub parser: ParserV,
    pub name: Seq<char>,
    pub usings: Seq<Seq<char>>,
    pub modules: Seq<ModuleV>,
}

pub open spec fn module_of(name: Seq<char>, usings: Seq<Seq<char>>, symbols: Seq<SymbolV>) -> ModuleV {
    ModuleV { name, path: name, usings, symbols }
}

/// The effect of one digest line, numbered `num`.
pub open spec fn digest_step(st: DigestState, line: Seq<char>, num: u32, src: Seq<char>) -> DigestState {
    let opens = contains(line, ":= module:"@) && decl_name_end(line, ":= module:"@) is Some;
    let name1 = if opens {
        line.subrange(0, decl_name_end(line, ":= module:"@)->0)
    } else {
        st.name
    };
    let usings1 = if opens {
        Seq::empty()
    } else {
        st.usings
    };
    let parser1 = line_step(st.parser, line, num, src);
    let usings2 = if starts_with(line, "using {"@) {
        match using_from(line, 0) {
            Some((a, b)) => usings1.push(line.subrange(a, b)),
            None => usings1,
        }
    } else {
        usings1
    };
    if trim(line).len() == 0 && name1.len() > 0 {
        DigestState {
            parser: parser1,
            name: Seq::empty(),
            usings: usings2,
            modules: insert_module(st.modules, module_of(name1, usings2, parser1.symbols)),
        }
    } else {
        DigestState { parser: parser1, name: name1, usings: usings2, modules: st.modules }
    }
}

pub open spec fn initial_parser() -> ParserV {
    ParserV {
        state: ParseState::TopLevel,
        current_module: None,
        current_class: None,
        symbols: Seq::empty(),
        module_using: Seq::empty(),
    }
}

/// State after the first `k` lines of a digest.
pub open spec fn digest_run(ms: Seq<ModuleV>, ls: Seq<Seq<char>>, src: Seq<char>, k: int) -> DigestState
    decreases k,
{
    if k <= 0 {
        DigestState { parser: initial_parser(), name: Seq::empty(), usings: Seq::empty(), modules: ms }
    } else {
        digest_step(digest_run(ms, ls, src, k - 1), ls[k - 1], k as u32, src)
    }
}

/// Modules after a whole digest has been read into a database holding `ms`.
pub open spec fn digest_modules(ms: Seq<ModuleV>, content: Seq<char>, src: Seq<char>) -> Seq<ModuleV> {
    let ls = lines(content);
    let st = digest_run(ms, ls, src, ls.len() as int);
    if st.name.len() > 0 {
        insert_module(st.modules, module_of(st.name, st.usings, st.parser.symbols))
    } else {
        st.modules
    }
}

/// Index of the first class named `name` at or after `i`, or -1.
pub open spec fn class_index(s: Seq<SymbolV>, name: Seq<char>, i: int) -> int
    decreases s.len() - i,
{
    if i < 0 || i >= s.len() {
        -1
    } else if s[i].kind == SymbolKind::Class && s[i].name == name {
        i
    } else {
        class_index(s, name, i + 1)
    }
}

pub proof fn lemma_class_index_range(s: Seq<SymbolV>, name: Seq<char>, i: int)
    requires
        0 <= i,
    ensures
        class_index(s, name, i) == -1 || i <= class_index(s, name, i) < s.len(),
    decreases s.len() - i,
{
    if i < s.len() && !(s[i].kind == SymbolKind::Class && s[i].name == name) {
        lemma_class_index_range(s, name, i + 1);
    }
}

/// Symbol is a method whose receiver is `receiver_type`.
pub open spec fn extends(s: SymbolV, receiver_type: Seq<char>) -> bool {
    match s.detail {
        DetailV::Method { receiver: Some(r), .. } => r == receiver_type,
        _ => false,
    }
}

/// The methods among `s` whose receiver is `receiver_type`, in order.
pub open spec fn extension_methods(s: Seq<SymbolV>, receiver_type: Seq<char>) -> Seq<SymbolV>
    decreases s.len(),
{
    if s.len() == 0 {
        Seq::empty()
    } else {
        let rest = extension_methods(s.drop_last(), receiver_type);
        if extends(s.last(), receiver_type) {
            rest.push(s.last())
        } else {
            rest
        }
    }
}

/// The symbols among `s` whose lower-cased name contains `q`, in order.
pub open spec fn name_matches(s: Seq<SymbolV>, q: Seq<char>) -> Seq<SymbolV>
    decreases s.len(),
{
    if s.len() == 0 {
        Seq::empty()
    } else {
        let rest = name_matches(s.drop_last(), q);
        if contains(lowercase(s.last().name), q) {
            rest.push(s.last())
        } else {
            rest
        }
    }
}

/// The public symbols among `s`, in order.
pub open spec fn public_symbols(s: Seq<SymbolV>) -> Seq<SymbolV>
    decreases s.len(),
{
    if s.len() == 0 {
        Seq::empty()
    } else {
        let rest = public_symbols(s.drop_last());
        if s.last().visibility == Visibility::Public {
            rest.push(s.last())
        } else {
            rest
        }
    }
}

/// View of a list of symbol references.
pub open spec fn refs_view(v: Seq<&Symbol>) -> Seq<SymbolV> {
    Seq::new(v.len(), |i: int| v[i]@)
}

pub proof fn lemma_refs_view_push(v: Seq<&Symbol>, x: &Symbol)
    ensures
        refs_view(v.push(x)) == refs_view(v).push(x@),
{
    assert(refs_view(v.push(x)) =~= refs_view(v).push(x@));
}

pub proof fn lemma_take_step<A>(s: Seq<A>, i: int)
    requires
        0 <= i < s.len(),
    ensures
        s.take(i + 1).drop_last() == s.take(i),
        s.take(i + 1).last() == s[i],
{
    assert(s.take(i + 1).drop_last() =~= s.take(i));
}

/// No two modules share a name.
pub open spec fn names_distinct(ms: Seq<ModuleV>) -> bool {
    forall|i: int, j: int| 0 <= i < j < ms.len() ==> ms[i].name != ms[j].name
}

/// The module stored under `name`, if any.
pub open spec fn module_named(ms: Seq<ModuleV>, name: Seq<char>) -> Option<ModuleV> {
    let i = module_index(ms, name, 0);
    if 0 <= i < ms.len() {
        Some(ms[i])
    } else {
        None
    }
}

pub proof fn lemma_module_index(ms: Seq<ModuleV>, name: Seq<char>, i: int)
    requires
        0 <= i,
    ensures
        module_index(ms, name, i) == -1 || (i <= module_index(ms, name, i) < ms.len()
            && ms[module_index(ms, name, i)].name == name),
        forall|k: int|
            i <= k < ms.len() && (module_index(ms, name, i) == -1 || k < module_index(
                ms,
                name,
                i,
            )) ==> #[trigger] ms[k].name != name,
    decreases ms.len() - i,
{
    if i < ms.len() && ms[i].name != name {
        lemma_module_index(ms, name, i + 1);
    }
}

/// Storing a module under its name: looking that name up gives the module
/// stored, and looking up any other name gives what it gave before.
pub proof fn lookup_after_insert(ms: Seq<ModuleV>, m: ModuleV, other: Seq<char>)
    requires
        other != m.name,
    ensures
        module_named(insert_module(ms, m), m.name) == Some(m),
        module_named(insert_module(ms, m), other) == module_named(ms, other),
{
    let r = insert_module(ms, m);
    lemma_module_index(ms, m.name, 0);
    lemma_module_index(ms, other, 0);
    lemma_module_index(r, m.name, 0);
    lemma_module_index(r, other, 0);
    let i = module_index(ms, m.name, 0);
    let j = module_index(ms, other, 0);
    let ri = module_index(r, m.name, 0);
    let rj = module_index(r, other, 0);
    if i >= 0 {
        assert(r[i].name == m.name);
        if ri != i {
            assert(ri < i ==> r[ri] == ms[ri]);
        }
        assert(ri == i);
        if j >= 0 {
            assert(r[j] == ms[j]);
            if rj != j {
                assert(rj < j ==> r[rj] == ms[rj]);
            }
            assert(rj == j);
        } else if rj >= 0 {
            assert(r[rj] == ms[rj]);
        }
    } else {
        assert(r[ms.len() as int] == m);
        if ri != ms.len() {
            assert(ri < ms.len() ==> r[ri] == ms[ri]);
        }
        if j >= 0 {
            assert(r[j] == ms[j]);
            if rj != j {
                assert(rj < j ==> r[rj] == ms[rj]);
            }
        } else if rj >= 0 {
            assert(rj < ms.len() ==> r[rj] == ms[rj]);
        }
    }
}

/// Storing a module under its name keeps the names of the modules distinct.
pub proof fn insert_keeps_names_distinct(ms: Seq<ModuleV>, m: ModuleV)
    requires
        names_distinct(ms),
    ensures
        names_distinct(insert_module(ms, m)),
{
    lemma_module_index(ms, m.name, 0);
    let r = insert_module(ms, m);
    let i = module_index(ms, m.name, 0);
    assert forall|a: int, b: int| 0 <= a < b < r.len() implies r[a].name != r[b].name by {
        if i < 0 {
            if b == ms.len() {
                assert(r[a] == ms[a]);
            }
        }
    }
}

/// Reading a digest keeps the names of the modules distinct.
pub proof fn digest_keeps_names_distinct(ms: Seq<ModuleV>, content: Seq<char>, src: Seq<char>)
    requires
        names_distinct(ms),
    ensures
        names_distinct(digest_modules(ms, content, src)),
{
    let ls = lines(content);
    lemma_digest_run_distinct(ms, ls, src, ls.len() as int);
    let st = digest_run(ms, ls, src, ls.len() as int);
    if st.name.len() > 0 {
        insert_keeps_names_distinct(st.modules, module_of(st.name, st.usings, st.parser.symbols));
    }
}

proof fn lemma_digest_run_distinct(ms: Seq<ModuleV>, ls: Seq<Seq<char>>, src: Seq<char>, k: int)
    requires
        names_distinct(ms),
    ensures
        names_distinct(digest_run(ms, ls, src, k).modules),
    decreases k,
{
    if k > 0 {
        lemma_digest_run_distinct(ms, ls, src, k - 1);
        let st = digest_run(ms, ls, src, k - 1);
        let line = ls[k - 1];
        let st2 = digest_step(st, line, k as u32, src);
        if st2.modules != st.modules {
            let opens = contains(line, ":= module:"@) && decl_name_end(line, ":= module:"@) is Some;
            let name1 = if opens {
                line.subrange(0, decl_name_end(line, ":= module:"@)->0)
            } else {
                st.name
            };
            let usings1 = if opens {
                Seq::empty()
            } else {
                st.usings
            };
            let parser1 = line_step(st.parser, line, k as u32, src);
            let usings2 = if starts_with(line, "using {"@) {
                match using_from(line, 0) {
                    Some((a, b)) => usings1.push(line.subrange(a, b)),
                    None => usings1,
                }
            } else {
                usings1
            };
            insert_keeps_names_distinct(st.modules, module_of(name1, usings2, parser1.symbols));
        }
    }
}

/// Every module stored afterwards is `m` or one of `ms`.
proof fn lemma_insert_elements(ms: Seq<ModuleV>, m: ModuleV)
    ensures
        forall|i: int|
            0 <= i < insert_module(ms, m).len() ==> #[trigger] insert_module(ms, m)[i] == m
                || ms.contains(insert_module(ms, m)[i]),
{
    let r = insert_module(ms, m);
    lemma_module_index(ms, m.name, 0);
    assert forall|i: int| 0 <= i < r.len() implies #[trigger] r[i] == m || ms.contains(r[i]) by {
        if r[i] != m {
            assert(i < ms.len());
            assert(r[i] == ms[i]);
        }
    }
}

/// Modules of `st` were held before or were read from `src`.
pub open spec fn modules_from(st: Seq<ModuleV>, ms: Seq<ModuleV>, src: Seq<char>) -> bool {
    forall|i: int|
        0 <= i < st.len() ==> ms.contains(#[trigger] st[i]) || from_source(st[i].symbols, src)
}

proof fn lemma_digest_run_source(ms: Seq<ModuleV>, ls: Seq<Seq<char>>, src: Seq<char>, k: int)
    ensures
        modules_from(digest_run(ms, ls, src, k).modules, ms, src),
        from_source(digest_run(ms, ls, src, k).parser.symbols, src),
    decreases k,
{
    if k <= 0 {
        assert forall|i: int| 0 <= i < ms.len() implies ms.contains(#[trigger] ms[i])
            || from_source(ms[i].symbols, src) by {
            assert(ms.contains(ms[i]));
        }
    } else {
        lemma_digest_run_source(ms, ls, src, k - 1);
        let st = digest_run(ms, ls, src, k - 1);
        let line = ls[k - 1];
        line_step_keeps_source(st.parser, line, k as u32, src);
        let parser1 = line_step(st.parser, line, k as u32, src);
        let st2 = digest_step(st, line, k as u32, src);
        if st2.modules != st.modules {
            let opens = contains(line, ":= module:"@) && decl_name_end(line, ":= module:"@) is Some;
            let name1 = if opens {
                line.subrange(0, decl_name_end(line, ":= module:"@)->0)
            } else {
                st.name
            };
            let usings1 = if opens {
                Seq::empty()
            } else {
                st.usings
            };
            let usings2 = if starts_with(line, "using {"@) {
                match using_from(line, 0) {
                    Some((a, b)) => usings1.push(line.subrange(a, b)),
                    None => usings1,
                }
            } else {
                usings1
            };
            let m = module_of(name1, usings2, parser1.symbols);
            lemma_insert_elements(st.modules, m);
            assert forall|i: int| 0 <= i < st2.modules.len() implies ms.contains(
                #[trigger] st2.modules[i],
            ) || from_source(st2.modules[i].symbols, src) by {
                if st2.modules[i] != m {
                    let j = choose|j: int| 0 <= j < st.modules.len() && st.modules[j] == st2.modules[i];
                    assert(ms.contains(st.modules[j]) || from_source(st.modules[j].symbols, src));
                }
            }
        }
    }
}

/// Reading a digest named `src` adds only modules whose symbols all carry
/// `src` as their source: every module afterwards was held before or was
/// read from that digest.
pub proof fn digest_modules_from_source(ms: Seq<ModuleV>, content: Seq<char>, src: Seq<char>)
    ensures
        modules_from(digest_modules(ms, content, src), ms, src),
{
    let ls = lines(content);
    lemma_digest_run_source(ms, ls, src, ls.len() as int);
    let st = digest_run(ms, ls, src, ls.len() as int);
    if st.name.len() > 0 {
        let m = module_of(st.name, st.usings, st.parser.symbols);
        lemma_insert_elements(st.modules, m);
        let r = insert_module(st.modules, m);
        assert forall|i: int| 0 <= i < r.len() implies ms.contains(#[trigger] r[i]) || from_source(
            r[i].symbols,
            src,
        ) by {
            if r[i] != m {
                let j = choose|j: int| 0 <= j < st.modules.len() && st.modules[j] == r[i];
                assert(ms.contains(st.modules[j]) || from_source(st.modules[j].symbols, src));
            }
        }
    }
}

/// Every symbol of `ss` is public.
pub open spec fn all_public(ss: Seq<SymbolV>) -> bool {
    forall|i: int| 0 <= i < ss.len() ==> (#[trigger] ss[i]).visibility == Visibility::Public
}

/// Every module of `ms` holds only public symbols.
pub open spec fn modules_public(ms: Seq<ModuleV>) -> bool {
    forall|i: int| 0 <= i < ms.len() ==> all_public(#[trigger] ms[i].symbols)
}

/// What every database read from digests keeps: module names are
/// distinct, every symbol is public, and the list of all symbols is the
/// modules' symbols in module order.
pub open spec fn consistent(db: SymbolDbV) -> bool {
    &&& names_distinct(db.modules)
    &&& modules_public(db.modules)
    &&& all_public(db.all_symbols)
    &&& db.all_symbols == flatten(db.modules)
}

/// The symbols of modules holding only public symbols are all public.
pub proof fn flatten_public(ms: Seq<ModuleV>)
    requires
        modules_public(ms),
    ensures
        all_public(flatten(ms)),
    decreases ms.len(),
{
    if ms.len() > 0 {
        flatten_public(ms.drop_last());
        let a = flatten(ms.drop_last());
        let b = ms.last().symbols;
        assert(all_public(b));
        assert forall|i: int| 0 <= i < (a + b).len() implies (#[trigger] (a + b)[i]).visibility
            == Visibility::Public by {
            if i >= a.len() {
                assert((a + b)[i] == b[i - a.len()]);
            }
        }
    }
}

proof fn lemma_line_step_public(p: ParserV, line: Seq<char>, num: u32, src: Seq<char>)
    requires
        all_public(p.symbols),
    ensures
        all_public(line_step(p, line, num, src).symbols),
{
    line_step_adds_at_most_one(p, line, num, src);
    let q = line_step(p, line, num, src).symbols;
    if q != p.symbols {
        assert forall|i: int| 0 <= i < q.len() implies (#[trigger] q[i]).visibility
            == Visibility::Public by {
            if i < q.len() - 1 {
                assert(q[i] == q.drop_last()[i]);
            }
        }
    }
}

proof fn lemma_insert_public(ms: Seq<ModuleV>, m: ModuleV)
    requires
        modules_public(ms),
        all_public(m.symbols),
    ensures
        modules_public(insert_module(ms, m)),
{
    lemma_insert_elements(ms, m);
    let r = insert_module(ms, m);
    assert forall|i: int| 0 <= i < r.len() implies all_public(#[trigger] r[i].symbols) by {
        if r[i] != m {
            let j = choose|j: int| 0 <= j < ms.len() && ms[j] == r[i];
            assert(all_public(ms[j].symbols));
        }
    }
}

/// No line of `content` starts with `k` followed by `<`, so no module of
/// that name is declared in it.
pub open spec fn declares_no_module_named(content: Seq<char>, k: Seq<char>) -> bool {
    forall|i: int|
        0 <= i < lines(content).len() ==> !starts_with(#[trigger] lines(content)[i], k + "<"@)
}

proof fn lemma_declared_name(line: Seq<char>, tail: Seq<char>, k: Seq<char>)
    requires
        decl_name_end(line, tail) is Some,
        !starts_with(line, k + "<"@),
    ensures
        line.subrange(0, decl_name_end(line, tail)->0) != k,
{
    reveal_strlit("<");
    crate::text::lemma_ident_end_bounds(line, 0);
    let n = decl_name_end(line, tail)->0;
    assert(0 <= n < line.len() && line[n] == '<');
    if line.subrange(0, n) == k {
        assert(line.subrange(0, n + 1) =~= k + "<"@);
        assert(starts_with(line, k + "<"@));
    }
}

proof fn lemma_digest_run_keeps(
    ms: Seq<ModuleV>,
    content: Seq<char>,
    src: Seq<char>,
    j: int,
    k: Seq<char>,
)
    requires
        declares_no_module_named(content, k),
        j <= lines(content).len(),
    ensures
        digest_run(ms, lines(content), src, j).name.len() == 0 || digest_run(
            ms,
            lines(content),
            src,
            j,
        ).name != k,
        module_named(digest_run(ms, lines(content), src, j).modules, k) == module_named(ms, k),
        modules_public(ms) ==> modules_public(digest_run(ms, lines(content), src, j).modules)
            && all_public(digest_run(ms, lines(content), src, j).parser.symbols),
    decreases j,
{
    let ls = lines(content);
    if j > 0 {
        lemma_digest_run_keeps(ms, content, src, j - 1, k);
        let st = digest_run(ms, ls, src, j - 1);
        let line = ls[j - 1];
        assert(!starts_with(ls[j - 1], k + "<"@));
        let opens = contains(line, ":= module:"@) && decl_name_end(line, ":= module:"@) is Some;
        if opens {
            lemma_declared_name(line, ":= module:"@, k);
        }
        let name1 = if opens {
            line.subrange(0, decl_name_end(line, ":= module:"@)->0)
        } else {
            st.name
        };
        let usings1 = if opens {
            Seq::empty()
        } else {
            st.usings
        };
        let parser1 = line_step(st.parser, line, j as u32, src);
        let usings2 = if starts_with(line, "using {"@) {
            match using_from(line, 0) {
                Some((a, b)) => usings1.push(line.subrange(a, b)),
                None => usings1,
            }
        } else {
            usings1
        };
        if modules_public(ms) {
            lemma_line_step_public(st.parser, line, j as u32, src);
        }
        if trim(line).len() == 0 && name1.len() > 0 {
            let m = module_of(name1, usings2, parser1.symbols);
            lookup_after_insert(st.modules, m, k);
            if modules_public(ms) {
                lemma_insert_public(st.modules, m);
            }
        }
    }
}

/// Reading a digest that declares no module named `k` leaves the module
/// stored under `k` as it was; and when every module held public symbols
/// only, every module afterwards does too.
pub proof fn digest_keeps_other_modules(
    ms: Seq<ModuleV>,
    content: Seq<char>,
    src: Seq<char>,
    k: Seq<char>,
)
    requires
        declares_no_module_named(content, k),
    ensures
        module_named(digest_modules(ms, content, src), k) == module_named(ms, k),
        modules_public(ms) ==> modules_public(digest_modules(ms, content, src)),
{
    let ls = lines(content);
    lemma_digest_run_keeps(ms, content, src, ls.len() as int, k);
    let st = digest_run(ms, ls, src, ls.len() as int);
    if st.name.len() > 0 {
        let m = module_of(st.name, st.usings, st.parser.symbols);
        lookup_after_insert(st.modules, m, k);
        if modules_public(ms) {
            lemma_insert_public(st.modules, m);
        }
    }
}

/// Every module read from a digest into a database of public symbols
/// holds public symbols only, so all symbols of the database are public.
pub proof fn digest_symbols_are_public(ms: Seq<ModuleV>, content: Seq<char>, src: Seq<char>)
    requires
        modules_public(ms),
    ensures
        modules_public(digest_modules(ms, content, src)),
        all_public(flatten(digest_modules(ms, content, src))),
{
    let ls = lines(content);
    lemma_digest_run_public(ms, content, src, ls.len() as int);
    let st = digest_run(ms, ls, src, ls.len() as int);
    if st.name.len() > 0 {
        lemma_insert_public(st.modules, module_of(st.name, st.usings, st.parser.symbols));
    }
    flatten_public(digest_modules(ms, content, src));
}

proof fn lemma_digest_run_public(ms: Seq<ModuleV>, content: Seq<char>, src: Seq<char>, j: int)
    requires
        modules_public(ms),
    ensures
        modules_public(digest_run(ms, lines(content), src, j).modules),
        all_public(digest_run(ms, lines(content), src, j).parser.symbols),
    decreases j,
{
    let ls = lines(content);
    if j > 0 {
        lemma_digest_run_public(ms, content, src, j - 1);
        let st = digest_run(ms, ls, src, j - 1);
        let line = ls[j - 1];
        lemma_line_step_public(st.parser, line, j as u32, src);
        let st2 = digest_step(st, line, j as u32, src);
        if st2.modules != st.modules {
            let opens = contains(line, ":= module:"@) && decl_name_end(line, ":= module:"@) is Some;
            let name1 = if opens {
                line.subrange(0, decl_name_end(line, ":= module:"@)->0)
            } else {
                st.name
            };
            let usings1 = if opens {
                Seq::empty()
            } else {
                st.usings
            };
            let parser1 = line_step(st.parser, line, j as u32, src);
            let usings2 = if starts_with(line, "using {"@) {
                match using_from(line, 0) {
                    Some((a, b)) => usings1.push(line.subrange(a, b)),
                    None => usings1,
                }
            } else {
                usings1
            };
            lemma_insert_public(st.modules, module_of(name1, usings2, parser1.symbols));
        }
    }
}

/// Every symbol that `public_symbols` keeps is public, every public symbol
/// is kept, and nothing else is.
pub proof fn public_symbols_are_public(s: Seq<SymbolV>)
    ensures
        forall|i: int|
            0 <= i < public_symbols(s).len() ==> (#[trigger] public_symbols(s)[i]).visibility
                == Visibility::Public && s.contains(public_symbols(s)[i]),
        forall|j: int|
            0 <= j < s.len() && (#[trigger] s[j]).visibility == Visibility::Public
                ==> public_symbols(s).contains(s[j]),
    decreases s.len(),
{
    if s.len() > 0 {
        let rest = public_symbols(s.drop_last());
        public_symbols_are_public(s.drop_last());
        assert forall|i: int| 0 <= i < public_symbols(s).len() implies (#[trigger] public_symbols(
            s,
        )[i]).visibility == Visibility::Public && s.contains(public_symbols(s)[i]) by {
            if i < rest.len() {
                assert(public_symbols(s)[i] == rest[i]);
                let k = choose|k: int| 0 <= k < s.drop_last().len() && s.drop_last()[k] == rest[i];
                assert(s[k] == rest[i]);
            } else {
                assert(s[s.len() - 1] == s.last());
            }
        }
        assert forall|j: int|
            0 <= j < s.len() && (#[trigger] s[j]).visibility
                == Visibility::Public implies public_symbols(s).contains(s[j]) by {
            if j < s.len() - 1 {
                assert(s.drop_last()[j] == s[j]);
                let k = choose|k: int| 0 <= k < rest.len() && rest[k] == s[j];
                assert(public_symbols(s)[k] == rest[k]);
            } else {
                assert(public_symbols(s)[rest.len() as int] == s[j]);
            }
        }
    }
}

/// A symbol is found by a search exactly when its lower-cased name
/// contains the query; results keep their order in `s`.
pub proof fn search_results_match(s: Seq<SymbolV>, q: Seq<char>)
    ensures
        forall|i: int|
            0 <= i < name_matches(s, q).len() ==> contains(
                lowercase((#[trigger] name_matches(s, q)[i]).name),
                q,
            ) && s.contains(name_matches(s, q)[i]),
        forall|j: int|
            0 <= j < s.len() && contains(lowercase((#[trigger] s[j]).name), q) ==> name_matches(
                s,
                q,
            ).contains(s[j]),
    decreases s.len(),
{
    if s.len() > 0 {
        let rest = name_matches(s.drop_last(), q);
        search_results_match(s.drop_last(), q);
        assert forall|i: int| 0 <= i < name_matches(s, q).len() implies contains(
            lowercase((#[trigger] name_matches(s, q)[i]).name),
            q,
        ) && s.contains(name_matches(s, q)[i]) by {
            if i < rest.len() {
                assert(name_matches(s, q)[i] == rest[i]);
                let k = choose|k: int| 0 <= k < s.drop_last().len() && s.drop_last()[k] == rest[i];
                assert(s[k] == rest[i]);
            } else {
                assert(s[s.len() - 1] == s.last());
            }
        }
        assert forall|j: int|
            0 <= j < s.len() && contains(
                lowercase((#[trigger] s[j]).name),
                q,
            ) implies name_matches(s, q).contains(s[j]) by {
            if j < s.len() - 1 {
                assert(s.drop_last()[j] == s[j]);
                let k = choose|k: int| 0 <= k < rest.len() && rest[k] == s[j];
                assert(name_matches(s, q)[k] == rest[k]);
            } else {
                assert(name_matches(s, q)[rest.len() as int] == s[j]);
            }
        }
    }
}

/// The empty query matches every symbol.
pub proof fn name_matches_empty_query(s: Seq<SymbolV>)
    ensures
        name_matches(s, Seq::empty()) == s,
    decreases s.len(),
{
    if s.len() > 0 {
        name_matches_empty_query(s.drop_last());
        let n = lowercase(s.last().name);
        assert(n.subrange(0, 0) =~= Seq::<char>::empty());
        assert(occurs_at(n, 0, Seq::empty()));
        assert(s.drop_last().push(s.last()) =~= s);
    }
}

/// Search keeps, in order, exactly the symbols whose lower-cased name
/// contains the query somewhere (not only at its start).
pub proof fn name_matches_filters_by_substring(s: Seq<SymbolV>, q: Seq<char>)
    ensures
        name_matches(s, q) == s.filter(|x: SymbolV| contains(lowercase(x.name), q)),
    decreases s.len(),
{
    reveal(Seq::filter);
    if s.len() > 0 {
        name_matches_filters_by_substring(s.drop_last(), q);
    }
}

/// Search ignores the case of an ASCII query: the query upper-cased, which
/// is ASCII too, lower-cases to the same text and so finds the same symbols.
pub proof fn search_ignores_ascii_case(s: Seq<SymbolV>, q: Seq<char>)
    requires
        is_ascii_text(q),
    ensures
        is_ascii_text(ascii_upper(q)),
        name_matches(s, ascii_lower(ascii_upper(q))) == name_matches(s, ascii_lower(q)),
{
    ascii_lower_ignores_case(q);
}

/// The class found under a name is the first class of that name; none is
/// found only when there is no class of that name.
pub proof fn class_lookup_sound(s: Seq<SymbolV>, name: Seq<char>)
    ensures
        class_index(s, name, 0) >= 0 ==> s[class_index(s, name, 0)].kind == SymbolKind::Class
            && s[class_index(s, name, 0)].name == name,
        class_index(s, name, 0) == -1 ==> forall|j: int|
            0 <= j < s.len() ==> !((#[trigger] s[j]).kind == SymbolKind::Class && s[j].name
                == name),
{
    lemma_class_index_sound(s, name, 0);
}

proof fn lemma_class_index_sound(s: Seq<SymbolV>, name: Seq<char>, i: int)
    requires
        0 <= i,
    ensures
        class_index(s, name, i) >= 0 ==> i <= class_index(s, name, i) < s.len() && s[class_index(
            s,
            name,
            i,
        )].kind == SymbolKind::Class && s[class_index(s, name, i)].name == name,
        class_index(s, name, i) == -1 ==> forall|j: int|
            i <= j < s.len() ==> !((#[trigger] s[j]).kind == SymbolKind::Class && s[j].name
                == name),
    decreases s.len() - i,
{
    if i < s.len() && !(s[i].kind == SymbolKind::Class && s[i].name == name) {
        lemma_class_index_sound(s, name, i + 1);
    }
}

/// Extension methods found for a type are exactly the methods of `s`
/// whose receiver is that type.
pub proof fn extension_methods_sound(s: Seq<SymbolV>, t: Seq<char>)
    ensures
        forall|i: int|
            0 <= i < extension_methods(s, t).len() ==> extends(
                #[trigger] extension_methods(s, t)[i],
                t,
            ) && s.contains(extension_methods(s, t)[i]),
        forall|j: int| 0 <= j < s.len() && extends(#[trigger] s[j], t) ==> extension_methods(
            s,
            t,
        ).contains(s[j]),
    decreases s.len(),
{
    if s.len() > 0 {
        let rest = extension_methods(s.drop_last(), t);
        extension_methods_sound(s.drop_last(), t);
        assert forall|i: int| 0 <= i < extension_methods(s, t).len() implies extends(
            #[trigger] extension_methods(s, t)[i],
            t,
        ) && s.contains(extension_methods(s, t)[i]) by {
            if i < rest.len() {
                assert(extension_methods(s, t)[i] == rest[i]);
                let k = choose|k: int| 0 <= k < s.drop_last().len() && s.drop_last()[k] == rest[i];
                assert(s[k] == rest[i]);
            } else {
                assert(s[s.len() - 1] == s.last());
            }
        }
        assert forall|j: int| 0 <= j < s.len() && extends(#[trigger] s[j], t) implies extension_methods(
            s,
            t,
        ).contains(s[j]) by {
            if j < s.len() - 1 {
                assert(s.drop_last()[j] == s[j]);
                let k = choose|k: int| 0 <= k < rest.len() && rest[k] == s[j];
                assert(extension_methods(s, t)[k] == rest[k]);
            } else {
                assert(extension_methods(s, t)[rest.len() as int] == s[j]);
            }
        }
    }
}

/// The Verse, Fortnite and Unreal Engine digests read in that order into an
/// empty database, each under its API's name.
pub open spec fn api_modules(verse: Seq<char>, fortnite: Seq<char>, unreal: Seq<char>) -> Seq<
    ModuleV,
> {
    digest_modules(
        digest_modules(digest_modules(Seq::empty(), verse, "Verse"@), fortnite, "Fortnite"@),
        unreal,
        "UnrealEngine"@,
    )
}

/// Stand-in digest for the Verse API when no digest file is supplied: it
/// declares the module and nothing in it.
pub const VERSE_DIGEST: &'static str = "Verse<public> := module:\n";

/// Stand-in digest for the Fortnite API when no digest file is supplied: it
/// declares the module and nothing in it.
pub const FORTNITE_DIGEST: &'static str = "Fortnite<public> := module:\n";

/// Stand-in digest for the Unreal Engine API when no digest file is
/// supplied: it declares the module and nothing in it.
pub const UNREAL_ENGINE_DIGEST: &'static str = "UnrealEngine<public> := module:\n";

/// Modules of the stand-in digests: the three API modules, empty.
pub open spec fn bundled_modules() -> Seq<ModuleV> {
    api_modules(VERSE_DIGEST@, FORTNITE_DIGEST@, UNREAL_ENGINE_DIGEST@)
}

impl SymbolDb {
    /// A database holding the Verse, Fortnite and Unreal Engine API digests
    /// given as texts (the contents of `Verse.digest.verse`,
    /// `Fortnite.digest.verse` and `UnrealEngine.digest.verse`).
    pub fn load_digests(verse: &str, fortnite: &str, unreal: &str) -> (r: Self)
        requires
            lines(verse@).len() < u32::MAX,
            lines(fortnite@).len() < u32::MAX,
            lines(unreal@).len() < u32::MAX,
        ensures
            r@.modules == api_modules(verse@, fortnite@, unreal@),
            r@.all_symbols == flatten(r@.modules),
            consistent(r@),
    {
        let mut db = Self::new();
        db.parse_digest(verse, "Verse");
        db.parse_digest(fortnite, "Fortnite");
        db.parse_digest(unreal, "UnrealEngine");
        db
    }

    /// A database built from the stand-in digests: the Verse, Fortnite and
    /// Unreal Engine modules, declared and empty. The API declarations
    /// themselves come from the digest files, through `load_digests`.
    pub fn load_bundled() -> (r: Self)
        ensures
            r@.modules == bundled_modules(),
            r@.all_symbols == flatten(r@.modules),
            consistent(r@),
    {
        proof {
            reveal_strlit("Verse<public> := module:\n");
            reveal_strlit("Fortnite<public> := module:\n");
            reveal_strlit("UnrealEngine<public> := module:\n");
            crate::text::lemma_lines_from_len(VERSE_DIGEST@, 0);
            crate::text::lemma_lines_from_len(FORTNITE_DIGEST@, 0);
            crate::text::lemma_lines_from_len(UNREAL_ENGINE_DIGEST@, 0);
        }
        Self::load_digests(VERSE_DIGEST, FORTNITE_DIGEST, UNREAL_ENGINE_DIGEST)
    }

    pub fn new() -> (r: Self)
        ensures
            r@.modules == Seq::<ModuleV>::empty(),
            r@.all_symbols == Seq::<SymbolV>::empty(),
            consistent(r@),
    {
        let r = SymbolDb { modules: Vec::new(), all_symbols: Vec::new() };
        assert(modules_view(r.modules@) =~= Seq::<ModuleV>::empty());
        r
    }

    /// Stores `m` under its name.
    fn insert(&mut self, m: Module)
        ensures
            final(self)@.modules == insert_module(old(self)@.modules, m@),
            final(self)@.all_symbols == old(self)@.all_symbols,
    {
        let ghost ms = self@.modules;
        let mut i: usize = 0;
        while i < self.modules.len()
            invariant
                i <= self.modules.len(),
                self@ == old(self)@,
                ms == self@.modules,
                module_index(ms, m@.name, 0) == module_index(ms, m@.name, i as int),
            decreases self.modules.len() - i,
        {
            if self.modules[i].name == m.name {
                let ghost mv = m@;
                self.modules.set(i, m);
                proof {
                    assert(modules_view(self.modules@) =~= ms.update(i as int, mv));
                }
                return;
            }
            i = i + 1;
        }
        let ghost mv = m@;
        self.modules.push(m);
        proof {
            assert(modules_view(self.modules@) =~= ms.push(mv));
        }
    }

    /// Recomputes the list of all symbols from the modules.
    fn collect_all(&mut self)
        ensures
            final(self)@.modules == old(self)@.modules,
            final(self)@.all_symbols == flatten(old(self)@.modules),
    {
        let mut all: Vec<Symbol> = Vec::new();
        let mut i: usize = 0;
        while i < self.modules.len()
            invariant
                i <= self.modules.len(),
                self@ == old(self)@,
                symbols_view(all@) == flatten(self@.modules.take(i as int)),
            decreases self.modules.len() - i,
        {
            let mut j: usize = 0;
            let ghost before = all@;
            while j < self.modules[i].symbols.len()
                invariant
                    i < self.modules.len(),
                    j <= self.modules[i as int].symbols.len(),
                    self@ == old(self)@,
                    symbols_view(all@) == symbols_view(before) + symbols_view(
                        self.modules[i as int].symbols@.take(j as int),
                    ),
                decreases self.modules[i as int].symbols.len() - j,
            {
                let c = self.modules[i].symbols[j].copy();
                proof {
                    let ss = self.modules[i as int].symbols@;
                    lemma_symbols_view_push(all@, c);
                    assert(ss.take(j + 1) =~= ss.take(j as int).push(ss[j as int]));
                    lemma_symbols_view_push(ss.take(j as int), ss[j as int]);
                }
                all.push(c);
                j = j + 1;
            }
            proof {
                let ms = self@.modules;
                let ss = self.modules[i as int].symbols@;
                assert(ss.take(ss.len() as int) =~= ss);
                assert(ms.take(i + 1).drop_last() =~= ms.take(i as int));
                assert(ms[i as int] == self.modules[i as int]@);
            }
            i = i + 1;
        }
        proof {
            assert(self@.modules.take(self.modules.len() as int) =~= self@.modules);
        }
        self.all_symbols = all;
    }

    /// Reads one digest file: its modules are added (a module replaces an
    /// earlier one of the same name) and the list of all symbols is rebuilt.
    pub fn parse_digest(&mut self, content: &str, source: &str)
        requires
            lines(content@).len() < u32::MAX,
        ensures
            final(self)@.modules == digest_modules(old(self)@.modules, content@, source@),
            final(self)@.all_symbols == flatten(final(self)@.modules),
            forall|k: Seq<char>|
                declares_no_module_named(content@, k) ==> #[trigger] module_named(
                    final(self)@.modules,
                    k,
                ) == module_named(old(self)@.modules, k),
            consistent(old(self)@) ==> consistent(final(self)@),
    {
        let text = chars_of(content);
        let ls = split_lines(&text);
        let ghost lsv = lines(content@);
        let ghost ms0 = self@.modules;
        let module_tail = chars_of(":= module:");
        let using_lit = chars_of("using {");
        let mut parser = Parser::new();
        let mut current_module_name: Vec<char> = Vec::new();
        let mut module_usings: Vec<String> = Vec::new();
        let mut k: usize = 0;
        proof {
            assert(current_module_name@ =~= Seq::<char>::empty());
            assert(views(module_usings@) =~= Seq::<Seq<char>>::empty());
        }
        while k < ls.len()
            invariant
                k <= ls.len(),
                ls@.len() == lsv.len(),
                lsv.len() < u32::MAX,
                forall|x: int| 0 <= x < ls@.len() ==> #[trigger] ls@[x]@ == lsv[x],
                module_tail@ == ":= module:"@,
                using_lit@ == "using {"@,
                digest_run(ms0, lsv, source@, k as int) == (DigestState {
                    parser: parser@,
                    name: current_module_name@,
                    usings: views(module_usings@),
                    modules: self@.modules,
                }),
            decreases ls.len() - k,
        {
            let line = &ls[k];
            let line_num: u32 = k as u32 + 1;
            if contains_exec(line, &module_tail) {
                match decl_name(line, &module_tail) {
                    Some(n) => {
                        current_module_name = crate::text::slice_chars(line, 0, n);
                        module_usings = Vec::new();
                        proof {
                            assert(views(module_usings@) =~= Seq::<Seq<char>>::empty());
                        }
                    },
                    None => {},
                }
            }
            let line_str = string_of_all(line);
            parser.parse_line(line_str.as_str(), line_num, source);
            if starts_with_exec(line, &using_lit) {
                match using_path(line) {
                    Some((a, b)) => {
                        let p = string_of(line, a, b);
                        proof {
                            assert(views(module_usings@.push(p)) =~= views(module_usings@).push(
                                p@,
                            ));
                        }
                        module_usings.push(p);
                    },
                    None => {},
                }
            }
            let t = trimmed(line);
            if t.len() == 0 && current_module_name.len() > 0 {
                let symbols = parser.copy_symbols();
                let name = string_of_all(&current_module_name);
                let module = Module {
                    name: name.clone(),
                    path: name,
                    usings: copy_strings(&module_usings),
                    symbols,
                };
                self.insert(module);
                current_module_name = Vec::new();
                proof {
                    assert(current_module_name@ =~= Seq::<char>::empty());
                }
            }
            k = k + 1;
        }
        if current_module_name.len() > 0 {
            let name = string_of_all(&current_module_name);
            let module = Module {
                name: name.clone(),
                path: name,
                usings: copy_strings(&module_usings),
                symbols: parser.into_symbols(),
            };
            self.insert(module);
        }
        self.collect_all();
        proof {
            if consistent(old(self)@) {
                digest_symbols_are_public(ms0, content@, source@);
                digest_keeps_names_distinct(ms0, content@, source@);
            }
            assert forall|k: Seq<char>| declares_no_module_named(content@, k) implies #[trigger] module_named(
                self@.modules,
                k,
            ) == module_named(ms0, k) by {
                digest_keeps_other_modules(ms0, content@, source@, k);
            }
        }
    }

    pub fn find_class(&self, name: &str) -> (r: Option<&Symbol>)
        ensures
            match r {
                Some(s) => class_index(self@.all_symbols, name@, 0) >= 0 && s@
                    == self@.all_symbols[class_index(self@.all_symbols, name@, 0)],
                None => class_index(self@.all_symbols, name@, 0) == -1,
            },
    {
        let name_s = crate::text::to_string(name);
        let mut i: usize = 0;
        proof {
            lemma_symbols_view_len(self.all_symbols@);
        }
        while i < self.all_symbols.len()
            invariant
                i <= self.all_symbols.len(),
                name_s@ == name@,
                self@.all_symbols.len() == self.all_symbols@.len(),
                class_index(self@.all_symbols, name@, 0) == class_index(
                    self@.all_symbols,
                    name@,
                    i as int,
                ),
            decreases self.all_symbols.len() - i,
        {
            proof {
                lemma_symbols_view_index(self.all_symbols@, i as int);
            }
            let s = &self.all_symbols[i];
            if s.kind == SymbolKind::Class && s.name == name_s {
                return Some(s);
            }
            i = i + 1;
        }
        None
    }

    pub fn find_extension_methods(&self, receiver_type: &str) -> (r: Vec<&Symbol>)
        ensures
            refs_view(r@) == extension_methods(self@.all_symbols, receiver_type@),
    {
        let tn = crate::text::to_string(receiver_type);
        let mut r: Vec<&Symbol> = Vec::new();
        let mut i: usize = 0;
        proof {
            lemma_symbols_view_len(self.all_symbols@);
        }
        while i < self.all_symbols.len()
            invariant
                i <= self.all_symbols.len(),
                tn@ == receiver_type@,
                self@.all_symbols.len() == self.all_symbols@.len(),
                refs_view(r@) == extension_methods(self@.all_symbols.take(i as int), receiver_type@),
            decreases self.all_symbols.len() - i,
        {
            proof {
                lemma_symbols_view_index(self.all_symbols@, i as int);
                lemma_take_step(self@.all_symbols, i as int);
            }
            let s = &self.all_symbols[i];
            let hit = match &s.detail {
                SymbolDetail::Method { receiver: Some(rv), .. } => *rv == tn,
                _ => false,
            };
            if hit {
                proof {
                    lemma_refs_view_push(r@, s);
                }
                r.push(s);
            }
            i = i + 1;
        }
        proof {
            assert(self@.all_symbols.take(self.all_symbols.len() as int) =~= self@.all_symbols);
        }
        r
    }

    pub fn search(&self, query: &str) -> (r: Vec<&Symbol>)
        ensures
            refs_view(r@) == name_matches(self@.all_symbols, lowercase(query@)),
            query@.len() == 0 ==> refs_view(r@) == self@.all_symbols,
            is_ascii_text(query@) ==> refs_view(r@) == name_matches(
                self@.all_symbols,
                ascii_lower(query@),
            ),
    {
        let q = to_lower(query);
        proof {
            if query@.len() == 0 {
                assert(q@ =~= Seq::<char>::empty());
                name_matches_empty_query(self@.all_symbols);
            }
        }
        let qv = chars_of(q.as_str());
        let mut r: Vec<&Symbol> = Vec::new();
        let mut i: usize = 0;
        proof {
            lemma_symbols_view_len(self.all_symbols@);
        }
        while i < self.all_symbols.len()
            invariant
                i <= self.all_symbols.len(),
                qv@ == lowercase(query@),
                self@.all_symbols.len() == self.all_symbols@.len(),
                refs_view(r@) == name_matches(self@.all_symbols.take(i as int), lowercase(query@)),
            decreases self.all_symbols.len() - i,
        {
            proof {
                lemma_symbols_view_index(self.all_symbols@, i as int);
                lemma_take_step(self@.all_symbols, i as int);
            }
            let s = &self.all_symbols[i];
            let lname = to_lower(s.name.as_str());
            let lv = chars_of(lname.as_str());
            if contains_exec(&lv, &qv) {
                proof {
                    lemma_refs_view_push(r@, s);
                }
                r.push(s);
            }
            i = i + 1;
        }
        proof {
            assert(self@.all_symbols.take(self.all_symbols.len() as int) =~= self@.all_symbols);
        }
        r
    }

    pub fn get_module(&self, name: &str) -> (r: Option<&Module>)
        ensures
            match r {
                Some(m) => module_index(self@.modules, name@, 0) >= 0 && m@ == self@.modules[module_index(
                    self@.modules,
                    name@,
                    0,
                )],
                None => module_index(self@.modules, name@, 0) == -1,
            },
    {
        let name_s = crate::text::to_string(name);
        let mut i: usize = 0;
        while i < self.modules.len()
            invariant
                i <= self.modules.len(),
                name_s@ == name@,
                module_index(self@.modules, name@, 0) == module_index(
                    self@.modules,
                    name@,
                    i as int,
                ),
            decreases self.modules.len() - i,
        {
            if self.modules[i].name == name_s {
                return Some(&self.modules[i]);
            }
            i = i + 1;
        }
        None
    }

    pub fn get_public_symbols(&self) -> (r: Vec<&Symbol>)
        ensures
            refs_view(r@) == public_symbols(self@.all_symbols),
    {
        let mut r: Vec<&Symbol> = Vec::new();
        let mut i: usize = 0;
        proof {
            lemma_symbols_view_len(self.all_symbols@);
        }
        while i < self.all_symbols.len()
            invariant
                i <= self.all_symbols.len(),
                self@.all_symbols.len() == self.all_symbols@.len(),
                refs_view(r@) == public_symbols(self@.all_symbols.take(i as int)),
            decreases self.all_symbols.len() - i,
        {
            proof {
                lemma_symbols_view_index(self.all_symbols@, i as int);
                lemma_take_step(self@.all_symbols, i as int);
            }
            let s = &self.all_symbols[i];
            if s.visibility == Visibility::Public {
                proof {
                    lemma_refs_view_push(r@, s);
                }
                r.push(s);
            }
            i = i + 1;
        }
        proof {
            assert(self@.all_symbols.take(self.all_symbols.len() as int) =~= self@.all_symbols);
        }
        r
    }

    /// The modules, in the order they were first read.
    pub fn module_list(&self) -> (r: &[Module])
        ensures
            modules_view(r@) == self@.modules,
    {
        self.modules.as_slice()
    }

    pub fn all_symbols(&self) -> (r: &[Symbol])
        ensures
            symbols_view(r@) == self@.all_symbols,
    {
        self.all_symbols.as_slice()
    }
}

impl Default for SymbolDb {
    fn default() -> (r: Self)
        ensures
            r@.modules == Seq::<ModuleV>::empty(),
            r@.all_symbols == Seq::<SymbolV>::empty(),
    {
        Self::new()
    }
}

} // verus!
