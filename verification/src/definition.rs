//! Go-to-definition: the symbol named by the identifier under the cursor.
use vstd::prelude::*;

use crate::symbol::{Symbol, SymbolV};
use crate::text::{
    append_str, byte_len, chars_of, has_char_exec, lemma_line_bounded, lines, push_decimal, decimal,
    split_lines,
};
use crate::util::{touching_word, word_span};

verus! {

pub struct GotoDefinitionResult {
    pub source: String,
    pub line: u32,
    pub name: String,
}

/// View of a `GotoDefinitionResult`.
pub struct GotoDefinitionResultV {
    pub source: Seq<char>,
    pub line: u32,
    pub name: Seq<char>,
}

impl View for GotoDefinitionResult {
    type V = GotoDefinitionResultV;

    open spec fn view(&self) -> GotoDefinitionResultV {
        GotoDefinitionResultV { source: self.source@, line: self.line, name: self.name@ }
    }
}

/// View of a list of symbol references.
pub open spec fn sym_refs(v: Seq<&Symbol>) -> Seq<SymbolV> {
    Seq::new(v.len(), |i: int| v[i]@)
}

/// Index of the first symbol named `name` at or after `i`, or -1.
pub open spec fn named_index(syms: Seq<SymbolV>, name: Seq<char>, i: int) -> int
    decreases syms.len() - i,
{
    if i < 0 || i >= syms.len() {
        -1
    } else if syms[i].name == name {
        i
    } else {
        named_index(syms, name, i + 1)
    }
}

/// The word touching byte column `col` of line `line` of `content`.
pub open spec fn word_in_content(content: Seq<char>, line: int, col: int) -> Option<Seq<char>> {
    let ls = lines(content);
    if 0 <= line < ls.len() {
        match touching_word(ls[line], col) {
            Some((a, b)) => Some(ls[line].subrange(a, b)),
            None => None,
        }
    } else {
        None
    }
}

/// Index among `syms` of the symbol the cursor names, if any.
pub open spec fn target_index(content: Seq<char>, line: int, col: int, syms: Seq<SymbolV>) -> int {
    match word_in_content(content, line, col) {
        Some(w) => named_index(syms, w, 0),
        None => -1,
    }
}

proof fn lemma_named_index(syms: Seq<SymbolV>, name: Seq<char>, i: int)
    requires
        0 <= i,
    ensures
        named_index(syms, name, i) >= 0 ==> i <= named_index(syms, name, i) < syms.len()
            && syms[named_index(syms, name, i)].name == name,
        named_index(syms, name, i) == -1 ==> forall|j: int|
            i <= j < syms.len() ==> (#[trigger] syms[j]).name != name,
    decreases syms.len() - i,
{
    if 0 <= i < syms.len() && syms[i].name != name {
        lemma_named_index(syms, name, i + 1);
    }
}

/// The symbol the cursor leads to is one named by the word at the cursor;
/// when none is found, no symbol has that name.
pub proof fn target_is_named_by_word(content: Seq<char>, line: int, col: int, syms: Seq<SymbolV>)
    ensures
        target_index(content, line, col, syms) >= 0 ==> target_index(content, line, col, syms)
            < syms.len() && word_in_content(content, line, col) == Some(
            syms[target_index(content, line, col, syms)].name,
        ),
        target_index(content, line, col, syms) == -1 ==> match word_in_content(content, line, col) {
            Some(w) => forall|j: int| 0 <= j < syms.len() ==> (#[trigger] syms[j]).name != w,
            None => true,
        },
{
    match word_in_content(content, line, col) {
        Some(w) => lemma_named_index(syms, w, 0),
        None => {},
    }
}

/// Index of the first symbol named `name`.
pub fn first_named(symbols: &[&Symbol], name: &String) -> (r: Option<usize>)
    ensures
        match r {
            Some(i) => named_index(sym_refs(symbols@), name@, 0) == i && i < symbols@.len(),
            None => named_index(sym_refs(symbols@), name@, 0) == -1,
        },
{
    let ghost sv = sym_refs(symbols@);
    let mut i: usize = 0;
    while i < symbols.len()
        invariant
            i <= symbols@.len(),
            sv == sym_refs(symbols@),
            named_index(sv, name@, 0) == named_index(sv, name@, i as int),
        decreases symbols@.len() - i,
    {
        if symbols[i].name == *name {
            return Some(i);
        }
        i = i + 1;
    }
    None
}

/// Index of the symbol the cursor at (`line`, byte `column`) of `content` names.
pub fn target_symbol(content: &str, line: u32, column: u32, symbols: &[&Symbol]) -> (r: Option<
    usize,
>)
    ensures
        match r {
            Some(i) => target_index(content@, line as int, column as int, sym_refs(symbols@)) == i
                && i < symbols@.len(),
            None => target_index(content@, line as int, column as int, sym_refs(symbols@)) == -1,
        },
{
    let text = chars_of(content);
    let _total = byte_len(content);
    let ls = split_lines(&text);
    if line as usize >= ls.len() {
        return None;
    }
    let current = &ls[line as usize];
    proof {
        lemma_line_bounded(content@, line as int);
    }
    match word_span(current, column as usize, true) {
        Some((x, y, _a, _b)) => {
            let word = crate::text::string_of(current, x, y);
            let wv = crate::text::slice_chars(current, x, y);
            match first_named(symbols, &word) {
                Some(i) => Some(i),
                None => {
                    if has_char_exec(&wv, '.') {
                        proof {
                            let k = choose|k: int| 0 <= k < wv@.len() && wv@[k] == '.';
                            assert(crate::text::is_ident_char(current@[x + k]));
                        }
                    }
                    None
                },
            }
        },
        None => None,
    }
}

pub fn find_definition_at(content: &str, line: u32, column: u32, symbols: &[&Symbol]) -> (r:
    Option<GotoDefinitionResult>)
    ensures
        match r {
            Some(g) => {
                let i = target_index(content@, line as int, column as int, sym_refs(symbols@));
                &&& 0 <= i < symbols@.len()
                &&& g@ == GotoDefinitionResultV {
                    source: symbols@[i]@.location.source,
                    line: symbols@[i]@.location.line,
                    name: symbols@[i]@.name,
                }
            },
            None => target_index(content@, line as int, column as int, sym_refs(symbols@)) == -1,
        },
{
    match target_symbol(content, line, column, symbols) {
        Some(i) => {
            let s = symbols[i];
            Some(
                GotoDefinitionResult {
                    source: s.location.source.clone(),
                    line: s.location.line,
                    name: s.name.clone(),
                },
            )
        },
        None => None,
    }
}

/// Text of a digest location link: `digest://<source>/<line>`.
pub open spec fn digest_uri(source: Seq<char>, line: u32) -> Seq<char> {
    "digest://"@ + source + "/"@ + decimal(line as nat)
}

pub fn create_digest_uri(source: &str, line: u32) -> (r: String)
    ensures
        r@ == digest_uri(source@, line),
{
    let mut r = String::new();
    append_str(&mut r, "digest://");
    append_str(&mut r, source);
    append_str(&mut r, "/");
    push_decimal(&mut r, line as u64);
    assert(r@ =~= digest_uri(source@, line));
    r
}

} // verus!
