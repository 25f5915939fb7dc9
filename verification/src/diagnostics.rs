//! Diagnostics of a Verse source text: unbalanced delimiters, malformed
//! `using` statements and references to unknown types.
use vstd::prelude::*;

use crate::database::{class_index, name_matches, SymbolDb, SymbolDbV};
use crate::text::{
    char_len_utf8, chars_of, contains, contains_exec, eq_str, find_sub, first_at, has_char,
    has_char_exec, ident_at, ident_end, ident_start, is_ident_char, lemma_first_at,
    lemma_utf8_len_concat, lemma_utf8_len_subrange, lemma_utf8_len_take_step, lemma_utf8_take_mono,
    lines, lowercase, occurs_at, occurs_at_exec, skip_ident, skip_ws, slice_chars, split_lines,
    starts_with, starts_with_exec, string_of, string_of_all, to_string, trim, trim_bounds, utf8_len,
    ws_end,
};
use crate::workspace::{group_then_ws, group_then_ws_exec};

verus! {

#[derive(Debug, Clone, Copy, PartialEq, Eq, Structural)]
pub enum DiagnosticSeverity {
    Error,
    Warning,
    Hint,
}

#[derive(Debug, Clone)]
pub struct Diagnostic {
    pub line: u32,
    pub col_start: u32,
    pub col_end: u32,
    pub severity: DiagnosticSeverity,
    pub message: String,
}

/// View of a `Diagnostic`.
pub struct DiagnosticV {
    pub line: u32,
    pub col_start: u32,
    pub col_end: u32,
    pub severity: DiagnosticSeverity,
    pub message: Seq<char>,
}

impl View for Diagnostic {
    type V = DiagnosticV;

    open spec fn view(&self) -> DiagnosticV {
        DiagnosticV {
            line: self.line,
            col_start: self.col_start,
            col_end: self.col_end,
            severity: self.severity,
            message: self.message@,
        }
    }
}

pub open spec fn diags_view(v: Seq<Diagnostic>) -> Seq<DiagnosticV> {
    Seq::new(v.len(), |i: int| v[i]@)
}

/// An error one byte wide at byte column `col` of line `line`.
pub open spec fn error_at(line: u32, col: u32, message: Seq<char>) -> DiagnosticV {
    DiagnosticV {
        line,
        col_start: col,
        col_end: (col + 1) as u32,
        severity: DiagnosticSeverity::Error,
        message,
    }
}

/// What the analysis carries from one line to the next: the diagnostics
/// so far, the positions of the delimiters still open (innermost last),
/// and whether a block comment is open.
pub struct DiagState {
    pub diags: Seq<DiagnosticV>,
    pub parens: Seq<(u32, u32)>,
    pub brackets: Seq<(u32, u32)>,
    pub braces: Seq<(u32, u32)>,
    pub in_block: bool,
}

/// Effect of a delimiter character at byte column `col` of line `num`:
/// an opening one is pushed; a closing one closes the innermost open one of
/// its kind, or is reported when none is open.
pub open spec fn delim_step(st: DiagState, ch: char, num: u32, col: u32) -> DiagState {
    if ch == '(' {
        DiagState { parens: st.parens.push((num, col)), ..st }
    } else if ch == ')' {
        if st.parens.len() == 0 {
            DiagState {
                diags: st.diags.push(error_at(num, col, "Unmatched closing parenthesis ')'"@)),
                ..st
            }
        } else {
            DiagState { parens: st.parens.drop_last(), ..st }
        }
    } else if ch == '[' {
        DiagState { brackets: st.brackets.push((num, col)), ..st }
    } else if ch == ']' {
        if st.brackets.len() == 0 {
            DiagState {
                diags: st.diags.push(error_at(num, col, "Unmatched closing bracket ']'"@)),
                ..st
            }
        } else {
            DiagState { brackets: st.brackets.drop_last(), ..st }
        }
    } else if ch == '{' {
        DiagState { braces: st.braces.push((num, col)), ..st }
    } else if ch == '}' {
        if st.braces.len() == 0 {
            DiagState {
                diags: st.diags.push(error_at(num, col, "Unmatched closing brace '}'"@)),
                ..st
            }
        } else {
            DiagState { braces: st.braces.drop_last(), ..st }
        }
    } else {
        st
    }
}

/// Delimiter tracking over `line[k..]`: text between unescaped double
/// quotes is skipped, and a `#` outside a string ends the line.
pub open spec fn scan_chars(
    st: DiagState,
    line: Seq<char>,
    k: int,
    num: u32,
    in_string: bool,
    prev: char,
) -> DiagState
    decreases line.len() - k,
{
    if k < 0 || k >= line.len() {
        st
    } else {
        let ch = line[k];
        if ch == '"' && prev != '\\' {
            scan_chars(st, line, k + 1, num, !in_string, ch)
        } else if in_string {
            scan_chars(st, line, k + 1, num, in_string, ch)
        } else if ch == '#' {
            st
        } else {
            scan_chars(
                delim_step(st, ch, num, utf8_len(line.take(k)) as u32),
                line,
                k + 1,
                num,
                in_string,
                ch,
            )
        }
    }
}

/// A `using` line without a `{...}` path.
pub open spec fn invalid_using(t: Seq<char>) -> bool {
    &&& starts_with(t, "using"@)
    &&& !starts_with(t, "using {"@)
    &&& !starts_with(t, "using{"@)
    &&& (t == "using"@ || starts_with(t, "using "@))
    &&& !has_char(t, '{')
}

/// The error for a malformed `using` line: from the first `using` of the
/// line, as wide as the trimmed line.
pub open spec fn using_diag(line: Seq<char>, t: Seq<char>, num: u32) -> DiagnosticV {
    let j = first_at(line, "using"@, 0);
    let a = if j >= 0 {
        utf8_len(line.take(j))
    } else {
        0
    };
    DiagnosticV {
        line: num,
        col_start: a as u32,
        col_end: (a + utf8_len(t)) as u32,
        severity: DiagnosticSeverity::Error,
        message: "Invalid using statement. Expected: using {/Path/To/Module}"@,
    }
}

/// `\w` of a Unicode-aware pattern: `c` is a word character.
pub uninterp spec fn is_word_char(c: char) -> bool;

/// First index at or after `i` that is not a word character (or the length).
pub open spec fn word_end(s: Seq<char>, i: int) -> int
    decreases s.len() - i,
{
    if 0 <= i < s.len() && is_word_char(s[i]) {
        word_end(s, i + 1)
    } else {
        i
    }
}

/// The pattern `var\s+(?:<[^>]+>\s+)?[A-Za-z_]\w*\s*:\s*([A-Z][A-Za-z0-9_]*)`
/// matched from position `i`: the span of the type name it captures.
/// Every repetition in it is followed by something it cannot match (a
/// word character is never whitespace nor `:`), so each takes its longest
/// run and the match, when there is one, is this one.
pub open spec fn var_type_at(s: Seq<char>, i: int) -> Option<(int, int)> {
    let p1 = ws_end(s, i + 3);
    if !occurs_at(s, i, "var"@) || p1 == i + 3 {
        None
    } else {
        let p2 = if p1 < s.len() && s[p1] == '<' {
            match group_then_ws(s, p1) {
                Some(x) => x,
                None => -1,
            }
        } else {
            p1
        };
        if ident_at(s, p2) {
            let w = ws_end(s, word_end(s, p2 + 1));
            if w < s.len() && s[w] == ':' {
                let v = ws_end(s, w + 1);
                if v < s.len() && 'A' <= s[v] && s[v] <= 'Z' {
                    Some((v, ident_end(s, v + 1)))
                } else {
                    None
                }
            } else {
                None
            }
        } else {
            None
        }
    }
}

/// The leftmost match of the `var` declaration pattern at or after `i`.
pub open spec fn var_type_from(s: Seq<char>, i: int) -> Option<(int, int)>
    decreases s.len() + 1 - i,
{
    if i < 0 || i > s.len() {
        None
    } else {
        match var_type_at(s, i) {
            Some(x) => Some(x),
            None => var_type_from(s, i + 1),
        }
    }
}

/// Span (in characters) of the type named in the first `var` declaration
/// of `line`.
pub open spec fn var_type_span(line: Seq<char>) -> Option<(int, int)> {
    var_type_from(line, 0)
}

/// Names of the built-in types.
pub open spec fn is_builtin_type(n: Seq<char>) -> bool {
    ||| n == "int"@
    ||| n == "float"@
    ||| n == "string"@
    ||| n == "logic"@
    ||| n == "void"@
    ||| n == "any"@
    ||| n == "comparable"@
    ||| n == "type"@
    ||| n == "char"@
    ||| n == "char8"@
    ||| n == "char32"@
    ||| n == "rational"@
    ||| n == "false"@
}

/// The warning for a type reference at character span `span` of `t` that
/// names no built-in type, no class and nothing whose name contains it; its
/// columns are byte offsets.
pub open spec fn unknown_type_diag(
    t: Seq<char>,
    num: u32,
    span: Option<(int, int)>,
    db: SymbolDbV,
) -> Option<DiagnosticV> {
    match span {
        Some((a, b)) => {
            let name = t.subrange(a, b);
            if !is_builtin_type(name) && class_index(db.all_symbols, name, 0) == -1 && name_matches(
                db.all_symbols,
                lowercase(name),
            ).len() == 0 {
                Some(
                    DiagnosticV {
                        line: num,
                        col_start: utf8_len(t.take(a)) as u32,
                        col_end: utf8_len(t.take(b)) as u32,
                        severity: DiagnosticSeverity::Warning,
                        message: "Unknown type '"@ + name + "'. Is it defined or imported?"@,
                    },
                )
            } else {
                None
            }
        },
        None => None,
    }
}

/// The unknown-type warning for line `t`: only a line holding `var` can
/// declare a variable, so only such a line is looked at.
pub open spec fn var_type_diag(t: Seq<char>, num: u32, db: SymbolDbV) -> Option<DiagnosticV> {
    if contains(t, "var"@) {
        unknown_type_diag(t, num, var_type_span(t), db)
    } else {
        None
    }
}

/// One line of the analysis. Lines inside a block comment `<# ... #>`, and
/// those that open one, are skipped, as are blank and `#` comment lines.
pub open spec fn line_step(st: DiagState, line: Seq<char>, num: u32, db: SymbolDbV) -> DiagState {
    let t = trim(line);
    if st.in_block || contains(t, "<#"@) {
        DiagState { in_block: !contains(t, "#>"@), ..st }
    } else if t.len() == 0 || starts_with(t, "#"@) {
        st
    } else {
        let sc = scan_chars(st, line, 0, num, false, '\0');
        let d1 = if invalid_using(t) {
            sc.diags.push(using_diag(line, t, num))
        } else {
            sc.diags
        };
        let d2 = match var_type_diag(t, num, db) {
            Some(d) => d1.push(d),
            None => d1,
        };
        DiagState { diags: d2, ..sc }
    }
}

/// Line numbers and byte columns of `text` fit the `u32` fields of a
/// diagnostic: at most `u32::MAX` lines, each shorter than `u32::MAX` bytes.
pub open spec fn positions_fit(text: Seq<char>) -> bool {
    &&& lines(text).len() <= u32::MAX
    &&& forall|i: int| 0 <= i < lines(text).len() ==> utf8_len(#[trigger] lines(text)[i]) < u32::MAX
}

pub open spec fn initial_diag_state() -> DiagState {
    DiagState {
        diags: Seq::empty(),
        parens: Seq::empty(),
        brackets: Seq::empty(),
        braces: Seq::empty(),
        in_block: false,
    }
}

/// The analysis after the first `k` lines.
pub open spec fn diag_run(ls: Seq<Seq<char>>, k: int, db: SymbolDbV) -> DiagState
    decreases k,
{
    if k <= 0 {
        initial_diag_state()
    } else {
        line_step(diag_run(ls, k - 1, db), ls[k - 1], (k - 1) as u32, db)
    }
}

/// Errors for the delimiters left open, in the order they were opened.
pub open spec fn opening_diags(stack: Seq<(u32, u32)>, message: Seq<char>) -> Seq<DiagnosticV> {
    Seq::new(stack.len(), |i: int| error_at(stack[i].0, stack[i].1, message))
}

/// All diagnostics of `text`: those found line by line, then the
/// parentheses, brackets and braces left open.
pub open spec fn diagnostics(text: Seq<char>, db: SymbolDbV) -> Seq<DiagnosticV> {
    let ls = lines(text);
    let st = diag_run(ls, ls.len() as int, db);
    st.diags + opening_diags(st.parens, "Unmatched opening parenthesis '('"@) + opening_diags(
        st.brackets,
        "Unmatched opening bracket '['"@,
    ) + opening_diags(st.braces, "Unmatched opening brace '{'"@)
}

/// Every line of `text` is blank or a `#` comment.
pub open spec fn only_comments(text: Seq<char>) -> bool {
    forall|k: int|
        0 <= k < lines(text).len() ==> trim(#[trigger] lines(text)[k]).len() == 0 || starts_with(
            trim(lines(text)[k]),
            "#"@,
        )
}

/// A text whose every line is blank or a `#` comment has no diagnostics.
pub proof fn comment_lines_have_no_diagnostics(text: Seq<char>, db: SymbolDbV)
    requires
        only_comments(text),
    ensures
        diagnostics(text, db) == Seq::<DiagnosticV>::empty(),
{
    let ls = lines(text);
    lemma_comment_run(text, db, ls.len() as int);
    let st = diag_run(ls, ls.len() as int, db);
    assert(diagnostics(text, db) =~= Seq::<DiagnosticV>::empty());
}

proof fn lemma_comment_run(text: Seq<char>, db: SymbolDbV, k: int)
    requires
        only_comments(text),
        k <= lines(text).len(),
    ensures
        diag_run(lines(text), k, db).diags.len() == 0,
        diag_run(lines(text), k, db).parens.len() == 0,
        diag_run(lines(text), k, db).brackets.len() == 0,
        diag_run(lines(text), k, db).braces.len() == 0,
    decreases k,
{
    if k > 0 {
        lemma_comment_run(text, db, k - 1);
        let l = lines(text)[k - 1];
        assert(trim(l).len() == 0 || starts_with(trim(l), "#"@));
    }
}

/// Line `l` of `ls` holds the character `c` starting at byte column `col`.
pub open spec fn char_at_col(ls: Seq<Seq<char>>, l: u32, col: u32, c: char) -> bool {
    (l as int) < ls.len() && exists|k: int|
        0 <= k < ls[l as int].len() && utf8_len(ls[l as int].take(k)) == col && ls[l as int][k]
            == c
}

/// A diagnostic about a delimiter points at a delimiter of the kind it names.
pub open spec fn names_its_delimiter(ls: Seq<Seq<char>>, d: DiagnosticV) -> bool {
    &&& d.message == "Unmatched closing parenthesis ')'"@ ==> char_at_col(ls, d.line, d.col_start, ')')
    &&& d.message == "Unmatched closing bracket ']'"@ ==> char_at_col(ls, d.line, d.col_start, ']')
    &&& d.message == "Unmatched closing brace '}'"@ ==> char_at_col(ls, d.line, d.col_start, '}')
    &&& d.message == "Unmatched opening parenthesis '('"@ ==> char_at_col(ls, d.line, d.col_start, '(')
    &&& d.message == "Unmatched opening bracket '['"@ ==> char_at_col(ls, d.line, d.col_start, '[')
    &&& d.message == "Unmatched opening brace '{'"@ ==> char_at_col(ls, d.line, d.col_start, '{')
}

/// Every stacked position holds the opening delimiter `c`.
pub open spec fn stack_at(ls: Seq<Seq<char>>, stack: Seq<(u32, u32)>, c: char) -> bool {
    forall|i: int| 0 <= i < stack.len() ==> char_at_col(ls, #[trigger] stack[i].0, stack[i].1, c)
}

pub open spec fn positions_ok(ls: Seq<Seq<char>>, st: DiagState) -> bool {
    &&& forall|i: int| 0 <= i < st.diags.len() ==> names_its_delimiter(ls, #[trigger] st.diags[i])
    &&& stack_at(ls, st.parens, '(')
    &&& stack_at(ls, st.brackets, '[')
    &&& stack_at(ls, st.braces, '{')
}

proof fn lemma_messages_distinct()
    ensures
        "Unmatched closing parenthesis ')'"@ != "Unmatched closing bracket ']'"@,
        "Unmatched closing parenthesis ')'"@ != "Unmatched closing brace '}'"@,
        "Unmatched closing parenthesis ')'"@ != "Unmatched opening parenthesis '('"@,
        "Unmatched closing parenthesis ')'"@ != "Unmatched opening bracket '['"@,
        "Unmatched closing parenthesis ')'"@ != "Unmatched opening brace '{'"@,
        "Unmatched closing bracket ']'"@ != "Unmatched closing brace '}'"@,
        "Unmatched closing bracket ']'"@ != "Unmatched opening parenthesis '('"@,
        "Unmatched closing bracket ']'"@ != "Unmatched opening bracket '['"@,
        "Unmatched closing bracket ']'"@ != "Unmatched opening brace '{'"@,
        "Unmatched closing brace '}'"@ != "Unmatched opening parenthesis '('"@,
        "Unmatched closing brace '}'"@ != "Unmatched opening bracket '['"@,
        "Unmatched closing brace '}'"@ != "Unmatched opening brace '{'"@,
        "Unmatched opening parenthesis '('"@ != "Unmatched opening bracket '['"@,
        "Unmatched opening parenthesis '('"@ != "Unmatched opening brace '{'"@,
        "Unmatched opening bracket '['"@ != "Unmatched opening brace '{'"@,
{
    reveal_strlit("Unmatched closing parenthesis ')'");
    reveal_strlit("Unmatched closing bracket ']'");
    reveal_strlit("Unmatched closing brace '}'");
    reveal_strlit("Unmatched opening parenthesis '('");
    reveal_strlit("Unmatched opening bracket '['");
    reveal_strlit("Unmatched opening brace '{'");
    assert("Unmatched closing parenthesis ')'"@[18] != "Unmatched closing bracket ']'"@[18]);
    assert("Unmatched closing parenthesis ')'"@[18] != "Unmatched closing brace '}'"@[18]);
    assert("Unmatched closing bracket ']'"@[22] != "Unmatched closing brace '}'"@[22]);
    assert("Unmatched opening parenthesis '('"@[18] != "Unmatched opening bracket '['"@[18]);
    assert("Unmatched opening parenthesis '('"@[18] != "Unmatched opening brace '{'"@[18]);
    assert("Unmatched opening bracket '['"@[22] != "Unmatched opening brace '{'"@[22]);
    assert("Unmatched closing parenthesis ')'"@[10] != "Unmatched opening parenthesis '('"@[10]);
    assert("Unmatched closing parenthesis ')'"@[10] != "Unmatched opening bracket '['"@[10]);
    assert("Unmatched closing parenthesis ')'"@[10] != "Unmatched opening brace '{'"@[10]);
    assert("Unmatched closing bracket ']'"@[10] != "Unmatched opening parenthesis '('"@[10]);
    assert("Unmatched closing bracket ']'"@[10] != "Unmatched opening bracket '['"@[10]);
    assert("Unmatched closing bracket ']'"@[10] != "Unmatched opening brace '{'"@[10]);
    assert("Unmatched closing brace '}'"@[10] != "Unmatched opening parenthesis '('"@[10]);
    assert("Unmatched closing brace '}'"@[10] != "Unmatched opening bracket '['"@[10]);
    assert("Unmatched closing brace '}'"@[10] != "Unmatched opening brace '{'"@[10]);
}

/// A message that starts differently from every delimiter message.
proof fn lemma_other_message(m: Seq<char>)
    requires
        m.len() > 2,
        m[0] != 'U' || m[2] != 'm',
    ensures
        m != "Unmatched closing parenthesis ')'"@,
        m != "Unmatched closing bracket ']'"@,
        m != "Unmatched closing brace '}'"@,
        m != "Unmatched opening parenthesis '('"@,
        m != "Unmatched opening bracket '['"@,
        m != "Unmatched opening brace '{'"@,
{
    reveal_strlit("Unmatched closing parenthesis ')'");
    reveal_strlit("Unmatched closing bracket ']'");
    reveal_strlit("Unmatched closing brace '}'");
    reveal_strlit("Unmatched opening parenthesis '('");
    reveal_strlit("Unmatched opening bracket '['");
    reveal_strlit("Unmatched opening brace '{'");
}

proof fn lemma_delim_step_positions(
    ls: Seq<Seq<char>>,
    st: DiagState,
    num: u32,
    k: int,
)
    requires
        positions_ok(ls, st),
        (num as int) < ls.len(),
        0 <= k < ls[num as int].len(),
        utf8_len(ls[num as int].take(k)) < u32::MAX,
    ensures
        positions_ok(
            ls,
            delim_step(st, ls[num as int][k], num, utf8_len(ls[num as int].take(k)) as u32),
        ),
{
    lemma_messages_distinct();
    let line = ls[num as int];
    let ch = line[k];
    let col = utf8_len(line.take(k)) as u32;
    assert(utf8_len(line.take(k)) == col);
    let st2 = delim_step(st, ch, num, col);
    assert(char_at_col(ls, num, col, ch));
    assert forall|i: int| 0 <= i < st2.diags.len() implies names_its_delimiter(
        ls,
        #[trigger] st2.diags[i],
    ) by {
        if i < st.diags.len() {
            assert(st2.diags[i] == st.diags[i]);
        }
    }
    assert forall|i: int| 0 <= i < st2.parens.len() implies char_at_col(
        ls,
        #[trigger] st2.parens[i].0,
        st2.parens[i].1,
        '(',
    ) by {
        if i < st.parens.len() {
            assert(st2.parens[i] == st.parens[i]);
        }
    }
    assert forall|i: int| 0 <= i < st2.brackets.len() implies char_at_col(
        ls,
        #[trigger] st2.brackets[i].0,
        st2.brackets[i].1,
        '[',
    ) by {
        if i < st.brackets.len() {
            assert(st2.brackets[i] == st.brackets[i]);
        }
    }
    assert forall|i: int| 0 <= i < st2.braces.len() implies char_at_col(
        ls,
        #[trigger] st2.braces[i].0,
        st2.braces[i].1,
        '{',
    ) by {
        if i < st.braces.len() {
            assert(st2.braces[i] == st.braces[i]);
        }
    }
}

proof fn lemma_scan_positions(
    ls: Seq<Seq<char>>,
    st: DiagState,
    num: u32,
    k: int,
    in_string: bool,
    prev: char,
)
    requires
        positions_ok(ls, st),
        (num as int) < ls.len(),
        0 <= k,
        utf8_len(ls[num as int]) < u32::MAX,
    ensures
        positions_ok(ls, scan_chars(st, ls[num as int], k, num, in_string, prev)),
    decreases ls[num as int].len() - k,
{
    let line = ls[num as int];
    if k < line.len() {
        let ch = line[k];
        if ch == '"' && prev != '\\' {
            lemma_scan_positions(ls, st, num, k + 1, !in_string, ch);
        } else if in_string {
            lemma_scan_positions(ls, st, num, k + 1, in_string, ch);
        } else if ch != '#' {
            crate::text::lemma_utf8_len_subrange(line, 0, k);
            assert(line.subrange(0, k) =~= line.take(k));
            lemma_delim_step_positions(ls, st, num, k);
            lemma_scan_positions(
                ls,
                delim_step(st, ch, num, utf8_len(line.take(k)) as u32),
                num,
                k + 1,
                in_string,
                ch,
            );
        }
    }
}

proof fn lemma_run_positions(text: Seq<char>, db: SymbolDbV, k: int)
    requires
        positions_fit(text),
        0 <= k <= lines(text).len(),
    ensures
        positions_ok(lines(text), diag_run(lines(text), k, db)),
    decreases k,
{
    let ls = lines(text);
    if k > 0 {
        lemma_run_positions(text, db, k - 1);
        let st = diag_run(ls, k - 1, db);
        let line = ls[k - 1];
        let num = (k - 1) as u32;
        assert(utf8_len(ls[k - 1]) < u32::MAX);
        let t = trim(line);
        if !(st.in_block || contains(t, "<#"@)) && !(t.len() == 0 || starts_with(t, "#"@)) {
            lemma_scan_positions(ls, st, num, 0, false, '\0');
            let sc = scan_chars(st, line, 0, num, false, '\0');
            let d1 = if invalid_using(t) {
                sc.diags.push(using_diag(line, t, num))
            } else {
                sc.diags
            };
            reveal_strlit("Invalid using statement. Expected: using {/Path/To/Module}");
            lemma_other_message("Invalid using statement. Expected: using {/Path/To/Module}"@);
            assert forall|i: int| 0 <= i < d1.len() implies names_its_delimiter(
                ls,
                #[trigger] d1[i],
            ) by {
                if i < sc.diags.len() {
                    assert(d1[i] == sc.diags[i]);
                }
            }
            match var_type_diag(t, num, db) {
                Some(d) => {
                    reveal_strlit("Unknown type '");
                    let m = d.message;
                    assert(m[0] == 'U' && m[2] == 'k');
                    lemma_other_message(m);
                    let d2 = d1.push(d);
                    assert forall|i: int| 0 <= i < d2.len() implies names_its_delimiter(
                        ls,
                        #[trigger] d2[i],
                    ) by {
                        if i < d1.len() {
                            assert(d2[i] == d1[i]);
                        }
                    }
                },
                None => {},
            }
        }
    }
}

/// Every diagnostic about a delimiter points at a delimiter of the kind it
/// names: an unmatched closing one at that closing character, an unmatched
/// opening one at that opening character.
pub proof fn delimiter_diagnostics_point_at_delimiters(text: Seq<char>, db: SymbolDbV)
    requires
        positions_fit(text),
    ensures
        forall|i: int|
            0 <= i < diagnostics(text, db).len() ==> names_its_delimiter(
                lines(text),
                #[trigger] diagnostics(text, db)[i],
            ),
{
    let ls = lines(text);
    lemma_run_positions(text, db, ls.len() as int);
    lemma_messages_distinct();
    let st = diag_run(ls, ls.len() as int, db);
    let po = opening_diags(st.parens, "Unmatched opening parenthesis '('"@);
    let bo = opening_diags(st.brackets, "Unmatched opening bracket '['"@);
    let co = opening_diags(st.braces, "Unmatched opening brace '{'"@);
    let all = diagnostics(text, db);
    assert(all == st.diags + po + bo + co);
    assert forall|i: int| 0 <= i < all.len() implies names_its_delimiter(ls, #[trigger] all[i]) by {
        let n0 = st.diags.len() as int;
        let n1 = n0 + po.len();
        let n2 = n1 + bo.len();
        if i < n0 {
            assert(all[i] == st.diags[i]);
        } else if i < n1 {
            assert(all[i] == po[i - n0]);
            assert(char_at_col(ls, st.parens[i - n0].0, st.parens[i - n0].1, '('));
        } else if i < n2 {
            assert(all[i] == bo[i - n1]);
            assert(char_at_col(ls, st.brackets[i - n1].0, st.brackets[i - n1].1, '['));
        } else {
            assert(all[i] == co[i - n2]);
            assert(char_at_col(ls, st.braces[i - n2].0, st.braces[i - n2].1, '{'));
        }
    }
}

/// One step of the walk over a pair of delimiters (`o`, `c`): the count of
/// closing ones met with none open, and the number left open.
pub open spec fn wstep(w: (nat, nat), x: char, o: char, c: char) -> (nat, nat) {
    if x == o {
        (w.0, w.1 + 1)
    } else if x == c {
        if w.1 == 0 {
            (w.0 + 1, w.1)
        } else {
            (w.0, (w.1 - 1) as nat)
        }
    } else {
        w
    }
}

/// The walk over `s` from `w`.
pub open spec fn walk_on(w: (nat, nat), s: Seq<char>, o: char, c: char) -> (nat, nat)
    decreases s.len(),
{
    if s.len() == 0 {
        w
    } else {
        wstep(walk_on(w, s.drop_last(), o, c), s.last(), o, c)
    }
}

/// Number of `x` in `s`.
pub open spec fn count_of(s: Seq<char>, x: char) -> nat
    decreases s.len(),
{
    if s.len() == 0 {
        0
    } else {
        count_of(s.drop_last(), x) + if s.last() == x {
            1nat
        } else {
            0nat
        }
    }
}

/// Every prefix of `s` holds at least as many `o` as `c`, and `s` holds
/// exactly as many.
pub open spec fn balanced(s: Seq<char>, o: char, c: char) -> bool {
    &&& forall|k: int|
        0 <= k <= s.len() ==> count_of(#[trigger] s.take(k), o) >= count_of(s.take(k), c)
    &&& count_of(s, o) == count_of(s, c)
}

proof fn lemma_walk_concat(w: (nat, nat), a: Seq<char>, b: Seq<char>, o: char, c: char)
    ensures
        walk_on(w, a + b, o, c) == walk_on(walk_on(w, a, o, c), b, o, c),
    decreases b.len(),
{
    if b.len() == 0 {
        assert(a + b =~= a);
    } else {
        lemma_walk_concat(w, a, b.drop_last(), o, c);
        assert((a + b).drop_last() =~= a + b.drop_last());
    }
}

proof fn lemma_walk_front(w: (nat, nat), x: char, r: Seq<char>, o: char, c: char)
    ensures
        walk_on(w, seq![x] + r, o, c) == walk_on(wstep(w, x, o, c), r, o, c),
{
    lemma_walk_concat(w, seq![x], r, o, c);
    assert(seq![x].drop_last() =~= Seq::<char>::empty());
    assert(seq![x].last() == x);
    assert(walk_on(w, Seq::<char>::empty(), o, c) == w);
    assert(walk_on(w, seq![x], o, c) == wstep(w, x, o, c));
}

proof fn lemma_walk_offset(e: nat, d: nat, s: Seq<char>, o: char, c: char)
    ensures
        walk_on((e, d), s, o, c).0 == e + walk_on((0, d), s, o, c).0,
        walk_on((e, d), s, o, c).1 == walk_on((0, d), s, o, c).1,
    decreases s.len(),
{
    if s.len() > 0 {
        lemma_walk_offset(e, d, s.drop_last(), o, c);
    }
}

/// A text without `o` or `c` leaves the walk where it was.
proof fn lemma_walk_neutral(w: (nat, nat), s: Seq<char>, o: char, c: char)
    requires
        forall|i: int| 0 <= i < s.len() ==> #[trigger] s[i] != o && s[i] != c,
    ensures
        walk_on(w, s, o, c) == w,
    decreases s.len(),
{
    if s.len() > 0 {
        lemma_walk_neutral(w, s.drop_last(), o, c);
        assert(s.last() == s[s.len() - 1]);
    }
}

proof fn lemma_walk_balanced(s: Seq<char>, o: char, c: char)
    requires
        o != c,
    ensures
        (walk_on((0, 0), s, o, c).0 == 0) == (forall|k: int|
            0 <= k <= s.len() ==> count_of(#[trigger] s.take(k), o) >= count_of(s.take(k), c)),
        walk_on((0, 0), s, o, c).0 == 0 ==> walk_on((0, 0), s, o, c).1 == count_of(s, o)
            - count_of(s, c),
    decreases s.len(),
{
    if s.len() == 0 {
        assert forall|k: int| 0 <= k <= s.len() implies count_of(#[trigger] s.take(k), o)
            >= count_of(s.take(k), c) by {
            assert(s.take(k) =~= Seq::<char>::empty());
        }
    } else {
        let p = s.drop_last();
        lemma_walk_balanced(p, o, c);
        assert(s.take(s.len() as int) =~= s);
        assert forall|k: int| 0 <= k <= p.len() implies #[trigger] s.take(k) == p.take(k) by {
            assert(s.take(k) =~= p.take(k));
        }
        let all_s = forall|k: int|
            0 <= k <= s.len() ==> count_of(#[trigger] s.take(k), o) >= count_of(s.take(k), c);
        let all_p = forall|k: int|
            0 <= k <= p.len() ==> count_of(#[trigger] p.take(k), o) >= count_of(p.take(k), c);
        if all_s {
            assert forall|k: int| 0 <= k <= p.len() implies count_of(#[trigger] p.take(k), o)
                >= count_of(p.take(k), c) by {
                assert(s.take(k) == p.take(k));
            }
            assert(count_of(s.take(s.len() as int), o) >= count_of(s.take(s.len() as int), c));
        }
        if all_p && walk_on((0, 0), p, o, c).0 == 0 {
            if count_of(s, o) >= count_of(s, c) {
                assert forall|k: int| 0 <= k <= s.len() implies count_of(#[trigger] s.take(k), o)
                    >= count_of(s.take(k), c) by {
                    if k < s.len() {
                        assert(s.take(k) == p.take(k));
                    }
                }
            }
        }
    }
}

/// `balanced` is what the walk reports: no unmatched closing delimiter and
/// none left open.
proof fn lemma_balanced_walk(s: Seq<char>, o: char, c: char)
    requires
        o != c,
    ensures
        balanced(s, o, c) == (walk_on((0, 0), s, o, c) == (0nat, 0nat)),
{
    lemma_walk_balanced(s, o, c);
}

/// Concatenation of the lines `ls`.
pub open spec fn cat(ls: Seq<Seq<char>>) -> Seq<char>
    decreases ls.len(),
{
    if ls.len() == 0 {
        Seq::empty()
    } else {
        cat(ls.drop_last()) + ls.last()
    }
}

proof fn lemma_cat_front(x: Seq<char>, r: Seq<Seq<char>>)
    ensures
        cat(seq![x] + r) == x + cat(r),
    decreases r.len(),
{
    if r.len() == 0 {
        assert(seq![x] + r =~= seq![x]);
        assert(seq![x].drop_last() =~= Seq::<Seq<char>>::empty());
        assert(seq![x].last() == x);
        assert(cat(Seq::<Seq<char>>::empty()) == Seq::<char>::empty());
        assert(Seq::<char>::empty() + x =~= x);
        assert(x + Seq::<char>::empty() =~= x);
    } else {
        lemma_cat_front(x, r.drop_last());
        assert((seq![x] + r).drop_last() =~= seq![x] + r.drop_last());
        assert((seq![x] + r).last() == r.last());
        assert(x + cat(r.drop_last()) + r.last() =~= x + (cat(r.drop_last()) + r.last()));
    }
}

/// Line breaks hold no delimiter: the walk over a text is the walk over its
/// lines put end to end.
proof fn lemma_walk_lines(w: (nat, nat), s: Seq<char>, i: int, o: char, c: char)
    requires
        0 <= i <= s.len(),
        o != '\n' && o != '\r' && c != '\n' && c != '\r',
    ensures
        walk_on(w, s.subrange(i, s.len() as int), o, c) == walk_on(
            w,
            cat(crate::text::lines_from(s, i)),
            o,
            c,
        ),
    decreases s.len() - i,
{
    if i < s.len() {
        crate::text::lemma_find_char_bounds(s, i, '\n');
        let j = crate::text::find_char(s, i, '\n');
        if j >= s.len() {
            let x = s.subrange(i, s.len() as int);
            assert(cat(seq![x]) == x) by {
                lemma_cat_front(x, Seq::empty());
                assert(x + Seq::<char>::empty() =~= x);
            }
        } else {
            let x = s.subrange(i, j);
            let y = crate::text::strip_cr(x);
            let rest = s.subrange(j + 1, s.len() as int);
            lemma_walk_lines(walk_on(w, y, o, c), s, j + 1, o, c);
            lemma_cat_front(y, crate::text::lines_from(s, j + 1));
            lemma_walk_concat(w, y, cat(crate::text::lines_from(s, j + 1)), o, c);
            let gap = s.subrange(i + y.len(), j + 1);
            assert(s.subrange(i, s.len() as int) =~= y + gap + rest);
            lemma_walk_concat(w, y + gap, rest, o, c);
            lemma_walk_concat(w, y, gap, o, c);
            lemma_walk_neutral(walk_on(w, y, o, c), gap, o, c);
        }
    } else {
        assert(s.subrange(i, s.len() as int) =~= Seq::<char>::empty());
    }
}

proof fn lemma_piece_has_char(s: Seq<char>, a: int, b: int, x: char)
    requires
        0 <= a <= b <= s.len(),
        has_char(s.subrange(a, b), x),
    ensures
        has_char(s, x),
{
    let k = choose|k: int| 0 <= k < s.subrange(a, b).len() && s.subrange(a, b)[k] == x;
    assert(s[a + k] == x);
}

proof fn lemma_piece_contains(s: Seq<char>, a: int, b: int, p: Seq<char>)
    requires
        0 <= a <= b <= s.len(),
        contains(s.subrange(a, b), p),
    ensures
        contains(s, p),
{
    let x = s.subrange(a, b);
    let i = choose|i: int| occurs_at(x, i, p);
    assert(s.subrange(a + i, a + i + p.len()) =~= x.subrange(i, i + p.len()));
    assert(occurs_at(s, a + i, p));
}

/// The trimmed text of line `k` of `s` is a piece of `s`.
proof fn lemma_trimmed_line_piece(s: Seq<char>, k: int)
    requires
        0 <= k < lines(s).len(),
    ensures
        exists|a: int, b: int| 0 <= a <= b <= s.len() && lines(s)[k] == s.subrange(a, b),
        trim(lines(s)[k]).len() > 0 ==> exists|a: int, b: int|
            0 <= a <= b <= s.len() && trim(lines(s)[k]) == s.subrange(a, b),
{
    crate::text::lemma_lines_from_pieces(s, 0);
    let (a, b) = choose|a: int, b: int| 0 <= a <= b <= s.len() && lines(s)[k] == s.subrange(a, b);
    let l = lines(s)[k];
    let x = crate::text::ws_end(l, 0);
    let y = crate::text::ws_back(l, l.len() as int);
    crate::text::lemma_ws_end_bounds(l, 0);
    crate::text::lemma_ws_back_bounds(l, l.len() as int);
    if x < y {
        assert(trim(l) =~= s.subrange(a + x, a + y));
    }
}

/// No double quote, `#`, `using` or `var` in `text`.
pub open spec fn plain_text(text: Seq<char>) -> bool {
    &&& !has_char(text, '"')
    &&& !has_char(text, '#')
    &&& !contains(text, "using"@)
    &&& !contains(text, "var"@)
}

/// Counts of the analysis: closing delimiters met with none open (`e`) and
/// delimiters left open, kind by kind, equal the walks over `s`.
pub open spec fn counts_match(st: DiagState, s: Seq<char>) -> bool {
    &&& st.parens.len() == walk_on((0, 0), s, '(', ')').1
    &&& st.brackets.len() == walk_on((0, 0), s, '[', ']').1
    &&& st.braces.len() == walk_on((0, 0), s, '{', '}').1
    &&& st.diags.len() == walk_on((0, 0), s, '(', ')').0 + walk_on((0, 0), s, '[', ']').0
        + walk_on((0, 0), s, '{', '}').0
    &&& forall|i: int|
        0 <= i < st.diags.len() ==> (#[trigger] st.diags[i]).severity == DiagnosticSeverity::Error
}

proof fn lemma_delim_step_counts(st: DiagState, ch: char, num: u32, col: u32)
    requires
        forall|i: int|
            0 <= i < st.diags.len() ==> (#[trigger] st.diags[i]).severity
                == DiagnosticSeverity::Error,
    ensures
        ({
            let r = delim_step(st, ch, num, col);
            let p = wstep((0, st.parens.len()), ch, '(', ')');
            let b = wstep((0, st.brackets.len()), ch, '[', ']');
            let c = wstep((0, st.braces.len()), ch, '{', '}');
            &&& r.parens.len() == p.1
            &&& r.brackets.len() == b.1
            &&& r.braces.len() == c.1
            &&& r.diags.len() == st.diags.len() + p.0 + b.0 + c.0
            &&& r.in_block == st.in_block
            &&& forall|i: int|
                0 <= i < r.diags.len() ==> (#[trigger] r.diags[i]).severity
                    == DiagnosticSeverity::Error
        }),
{
    let r = delim_step(st, ch, num, col);
    assert forall|i: int| 0 <= i < r.diags.len() implies (#[trigger] r.diags[i]).severity
        == DiagnosticSeverity::Error by {
        if i < st.diags.len() {
            assert(r.diags[i] == st.diags[i]);
        }
    }
}

proof fn lemma_scan_counts(st: DiagState, l: Seq<char>, k: int, num: u32, prev: char)
    requires
        0 <= k <= l.len(),
        !has_char(l, '"'),
        !has_char(l, '#'),
        forall|i: int|
            0 <= i < st.diags.len() ==> (#[trigger] st.diags[i]).severity
                == DiagnosticSeverity::Error,
    ensures
        ({
            let r = scan_chars(st, l, k, num, false, prev);
            let p = walk_on((0, st.parens.len()), l.skip(k), '(', ')');
            let b = walk_on((0, st.brackets.len()), l.skip(k), '[', ']');
            let c = walk_on((0, st.braces.len()), l.skip(k), '{', '}');
            &&& r.parens.len() == p.1
            &&& r.brackets.len() == b.1
            &&& r.braces.len() == c.1
            &&& r.diags.len() == st.diags.len() + p.0 + b.0 + c.0
            &&& r.in_block == st.in_block
            &&& forall|i: int|
                0 <= i < r.diags.len() ==> (#[trigger] r.diags[i]).severity
                    == DiagnosticSeverity::Error
        }),
    decreases l.len() - k,
{
    if k == l.len() {
        assert(l.skip(k) =~= Seq::<char>::empty());
    } else {
        let ch = l[k];
        assert(ch != '"');
        assert(ch != '#');
        let col = utf8_len(l.take(k)) as u32;
        let st2 = delim_step(st, ch, num, col);
        lemma_delim_step_counts(st, ch, num, col);
        lemma_scan_counts(st2, l, k + 1, num, ch);
        assert(l.skip(k) =~= seq![ch] + l.skip(k + 1));
        let pw = wstep((0, st.parens.len()), ch, '(', ')');
        let bw = wstep((0, st.brackets.len()), ch, '[', ']');
        let cw = wstep((0, st.braces.len()), ch, '{', '}');
        lemma_walk_front((0, st.parens.len()), ch, l.skip(k + 1), '(', ')');
        lemma_walk_front((0, st.brackets.len()), ch, l.skip(k + 1), '[', ']');
        lemma_walk_front((0, st.braces.len()), ch, l.skip(k + 1), '{', '}');
        lemma_walk_offset(pw.0, pw.1, l.skip(k + 1), '(', ')');
        lemma_walk_offset(bw.0, bw.1, l.skip(k + 1), '[', ']');
        lemma_walk_offset(cw.0, cw.1, l.skip(k + 1), '{', '}');
    }
}

proof fn lemma_run_counts(text: Seq<char>, db: SymbolDbV, j: int)
    requires
        plain_text(text),
        0 <= j <= lines(text).len(),
    ensures
        counts_match(diag_run(lines(text), j, db), cat(lines(text).take(j))),
        !diag_run(lines(text), j, db).in_block,
    decreases j,
{
    let ls = lines(text);
    if j == 0 {
        assert(ls.take(0) =~= Seq::<Seq<char>>::empty());
    } else {
        lemma_run_counts(text, db, j - 1);
        let st = diag_run(ls, j - 1, db);
        let l = ls[j - 1];
        let t = trim(l);
        let prev = cat(ls.take(j - 1));
        assert(ls.take(j).drop_last() =~= ls.take(j - 1));
        assert(cat(ls.take(j)) == prev + l);
        lemma_trimmed_line_piece(text, j - 1);
        let (a, b) = choose|a: int, b: int| 0 <= a <= b <= text.len() && l == text.subrange(a, b);
        if has_char(l, '"') {
            lemma_piece_has_char(text, a, b, '"');
        }
        if has_char(l, '#') {
            lemma_piece_has_char(text, a, b, '#');
        }
        reveal_strlit("<#");
        reveal_strlit("#");
        reveal_strlit("using");
        reveal_strlit("var");
        if t.len() > 0 {
            let (x, y) = choose|x: int, y: int| 0 <= x <= y <= text.len() && t == text.subrange(x, y);
            if contains(t, "<#"@) {
                let i = choose|i: int| occurs_at(t, i, "<#"@);
                assert(t.subrange(i, i + 2)[1] == '#');
                assert(t[i + 1] == '#');
                lemma_piece_has_char(text, x, y, '#');
            }
            if starts_with(t, "#"@) {
                assert(t.subrange(0, 1)[0] == '#');
                lemma_piece_has_char(text, x, y, '#');
            }
            if contains(t, "using"@) {
                lemma_piece_contains(text, x, y, "using"@);
            }
            if contains(t, "var"@) {
                lemma_piece_contains(text, x, y, "var"@);
            }
            assert(!invalid_using(t));
            lemma_scan_counts(st, l, 0, (j - 1) as u32, '\0');
            assert(l.skip(0) =~= l);
            lemma_walk_concat((0, 0), prev, l, '(', ')');
            lemma_walk_concat((0, 0), prev, l, '[', ']');
            lemma_walk_concat((0, 0), prev, l, '{', '}');
            let wp = walk_on((0, 0), prev, '(', ')');
            let wb = walk_on((0, 0), prev, '[', ']');
            let wc = walk_on((0, 0), prev, '{', '}');
            lemma_walk_offset(wp.0, wp.1, l, '(', ')');
            lemma_walk_offset(wb.0, wb.1, l, '[', ']');
            lemma_walk_offset(wc.0, wc.1, l, '{', '}');
        } else {
            let xl = crate::text::ws_end(l, 0);
            crate::text::lemma_ws_end_bounds(l, 0);
            crate::text::lemma_ws_back_bounds(l, l.len() as int);
            assert forall|i: int| 0 <= i < l.len() implies crate::text::is_ws(#[trigger] l[i]) by {
                if xl < l.len() {
                    assert(crate::text::ws_back(l, l.len() as int) > xl);
                }
            }
            assert forall|i: int| 0 <= i < l.len() implies #[trigger] l[i] != '(' && l[i] != ')'
                && l[i] != '[' && l[i] != ']' && l[i] != '{' && l[i] != '}' by {
                assert(crate::text::is_ws(l[i]));
            }
            lemma_walk_concat((0, 0), prev, l, '(', ')');
            lemma_walk_concat((0, 0), prev, l, '[', ']');
            lemma_walk_concat((0, 0), prev, l, '{', '}');
            lemma_walk_neutral(walk_on((0, 0), prev, '(', ')'), l, '(', ')');
            lemma_walk_neutral(walk_on((0, 0), prev, '[', ']'), l, '[', ']');
            lemma_walk_neutral(walk_on((0, 0), prev, '{', '}'), l, '{', '}');
        }
    }
}

/// For a text without strings, comments, `using` lines or `var`
/// declarations, there is no diagnostic exactly when parentheses,
/// brackets and braces each balance (every prefix opens at least as many
/// as it closes, and the whole text as many), and every diagnostic is an
/// error.
pub proof fn balanced_delimiters_have_no_diagnostics(text: Seq<char>, db: SymbolDbV)
    requires
        plain_text(text),
    ensures
        (diagnostics(text, db).len() == 0) == (balanced(text, '(', ')') && balanced(text, '[', ']')
            && balanced(text, '{', '}')),
        forall|i: int|
            0 <= i < diagnostics(text, db).len() ==> (#[trigger] diagnostics(text, db)[i]).severity
                == DiagnosticSeverity::Error,
{
    let ls = lines(text);
    lemma_run_counts(text, db, ls.len() as int);
    assert(ls.take(ls.len() as int) =~= ls);
    let st = diag_run(ls, ls.len() as int, db);
    assert(text.subrange(0, text.len() as int) =~= text);
    lemma_walk_lines((0, 0), text, 0, '(', ')');
    lemma_walk_lines((0, 0), text, 0, '[', ']');
    lemma_walk_lines((0, 0), text, 0, '{', '}');
    lemma_balanced_walk(text, '(', ')');
    lemma_balanced_walk(text, '[', ']');
    lemma_balanced_walk(text, '{', '}');
    let po = opening_diags(st.parens, "Unmatched opening parenthesis '('"@);
    let bo = opening_diags(st.brackets, "Unmatched opening bracket '['"@);
    let co = opening_diags(st.braces, "Unmatched opening brace '{'"@);
    let all = diagnostics(text, db);
    assert(all == st.diags + po + bo + co);
    assert forall|i: int| 0 <= i < all.len() implies (#[trigger] all[i]).severity
        == DiagnosticSeverity::Error by {
        let n0 = st.diags.len() as int;
        let n1 = n0 + po.len();
        let n2 = n1 + bo.len();
        if i < n0 {
            assert(all[i] == st.diags[i]);
        } else if i < n1 {
            assert(all[i] == po[i - n0]);
        } else if i < n2 {
            assert(all[i] == bo[i - n1]);
        } else {
            assert(all[i] == co[i - n2]);
        }
    }
}

/// Every delimiter on `stack` sits at a column below `u32::MAX`.
pub open spec fn stack_ok(stack: Seq<(u32, u32)>) -> bool {
    forall|i: int| 0 <= i < stack.len() ==> #[trigger] stack[i].1 < u32::MAX
}

/// Every open delimiter sits at a column below `u32::MAX`.
pub open spec fn columns_ok(st: DiagState) -> bool {
    stack_ok(st.parens) && stack_ok(st.brackets) && stack_ok(st.braces)
}

struct Scan {
    diags: Vec<Diagnostic>,
    parens: Vec<(u32, u32)>,
    brackets: Vec<(u32, u32)>,
    braces: Vec<(u32, u32)>,
    in_block: bool,
}

impl View for Scan {
    type V = DiagState;

    closed spec fn view(&self) -> DiagState {
        DiagState {
            diags: diags_view(self.diags@),
            parens: self.parens@,
            brackets: self.brackets@,
            braces: self.braces@,
            in_block: self.in_block,
        }
    }
}

fn error_diag(line: u32, col: u32, message: &str) -> (r: Diagnostic)
    requires
        col < u32::MAX,
    ensures
        r@ == error_at(line, col, message@),
{
    Diagnostic {
        line,
        col_start: col,
        col_end: col + 1,
        severity: DiagnosticSeverity::Error,
        message: to_string(message),
    }
}

fn push_diag(v: &mut Vec<Diagnostic>, d: Diagnostic)
    ensures
        diags_view(final(v)@) == diags_view(old(v)@).push(d@),
{
    v.push(d);
    assert(diags_view(v@) =~= diags_view(old(v)@).push(d@));
}

fn delimiter(sc: &mut Scan, ch: char, num: u32, col: u32)
    requires
        col < u32::MAX,
        columns_ok(old(sc)@),
    ensures
        final(sc)@ == delim_step(old(sc)@, ch, num, col),
        columns_ok(final(sc)@),
{
    if ch == '(' {
        sc.parens.push((num, col));
    } else if ch == ')' {
        if sc.parens.pop().is_none() {
            push_diag(&mut sc.diags, error_diag(num, col, "Unmatched closing parenthesis ')'"));
        }
    } else if ch == '[' {
        sc.brackets.push((num, col));
    } else if ch == ']' {
        if sc.brackets.pop().is_none() {
            push_diag(&mut sc.diags, error_diag(num, col, "Unmatched closing bracket ']'"));
        }
    } else if ch == '{' {
        sc.braces.push((num, col));
    } else if ch == '}' {
        if sc.braces.pop().is_none() {
            push_diag(&mut sc.diags, error_diag(num, col, "Unmatched closing brace '}'"));
        }
    }
    assert(sc@ == delim_step(old(sc)@, ch, num, col));
}

/// Delimiter tracking over one line (see `scan_chars`).
fn scan_line(sc: &mut Scan, line: &Vec<char>, num: u32)
    requires
        utf8_len(line@) < u32::MAX,
        columns_ok(old(sc)@),
    ensures
        final(sc)@ == scan_chars(old(sc)@, line@, 0, num, false, '\0'),
        columns_ok(final(sc)@),
{
    let mut in_string = false;
    let mut prev: char = '\0';
    let mut col: usize = 0;
    let mut k: usize = 0;
    while k < line.len()
        invariant
            k <= line.len(),
            utf8_len(line@) < u32::MAX,
            col == utf8_len(line@.take(k as int)),
            col <= utf8_len(line@),
            columns_ok(sc@),
            scan_chars(sc@, line@, k as int, num, in_string, prev) == scan_chars(
                old(sc)@,
                line@,
                0,
                num,
                false,
                '\0',
            ),
        decreases line.len() - k,
    {
        let ch = line[k];
        proof {
            lemma_utf8_len_take_step(line@, k as int);
            lemma_utf8_len_subrange(line@, 0, k + 1);
            assert(line@.subrange(0, k + 1) =~= line@.take(k + 1));
        }
        let w = char_len_utf8(ch);
        if ch == '"' && prev != '\\' {
            in_string = !in_string;
        } else if in_string {
        } else if ch == '#' {
            return;
        } else {
            delimiter(sc, ch, num, col as u32);
        }
        prev = ch;
        col = col + w;
        k = k + 1;
    }
}

/// Number of bytes of `s[..k]` in UTF-8.
fn byte_offset(s: &Vec<char>, k: usize) -> (r: usize)
    requires
        k <= s.len(),
        utf8_len(s@) <= usize::MAX,
    ensures
        r == utf8_len(s@.take(k as int)),
{
    let mut i: usize = 0;
    let mut n: usize = 0;
    while i < k
        invariant
            i <= k <= s.len(),
            utf8_len(s@) <= usize::MAX,
            n == utf8_len(s@.take(i as int)),
        decreases k - i,
    {
        proof {
            lemma_utf8_len_take_step(s@, i as int);
            lemma_utf8_len_subrange(s@, 0, i + 1);
            assert(s@.subrange(0, i + 1) =~= s@.take(i + 1));
        }
        n = n + char_len_utf8(s[i]);
        i = i + 1;
    }
    n
}

fn invalid_using_exec(t: &Vec<char>) -> (r: bool)
    ensures
        r == invalid_using(t@),
{
    let using = chars_of("using");
    let using_sp = chars_of("using ");
    let using_brace_sp = chars_of("using {");
    let using_brace = chars_of("using{");
    starts_with_exec(t, &using) && !starts_with_exec(t, &using_brace_sp) && !starts_with_exec(
        t,
        &using_brace,
    ) && (eq_str(t, "using") || starts_with_exec(t, &using_sp)) && !has_char_exec(t, '{')
}

/// The error for a malformed `using` line whose trimmed text is
/// `line[a..b]`.
fn using_error(line: &Vec<char>, a: usize, b: usize, num: u32) -> (r: Diagnostic)
    requires
        a <= b <= line.len(),
        utf8_len(line@) < u32::MAX,
        starts_with(line@.subrange(a as int, b as int), "using"@),
    ensures
        r@ == using_diag(line@, line@.subrange(a as int, b as int), num),
{
    let ghost t = line@.subrange(a as int, b as int);
    let pat = chars_of("using");
    proof {
        reveal_strlit("using");
        assert(occurs_at(line@, a as int, "using"@)) by {
            assert(line@.subrange(a as int, a + 5) =~= t.subrange(0, 5));
        }
        lemma_utf8_len_subrange(line@, 0, b as int);
        assert(line@.subrange(0, b as int) =~= line@.take(b as int));
        assert(line@.take(b as int) =~= line@.take(a as int) + t);
        lemma_utf8_len_concat(line@.take(a as int), t);
    }
    let j = match find_sub(line, 0, &pat) {
        Some(j) => j,
        None => a,
    };
    proof {
        lemma_first_at(line@, "using"@, 0, j as int);
        if j < a {
            lemma_utf8_take_mono(line@, j as int, a as int);
        }
    }
    let col = byte_offset(line, j);
    let tv = slice_chars(line, a, b);
    let width = byte_offset(&tv, tv.len());
    proof {
        assert(tv@.take(tv@.len() as int) =~= tv@);
    }
    Diagnostic {
        line: num,
        col_start: col as u32,
        col_end: (col + width) as u32,
        severity: DiagnosticSeverity::Error,
        message: to_string("Invalid using statement. Expected: using {/Path/To/Module}"),
    }
}

/// Whether `c` is a word character, as `regex` decides `\w`: a character
/// of the `Alphabetic` or `Join_Control` property, or of the `Decimal_Number`,
/// `Mark` or `Connector_Punctuation` category. Claimed: the answer is the
/// property of `c` named `is_word_char`, and among ASCII characters the word
/// characters are exactly `[A-Za-z0-9_]`; which other characters have it is
/// not stated.
#[verifier::external_body]
fn word_char(c: char) -> (r: bool)
    ensures
        r == is_word_char(c),
        c <= '\u{7f}' ==> (r == is_ident_char(c)),
{
    match regex::Regex::new(r"\w") {
        Ok(re) => re.is_match(&c.to_string()),
        Err(_) => false,
    }
}

fn word_end_exec(s: &Vec<char>, i: usize) -> (r: usize)
    requires
        i <= s.len(),
    ensures
        r == word_end(s@, i as int),
        i <= r <= s.len(),
{
    let mut k = i;
    while k < s.len() && word_char(s[k])
        invariant
            i <= k <= s.len(),
            word_end(s@, k as int) == word_end(s@, i as int),
        decreases s.len() - k,
    {
        k = k + 1;
    }
    k
}

fn var_type_at_exec(s: &Vec<char>, i: usize) -> (r: Option<(usize, usize)>)
    requires
        i <= s.len(),
    ensures
        match r {
            Some((a, b)) => var_type_at(s@, i as int) == Some((a as int, b as int)) && a < b
                <= s.len(),
            None => var_type_at(s@, i as int) is None,
        },
{
    let var_kw = chars_of("var");
    proof {
        reveal_strlit("var");
    }
    if !occurs_at_exec(s, i, &var_kw) {
        return None;
    }
    let p1 = skip_ws(s, i + 3);
    if p1 == i + 3 {
        return None;
    }
    let p2 = if p1 < s.len() && s[p1] == '<' {
        match group_then_ws_exec(s, p1) {
            Some(x) => x,
            None => {
                return None;
            },
        }
    } else {
        p1
    };
    if !(p2 < s.len() && ident_start(s[p2])) {
        return None;
    }
    let n = word_end_exec(s, p2 + 1);
    let w = skip_ws(s, n);
    if !(w < s.len() && s[w] == ':') {
        return None;
    }
    let v = skip_ws(s, w + 1);
    if v < s.len() && 'A' <= s[v] && s[v] <= 'Z' {
        let e = skip_ident(s, v + 1);
        Some((v, e))
    } else {
        None
    }
}

/// The first `var` declaration pattern match of `s` (see `var_type_span`).
fn var_type_span_exec(s: &Vec<char>) -> (r: Option<(usize, usize)>)
    ensures
        match r {
            Some((a, b)) => var_type_span(s@) == Some((a as int, b as int)) && a < b <= s.len(),
            None => var_type_span(s@) is None,
        },
{
    let mut i: usize = 0;
    while i < s.len()
        invariant
            i <= s.len(),
            var_type_from(s@, 0) == var_type_from(s@, i as int),
        decreases s.len() - i,
    {
        match var_type_at_exec(s, i) {
            Some(x) => {
                return Some(x);
            },
            None => {},
        }
        i = i + 1;
    }
    proof {
        reveal_strlit("var");
        assert(var_type_at(s@, s@.len() as int) is None);
        assert(var_type_from(s@, s@.len() + 1int) is None);
    }
    None
}

/// The warning for the type named in the first `var` declaration of
/// `line`, if that type is unknown: not built in, no class of that name,
/// and no symbol whose name contains it. Columns are byte offsets in `line`.
pub fn type_reference_diagnostic(line: &str, line_num: u32, db: &SymbolDb) -> (r: Option<
    Diagnostic,
>)
    requires
        utf8_len(line@) <= u32::MAX,
    ensures
        match r {
            Some(d) => var_type_diag(line@, line_num, db@) == Some(d@),
            None => var_type_diag(line@, line_num, db@) is None,
        },
{
    let v = chars_of(line);
    let var_kw = chars_of("var");
    if !contains_exec(&v, &var_kw) {
        return None;
    }
    match var_type_span_exec(&v) {
        Some((ka, kb)) => {
            let name_v = slice_chars(&v, ka, kb);
            let name = string_of(&v, ka, kb);
            if eq_str(&name_v, "int") || eq_str(&name_v, "float") || eq_str(&name_v, "string")
                || eq_str(&name_v, "logic") || eq_str(&name_v, "void") || eq_str(&name_v, "any")
                || eq_str(&name_v, "comparable") || eq_str(&name_v, "type") || eq_str(
                &name_v,
                "char",
            ) || eq_str(&name_v, "char8") || eq_str(&name_v, "char32") || eq_str(
                &name_v,
                "rational",
            ) || eq_str(&name_v, "false") {
                return None;
            }
            if db.find_class(name.as_str()).is_none() && db.search(name.as_str()).len() == 0 {
                let a = byte_offset(&v, ka);
                let b = byte_offset(&v, kb);
                proof {
                    if kb < v.len() {
                        lemma_utf8_take_mono(v@, kb as int, v@.len() as int);
                    }
                    lemma_utf8_take_mono(v@, ka as int, kb as int);
                    assert(v@.take(v@.len() as int) =~= v@);
                }
                let mut message = to_string("Unknown type '");
                crate::text::append_str(&mut message, name.as_str());
                crate::text::append_str(&mut message, "'. Is it defined or imported?");
                Some(
                    Diagnostic {
                        line: line_num,
                        col_start: a as u32,
                        col_end: b as u32,
                        severity: DiagnosticSeverity::Warning,
                        message,
                    },
                )
            } else {
                None
            }
        },
        None => None,
    }
}

/// Adds the warning for an unknown type named in a `var` declaration of
/// `line`, if there is one.
fn check_type_references(
    line: &str,
    line_num: u32,
    db: &SymbolDb,
    diagnostics: &mut Vec<Diagnostic>,
)
    requires
        utf8_len(line@) <= u32::MAX,
    ensures
        diags_view(final(diagnostics)@) == match var_type_diag(line@, line_num, db@) {
            Some(d) => diags_view(old(diagnostics)@).push(d),
            None => diags_view(old(diagnostics)@),
        },
{
    match type_reference_diagnostic(line, line_num, db) {
        Some(d) => push_diag(diagnostics, d),
        None => {},
    }
}

/// One line of the analysis (see `line_step`).
fn process_line(sc: &mut Scan, line: &Vec<char>, num: u32, db: &SymbolDb)
    requires
        utf8_len(line@) < u32::MAX,
        columns_ok(old(sc)@),
    ensures
        final(sc)@ == line_step(old(sc)@, line@, num, db@),
        columns_ok(final(sc)@),
{
    let (a, b) = trim_bounds(line);
    let tv = slice_chars(line, a, b);
    let open = chars_of("<#");
    let close = chars_of("#>");
    if sc.in_block || contains_exec(&tv, &open) {
        sc.in_block = !contains_exec(&tv, &close);
        return;
    }
    let hash = chars_of("#");
    if tv.len() == 0 || starts_with_exec(&tv, &hash) {
        return;
    }
    scan_line(sc, line, num);
    if invalid_using_exec(&tv) {
        let d = using_error(line, a, b, num);
        push_diag(&mut sc.diags, d);
    }
    proof {
        lemma_utf8_len_subrange(line@, a as int, b as int);
    }
    let ts = string_of_all(&tv);
    check_type_references(ts.as_str(), num, db, &mut sc.diags);
}

/// Errors for the delimiters left open on `stack`, appended in order.
fn flush_open(diags: &mut Vec<Diagnostic>, stack: &Vec<(u32, u32)>, message: &str)
    requires
        stack_ok(stack@),
    ensures
        diags_view(final(diags)@) == diags_view(old(diags)@) + opening_diags(stack@, message@),
{
    let mut i: usize = 0;
    while i < stack.len()
        invariant
            i <= stack@.len(),
            forall|j: int| 0 <= j < stack@.len() ==> #[trigger] stack@[j].1 < u32::MAX,
            diags_view(diags@) == diags_view(old(diags)@) + opening_diags(stack@.take(i as int), message@),
        decreases stack@.len() - i,
    {
        let (l, c) = stack[i];
        push_diag(diags, error_diag(l, c, message));
        i = i + 1;
        assert(opening_diags(stack@.take(i as int), message@) =~= opening_diags(
            stack@.take(i - 1),
            message@,
        ).push(error_at(l, c, message@)));
    }
    assert(stack@.take(i as int) =~= stack@);
}

/// Diagnostics of `text`: unmatched closing delimiters as they are met,
/// malformed `using` lines, unknown types in `var` declarations, and
/// finally the delimiters left open.
pub fn diagnose(text: &str, db: &SymbolDb) -> (r: Vec<Diagnostic>)
    requires
        positions_fit(text@),
    ensures
        diags_view(r@) == diagnostics(text@, db@),
{
    let tv = chars_of(text);
    let ls = split_lines(&tv);
    let mut sc = Scan {
        diags: Vec::new(),
        parens: Vec::new(),
        brackets: Vec::new(),
        braces: Vec::new(),
        in_block: false,
    };
    assert(sc@ == initial_diag_state()) by {
        assert(diags_view(sc.diags@) =~= Seq::<DiagnosticV>::empty());
    }
    let mut idx: usize = 0;
    while idx < ls.len()
        invariant
            idx <= ls@.len() == lines(text@).len(),
            ls@.len() <= u32::MAX,
            positions_fit(text@),
            forall|k: int| 0 <= k < ls@.len() ==> #[trigger] ls@[k]@ == lines(text@)[k],
            columns_ok(sc@),
            sc@ == diag_run(lines(text@), idx as int, db@),
        decreases ls@.len() - idx,
    {
        proof {
            assert(utf8_len(lines(text@)[idx as int]) < u32::MAX);
        }
        process_line(&mut sc, &ls[idx], idx as u32, db);
        idx = idx + 1;
    }
    proof {
        assert(stack_ok(sc.parens@));
        assert(stack_ok(sc.brackets@));
        assert(stack_ok(sc.braces@));
    }
    let mut out = sc.diags;
    flush_open(&mut out, &sc.parens, "Unmatched opening parenthesis '('");
    flush_open(&mut out, &sc.brackets, "Unmatched opening bracket '['");
    flush_open(&mut out, &sc.braces, "Unmatched opening brace '{'");
    out
}

} // verus!
