//! Signature help: the method being called at the cursor and the argument
//! the cursor is in.
use vstd::prelude::*;

use crate::database::{lemma_take_step, SymbolDb};
use crate::hover::{
    append_effects, effects_text, hover_markdown, labels_of, method_hover_shows_signature,
    param_label, param_labels,
};
use crate::symbol::{
    lemma_symbols_view_index, lemma_symbols_view_len, opt_view, symbols_view, DetailV, ParamV,
    Symbol, SymbolDetail, SymbolV,
};
use crate::text::{
    append_join, append_str, back_ident, back_ws, char_at_byte, char_start_at, chars_of, ident_back,
    is_alpha, is_boundary, join, lemma_ident_back_bounds, lemma_line_bounded, lines, slice_chars,
    split_lines, contains, string_of, trim_end, utf8_len, views,
};

verus! {

#[derive(Debug, Clone)]
pub struct SignatureHelp {
    pub signatures: Vec<SignatureInfo>,
    pub active_signature: u32,
    pub active_parameter: u32,
}

#[derive(Debug, Clone)]
pub struct SignatureInfo {
    pub label: String,
    pub documentation: Option<String>,
    pub parameters: Vec<ParameterInfo>,
}

#[derive(Debug, Clone)]
pub struct ParameterInfo {
    pub label: String,
    pub documentation: Option<String>,
}

/// View of a `ParameterInfo`.
pub struct ParameterInfoV {
    pub label: Seq<char>,
    pub documentation: Option<Seq<char>>,
}

/// View of a `SignatureInfo`.
pub struct SignatureInfoV {
    pub label: Seq<char>,
    pub documentation: Option<Seq<char>>,
    pub parameters: Seq<ParameterInfoV>,
}

/// View of a `SignatureHelp`.
pub struct SignatureHelpV {
    pub signatures: Seq<SignatureInfoV>,
    pub active_signature: u32,
    pub active_parameter: u32,
}

impl View for ParameterInfo {
    type V = ParameterInfoV;

    open spec fn view(&self) -> ParameterInfoV {
        ParameterInfoV { label: self.label@, documentation: opt_view(self.documentation) }
    }
}

pub open spec fn parameter_infos_view(v: Seq<ParameterInfo>) -> Seq<ParameterInfoV> {
    Seq::new(v.len(), |i: int| v[i]@)
}

impl View for SignatureInfo {
    type V = SignatureInfoV;

    open spec fn view(&self) -> SignatureInfoV {
        SignatureInfoV {
            label: self.label@,
            documentation: opt_view(self.documentation),
            parameters: parameter_infos_view(self.parameters@),
        }
    }
}

pub open spec fn signature_infos_view(v: Seq<SignatureInfo>) -> Seq<SignatureInfoV> {
    Seq::new(v.len(), |i: int| v[i]@)
}

impl View for SignatureHelp {
    type V = SignatureHelpV;

    open spec fn view(&self) -> SignatureHelpV {
        SignatureHelpV {
            signatures: signature_infos_view(self.signatures@),
            active_signature: self.active_signature,
            active_parameter: self.active_parameter,
        }
    }
}

/// Scans `s[..i]` from its end for the `(` that opens the call the end of
/// `s` stands in, with `depth` unmatched `)` seen and `commas` top-level
/// commas counted so far; gives that `(`'s index and the commas before the end.
pub open spec fn call_scan(s: Seq<char>, i: int, depth: nat, commas: nat) -> Option<(int, nat)>
    decreases i,
{
    if i <= 0 || i > s.len() {
        None
    } else {
        let c = s[i - 1];
        if c == ')' {
            call_scan(s, i - 1, depth + 1, commas)
        } else if c == '(' {
            if depth == 0 {
                Some((i - 1, commas))
            } else {
                call_scan(s, i - 1, (depth - 1) as nat, commas)
            }
        } else if c == ',' && depth == 0 {
            call_scan(s, i - 1, depth, commas + 1)
        } else {
            call_scan(s, i - 1, depth, commas)
        }
    }
}

/// Number of occurrences of `c` in `s[a..b]`.
pub open spec fn count_char(s: Seq<char>, a: int, b: int, c: char) -> nat
    decreases b - a,
{
    if a >= b {
        0
    } else {
        (if s[a] == c {
            1nat
        } else {
            0nat
        }) + count_char(s, a + 1, b, c)
    }
}

/// The parentheses of `s[a..b]` balance: every tail of it closes at least
/// as many as it opens, and the whole opens as many as it closes (so no
/// `)` closes a `(` before `a`, and none of its `(` is left open).
pub open spec fn parens_balanced(s: Seq<char>, a: int, b: int) -> bool {
    &&& count_char(s, a, b, '(') == count_char(s, a, b, ')')
    &&& forall|k: int| a <= k <= b ==> count_char(s, k, b, '(') <= #[trigger] count_char(s, k, b, ')')
}

/// Commas of `s[a..b]` outside any parentheses of it: those after which
/// the rest of `s[..b]` opens as many as it closes.
pub open spec fn top_level_commas(s: Seq<char>, a: int, b: int) -> nat
    decreases b - a,
{
    if a >= b {
        0
    } else {
        (if s[a] == ',' && count_char(s, a + 1, b, '(') == count_char(s, a + 1, b, ')') {
            1nat
        } else {
            0nat
        }) + top_level_commas(s, a + 1, b)
    }
}

proof fn lemma_call_scan(s: Seq<char>, i: int, depth: nat, commas: nat)
    requires
        0 <= i <= s.len(),
        depth + count_char(s, i, s.len() as int, '(') == count_char(s, i, s.len() as int, ')'),
        commas == top_level_commas(s, i, s.len() as int),
        forall|k: int|
            i <= k <= s.len() ==> count_char(s, k, s.len() as int, '(') <= #[trigger] count_char(
                s,
                k,
                s.len() as int,
                ')',
            ),
    ensures
        match call_scan(s, i, depth, commas) {
            Some((p, c)) => 0 <= p < i && s[p] == '(' && parens_balanced(s, p + 1, s.len() as int)
                && c == top_level_commas(s, p + 1, s.len() as int),
            None => forall|p: int|
                0 <= p < i && s[p] == '(' ==> !parens_balanced(s, p + 1, s.len() as int),
        },
    decreases i,
{
    let n = s.len() as int;
    if i > 0 {
        let c = s[i - 1];
        assert(count_char(s, i - 1, n, '(') == (if c == '(' {
            1nat
        } else {
            0nat
        }) + count_char(s, i, n, '('));
        assert(count_char(s, i - 1, n, ')') == (if c == ')' {
            1nat
        } else {
            0nat
        }) + count_char(s, i, n, ')'));
        if c == ')' {
            lemma_call_scan(s, i - 1, depth + 1, commas);
        } else if c == '(' {
            if depth == 0 {
            } else {
                lemma_call_scan(s, i - 1, (depth - 1) as nat, commas);
            }
        } else if c == ',' && depth == 0 {
            lemma_call_scan(s, i - 1, depth, commas + 1);
        } else {
            lemma_call_scan(s, i - 1, depth, commas);
        }
    }
}

/// The call the end of `s` stands in opens at the last `(` left unclosed:
/// the text after it balances its parentheses, and the commas counted are
/// those of that text outside its parentheses. When none is found, no `(`
/// of `s` is left unclosed.
pub proof fn call_scan_finds_unclosed_paren(s: Seq<char>)
    ensures
        match call_scan(s, s.len() as int, 0, 0) {
            Some((p, c)) => 0 <= p < s.len() && s[p] == '(' && parens_balanced(
                s,
                p + 1,
                s.len() as int,
            ) && c == top_level_commas(s, p + 1, s.len() as int),
            None => forall|p: int|
                0 <= p < s.len() && s[p] == '(' ==> !parens_balanced(s, p + 1, s.len() as int),
        },
{
    lemma_call_scan(s, s.len() as int, 0, 0);
}

/// Walks left from `end` over a `<...>` group whose `depth` closing brackets
/// are still open; gives the index of the matching `<` (or where the walk
/// stopped at the start of the text).
pub open spec fn angle_open(s: Seq<char>, end: int, depth: nat) -> int
    decreases end,
{
    if end <= 0 || end > s.len() || depth == 0 {
        end
    } else {
        let e = end - 1;
        if s[e] == '>' {
            angle_open(s, e, depth + 1)
        } else if s[e] == '<' {
            angle_open(s, e, (depth - 1) as nat)
        } else {
            angle_open(s, e, depth)
        }
    }
}

pub proof fn lemma_angle_open_bounds(s: Seq<char>, end: int, depth: nat)
    requires
        0 <= end <= s.len(),
    ensures
        0 <= angle_open(s, end, depth) <= end,
    decreases end,
{
    if end > 0 && depth > 0 {
        let e = end - 1;
        if s[e] == '>' {
            lemma_angle_open_bounds(s, e, depth + 1);
        } else if s[e] == '<' {
            lemma_angle_open_bounds(s, e, (depth - 1) as nat);
        } else {
            lemma_angle_open_bounds(s, e, depth);
        }
    }
}

/// The identifier that ends `t` once trailing whitespace and a trailing
/// `<...>` group (such as `<override>`) are set aside; it must start with an
/// ASCII letter.
pub open spec fn identifier_before(t: Seq<char>) -> Option<Seq<char>> {
    let u = trim_end(t);
    if u.len() == 0 {
        None
    } else {
        let end = if u.last() == '>' {
            angle_open(u, u.len() - 1, 1)
        } else {
            u.len() as int
        };
        let start = ident_back(u, end);
        if end == 0 || start == end || !is_alpha(u[start]) {
            None
        } else {
            Some(u.subrange(start, end))
        }
    }
}

/// The name found before a call is a non-empty identifier that starts with
/// an ASCII letter.
pub proof fn identifier_before_is_identifier(t: Seq<char>)
    ensures
        match identifier_before(t) {
            Some(n) => n.len() > 0 && is_alpha(n[0]) && forall|i: int|
                0 <= i < n.len() ==> crate::text::is_ident_char(#[trigger] n[i]),
            None => true,
        },
{
    let u = trim_end(t);
    crate::text::lemma_ws_back_bounds(t, t.len() as int);
    if u.len() > 0 {
        let end = if u.last() == '>' {
            lemma_angle_open_bounds(u, u.len() - 1, 1);
            angle_open(u, u.len() - 1, 1)
        } else {
            u.len() as int
        };
        lemma_ident_back_bounds(u, end);
        let start = ident_back(u, end);
        if end != 0 && start != end && is_alpha(u[start]) {
            let n = u.subrange(start, end);
            assert forall|i: int| 0 <= i < n.len() implies crate::text::is_ident_char(
                #[trigger] n[i],
            ) by {
                assert(n[i] == u[start + i]);
            }
        }
    }
}

/// The name of the method whose argument list the end of `s` stands in,
/// and how many top-level commas precede the end in that list.
pub open spec fn function_call(s: Seq<char>) -> Option<(Seq<char>, nat)> {
    match call_scan(s, s.len() as int, 0, 0) {
        Some((p, c)) => match identifier_before(s.take(p)) {
            Some(n) => Some((n, c)),
            None => None,
        },
        None => None,
    }
}

/// Parameter entries of a signature: each labelled `name:type`.
pub open spec fn parameter_infos(ps: Seq<ParamV>) -> Seq<ParameterInfoV> {
    Seq::new(ps.len(), |i: int| ParameterInfoV { label: param_label(ps[i]), documentation: None })
}

/// The signature shown for a symbol: methods only,
/// `name(p1:t1, p2:t2)<effects>:return`.
pub open spec fn signature_of(s: SymbolV) -> Option<SignatureInfoV> {
    match s.detail {
        DetailV::Method { params, effects, return_type, .. } => Some(
            SignatureInfoV {
                label: s.name + "("@ + join(param_labels(params), ", "@) + ")"@ + effects_text(
                    effects,
                ) + ":"@ + return_type,
                documentation: s.doc,
                parameters: parameter_infos(params),
            },
        ),
        _ => None,
    }
}

/// Signature help and hover agree: a method's signature label is
/// `name(params)<effects>:return`, and its hover text shows that label.
pub proof fn signature_label_matches_hover(s: SymbolV)
    ensures
        s.detail matches DetailV::Method { params, effects, return_type, .. } ==> {
            &&& signature_of(s) matches Some(info)
            &&& info.label == s.name + "("@ + join(param_labels(params), ", "@) + ")"@
                + effects_text(effects) + ":"@ + return_type
            &&& contains(hover_markdown(s), info.label)
        },
{
    method_hover_shows_signature(s);
}

/// Signatures of the methods named `name`, in the order of `syms`.
pub open spec fn signatures_named(syms: Seq<SymbolV>, name: Seq<char>) -> Seq<SignatureInfoV>
    decreases syms.len(),
{
    if syms.len() == 0 {
        Seq::empty()
    } else {
        let rest = signatures_named(syms.drop_last(), name);
        if syms.last().name == name {
            match signature_of(syms.last()) {
                Some(i) => rest.push(i),
                None => rest,
            }
        } else {
            rest
        }
    }
}

/// Text of `line` before byte column `col`; the whole line when `col` lies
/// past its end.
pub open spec fn before_cursor(line: Seq<char>, col: int) -> Seq<char> {
    match char_start_at(line, col) {
        Some(k) => line.take(k),
        None => line,
    }
}

/// Signature help at byte column `col` of line `line` of `content`.
pub open spec fn signature_help(content: Seq<char>, line: int, col: int, syms: Seq<SymbolV>) -> Option<
    SignatureHelpV,
> {
    let ls = lines(content);
    if line < 0 || line >= ls.len() {
        None
    } else {
        match function_call(before_cursor(ls[line], col)) {
            Some((name, active)) => {
                let sigs = signatures_named(syms, name);
                if sigs.len() == 0 {
                    None
                } else {
                    Some(
                        SignatureHelpV {
                            signatures: sigs,
                            active_signature: 0,
                            active_parameter: active as u32,
                        },
                    )
                }
            },
            None => None,
        }
    }
}

pub open spec fn opt_signature_view(o: Option<SignatureInfo>) -> Option<SignatureInfoV> {
    match o {
        Some(i) => Some(i@),
        None => None,
    }
}

/// Index of the `(` that opens the call the end of `s` stands in, and the
/// number of top-level commas after it.
fn scan_call(s: &Vec<char>) -> (r: Option<(usize, u32)>)
    requires
        s.len() <= u32::MAX,
    ensures
        match r {
            Some((p, c)) => call_scan(s@, s.len() as int, 0, 0) == Some((p as int, c as nat))
                && p < s.len(),
            None => call_scan(s@, s.len() as int, 0, 0) is None,
        },
{
    let mut i = s.len();
    let mut depth: usize = 0;
    let mut commas: u32 = 0;
    while i > 0
        invariant
            i <= s.len() <= u32::MAX,
            depth + commas <= s.len() - i,
            call_scan(s@, i as int, depth as nat, commas as nat) == call_scan(
                s@,
                s.len() as int,
                0,
                0,
            ),
        decreases i,
    {
        let c = s[i - 1];
        if c == ')' {
            depth = depth + 1;
        } else if c == '(' {
            if depth == 0 {
                return Some((i - 1, commas));
            }
            depth = depth - 1;
        } else if c == ',' && depth == 0 {
            commas = commas + 1;
        }
        i = i - 1;
    }
    None
}

/// The identifier ending `t` (see `identifier_before`).
fn identifier_in(t: &Vec<char>) -> (r: Option<String>)
    ensures
        match r {
            Some(n) => identifier_before(t@) == Some(n@),
            None => identifier_before(t@) is None,
        },
{
    let e = back_ws(t, t.len());
    if e == 0 {
        return None;
    }
    let u = slice_chars(t, 0, e);
    assert(u@ =~= trim_end(t@));
    let mut end = e;
    if u[e - 1] == '>' {
        let mut depth: usize = 1;
        end = e - 1;
        while end > 0 && depth > 0
            invariant
                end < e == u.len(),
                depth <= e - end,
                angle_open(u@, end as int, depth as nat) == angle_open(u@, e - 1, 1),
            decreases end,
        {
            end = end - 1;
            if u[end] == '>' {
                depth = depth + 1;
            } else if u[end] == '<' {
                depth = depth - 1;
            }
        }
        if end == 0 {
            return None;
        }
    }
    let start = back_ident(&u, end);
    proof {
        lemma_ident_back_bounds(u@, end as int);
    }
    if start == end || !crate::text::ident_start(u[start]) || u[start] == '_' {
        return None;
    }
    Some(string_of(&u, start, end))
}

/// The name of the method being called at the end of `before_cursor`, and
/// the index of the argument the end stands in (top-level commas before it).
pub fn find_function_call(before_cursor: &str) -> (r: Option<(String, u32)>)
    requires
        before_cursor@.len() <= u32::MAX,
    ensures
        match r {
            Some((n, c)) => function_call(before_cursor@) == Some((n@, c as nat)),
            None => function_call(before_cursor@) is None,
        },
{
    let v = chars_of(before_cursor);
    match scan_call(&v) {
        Some((p, c)) => {
            let head = slice_chars(&v, 0, p);
            assert(head@ =~= v@.take(p as int));
            match identifier_in(&head) {
                Some(n) => Some((n, c)),
                None => None,
            }
        },
        None => None,
    }
}

/// The identifier that ends `text`, past trailing whitespace and a trailing
/// `<...>` group; `None` unless it starts with an ASCII letter.
pub fn extract_identifier_before(text: &str) -> (r: Option<String>)
    ensures
        match r {
            Some(n) => identifier_before(text@) == Some(n@),
            None => identifier_before(text@) is None,
        },
{
    let v = chars_of(text);
    identifier_in(&v)
}

/// The signature of a method symbol; `None` for any other symbol.
pub fn build_signature_info(symbol: &Symbol) -> (r: Option<SignatureInfo>)
    ensures
        opt_signature_view(r) == signature_of(symbol@),
{
    match &symbol.detail {
        SymbolDetail::Method { params, effects, return_type, .. } => {
            let labels = labels_of(params);
            let mut infos: Vec<ParameterInfo> = Vec::new();
            let mut i: usize = 0;
            while i < labels.len()
                invariant
                    i <= labels.len(),
                    views(labels@) == param_labels(crate::symbol::params_view(params@)),
                    infos@.len() == i,
                    forall|k: int|
                        0 <= k < i ==> #[trigger] infos@[k]@ == (ParameterInfoV {
                            label: labels@[k]@,
                            documentation: None,
                        }),
                decreases labels.len() - i,
            {
                infos.push(ParameterInfo { label: labels[i].clone(), documentation: None });
                i = i + 1;
            }
            let mut label = symbol.name.clone();
            append_str(&mut label, "(");
            append_join(&mut label, &labels, ", ");
            append_str(&mut label, ")");
            append_effects(&mut label, effects);
            append_str(&mut label, ":");
            append_str(&mut label, return_type.as_str());
            let info = SignatureInfo {
                label,
                documentation: crate::symbol::copy_opt(&symbol.doc),
                parameters: infos,
            };
            proof {
                let ps = crate::symbol::params_view(params@);
                assert(labels@.len() == ps.len()) by {
                    assert(views(labels@).len() == labels@.len());
                }
                assert forall|k: int| 0 <= k < ps.len() implies #[trigger] parameter_infos_view(
                    infos@,
                )[k] == parameter_infos(ps)[k] by {
                    assert(views(labels@)[k] == labels@[k]@);
                }
                assert(parameter_infos_view(infos@) =~= parameter_infos(ps));
            }
            Some(info)
        },
        _ => None,
    }
}

/// Signature help at byte column `col` of line `line` of `content`: the
/// signatures of the methods named like the call the cursor stands in, and
/// the index of the argument it is in.
pub fn get_signature_help(content: &str, line: u32, col: u32, db: &SymbolDb) -> (r: Option<
    SignatureHelp,
>)
    requires
        (line as int) < lines(content@).len() ==> lines(content@)[line as int].len() <= u32::MAX,
        (line as int) < lines(content@).len() && (col as int) <= utf8_len(
            lines(content@)[line as int],
        ) ==> is_boundary(lines(content@)[line as int], col as int),
    ensures
        match r {
            Some(h) => signature_help(content@, line as int, col as int, db@.all_symbols) == Some(
                h@,
            ),
            None => signature_help(content@, line as int, col as int, db@.all_symbols) is None,
        },
{
    let text = chars_of(content);
    let ls = split_lines(&text);
    if line as usize >= ls.len() {
        return None;
    }
    let current = &ls[line as usize];
    proof {
        lemma_line_bounded(content@, line as int);
    }
    let before: Vec<char> = match char_at_byte(current, col as usize) {
        Some(k) => slice_chars(current, 0, k),
        None => {
            proof {
                if (col as int) <= utf8_len(current@) {
                    let k = choose|k: int|
                        0 <= k <= current@.len() && utf8_len(current@.take(k)) == col as int;
                    if k < current@.len() {
                        assert(exists|m: int|
                            0 <= m < current@.len() && utf8_len(current@.take(m)) == col as int);
                    }
                }
            }
            slice_chars(current, 0, current.len())
        },
    };
    assert(before@ =~= before_cursor(current@, col as int));
    let bs = crate::text::string_of_all(&before);
    let (name, active) = match find_function_call(bs.as_str()) {
        Some(found) => found,
        None => {
            return None;
        },
    };
    let all = db.all_symbols();
    let ghost sv = symbols_view(all@);
    proof {
        lemma_symbols_view_len(all@);
    }
    let mut sigs: Vec<SignatureInfo> = Vec::new();
    let mut i: usize = 0;
    while i < all.len()
        invariant
            i <= all@.len(),
            sv == symbols_view(all@),
            sv.len() == all@.len(),
            signature_infos_view(sigs@) == signatures_named(sv.take(i as int), name@),
        decreases all@.len() - i,
    {
        proof {
            lemma_symbols_view_index(all@, i as int);
            lemma_take_step(sv, i as int);
        }
        let s = &all[i];
        if s.name == name {
            let built = build_signature_info(s);
            match built {
                Some(info) => {
                    sigs.push(info);
                    assert(signature_infos_view(sigs@) =~= signatures_named(
                        sv.take(i + 1),
                        name@,
                    ));
                },
                None => {},
            }
        }
        i = i + 1;
    }
    proof {
        assert(sv.take(all@.len() as int) =~= sv);
    }
    if sigs.len() == 0 {
        return None;
    }
    Some(SignatureHelp { signatures: sigs, active_signature: 0, active_parameter: active })
}

} // verus!
