//! The line grammar of digest files: recognisers for declarations, using
//! clauses, fields, method signatures and angle-bracketed tags.
//!
//! Each recogniser returns the span (start and end character index) of the
//! pieces it extracts; the spec functions state which span that is.
use vstd::prelude::*;

use crate::symbol::{tag_text, Tag};
use crate::text::{
    chars_of, eq_str, find_char, find_char_from, ident_at, ident_end, ident_start, is_whitespace,
    is_ws, lemma_find_char_bounds, occurs_at, occurs_at_exec, skip_ident, skip_ws, starts_with,
    starts_with_exec, trim, ws_end,
};

verus! {

/// No line feed in `s[a..b]`.
pub open spec fn no_newline(s: Seq<char>, a: int, b: int) -> bool {
    forall|k: int| a <= k < b ==> s[k] != '\n'
}

/// All of `s[a..b]` is whitespace.
pub open spec fn all_ws(s: Seq<char>, a: int, b: int) -> bool {
    forall|k: int| a <= k < b ==> is_ws(#[trigger] s[k])
}

// ---------------------------------------------------------------------------
// `Name<...> := kind`
// ---------------------------------------------------------------------------
/// A `>` at `j`, then optional whitespace, then `tail`.
pub open spec fn decl_close_at(s: Seq<char>, j: int, tail: Seq<char>) -> bool {
    0 <= j < s.len() && s[j] == '>' && occurs_at(s, ws_end(s, j + 1), tail)
}

/// End of the declared name when `s` reads `Name<...>` then optional
/// whitespace then `tail` (the name being an identifier at the very start,
/// the part between the angle brackets holding no line feed).
pub open spec fn decl_name_end(s: Seq<char>, tail: Seq<char>) -> Option<int> {
    let n = ident_end(s, 0);
    if ident_at(s, 0) && n < s.len() && s[n] == '<' && exists|j: int|
        n < j && decl_close_at(s, j, tail) && no_newline(s, n + 1, j) {
        Some(n)
    } else {
        None
    }
}

pub fn decl_name(s: &Vec<char>, tail: &Vec<char>) -> (r: Option<usize>)
    ensures
        match r {
            Some(n) => decl_name_end(s@, tail@) == Some(n as int) && n <= s.len(),
            None => decl_name_end(s@, tail@) is None,
        },
{
    if s.len() == 0 || !ident_start(s[0]) {
        return None;
    }
    let n = skip_ident(s, 0);
    if n >= s.len() || s[n] != '<' {
        return None;
    }
    let mut j = n + 1;
    while j < s.len() && s[j] != '\n'
        invariant
            n < j <= s.len(),
            n == ident_end(s@, 0),
            ident_at(s@, 0),
            s@[n as int] == '<',
            no_newline(s@, n + 1, j as int),
            forall|m: int| n < m < j ==> !decl_close_at(s@, m, tail@),
        decreases s.len() - j,
    {
        if s[j] == '>' {
            let w = skip_ws(s, j + 1);
            if occurs_at_exec(s, w, tail) {
                assert(n < j && decl_close_at(s@, j as int, tail@) && no_newline(
                    s@,
                    n + 1,
                    j as int,
                ));
                assert(exists|jj: int|
                    n < jj && decl_close_at(s@, jj, tail@) && no_newline(s@, n + 1, jj));
                assert(ident_at(s@, 0));
                return Some(n);
            }
        }
        j = j + 1;
    }
    proof {
        assert forall|m: int| n < m && decl_close_at(s@, m, tail@) implies !no_newline(
            s@,
            n + 1,
            m,
        ) by {
            if m >= j {
                assert(j < s.len());
                assert(s@[j as int] == '\n');
            }
        }
    }
    None
}

// ---------------------------------------------------------------------------
// `class(P1, P2)`
// ---------------------------------------------------------------------------
/// Span of the first `class(...)` group with a non-empty inside, looking
/// from position `i` on.
pub open spec fn class_paren_from(s: Seq<char>, i: int) -> Option<(int, int)>
    decreases s.len() - i,
{
    if i < 0 || i > s.len() {
        None
    } else {
        let a = i + "class("@.len();
        let j = find_char(s, a, ')');
        if occurs_at(s, i, "class("@) && j < s.len() && j > a {
            Some((a, j))
        } else if i < s.len() {
            class_paren_from(s, i + 1)
        } else {
            None
        }
    }
}

pub fn class_paren(s: &Vec<char>) -> (r: Option<(usize, usize)>)
    ensures
        match r {
            Some((a, b)) => class_paren_from(s@, 0) == Some((a as int, b as int)) && a <= b
                <= s.len(),
            None => class_paren_from(s@, 0) is None,
        },
{
    let lit = chars_of("class(");
    let mut i: usize = 0;
    loop
        invariant
            i <= s.len(),
            lit@ == "class("@,
            class_paren_from(s@, i as int) == class_paren_from(s@, 0),
        decreases s.len() - i,
    {
        if occurs_at_exec(s, i, &lit) {
            let a = i + lit.len();
            let j = find_char_from(s, a, ')');
            if j < s.len() && j > a {
                return Some((a, j));
            }
        }
        if i >= s.len() {
            return None;
        }
        i = i + 1;
    }
}

// ---------------------------------------------------------------------------
// `<...>` groups
// ---------------------------------------------------------------------------
/// The non-empty `<...>` groups of `s` from position `i` on, left to right,
/// not overlapping; each group ends at the first `>` after its `<`.
pub open spec fn angle_groups_from(s: Seq<char>, i: int) -> Seq<(int, int)>
    decreases s.len() - i,
{
    if i < 0 || i >= s.len() {
        Seq::empty()
    } else if s[i] == '<' {
        let j = find_char(s, i + 1, '>');
        if j < s.len() && j > i + 1 {
            proof {
                lemma_find_char_bounds(s, i + 1, '>');
            }
            seq![(i + 1, j)] + angle_groups_from(s, j + 1)
        } else {
            angle_groups_from(s, i + 1)
        }
    } else {
        angle_groups_from(s, i + 1)
    }
}

pub open spec fn angle_groups(s: Seq<char>) -> Seq<(int, int)> {
    angle_groups_from(s, 0)
}

pub open spec fn spans_ok(s: Seq<char>, v: Seq<(int, int)>) -> bool {
    forall|k: int| 0 <= k < v.len() ==> 0 <= (#[trigger] v[k]).0 <= v[k].1 <= s.len()
}

pub proof fn lemma_angle_groups_ok(s: Seq<char>, i: int)
    requires
        0 <= i,
    ensures
        spans_ok(s, angle_groups_from(s, i)),
    decreases s.len() - i,
{
    if i < s.len() {
        if s[i] == '<' {
            lemma_find_char_bounds(s, i + 1, '>');
            let j = find_char(s, i + 1, '>');
            if j < s.len() && j > i + 1 {
                lemma_angle_groups_ok(s, j + 1);
            } else {
                lemma_angle_groups_ok(s, i + 1);
            }
        } else {
            lemma_angle_groups_ok(s, i + 1);
        }
    }
}

pub fn angle_group_spans(s: &Vec<char>) -> (r: Vec<(usize, usize)>)
    ensures
        r@.len() == angle_groups(s@).len(),
        forall|k: int|
            0 <= k < r@.len() ==> (#[trigger] r@[k]).0 == angle_groups(s@)[k].0 && r@[k].1
                == angle_groups(s@)[k].1 && r@[k].0 <= r@[k].1 <= s.len(),
{
    let mut r: Vec<(usize, usize)> = Vec::new();
    let ghost mut done: Seq<(int, int)> = Seq::empty();
    let mut i: usize = 0;
    proof {
        lemma_angle_groups_ok(s@, 0);
    }
    while i < s.len()
        invariant
            i <= s.len(),
            r@.len() == done.len(),
            forall|k: int|
                0 <= k < r@.len() ==> (#[trigger] r@[k]).0 == done[k].0 && r@[k].1 == done[k].1
                    && r@[k].0 <= r@[k].1 <= s.len(),
            done + angle_groups_from(s@, i as int) == angle_groups(s@),
        decreases s.len() - i,
    {
        if s[i] == '<' {
            let j = find_char_from(s, i + 1, '>');
            if j < s.len() && j > i + 1 {
                proof {
                    assert(angle_groups_from(s@, i as int) == seq![(i + 1, j as int)]
                        + angle_groups_from(s@, j + 1));
                    assert(done.push((i + 1, j as int)) + angle_groups_from(s@, j + 1)
                        =~= done + angle_groups_from(s@, i as int));
                    done = done.push((i + 1, j as int));
                }
                r.push((i + 1, j));
                i = j + 1;
            } else {
                i = i + 1;
            }
        } else {
            i = i + 1;
        }
    }
    proof {
        assert(angle_groups_from(s@, i as int) =~= Seq::<(int, int)>::empty());
        assert(done =~= angle_groups(s@));
    }
    r
}

// ---------------------------------------------------------------------------
// `using {path}`
// ---------------------------------------------------------------------------
/// Span of the path in the first `using {path}` (non-empty path, ending at
/// the first `}`), looking from position `i` on.
pub open spec fn using_from(s: Seq<char>, i: int) -> Option<(int, int)>
    decreases s.len() - i,
{
    if i < 0 || i > s.len() {
        None
    } else {
        let a = i + "using {"@.len();
        let j = find_char(s, a, '}');
        if occurs_at(s, i, "using {"@) && j < s.len() && j > a {
            Some((a, j))
        } else if i < s.len() {
            using_from(s, i + 1)
        } else {
            None
        }
    }
}

pub fn using_path(s: &Vec<char>) -> (r: Option<(usize, usize)>)
    ensures
        match r {
            Some((a, b)) => using_from(s@, 0) == Some((a as int, b as int)) && a <= b <= s.len(),
            None => using_from(s@, 0) is None,
        },
{
    let lit = chars_of("using {");
    let mut i: usize = 0;
    loop
        invariant
            i <= s.len(),
            lit@ == "using {"@,
            using_from(s@, i as int) == using_from(s@, 0),
        decreases s.len() - i,
    {
        if occurs_at_exec(s, i, &lit) {
            let a = i + lit.len();
            let j = find_char_from(s, a, '}');
            if j < s.len() && j > a {
                return Some((a, j));
            }
        }
        if i >= s.len() {
            return None;
        }
        i = i + 1;
    }
}

// ---------------------------------------------------------------------------
// Field name: optional `var<...>`, whitespace, identifier
// ---------------------------------------------------------------------------
/// Start of the identifier after a leading `var<...>` and whitespace, when
/// there is one.
pub open spec fn var_tagged_name_start(s: Seq<char>) -> Option<int> {
    let a = "var<"@.len() as int;
    let j = find_char(s, a, '>');
    let k = ws_end(s, j + 1);
    if starts_with(s, "var<"@) && j < s.len() && j > a && ident_at(s, k) {
        Some(k)
    } else {
        None
    }
}

/// Span of the field name: the identifier after `var<...>` and whitespace
/// when the line reads so, else the identifier after leading whitespace.
pub open spec fn field_name_span(s: Seq<char>) -> Option<(int, int)> {
    match var_tagged_name_start(s) {
        Some(k) => Some((k, ident_end(s, k))),
        None => {
            let k = ws_end(s, 0);
            if ident_at(s, k) {
                Some((k, ident_end(s, k)))
            } else {
                None
            }
        },
    }
}

pub fn field_name(s: &Vec<char>) -> (r: Option<(usize, usize)>)
    ensures
        match r {
            Some((a, b)) => field_name_span(s@) == Some((a as int, b as int)) && a <= b <= s.len(),
            None => field_name_span(s@) is None,
        },
{
    let lit = chars_of("var<");
    if starts_with_exec(s, &lit) {
        let a = lit.len();
        let j = find_char_from(s, a, '>');
        if j < s.len() && j > a {
            let k = skip_ws(s, j + 1);
            if k < s.len() && ident_start(s[k]) {
                let e = skip_ident(s, k);
                return Some((k, e));
            }
        }
    }
    let k = skip_ws(s, 0);
    if k < s.len() && ident_start(s[k]) {
        let e = skip_ident(s, k);
        Some((k, e))
    } else {
        None
    }
}

// ---------------------------------------------------------------------------
// `: type = default`
// ---------------------------------------------------------------------------
/// `\s*(.+)$` matches `s[b..]`: some whitespace, then a non-empty rest
/// without a line feed.
pub open spec fn rest_ok(s: Seq<char>, b: int) -> bool {
    exists|k: int| b <= k < s.len() && all_ws(s, b, k) && no_newline(s, k, s.len() as int)
}

/// `:\s*([^=]+)(?:\s*=\s*(.+))?$` matches at the `:` at position `p`.
pub open spec fn type_at(s: Seq<char>, p: int) -> bool {
    let e = find_char(s, p + 1, '=');
    0 <= p < s.len() && s[p] == ':' && e > p + 1 && (e >= s.len() || rest_ok(s, e + 1))
}

/// The type text and the optional default text after the first `:` at or
/// after `i` where the type pattern matches, both trimmed; `("", None)`
/// when there is none.
pub open spec fn field_type_from(s: Seq<char>, i: int) -> (Seq<char>, Option<Seq<char>>)
    decreases s.len() - i,
{
    if i < 0 || i >= s.len() {
        (Seq::empty(), None)
    } else if type_at(s, i) {
        let e = find_char(s, i + 1, '=');
        (
            trim(s.subrange(i + 1, e)),
            if e < s.len() {
                Some(trim(s.subrange(e + 1, s.len() as int)))
            } else {
                None
            },
        )
    } else {
        field_type_from(s, i + 1)
    }
}

/// Last line feed in `s[b..j]`, or `b - 1` when there is none.
pub open spec fn last_newline(s: Seq<char>, b: int, j: int) -> int
    decreases j - b,
{
    if j <= b {
        b - 1
    } else if s[j - 1] == '\n' {
        j - 1
    } else {
        last_newline(s, b, j - 1)
    }
}

pub proof fn lemma_last_newline(s: Seq<char>, b: int, j: int)
    requires
        0 <= b <= j <= s.len(),
    ensures
        b - 1 <= last_newline(s, b, j) < j,
        last_newline(s, b, j) >= b ==> s[last_newline(s, b, j)] == '\n',
        no_newline(s, last_newline(s, b, j) + 1, j),
    decreases j - b,
{
    if j > b && s[j - 1] != '\n' {
        lemma_last_newline(s, b, j - 1);
    }
}

pub fn rest_ok_exec(s: &Vec<char>, b: usize) -> (r: bool)
    requires
        b <= s.len(),
    ensures
        r == rest_ok(s@, b as int),
{
    let mut q = s.len();
    while q > b && s[q - 1] != '\n'
        invariant
            b <= q <= s.len(),
            no_newline(s@, q as int, s.len() as int),
        decreases q,
    {
        q = q - 1;
    }
    // q == b, or s[q - 1] is the last line feed
    let mut k = b;
    if q > b {
        k = q;
    }
    if k >= s.len() {
        proof {
            assert forall|m: int| b <= m < s.len() && all_ws(s@, b as int, m) implies !no_newline(
                s@,
                m,
                s.len() as int,
            ) by {
                assert(q > b);
                assert(s@[q - 1] == '\n');
            }
        }
        return false;
    }
    assert(k > b ==> (k == q && s@[q - 1] == '\n'));
    let mut m = b;
    while m < k
        invariant
            b <= m <= k <= s.len(),
            k > b ==> (k == q && s@[q - 1] == '\n'),
            all_ws(s@, b as int, m as int),
        decreases k - m,
    {
        if !is_whitespace(s[m]) {
            proof {
                assert forall|x: int|
                    b <= x < s.len() && all_ws(s@, b as int, x) implies !no_newline(
                    s@,
                    x,
                    s.len() as int,
                ) by {
                    assert(x <= m);
                    assert(s@[q - 1] == '\n');
                }
            }
            return false;
        }
        m = m + 1;
    }
    assert(all_ws(s@, b as int, k as int) && no_newline(s@, k as int, s.len() as int));
    true
}

pub fn type_at_exec(s: &Vec<char>, p: usize) -> (r: bool)
    ensures
        r == type_at(s@, p as int),
{
    if p >= s.len() || s[p] != ':' {
        return false;
    }
    let e = find_char_from(s, p + 1, '=');
    if e <= p + 1 {
        return false;
    }
    if e >= s.len() {
        return true;
    }
    rest_ok_exec(s, e + 1)
}

/// Span of the type text (before trimming) and of the default text (before
/// trimming) of the first match of the type pattern, if any.
pub fn field_type_spans(s: &Vec<char>) -> (r: Option<(usize, usize, usize)>)
    ensures
        match r {
            Some((p, e, n)) => n == s.len() && p < e <= s.len() && type_at(s@, p as int) && e
                == find_char(s@, p + 1, '=') && field_type_from(s@, 0) == (
                trim(s@.subrange(p + 1, e as int)),
                if e < s.len() {
                    Some(trim(s@.subrange(e + 1, s.len() as int)))
                } else {
                    None::<Seq<char>>
                },
            ),
            None => field_type_from(s@, 0) == (Seq::<char>::empty(), None::<Seq<char>>),
        },
{
    let mut i: usize = 0;
    while i < s.len()
        invariant
            i <= s.len(),
            field_type_from(s@, i as int) == field_type_from(s@, 0),
        decreases s.len() - i,
    {
        if type_at_exec(s, i) {
            let e = find_char_from(s, i + 1, '=');
            return Some((i, e, s.len()));
        }
        i = i + 1;
    }
    None
}

// ---------------------------------------------------------------------------
// Method signature: `(params)<effects>: return`
// ---------------------------------------------------------------------------
/// Largest `x` in `[b, j)` with `s[x]` not a line feed, or `b - 1`.
pub open spec fn last_non_newline(s: Seq<char>, b: int, j: int) -> int
    decreases j - b,
{
    if j <= b {
        b - 1
    } else if s[j - 1] != '\n' {
        j - 1
    } else {
        last_non_newline(s, b, j - 1)
    }
}

/// Span matched by `(.+)` in `\s*(.+)` starting at `b`.
pub open spec fn text_after_ws(s: Seq<char>, b: int) -> Option<(int, int)> {
    let w = ws_end(s, b);
    if w < s.len() {
        Some((w, find_char(s, w, '\n')))
    } else {
        let x = last_non_newline(s, b, s.len() as int);
        if x >= b {
            Some((x, x + 1))
        } else {
            None
        }
    }
}

pub fn text_after_ws_exec(s: &Vec<char>, b: usize) -> (r: Option<(usize, usize)>)
    requires
        b <= s.len(),
    ensures
        match r {
            Some((x, y)) => text_after_ws(s@, b as int) == Some((x as int, y as int)) && x <= y
                <= s.len(),
            None => text_after_ws(s@, b as int) is None,
        },
{
    let w = skip_ws(s, b);
    if w < s.len() {
        let y = find_char_from(s, w, '\n');
        return Some((w, y));
    }
    let mut j = s.len();
    while j > b && s[j - 1] == '\n'
        invariant
            b <= j <= s.len(),
            last_non_newline(s@, b as int, j as int) == last_non_newline(
                s@,
                b as int,
                s.len() as int,
            ),
        decreases j,
    {
        j = j - 1;
    }
    if j > b {
        Some((j - 1, j))
    } else {
        None
    }
}

/// Position just after the optional `<...>` that follows the `)` at `j`.
pub open spec fn after_effects(s: Seq<char>, j: int) -> Option<int> {
    if j + 1 < s.len() && s[j + 1] == '<' {
        let k = find_char(s, j + 2, '>');
        if k < s.len() {
            Some(k + 1)
        } else {
            None
        }
    } else {
        Some(j + 1)
    }
}

/// Spans of the parameter text and of the return type of the signature
/// pattern matched at the `(` at `p`.
pub open spec fn signature_at(s: Seq<char>, p: int) -> Option<(int, int, int, int)> {
    let j = find_char(s, p + 1, ')');
    if 0 <= p < s.len() && s[p] == '(' && j < s.len() {
        match after_effects(s, j) {
            Some(c) => if c < s.len() && s[c] == ':' {
                match text_after_ws(s, c + 1) {
                    Some((x, y)) => Some((p + 1, j, x, y)),
                    None => None,
                }
            } else {
                None
            },
            None => None,
        }
    } else {
        None
    }
}

/// The first match of the signature pattern at or after `i`.
pub open spec fn signature_from(s: Seq<char>, i: int) -> Option<(int, int, int, int)>
    decreases s.len() - i,
{
    if i < 0 || i >= s.len() {
        None
    } else {
        match signature_at(s, i) {
            Some(r) => Some(r),
            None => signature_from(s, i + 1),
        }
    }
}

pub fn signature_at_exec(s: &Vec<char>, p: usize) -> (r: Option<(usize, usize, usize, usize)>)
    ensures
        match r {
            Some((a, b, x, y)) => signature_at(s@, p as int) == Some(
                (a as int, b as int, x as int, y as int),
            ) && a <= b <= s.len() && x <= y <= s.len(),
            None => signature_at(s@, p as int) is None,
        },
{
    if p >= s.len() || s[p] != '(' {
        return None;
    }
    let j = find_char_from(s, p + 1, ')');
    if j >= s.len() {
        return None;
    }
    let c;
    if j + 1 < s.len() && s[j + 1] == '<' {
        let k = find_char_from(s, j + 2, '>');
        if k >= s.len() {
            return None;
        }
        c = k + 1;
    } else {
        c = j + 1;
    }
    if c >= s.len() || s[c] != ':' {
        return None;
    }
    match text_after_ws_exec(s, c + 1) {
        Some((x, y)) => Some((p + 1, j, x, y)),
        None => None,
    }
}

pub fn signature_spans(s: &Vec<char>) -> (r: Option<(usize, usize, usize, usize)>)
    ensures
        match r {
            Some((a, b, x, y)) => signature_from(s@, 0) == Some(
                (a as int, b as int, x as int, y as int),
            ) && a <= b <= s.len() && x <= y <= s.len(),
            None => signature_from(s@, 0) is None,
        },
{
    let mut i: usize = 0;
    while i < s.len()
        invariant
            i <= s.len(),
            signature_from(s@, i as int) == signature_from(s@, 0),
        decreases s.len() - i,
    {
        match signature_at_exec(s, i) {
            Some(r) => {
                return Some(r);
            },
            None => {},
        }
        i = i + 1;
    }
    None
}

// ---------------------------------------------------------------------------
// Extension method: `(Receiver:type).Name`
// ---------------------------------------------------------------------------
/// Spans of the receiver type and of the method name matched at the `(` at `p`.
pub open spec fn extension_at(s: Seq<char>, p: int) -> Option<(int, int, int, int)> {
    let a = find_char(s, p + 1, ':');
    let b = find_char(s, a + 1, ')');
    if 0 <= p < s.len() && s[p] == '(' && a < s.len() && a > p + 1 && b < s.len() && b > a + 1
        && b + 1 < s.len() && s[b + 1] == '.' && ident_at(s, b + 2) {
        Some((p + 1, a, b + 2, ident_end(s, b + 2)))
    } else {
        None
    }
}

/// The first match of the extension pattern at or after `i`.
pub open spec fn extension_from(s: Seq<char>, i: int) -> Option<(int, int, int, int)>
    decreases s.len() - i,
{
    if i < 0 || i >= s.len() {
        None
    } else {
        match extension_at(s, i) {
            Some(r) => Some(r),
            None => extension_from(s, i + 1),
        }
    }
}

pub fn extension_spans(s: &Vec<char>) -> (r: Option<(usize, usize, usize, usize)>)
    ensures
        match r {
            Some((a, b, x, y)) => extension_from(s@, 0) == Some(
                (a as int, b as int, x as int, y as int),
            ) && a <= b <= s.len() && x <= y <= s.len(),
            None => extension_from(s@, 0) is None,
        },
{
    let mut i: usize = 0;
    while i < s.len()
        invariant
            i <= s.len(),
            extension_from(s@, i as int) == extension_from(s@, 0),
        decreases s.len() - i,
    {
        if s[i] == '(' {
            let a = find_char_from(s, i + 1, ':');
            if a < s.len() && a > i + 1 {
                let b = find_char_from(s, a + 1, ')');
                if b < s.len() && b > a + 1 && b + 1 < s.len() && s[b + 1] == '.' && b + 2
                    < s.len() && ident_start(s[b + 2]) {
                    let e = skip_ident(s, b + 2);
                    return Some((i + 1, a, b + 2, e));
                }
            }
        }
        i = i + 1;
    }
    None
}

// ---------------------------------------------------------------------------
// Effects and specifiers
// ---------------------------------------------------------------------------
/// The effect tag a `<...>` group names, if any.
pub open spec fn effect_tag(t: Seq<char>) -> Option<Tag> {
    if t == "transacts"@ {
        Some(Tag::Transacts)
    } else if t == "decides"@ {
        Some(Tag::Decides)
    } else if t == "computes"@ {
        Some(Tag::Computes)
    } else if t == "reads"@ {
        Some(Tag::Reads)
    } else if t == "writes"@ {
        Some(Tag::Writes)
    } else if t == "suspends"@ {
        Some(Tag::Suspends)
    } else if t == "predicts"@ {
        Some(Tag::Predicts)
    } else if t == "converges"@ {
        Some(Tag::Converges)
    } else if t == "native"@ {
        Some(Tag::Native)
    } else {
        None
    }
}

/// The effects a method can carry.
pub open spec fn is_effect(t: Tag) -> bool {
    ||| t == Tag::Transacts
    ||| t == Tag::Decides
    ||| t == Tag::Computes
    ||| t == Tag::Reads
    ||| t == Tag::Writes
    ||| t == Tag::Suspends
    ||| t == Tag::Predicts
    ||| t == Tag::Converges
    ||| t == Tag::Native
}

/// A group names an effect exactly when its text is that effect's own
/// word: each of the effects is read from the word that spells it, and
/// whatever is read is an effect spelt by the group's text.
pub proof fn effect_tags_read_their_words(w: Seq<char>, t: Tag)
    ensures
        is_effect(t) ==> effect_tag(tag_text(t)) == Some(t),
        effect_tag(w) == Some(t) ==> is_effect(t) && w == tag_text(t),
{
    reveal_strlit("transacts");
    reveal_strlit("decides");
    reveal_strlit("computes");
    reveal_strlit("reads");
    reveal_strlit("writes");
    reveal_strlit("suspends");
    reveal_strlit("predicts");
    reveal_strlit("converges");
    reveal_strlit("native");
    if is_effect(t) {
        if t == Tag::Transacts {
        } else if t == Tag::Decides {
            assert("decides"@.len() != "transacts"@.len());
        } else if t == Tag::Computes {
            assert("computes"@.len() != "transacts"@.len());
            assert("computes"@.len() != "decides"@.len());
        } else if t == Tag::Reads {
            assert("reads"@.len() != "transacts"@.len());
            assert("reads"@.len() != "decides"@.len());
            assert("reads"@.len() != "computes"@.len());
        } else if t == Tag::Writes {
            assert("writes"@.len() != "transacts"@.len());
            assert("writes"@.len() != "decides"@.len());
            assert("writes"@.len() != "computes"@.len());
            assert("writes"@.len() != "reads"@.len());
        } else if t == Tag::Suspends {
            assert("suspends"@.len() != "transacts"@.len());
            assert("suspends"@.len() != "decides"@.len());
            assert("suspends"@[0] != "computes"@[0]);
            assert("suspends"@.len() != "reads"@.len());
            assert("suspends"@.len() != "writes"@.len());
        } else if t == Tag::Predicts {
            assert("predicts"@.len() != "transacts"@.len());
            assert("predicts"@.len() != "decides"@.len());
            assert("predicts"@[0] != "computes"@[0]);
            assert("predicts"@.len() != "reads"@.len());
            assert("predicts"@.len() != "writes"@.len());
            assert("predicts"@[0] != "suspends"@[0]);
        } else if t == Tag::Converges {
            assert("converges"@[0] != "transacts"@[0]);
            assert("converges"@.len() != "decides"@.len());
            assert("converges"@.len() != "computes"@.len());
            assert("converges"@.len() != "reads"@.len());
            assert("converges"@.len() != "writes"@.len());
            assert("converges"@.len() != "suspends"@.len());
            assert("converges"@.len() != "predicts"@.len());
        } else if t == Tag::Native {
            assert("native"@.len() != "transacts"@.len());
            assert("native"@.len() != "decides"@.len());
            assert("native"@.len() != "computes"@.len());
            assert("native"@.len() != "reads"@.len());
            assert("native"@[0] != "writes"@[0]);
            assert("native"@.len() != "suspends"@.len());
            assert("native"@.len() != "predicts"@.len());
            assert("native"@.len() != "converges"@.len());
        }
    }
}

pub fn effect_tag_exec(t: &Vec<char>) -> (r: Option<Tag>)
    ensures
        r == effect_tag(t@),
{
    if eq_str(t, "transacts") {
        Some(Tag::Transacts)
    } else if eq_str(t, "decides") {
        Some(Tag::Decides)
    } else if eq_str(t, "computes") {
        Some(Tag::Computes)
    } else if eq_str(t, "reads") {
        Some(Tag::Reads)
    } else if eq_str(t, "writes") {
        Some(Tag::Writes)
    } else if eq_str(t, "suspends") {
        Some(Tag::Suspends)
    } else if eq_str(t, "predicts") {
        Some(Tag::Predicts)
    } else if eq_str(t, "converges") {
        Some(Tag::Converges)
    } else if eq_str(t, "native") {
        Some(Tag::Native)
    } else {
        None
    }
}

} // verus!
