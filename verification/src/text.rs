//! Character-level text primitives shared by the parser and the analyses.
//!
//! Text is modelled as a sequence of `char`s (the view of `str` and `String`).
//! Byte offsets, where the editor protocol uses them, are computed from the
//! UTF-8 width of each character.
use vstd::prelude::*;

verus! {

/// The Unicode `White_Space` property, as tested by `char::is_whitespace`
/// and by `\s` in a Unicode-aware pattern.
pub open spec fn is_ws(c: char) -> bool {
    ||| '\t' <= c && c <= '\r'
    ||| c == ' '
    ||| c == '\u{85}'
    ||| c == '\u{A0}'
    ||| c == '\u{1680}'
    ||| '\u{2000}' <= c && c <= '\u{200A}'
    ||| c == '\u{2028}'
    ||| c == '\u{2029}'
    ||| c == '\u{202F}'
    ||| c == '\u{205F}'
    ||| c == '\u{3000}'
}

/// ASCII letter.
pub open spec fn is_alpha(c: char) -> bool {
    ('a' <= c && c <= 'z') || ('A' <= c && c <= 'Z')
}

/// ASCII decimal digit.
pub open spec fn is_digit(c: char) -> bool {
    '0' <= c && c <= '9'
}

/// First character of an identifier: `[A-Za-z_]`.
pub open spec fn is_ident_start(c: char) -> bool {
    is_alpha(c) || c == '_'
}

/// Any character of an identifier: `[A-Za-z0-9_]`.
pub open spec fn is_ident_char(c: char) -> bool {
    is_ident_start(c) || is_digit(c)
}

pub fn is_whitespace(c: char) -> (r: bool)
    ensures
        r == is_ws(c),
{
    ('\t' <= c && c <= '\r') || c == ' ' || c == '\u{85}' || c == '\u{A0}' || c == '\u{1680}'
        || ('\u{2000}' <= c && c <= '\u{200A}') || c == '\u{2028}' || c == '\u{2029}' || c
        == '\u{202F}' || c == '\u{205F}' || c == '\u{3000}'
}

pub fn ident_start(c: char) -> (r: bool)
    ensures
        r == is_ident_start(c),
{
    ('a' <= c && c <= 'z') || ('A' <= c && c <= 'Z') || c == '_'
}

pub fn ident_char(c: char) -> (r: bool)
    ensures
        r == is_ident_char(c),
{
    ('a' <= c && c <= 'z') || ('A' <= c && c <= 'Z') || c == '_' || ('0' <= c && c <= '9')
}

/// Number of bytes of `c` in UTF-8 (`char::len_utf8`).
pub open spec fn char_width(c: char) -> nat {
    if (c as u32) < 0x80 {
        1
    } else if (c as u32) < 0x800 {
        2
    } else if (c as u32) < 0x10000 {
        3
    } else {
        4
    }
}

pub fn char_len_utf8(c: char) -> (r: usize)
    ensures
        r == char_width(c),
        1 <= r <= 4,
{
    let u = c as u32;
    if u < 0x80 {
        1
    } else if u < 0x800 {
        2
    } else if u < 0x10000 {
        3
    } else {
        4
    }
}

/// Number of bytes of `s` in UTF-8 (`str::len`).
pub open spec fn utf8_len(s: Seq<char>) -> nat
    decreases s.len(),
{
    if s.len() == 0 {
        0
    } else {
        utf8_len(s.drop_last()) + char_width(s.last())
    }
}

pub proof fn lemma_utf8_len_push(s: Seq<char>, c: char)
    ensures
        utf8_len(s.push(c)) == utf8_len(s) + char_width(c),
{
    assert(s.push(c).drop_last() =~= s);
}

pub proof fn lemma_utf8_len_take_step(s: Seq<char>, i: int)
    requires
        0 <= i < s.len(),
    ensures
        utf8_len(s.take(i + 1)) == utf8_len(s.take(i)) + char_width(s[i]),
{
    assert(s.take(i + 1) =~= s.take(i).push(s[i]));
    lemma_utf8_len_push(s.take(i), s[i]);
}

pub proof fn lemma_utf8_len_ge_len(s: Seq<char>)
    ensures
        utf8_len(s) >= s.len(),
    decreases s.len(),
{
    if s.len() > 0 {
        lemma_utf8_len_ge_len(s.drop_last());
    }
}

pub proof fn lemma_utf8_len_concat(a: Seq<char>, b: Seq<char>)
    ensures
        utf8_len(a + b) == utf8_len(a) + utf8_len(b),
    decreases b.len(),
{
    if b.len() > 0 {
        assert((a + b).drop_last() =~= a + b.drop_last());
        lemma_utf8_len_concat(a, b.drop_last());
    } else {
        assert(a + b =~= a);
    }
}

pub proof fn lemma_utf8_len_first(s: Seq<char>)
    requires
        s.len() > 0,
    ensures
        utf8_len(s) == char_width(s[0]) + utf8_len(s.drop_first()),
{
    assert(s =~= seq![s[0]] + s.drop_first());
    lemma_utf8_len_concat(seq![s[0]], s.drop_first());
    let one = seq![s[0]];
    assert(one.drop_last() =~= Seq::<char>::empty());
    assert(utf8_len(Seq::<char>::empty()) == 0);
    assert(utf8_len(one) == utf8_len(one.drop_last()) + char_width(one.last()));
}

pub proof fn lemma_encode_len(s: Seq<char>)
    ensures
        vstd::utf8::encode_utf8(s).len() == utf8_len(s),
    decreases s.len(),
{
    if s.len() > 0 {
        lemma_encode_len(s.drop_first());
        lemma_utf8_len_first(s);
        vstd::utf8::char_is_scalar(s[0]);
    }
}

/// Number of bytes of `s` in UTF-8 (`str::len`).
pub fn byte_len(s: &str) -> (r: usize)
    ensures
        r == utf8_len(s@),
{
    let b = s.as_bytes();
    proof {
        lemma_encode_len(s@);
    }
    b.len()
}

pub proof fn lemma_utf8_len_subrange(s: Seq<char>, a: int, b: int)
    requires
        0 <= a <= b <= s.len(),
    ensures
        utf8_len(s.subrange(a, b)) <= utf8_len(s),
        s.subrange(a, b).len() <= s.len(),
{
    assert(s =~= s.take(a) + s.subrange(a, b) + s.skip(b));
    lemma_utf8_len_concat(s.take(a) + s.subrange(a, b), s.skip(b));
    lemma_utf8_len_concat(s.take(a), s.subrange(a, b));
}

/// Byte offsets of character boundaries strictly increase.
pub proof fn lemma_utf8_take_mono(s: Seq<char>, i: int, j: int)
    requires
        0 <= i < j <= s.len(),
    ensures
        utf8_len(s.take(i)) < utf8_len(s.take(j)),
    decreases j - i,
{
    lemma_utf8_len_take_step(s, j - 1);
    if i < j - 1 {
        lemma_utf8_take_mono(s, i, j - 1);
    }
}

/// The character that starts at byte offset `col`, if one does.
pub open spec fn char_start_at(s: Seq<char>, col: int) -> Option<int> {
    if exists|k: int| 0 <= k < s.len() && utf8_len(s.take(k)) == col {
        Some(choose|k: int| 0 <= k < s.len() && utf8_len(s.take(k)) == col)
    } else {
        None
    }
}

/// Byte offset `col` is at a character boundary of `s` (its end included).
pub open spec fn is_boundary(s: Seq<char>, col: int) -> bool {
    exists|k: int| 0 <= k <= s.len() && utf8_len(s.take(k)) == col
}

pub proof fn lemma_char_start_unique(s: Seq<char>, col: int, k: int)
    requires
        0 <= k < s.len(),
        utf8_len(s.take(k)) == col,
    ensures
        char_start_at(s, col) == Some(k),
{
    let c = choose|m: int| 0 <= m < s.len() && utf8_len(s.take(m)) == col;
    if c < k {
        lemma_utf8_take_mono(s, c, k);
    } else if k < c {
        lemma_utf8_take_mono(s, k, c);
    }
}

/// The index of the character starting at byte offset `col`.
pub fn char_at_byte(s: &Vec<char>, col: usize) -> (r: Option<usize>)
    ensures
        match r {
            Some(k) => char_start_at(s@, col as int) == Some(k as int) && k < s.len(),
            None => char_start_at(s@, col as int) is None,
        },
{
    let mut k: usize = 0;
    let mut rem = col;
    while k < s.len()
        invariant
            k <= s.len(),
            utf8_len(s@.take(k as int)) + rem == col,
            forall|m: int| 0 <= m < k ==> utf8_len(s@.take(m)) < col,
        decreases s.len() - k,
    {
        if rem == 0 {
            proof {
                lemma_char_start_unique(s@, col as int, k as int);
            }
            return Some(k);
        }
        let w = char_len_utf8(s[k]);
        proof {
            lemma_utf8_len_take_step(s@, k as int);
        }
        if rem < w {
            proof {
                assert forall|m: int| 0 <= m < s.len() implies utf8_len(s@.take(m)) != col by {
                    if m > k {
                        if m > k + 1 {
                            lemma_utf8_take_mono(s@, k + 1, m);
                        }
                    }
                }
            }
            return None;
        }
        rem = rem - w;
        k = k + 1;
    }
    proof {
        assert forall|m: int| 0 <= m < s.len() implies utf8_len(s@.take(m)) != col by {}
    }
    None
}

/// Smallest `a <= k` such that `s[a..k]` is all identifier characters.
pub open spec fn ident_back(s: Seq<char>, k: int) -> int
    decreases k,
{
    if 0 < k <= s.len() && is_ident_char(s[k - 1]) {
        ident_back(s, k - 1)
    } else {
        k
    }
}

pub proof fn lemma_ident_back_bounds(s: Seq<char>, k: int)
    requires
        0 <= k <= s.len(),
    ensures
        0 <= ident_back(s, k) <= k,
        forall|m: int| ident_back(s, k) <= m < k ==> is_ident_char(#[trigger] s[m]),
    decreases k,
{
    if 0 < k && is_ident_char(s[k - 1]) {
        lemma_ident_back_bounds(s, k - 1);
    }
}

pub fn back_ident(s: &Vec<char>, k: usize) -> (r: usize)
    requires
        k <= s.len(),
    ensures
        r == ident_back(s@, k as int),
        r <= k,
{
    proof {
        lemma_ident_back_bounds(s@, k as int);
    }
    let mut a = k;
    while a > 0 && ident_char(s[a - 1])
        invariant
            a <= k <= s.len(),
            ident_back(s@, a as int) == ident_back(s@, k as int),
        decreases a,
    {
        a = a - 1;
    }
    a
}

/// A run of identifier characters is one byte per character.
pub proof fn lemma_ident_run_bytes(s: Seq<char>, a: int, b: int)
    requires
        0 <= a <= b <= s.len(),
        forall|m: int| a <= m < b ==> is_ident_char(#[trigger] s[m]),
    ensures
        utf8_len(s.take(b)) == utf8_len(s.take(a)) + (b - a),
    decreases b - a,
{
    if a < b {
        lemma_ident_run_bytes(s, a, b - 1);
        lemma_utf8_len_take_step(s, b - 1);
        assert(is_ident_char(s[b - 1]));
    }
}

/// Decimal digits of `n`.
pub open spec fn decimal(n: nat) -> Seq<char>
    decreases n,
{
    if n < 10 {
        seq![digit_char(n)]
    } else {
        decimal(n / 10).push(digit_char(n % 10))
    }
}

pub open spec fn digit_char(d: nat) -> char {
    if d == 0 {
        '0'
    } else if d == 1 {
        '1'
    } else if d == 2 {
        '2'
    } else if d == 3 {
        '3'
    } else if d == 4 {
        '4'
    } else if d == 5 {
        '5'
    } else if d == 6 {
        '6'
    } else if d == 7 {
        '7'
    } else if d == 8 {
        '8'
    } else {
        '9'
    }
}

fn digit(d: u64) -> (r: char)
    requires
        d < 10,
    ensures
        r == digit_char(d as nat),
{
    if d == 0 {
        '0'
    } else if d == 1 {
        '1'
    } else if d == 2 {
        '2'
    } else if d == 3 {
        '3'
    } else if d == 4 {
        '4'
    } else if d == 5 {
        '5'
    } else if d == 6 {
        '6'
    } else if d == 7 {
        '7'
    } else if d == 8 {
        '8'
    } else {
        '9'
    }
}

/// Appends the decimal form of `n` (as `format!("{}", n)` writes it).
pub fn push_decimal(s: &mut String, n: u64)
    ensures
        final(s)@ == old(s)@ + decimal(n as nat),
    decreases n,
{
    if n < 10 {
        push_char(s, digit(n));
        assert(old(s)@ + decimal(n as nat) =~= old(s)@.push(digit_char(n as nat)));
    } else {
        push_decimal(s, n / 10);
        push_char(s, digit(n % 10));
        assert(old(s)@ + decimal(n as nat) =~= old(s)@ + decimal((n / 10) as nat) + seq![
            digit_char((n % 10) as nat),
        ]);
    }
}

/// Every line of `s` is a piece of `s`.
pub proof fn lemma_lines_from_pieces(s: Seq<char>, i: int)
    requires
        0 <= i,
    ensures
        forall|k: int|
            0 <= k < lines_from(s, i).len() ==> exists|a: int, b: int|
                0 <= a <= b <= s.len() && #[trigger] lines_from(s, i)[k] == s.subrange(a, b),
    decreases s.len() - i,
{
    if i < s.len() {
        lemma_find_char_bounds(s, i, '\n');
        let j = find_char(s, i, '\n');
        if j >= s.len() {
            let l = lines_from(s, i);
            assert(l[0] == s.subrange(i, s.len() as int));
        } else {
            lemma_lines_from_pieces(s, j + 1);
            let x = s.subrange(i, j);
            let first = strip_cr(x);
            let rest = lines_from(s, j + 1);
            let l = lines_from(s, i);
            assert(l == seq![first] + rest);
            assert forall|k: int| 0 <= k < l.len() implies exists|a: int, b: int|
                0 <= a <= b <= s.len() && #[trigger] l[k] == s.subrange(a, b) by {
                if k == 0 {
                    if x.len() > 0 && x.last() == '\r' {
                        assert(first =~= s.subrange(i, j - 1));
                    } else {
                        assert(first == s.subrange(i, j));
                    }
                } else {
                    assert(l[k] == rest[k - 1]);
                }
            }
        }
    }
}

/// There are no more lines than characters.
pub proof fn lemma_lines_from_len(s: Seq<char>, i: int)
    requires
        0 <= i,
    ensures
        lines_from(s, i).len() <= if i < s.len() { s.len() - i } else { 0 },
    decreases s.len() - i,
{
    if i < s.len() {
        lemma_find_char_bounds(s, i, '\n');
        let j = find_char(s, i, '\n');
        if j < s.len() {
            lemma_lines_from_len(s, j + 1);
        }
    }
}

/// Every line of `s` is no longer than `s`, in characters and in bytes.
pub proof fn lemma_line_bounded(s: Seq<char>, k: int)
    requires
        0 <= k < lines(s).len(),
    ensures
        lines(s)[k].len() <= s.len(),
        utf8_len(lines(s)[k]) <= utf8_len(s),
{
    lemma_lines_from_pieces(s, 0);
    let (a, b) = choose|a: int, b: int| 0 <= a <= b <= s.len() && lines(s)[k] == s.subrange(a, b);
    lemma_utf8_len_subrange(s, a, b);
}

pub proof fn lemma_join_step(parts: Seq<Seq<char>>, sep: Seq<char>, i: int)
    requires
        0 <= i < parts.len(),
    ensures
        join(parts.take(i + 1), sep) == if i == 0 {
            parts[0]
        } else {
            join(parts.take(i), sep) + sep + parts[i]
        },
{
    assert(parts.take(i + 1).drop_last() =~= parts.take(i));
    assert(parts.take(i + 1).last() == parts[i]);
}

/// Appends `parts` joined by `sep`.
pub fn append_join(s: &mut String, parts: &Vec<String>, sep: &str)
    ensures
        final(s)@ == old(s)@ + join(views(parts@), sep@),
{
    let ghost pv = views(parts@);
    let mut i: usize = 0;
    while i < parts.len()
        invariant
            i <= parts.len(),
            pv == views(parts@),
            s@ == old(s)@ + join(pv.take(i as int), sep@),
        decreases parts.len() - i,
    {
        proof {
            lemma_join_step(pv, sep@, i as int);
        }
        if i > 0 {
            append_str(s, sep);
        }
        append_str(s, parts[i].as_str());
        i = i + 1;
        proof {
            assert(s@ =~= old(s)@ + join(pv.take(i as int), sep@));
        }
    }
    proof {
        assert(pv.take(parts.len() as int) =~= pv);
    }
}

/// First index at or after `i` that is not whitespace (or the length).
pub open spec fn ws_end(s: Seq<char>, i: int) -> int
    decreases s.len() - i,
{
    if 0 <= i < s.len() && is_ws(s[i]) {
        ws_end(s, i + 1)
    } else {
        i
    }
}

/// First index at or after `i` that is not an identifier character (or the length).
pub open spec fn ident_end(s: Seq<char>, i: int) -> int
    decreases s.len() - i,
{
    if 0 <= i < s.len() && is_ident_char(s[i]) {
        ident_end(s, i + 1)
    } else {
        i
    }
}

/// Smallest `k <= j` such that `s[k..j]` is all whitespace.
pub open spec fn ws_back(s: Seq<char>, j: int) -> int
    decreases j,
{
    if 0 < j <= s.len() && is_ws(s[j - 1]) {
        ws_back(s, j - 1)
    } else {
        j
    }
}

/// First index at or after `i` holding `c` (or the length).
pub open spec fn find_char(s: Seq<char>, i: int, c: char) -> int
    decreases s.len() - i,
{
    if 0 <= i < s.len() && s[i] != c {
        find_char(s, i + 1, c)
    } else {
        i
    }
}

pub proof fn lemma_ws_end_bounds(s: Seq<char>, i: int)
    requires
        0 <= i <= s.len(),
    ensures
        i <= ws_end(s, i) <= s.len(),
        forall|k: int| i <= k < ws_end(s, i) ==> is_ws(#[trigger] s[k]),
        ws_end(s, i) < s.len() ==> !is_ws(s[ws_end(s, i)]),
    decreases s.len() - i,
{
    if i < s.len() && is_ws(s[i]) {
        lemma_ws_end_bounds(s, i + 1);
    }
}

pub proof fn lemma_ident_end_bounds(s: Seq<char>, i: int)
    requires
        0 <= i <= s.len(),
    ensures
        i <= ident_end(s, i) <= s.len(),
        forall|k: int| i <= k < ident_end(s, i) ==> is_ident_char(#[trigger] s[k]),
        ident_end(s, i) < s.len() ==> !is_ident_char(s[ident_end(s, i)]),
    decreases s.len() - i,
{
    if i < s.len() && is_ident_char(s[i]) {
        lemma_ident_end_bounds(s, i + 1);
    }
}

pub proof fn lemma_ws_back_bounds(s: Seq<char>, j: int)
    requires
        0 <= j <= s.len(),
    ensures
        0 <= ws_back(s, j) <= j,
        forall|k: int| ws_back(s, j) <= k < j ==> is_ws(#[trigger] s[k]),
        ws_back(s, j) > 0 ==> !is_ws(s[ws_back(s, j) - 1]),
    decreases j,
{
    if 0 < j && is_ws(s[j - 1]) {
        lemma_ws_back_bounds(s, j - 1);
    }
}

pub proof fn lemma_find_char_bounds(s: Seq<char>, i: int, c: char)
    requires
        0 <= i <= s.len(),
    ensures
        i <= find_char(s, i, c) <= s.len(),
        forall|k: int| i <= k < find_char(s, i, c) ==> #[trigger] s[k] != c,
        find_char(s, i, c) < s.len() ==> s[find_char(s, i, c)] == c,
    decreases s.len() - i,
{
    if i < s.len() && s[i] != c {
        lemma_find_char_bounds(s, i + 1, c);
    }
}

/// `str::trim_start`.
pub open spec fn trim_start(s: Seq<char>) -> Seq<char> {
    s.skip(ws_end(s, 0))
}

/// `str::trim_end`.
pub open spec fn trim_end(s: Seq<char>) -> Seq<char> {
    s.take(ws_back(s, s.len() as int))
}

/// `str::trim`.
pub open spec fn trim(s: Seq<char>) -> Seq<char> {
    let a = ws_end(s, 0);
    let b = ws_back(s, s.len() as int);
    if a < b {
        s.subrange(a, b)
    } else {
        Seq::empty()
    }
}

/// `s` holds `p` at position `i`.
pub open spec fn occurs_at(s: Seq<char>, i: int, p: Seq<char>) -> bool {
    0 <= i && i + p.len() <= s.len() && s.subrange(i, i + p.len()) == p
}

/// `str::starts_with`.
pub open spec fn starts_with(s: Seq<char>, p: Seq<char>) -> bool {
    occurs_at(s, 0, p)
}

/// `str::ends_with`.
pub open spec fn ends_with(s: Seq<char>, p: Seq<char>) -> bool {
    occurs_at(s, s.len() - p.len(), p)
}

/// `str::contains`.
pub open spec fn contains(s: Seq<char>, p: Seq<char>) -> bool {
    exists|i: int| occurs_at(s, i, p)
}

/// The character `c` occurs in `s`.
pub open spec fn has_char(s: Seq<char>, c: char) -> bool {
    exists|i: int| 0 <= i < s.len() && s[i] == c
}

/// Drops one trailing carriage return.
pub open spec fn strip_cr(s: Seq<char>) -> Seq<char> {
    if s.len() > 0 && s.last() == '\r' {
        s.drop_last()
    } else {
        s
    }
}

/// `str::lines` from position `i` on.
pub open spec fn lines_from(s: Seq<char>, i: int) -> Seq<Seq<char>>
    decreases s.len() - i,
{
    if i < 0 || i >= s.len() {
        Seq::empty()
    } else {
        let j = find_char(s, i, '\n');
        proof {
            lemma_find_char_bounds(s, i, '\n');
        }
        if j >= s.len() {
            seq![s.subrange(i, s.len() as int)]
        } else {
            seq![strip_cr(s.subrange(i, j))] + lines_from(s, j + 1)
        }
    }
}

/// `str::lines`: pieces between `\n`, each without its `\n` and with a
/// `\r` that stood just before that `\n` removed; a final line ending
/// yields no empty last line.
pub open spec fn lines(s: Seq<char>) -> Seq<Seq<char>> {
    lines_from(s, 0)
}

/// `str::split` on a single character, from position `i` on.
pub open spec fn split_from(s: Seq<char>, i: int, c: char) -> Seq<Seq<char>>
    decreases s.len() - i,
{
    if i < 0 || i > s.len() {
        Seq::empty()
    } else {
        let j = find_char(s, i, c);
        proof {
            lemma_find_char_bounds(s, i, c);
        }
        if j >= s.len() {
            seq![s.subrange(i, s.len() as int)]
        } else {
            seq![s.subrange(i, j)] + split_from(s, j + 1, c)
        }
    }
}

/// `str::split` on a single character.
pub open spec fn split(s: Seq<char>, c: char) -> Seq<Seq<char>> {
    split_from(s, 0, c)
}

/// `slice::join` of text pieces with a separator.
pub open spec fn join(parts: Seq<Seq<char>>, sep: Seq<char>) -> Seq<char>
    decreases parts.len(),
{
    if parts.len() == 0 {
        Seq::empty()
    } else if parts.len() == 1 {
        parts[0]
    } else {
        join(parts.drop_last(), sep) + sep + parts.last()
    }
}

/// Text of a character sequence given as `String`s.
pub open spec fn views(v: Seq<String>) -> Seq<Seq<char>> {
    Seq::new(v.len(), |i: int| v[i]@)
}

/// Characters of a `str`.
pub fn chars_of(s: &str) -> (v: Vec<char>)
    ensures
        v@ == s@,
{
    let mut v: Vec<char> = Vec::new();
    for c in it: s.chars()
        invariant
            v@ == it.seq().take(it.index() as int),
    {
        v.push(c);
    }
    v
}

/// `String::push`: appends one character at the end.
#[verifier::external_body]
pub(crate) fn push_char(s: &mut String, c: char)
    ensures
        final(s)@ == old(s)@.push(c),
{
    s.push(c)
}

/// A `String` holding `v[lo..hi]`.
pub fn string_of(v: &Vec<char>, lo: usize, hi: usize) -> (r: String)
    requires
        lo <= hi <= v.len(),
    ensures
        r@ == v@.subrange(lo as int, hi as int),
{
    let mut r = String::new();
    let mut i = lo;
    while i < hi
        invariant
            lo <= i <= hi <= v.len(),
            r@ == v@.subrange(lo as int, i as int),
        decreases hi - i,
    {
        push_char(&mut r, v[i]);
        i = i + 1;
        assert(r@ =~= v@.subrange(lo as int, i as int));
    }
    r
}

/// A `String` holding all of `v`.
pub fn string_of_all(v: &Vec<char>) -> (r: String)
    ensures
        r@ == v@,
{
    let r = string_of(v, 0, v.len());
    assert(v@.subrange(0, v@.len() as int) =~= v@);
    r
}

/// Appends `v[lo..hi]` to `s`.
pub fn append_chars(s: &mut String, v: &Vec<char>, lo: usize, hi: usize)
    requires
        lo <= hi <= v.len(),
    ensures
        final(s)@ == old(s)@ + v@.subrange(lo as int, hi as int),
{
    let mut i = lo;
    while i < hi
        invariant
            lo <= i <= hi <= v.len(),
            s@ == old(s)@ + v@.subrange(lo as int, i as int),
        decreases hi - i,
    {
        push_char(s, v[i]);
        i = i + 1;
        assert(s@ =~= old(s)@ + v@.subrange(lo as int, i as int));
    }
}

/// Appends a `str` to `s`.
pub fn append_str(s: &mut String, t: &str)
    ensures
        final(s)@ == old(s)@ + t@,
{
    let v = chars_of(t);
    append_chars(s, &v, 0, v.len());
    assert(v@.subrange(0, v@.len() as int) =~= v@);
}

/// Owned copy of a `str`.
pub fn to_string(t: &str) -> (r: String)
    ensures
        r@ == t@,
{
    let mut r = String::new();
    append_str(&mut r, t);
    assert(r@ =~= t@);
    r
}

/// The lower-case form of a text, as `str::to_lowercase` gives it
/// (the Unicode lower-case mapping, character by character except where a
/// character's mapping depends on its neighbours, as a final sigma does).
pub uninterp spec fn lowercase(s: Seq<char>) -> Seq<char>;

/// Every character of `s` is ASCII.
pub open spec fn is_ascii_text(s: Seq<char>) -> bool {
    forall|i: int| 0 <= i < s.len() ==> s[i] <= '\u{7f}'
}

/// `char::to_ascii_lowercase`.
pub open spec fn ascii_lower_char(c: char) -> char {
    if 'A' <= c && c <= 'Z' {
        (c as int + 32) as char
    } else {
        c
    }
}

/// `char::to_ascii_uppercase`.
pub open spec fn ascii_upper_char(c: char) -> char {
    if 'a' <= c && c <= 'z' {
        (c as int - 32) as char
    } else {
        c
    }
}

/// `str::to_ascii_lowercase`.
pub open spec fn ascii_lower(s: Seq<char>) -> Seq<char> {
    s.map_values(|c: char| ascii_lower_char(c))
}

/// `str::to_ascii_uppercase`.
pub open spec fn ascii_upper(s: Seq<char>) -> Seq<char> {
    s.map_values(|c: char| ascii_upper_char(c))
}

/// `str::to_lowercase`. Claimed: the result is a function of the input
/// text alone, named `lowercase`; the empty text stays empty; and ASCII text
/// is mapped as `to_ascii_lowercase` maps it (the Unicode lower-case mapping
/// of `A`..`Z` is `a`..`z`, and every other ASCII character maps to itself).
/// How other characters are mapped is not stated.
#[verifier::external_body]
pub(crate) fn to_lower(s: &str) -> (r: String)
    ensures
        r@ == lowercase(s@),
        s@.len() == 0 ==> r@.len() == 0,
        is_ascii_text(s@) ==> r@ == ascii_lower(s@),
{
    s.to_lowercase()
}

/// Lower-casing ASCII text forgets its case: upper-casing it first changes
/// nothing, and the upper-cased text is ASCII too.
pub proof fn ascii_lower_ignores_case(q: Seq<char>)
    requires
        is_ascii_text(q),
    ensures
        is_ascii_text(ascii_upper(q)),
        ascii_lower(ascii_upper(q)) == ascii_lower(q),
{
    assert(ascii_lower(ascii_upper(q)) =~= ascii_lower(q));
}

/// ASCII lower-casing goes character by character: it distributes over
/// concatenation, so the lower-cased text of `p + q` extends that of `p`.
pub proof fn ascii_lower_concat(p: Seq<char>, q: Seq<char>)
    ensures
        ascii_lower(p + q) == ascii_lower(p) + ascii_lower(q),
        starts_with(ascii_lower(p + q), ascii_lower(p)),
        is_ascii_text(p) && is_ascii_text(q) ==> is_ascii_text(p + q),
{
    assert(ascii_lower(p + q) =~= ascii_lower(p) + ascii_lower(q));
    assert(ascii_lower(p + q).subrange(0, p.len() as int) =~= ascii_lower(p));
    if is_ascii_text(p) && is_ascii_text(q) {
        assert forall|i: int| 0 <= i < (p + q).len() implies (p + q)[i] <= '\u{7f}' by {
            if i >= p.len() {
                assert((p + q)[i] == q[i - p.len()]);
            }
        }
    }
}

pub fn skip_ws(s: &Vec<char>, i: usize) -> (r: usize)
    requires
        i <= s.len(),
    ensures
        r == ws_end(s@, i as int),
        i <= r <= s.len(),
{
    proof {
        lemma_ws_end_bounds(s@, i as int);
    }
    let mut k = i;
    while k < s.len() && is_whitespace(s[k])
        invariant
            i <= k <= s.len(),
            ws_end(s@, k as int) == ws_end(s@, i as int),
        decreases s.len() - k,
    {
        k = k + 1;
    }
    k
}

pub fn skip_ident(s: &Vec<char>, i: usize) -> (r: usize)
    requires
        i <= s.len(),
    ensures
        r == ident_end(s@, i as int),
        i <= r <= s.len(),
{
    proof {
        lemma_ident_end_bounds(s@, i as int);
    }
    let mut k = i;
    while k < s.len() && ident_char(s[k])
        invariant
            i <= k <= s.len(),
            ident_end(s@, k as int) == ident_end(s@, i as int),
        decreases s.len() - k,
    {
        k = k + 1;
    }
    k
}

pub fn back_ws(s: &Vec<char>, j: usize) -> (r: usize)
    requires
        j <= s.len(),
    ensures
        r == ws_back(s@, j as int),
        r <= j,
{
    proof {
        lemma_ws_back_bounds(s@, j as int);
    }
    let mut k = j;
    while k > 0 && is_whitespace(s[k - 1])
        invariant
            k <= j <= s.len(),
            ws_back(s@, k as int) == ws_back(s@, j as int),
        decreases k,
    {
        k = k - 1;
    }
    k
}

pub fn find_char_from(s: &Vec<char>, i: usize, c: char) -> (r: usize)
    requires
        i <= s.len(),
    ensures
        r == find_char(s@, i as int, c),
        i <= r <= s.len(),
{
    proof {
        lemma_find_char_bounds(s@, i as int, c);
    }
    let mut k = i;
    while k < s.len() && s[k] != c
        invariant
            i <= k <= s.len(),
            find_char(s@, k as int, c) == find_char(s@, i as int, c),
        decreases s.len() - k,
    {
        k = k + 1;
    }
    k
}

/// Bounds of the trimmed text inside `s`.
pub fn trim_bounds(s: &Vec<char>) -> (r: (usize, usize))
    ensures
        r.0 <= r.1 <= s.len(),
        s@.subrange(r.0 as int, r.1 as int) == trim(s@),
{
    let a = skip_ws(s, 0);
    let b = back_ws(s, s.len());
    if a < b {
        (a, b)
    } else {
        assert(s@.subrange(a as int, a as int) =~= Seq::<char>::empty());
        (a, a)
    }
}

/// `str::trim` of `s[lo..hi]`, as characters.
pub fn trimmed(s: &Vec<char>) -> (r: Vec<char>)
    ensures
        r@ == trim(s@),
{
    let (a, b) = trim_bounds(s);
    let mut r: Vec<char> = Vec::new();
    let mut i = a;
    while i < b
        invariant
            a <= i <= b <= s.len(),
            r@ == s@.subrange(a as int, i as int),
        decreases b - i,
    {
        r.push(s[i]);
        i = i + 1;
        assert(r@ =~= s@.subrange(a as int, i as int));
    }
    r
}

/// Characters `s[lo..hi]` as a vector.
pub fn slice_chars(s: &Vec<char>, lo: usize, hi: usize) -> (r: Vec<char>)
    requires
        lo <= hi <= s.len(),
    ensures
        r@ == s@.subrange(lo as int, hi as int),
{
    let mut r: Vec<char> = Vec::new();
    let mut i = lo;
    while i < hi
        invariant
            lo <= i <= hi <= s.len(),
            r@ == s@.subrange(lo as int, i as int),
        decreases hi - i,
    {
        r.push(s[i]);
        i = i + 1;
        assert(r@ =~= s@.subrange(lo as int, i as int));
    }
    r
}

/// `p` occurs in `s` at position `i`.
pub fn occurs_at_exec(s: &Vec<char>, i: usize, p: &Vec<char>) -> (r: bool)
    ensures
        r == occurs_at(s@, i as int, p@),
{
    if i > s.len() || p.len() > s.len() - i {
        return false;
    }
    let mut k: usize = 0;
    while k < p.len()
        invariant
            i + p.len() <= s.len(),
            k <= p.len(),
            forall|m: int| 0 <= m < k ==> s@[i + m] == p@[m],
        decreases p.len() - k,
    {
        if s[i + k] != p[k] {
            assert(s@.subrange(i as int, i + p.len())[k as int] != p@[k as int]);
            return false;
        }
        k = k + 1;
    }
    assert(s@.subrange(i as int, i + p.len()) =~= p@);
    true
}

pub fn starts_with_exec(s: &Vec<char>, p: &Vec<char>) -> (r: bool)
    ensures
        r == starts_with(s@, p@),
{
    occurs_at_exec(s, 0, p)
}

pub fn ends_with_exec(s: &Vec<char>, p: &Vec<char>) -> (r: bool)
    ensures
        r == ends_with(s@, p@),
{
    if p.len() > s.len() {
        false
    } else {
        occurs_at_exec(s, s.len() - p.len(), p)
    }
}

/// First position at or after `from` where `p` occurs in `s`.
pub fn find_sub(s: &Vec<char>, from: usize, p: &Vec<char>) -> (r: Option<usize>)
    ensures
        match r {
            Some(i) => from <= i && occurs_at(s@, i as int, p@) && forall|k: int|
                from <= k < i ==> !occurs_at(s@, k, p@),
            None => forall|k: int| from <= k ==> !occurs_at(s@, k, p@),
        },
{
    if p.len() > s.len() {
        return None;
    }
    let last = s.len() - p.len();
    if from > last {
        return None;
    }
    let mut i = from;
    loop
        invariant
            last == s.len() - p.len(),
            from <= i <= last,
            forall|k: int| from <= k < i ==> !occurs_at(s@, k, p@),
        decreases last - i,
    {
        if occurs_at_exec(s, i, p) {
            return Some(i);
        }
        if i == last {
            return None;
        }
        i = i + 1;
    }
}

pub fn contains_exec(s: &Vec<char>, p: &Vec<char>) -> (r: bool)
    ensures
        r == contains(s@, p@),
{
    match find_sub(s, 0, p) {
        Some(_) => true,
        None => false,
    }
}

pub fn has_char_exec(s: &Vec<char>, c: char) -> (r: bool)
    ensures
        r == has_char(s@, c),
{
    let j = find_char_from(s, 0, c);
    proof {
        lemma_find_char_bounds(s@, 0, c);
    }
    j < s.len()
}

/// Lines of `s` (see `lines`), as character vectors.
pub fn split_lines(s: &Vec<char>) -> (r: Vec<Vec<char>>)
    ensures
        r@.len() == lines(s@).len(),
        forall|k: int| 0 <= k < r@.len() ==> #[trigger] r@[k]@ == lines(s@)[k],
{
    let mut r: Vec<Vec<char>> = Vec::new();
    let ghost mut done: Seq<Seq<char>> = Seq::empty();
    let mut i: usize = 0;
    while i < s.len()
        invariant
            i <= s.len(),
            r@.len() == done.len(),
            forall|k: int| 0 <= k < r@.len() ==> #[trigger] r@[k]@ == done[k],
            done + lines_from(s@, i as int) == lines(s@),
        decreases s.len() - i,
    {
        let j = find_char_from(s, i, '\n');
        if j >= s.len() {
            let piece = slice_chars(s, i, s.len());
            proof {
                assert(lines_from(s@, i as int) == seq![s@.subrange(i as int, s.len() as int)]);
                assert(lines_from(s@, s.len() as int) =~= Seq::<Seq<char>>::empty());
                done = done.push(piece@);
            }
            r.push(piece);
            i = s.len();
            assert(done + lines_from(s@, i as int) =~= lines(s@));
        } else {
            let mut hi = j;
            if j > i && s[j - 1] == '\r' {
                hi = j - 1;
            }
            let piece = slice_chars(s, i, hi);
            proof {
                let x = s@.subrange(i as int, j as int);
                assert(piece@ =~= strip_cr(x));
                assert(lines_from(s@, i as int) == seq![strip_cr(x)] + lines_from(s@, j + 1));
                assert(done.push(piece@) + lines_from(s@, j + 1) =~= done + lines_from(
                    s@,
                    i as int,
                ));
                done = done.push(piece@);
            }
            r.push(piece);
            i = j + 1;
        }
    }
    proof {
        assert(lines_from(s@, i as int) =~= Seq::<Seq<char>>::empty());
        assert(done =~= lines(s@));
    }
    r
}

/// Pieces of `s` between occurrences of `c` (see `split`).
pub fn split_on(s: &Vec<char>, c: char) -> (r: Vec<Vec<char>>)
    ensures
        r@.len() == split(s@, c).len(),
        forall|k: int| 0 <= k < r@.len() ==> #[trigger] r@[k]@ == split(s@, c)[k],
{
    let mut r: Vec<Vec<char>> = Vec::new();
    let ghost mut done: Seq<Seq<char>> = Seq::empty();
    let mut i: usize = 0;
    loop
        invariant
            i <= s.len(),
            r@.len() == done.len(),
            forall|k: int| 0 <= k < r@.len() ==> #[trigger] r@[k]@ == done[k],
            done + split_from(s@, i as int, c) == split(s@, c),
        decreases s.len() - i,
    {
        let j = find_char_from(s, i, c);
        let piece = slice_chars(s, i, j);
        if j >= s.len() {
            proof {
                assert(split_from(s@, i as int, c) == seq![s@.subrange(i as int, s.len() as int)]);
                done = done.push(piece@);
                assert(done =~= split(s@, c));
            }
            r.push(piece);
            return r;
        } else {
            proof {
                assert(split_from(s@, i as int, c) == seq![piece@] + split_from(s@, j + 1, c));
                assert(done.push(piece@) + split_from(s@, j + 1, c) =~= done + split_from(
                    s@,
                    i as int,
                    c,
                ));
                done = done.push(piece@);
            }
            r.push(piece);
            i = j + 1;
        }
    }
}

/// Equality of two character sequences.
pub fn same_chars(a: &Vec<char>, b: &Vec<char>) -> (r: bool)
    ensures
        r == (a@ == b@),
{
    if a.len() != b.len() {
        return false;
    }
    let mut i: usize = 0;
    while i < a.len()
        invariant
            a.len() == b.len(),
            i <= a.len(),
            forall|k: int| 0 <= k < i ==> a@[k] == b@[k],
        decreases a.len() - i,
    {
        if a[i] != b[i] {
            return false;
        }
        i = i + 1;
    }
    assert(a@ =~= b@);
    true
}

/// Equality of a character sequence with the text of a `str`.
pub fn eq_str(a: &Vec<char>, b: &str) -> (r: bool)
    ensures
        r == (a@ == b@),
{
    let v = chars_of(b);
    same_chars(a, &v)
}

/// First position at or after `i` where `p` occurs in `s`, or -1.
pub open spec fn first_at(s: Seq<char>, p: Seq<char>, i: int) -> int
    decreases s.len() + 1 - i,
{
    if i < 0 || i > s.len() {
        -1
    } else if occurs_at(s, i, p) {
        i
    } else {
        first_at(s, p, i + 1)
    }
}

/// `first_at` is the first occurrence.
pub proof fn lemma_first_at(s: Seq<char>, p: Seq<char>, from: int, i: int)
    requires
        0 <= from <= i,
        occurs_at(s, i, p),
        forall|k: int| from <= k < i ==> !occurs_at(s, k, p),
    ensures
        first_at(s, p, from) == i,
    decreases i - from,
{
    if from < i {
        lemma_first_at(s, p, from + 1, i);
    }
}

/// `s` ends right after a non-empty run of identifier characters starting at `i`.
pub open spec fn ident_at(s: Seq<char>, i: int) -> bool {
    0 <= i < s.len() && is_ident_start(s[i])
}

} // verus!
