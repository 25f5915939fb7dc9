//! The identifier under an editor cursor.
use vstd::prelude::*;

use crate::text::{
    back_ident, byte_len, char_at_byte, char_start_at, chars_of, ident_back, ident_end,
    is_ident_char, is_ident_start, lemma_ident_back_bounds, lemma_ident_end_bounds,
    lemma_ident_run_bytes, lemma_utf8_len_subrange, skip_ident, utf8_len,
};

verus! {

/// The identifier that starts at, or runs through, the character starting at
/// byte offset `col`, provided that character can start an identifier.
pub open spec fn cursor_word(s: Seq<char>, col: int) -> Option<(int, int)> {
    match char_start_at(s, col) {
        Some(k) => if is_ident_start(s[k]) {
            Some((ident_back(s, k), ident_end(s, k)))
        } else {
            None
        },
        None => None,
    }
}

/// The identifier touching the character starting at byte offset `col`
/// (running through it or ending just before it), provided it begins with a
/// letter or an underscore.
pub open spec fn touching_word(s: Seq<char>, col: int) -> Option<(int, int)> {
    match char_start_at(s, col) {
        Some(k) => {
            let a = ident_back(s, k);
            let b = ident_end(s, k);
            if a < b && is_ident_start(s[a]) {
                Some((a, b))
            } else {
                None
            }
        },
        None => None,
    }
}

/// The word under the cursor is the longest run of identifier characters
/// through the character at the cursor, and it is as many bytes long as it
/// has characters.
pub proof fn cursor_word_is_identifier_run(s: Seq<char>, col: int)
    ensures
        match cursor_word(s, col) {
            Some((x, y)) => {
                &&& 0 <= x < y <= s.len()
                &&& forall|m: int| x <= m < y ==> is_ident_char(#[trigger] s[m])
                &&& x == 0 || !is_ident_char(s[x - 1])
                &&& y == s.len() || !is_ident_char(s[y])
                &&& x <= char_start_at(s, col)->0 < y
                &&& utf8_len(s.take(y)) - utf8_len(s.take(x)) == y - x
            },
            None => true,
        },
{
    match char_start_at(s, col) {
        Some(k) => {
            if is_ident_start(s[k]) {
                assert(0 <= k < s.len());
                lemma_ident_back_bounds(s, k);
                lemma_ident_end_bounds(s, k);
                lemma_ident_back_stop(s, k);
                let x = ident_back(s, k);
                let y = ident_end(s, k);
                assert(ident_end(s, k) == ident_end(s, k + 1));
                lemma_ident_end_bounds(s, k + 1);
                lemma_ident_run_bytes(s, x, y);
            }
        },
        None => {},
    }
}

proof fn lemma_ident_back_stop(s: Seq<char>, k: int)
    requires
        0 <= k <= s.len(),
    ensures
        ident_back(s, k) == 0 || !is_ident_char(s[ident_back(s, k) - 1]),
    decreases k,
{
    if 0 < k && is_ident_char(s[k - 1]) {
        lemma_ident_back_stop(s, k - 1);
    }
}

/// Character span of a word at a byte column, with the byte offsets of its ends.
pub fn word_span(s: &Vec<char>, column: usize, touching: bool) -> (r: Option<
    (usize, usize, usize, usize),
>)
    requires
        utf8_len(s@) <= usize::MAX,
    ensures
        match r {
            Some((x, y, a, b)) => (if touching {
                touching_word(s@, column as int)
            } else {
                cursor_word(s@, column as int)
            }) == Some((x as int, y as int)) && x <= y <= s.len() && a == utf8_len(
                s@.take(x as int),
            ) && b == utf8_len(s@.take(y as int)) && forall|m: int|
                x <= m < y ==> crate::text::is_ident_char(#[trigger] s@[m]),
            None => (if touching {
                touching_word(s@, column as int)
            } else {
                cursor_word(s@, column as int)
            }) is None,
        },
{
    match char_at_byte(s, column) {
        Some(k) => {
            if !touching && !crate::text::ident_start(s[k]) {
                return None;
            }
            let x = back_ident(s, k);
            let y = skip_ident(s, k);
            if touching && !(x < y && crate::text::ident_start(s[x])) {
                return None;
            }
            proof {
                lemma_ident_back_bounds(s@, k as int);
                lemma_ident_end_bounds(s@, k as int);
                lemma_ident_run_bytes(s@, x as int, k as int);
                lemma_ident_run_bytes(s@, k as int, y as int);
                lemma_utf8_len_subrange(s@, 0, y as int);
                assert(s@.subrange(0, y as int) =~= s@.take(y as int));
            }
            Some((x, y, column - (k - x), column + (y - k)))
        },
        None => None,
    }
}

/// The identifier under the cursor at byte offset `column` of `line`, with
/// the byte offsets where it starts and ends; `None` unless the byte at
/// `column` can start an identifier.
pub fn get_word_at_cursor(line: &str, column: usize) -> (r: Option<(&str, usize, usize)>)
    ensures
        match r {
            Some((w, a, b)) => exists|x: int, y: int|
                cursor_word(line@, column as int) == Some((x, y)) && w@ == line@.subrange(x, y)
                    && a == utf8_len(line@.take(x)) && b == utf8_len(line@.take(y)),
            None => cursor_word(line@, column as int) is None,
        },
{
    let s = chars_of(line);
    let _total = byte_len(line);
    match word_span(&s, column, false) {
        Some((x, y, a, b)) => {
            let w = line.substring_char(x, y);
            Some((w, a, b))
        },
        None => None,
    }
}

} // verus!
