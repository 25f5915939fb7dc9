//! Open documents and incremental edits given by line and character.
use vstd::prelude::*;

use crate::text::{
    byte_len, char_len_utf8, char_width, chars_of, is_boundary, lemma_utf8_len_subrange,
    lemma_utf8_len_take_step, utf8_len,
};

verus! {

#[derive(Debug, Clone)]
pub struct Document {
    pub version: i32,
    pub content: String,
}

impl Document {
    pub fn new(version: i32, content: String) -> (r: Self)
        ensures
            r.version == version,
            r.content@ == content@,
    {
        Document { version, content }
    }
}

#[derive(Debug, Clone, Hash)]
pub struct Url(pub String);

impl Url {
    pub fn as_str(&self) -> (r: &str)
        ensures
            r@ == self.0@,
    {
        self.0.as_str()
    }
}

impl PartialEq for Url {
    fn eq(&self, other: &Self) -> (r: bool) {
        self.0 == other.0
    }
}

impl vstd::std_specs::cmp::PartialEqSpecImpl for Url {
    open spec fn obeys_eq_spec() -> bool {
        true
    }

    open spec fn eq_spec(&self, other: &Self) -> bool {
        self.0@ == other.0@
    }
}

impl Eq for Url {
}

#[derive(Debug, Clone)]
pub struct Position {
    pub line: u32,
    pub character: u32,
}

#[derive(Debug, Clone)]
pub struct Range {
    pub start: Position,
    pub end: Position,
}

/// Character index where an edit at (`line`, `ch`) of `s` lands, scanning
/// from character `k`, which is on line `cur_line` with `cur_byte` bytes of
/// that line counted so far. On the wanted line, the character at `k` is
/// taken when `ch` is 0, when it starts the line's counted bytes and spans
/// at least `ch` bytes, or when the bytes counted with it reach `ch`; past
/// the last character the end of the text is taken if it is on that line.
pub open spec fn char_pos_from(
    s: Seq<char>,
    k: int,
    cur_line: int,
    cur_byte: int,
    line: int,
    ch: int,
) -> Option<int>
    decreases s.len() - k,
{
    if k < 0 || k >= s.len() {
        if cur_line == line {
            Some(s.len() as int)
        } else {
            None
        }
    } else {
        let c = s[k];
        let i = utf8_len(s.take(k)) as int;
        if cur_line == line && (ch == 0 || (cur_byte == i && ch <= char_width(c))) {
            Some(k)
        } else if cur_line == line && cur_byte + char_width(c) >= ch {
            Some(k)
        } else if c == '\n' {
            char_pos_from(s, k + 1, cur_line + 1, 0, line, ch)
        } else if cur_line == line {
            char_pos_from(s, k + 1, cur_line, cur_byte + char_width(c), line, ch)
        } else {
            char_pos_from(s, k + 1, cur_line, cur_byte, line, ch)
        }
    }
}

/// Character index for the editor position (`line`, `ch`) of `s`.
pub open spec fn char_pos(s: Seq<char>, line: int, ch: int) -> Option<int> {
    char_pos_from(s, 0, 0, 0, line, ch)
}

/// Byte offset for the editor position (`line`, `ch`) of `s`.
pub open spec fn byte_pos(s: Seq<char>, line: int, ch: int) -> Option<int> {
    match char_pos(s, line, ch) {
        Some(k) => Some(utf8_len(s.take(k)) as int),
        None => None,
    }
}

/// Text after replacing the range from (`l0`, `c0`) to (`l1`, `c1`) with
/// `t`; unchanged when either end lies on no line of the text.
pub open spec fn changed_text(s: Seq<char>, l0: int, c0: int, l1: int, c1: int, t: Seq<char>) -> Seq<
    char,
> {
    match (char_pos(s, l0, c0), char_pos(s, l1, c1)) {
        (Some(a), Some(b)) => s.take(a) + t + s.skip(b),
        _ => s,
    }
}

proof fn lemma_char_pos_from_range(s: Seq<char>, k: int, cur_line: int, cur_byte: int, line: int, ch: int)
    requires
        0 <= k <= s.len(),
    ensures
        match char_pos_from(s, k, cur_line, cur_byte, line, ch) {
            Some(p) => k <= p <= s.len(),
            None => true,
        },
    decreases s.len() - k,
{
    if k < s.len() {
        let c = s[k];
        if c == '\n' {
            lemma_char_pos_from_range(s, k + 1, cur_line + 1, 0, line, ch);
        } else if cur_line == line {
            lemma_char_pos_from_range(s, k + 1, cur_line, cur_byte + char_width(c), line, ch);
        } else {
            lemma_char_pos_from_range(s, k + 1, cur_line, cur_byte, line, ch);
        }
    }
}

/// An editor position resolves to a byte offset within the text that lies
/// on a character boundary, so an edit there never splits a character.
pub proof fn byte_pos_is_boundary(s: Seq<char>, line: int, ch: int)
    ensures
        match byte_pos(s, line, ch) {
            Some(b) => 0 <= b <= utf8_len(s) && is_boundary(s, b),
            None => true,
        },
{
    lemma_char_pos_from_range(s, 0, 0, 0, line, ch);
    match char_pos(s, line, ch) {
        Some(p) => {
            lemma_utf8_len_subrange(s, 0, p);
            assert(s.subrange(0, p) =~= s.take(p));
        },
        None => {},
    }
}

/// Replacing an empty range with empty text leaves the text as it was.
pub proof fn empty_change_keeps_text(s: Seq<char>, line: int, ch: int)
    ensures
        changed_text(s, line, ch, line, ch, Seq::empty()) == s,
{
    lemma_char_pos_from_range(s, 0, 0, 0, line, ch);
    match char_pos(s, line, ch) {
        Some(p) => {
            assert(s.take(p) + Seq::<char>::empty() + s.skip(p) =~= s);
        },
        None => {},
    }
}

/// Character index for the editor position (`line`, `character`).
fn char_position(s: &Vec<char>, total: usize, line: u32, character: u32) -> (r: Option<usize>)
    requires
        total == utf8_len(s@),
    ensures
        match r {
            Some(k) => char_pos(s@, line as int, character as int) == Some(k as int) && k
                <= s.len(),
            None => char_pos(s@, line as int, character as int) is None,
        },
{
    let mut current_line: usize = 0;
    let mut current_byte: usize = 0;
    let mut i: usize = 0;
    let mut k: usize = 0;
    while k < s.len()
        invariant
            k <= s.len(),
            total == utf8_len(s@),
            i == utf8_len(s@.take(k as int)),
            i <= total,
            current_line <= k,
            current_byte <= i,
            char_pos_from(s@, k as int, current_line as int, current_byte as int, line as int, character as int)
                == char_pos(s@, line as int, character as int),
        decreases s.len() - k,
    {
        let c = s[k];
        let w = char_len_utf8(c);
        proof {
            lemma_utf8_len_take_step(s@, k as int);
            lemma_utf8_len_subrange(s@, 0, k + 1);
            assert(s@.subrange(0, k + 1) =~= s@.take(k + 1));
        }
        if current_line == line as usize {
            if character == 0 || (current_byte == i && (character as usize) <= w) {
                return Some(k);
            }
            current_byte = current_byte + w;
            if current_byte >= character as usize {
                return Some(k);
            }
        }
        if c == '\n' {
            current_line = current_line + 1;
            current_byte = 0;
        }
        i = i + w;
        k = k + 1;
    }
    if current_line == line as usize {
        Some(s.len())
    } else {
        None
    }
}

/// Byte offset for the editor position (`line`, `character`) of `content`:
/// see `char_pos_from` for how a position is resolved.
pub fn character_to_byte_index(content: &str, line: u32, character: u32) -> (r: Option<usize>)
    ensures
        match r {
            Some(b) => byte_pos(content@, line as int, character as int) == Some(b as int),
            None => byte_pos(content@, line as int, character as int) is None,
        },
{
    let s = chars_of(content);
    let total = byte_len(content);
    match char_position(&s, total, line, character) {
        Some(k) => {
            let mut b: usize = 0;
            let mut j: usize = 0;
            while j < k
                invariant
                    j <= k <= s.len(),
                    total == utf8_len(s@),
                    b == utf8_len(s@.take(j as int)),
                decreases k - j,
            {
                proof {
                    lemma_utf8_len_take_step(s@, j as int);
                    lemma_utf8_len_subrange(s@, 0, j + 1);
                    assert(s@.subrange(0, j + 1) =~= s@.take(j + 1));
                }
                b = b + char_len_utf8(s[j]);
                j = j + 1;
            }
            Some(b)
        },
        None => None,
    }
}

/// Replaces the text between two editor positions with `change_text`;
/// leaves `content` unchanged when either position lies on no line of it.
pub fn apply_change(content: &mut String, range: Range, change_text: &str)
    requires
        match (
            char_pos(old(content)@, range.start.line as int, range.start.character as int),
            char_pos(old(content)@, range.end.line as int, range.end.character as int),
        ) {
            (Some(a), Some(b)) => a <= b,
            _ => true,
        },
    ensures
        final(content)@ == changed_text(
            old(content)@,
            range.start.line as int,
            range.start.character as int,
            range.end.line as int,
            range.end.character as int,
            change_text@,
        ),
{
    let s = chars_of(content.as_str());
    let total = byte_len(content.as_str());
    let start = char_position(&s, total, range.start.line, range.start.character);
    let end = char_position(&s, total, range.end.line, range.end.character);
    match (start, end) {
        (Some(a), Some(b)) => {
            let mut out = crate::text::string_of(&s, 0, a);
            crate::text::append_str(&mut out, change_text);
            crate::text::append_chars(&mut out, &s, b, s.len());
            proof {
                assert(s@.subrange(0, a as int) =~= s@.take(a as int));
                assert(s@.subrange(b as int, s@.len() as int) =~= s@.skip(b as int));
            }
            *content = out;
        },
        _ => {},
    }
}

} // verus!
