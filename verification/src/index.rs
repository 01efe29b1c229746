//! Tokens of the full-text index: the words of a text, as the index splits it.
//! Scoring the tokens is done in floating point beside the library.

use vstd::prelude::*;
use crate::text::{chars_of, push_chars, split_chars, string_of};

verus! {

/// Whether a character is a letter or a digit in Unicode's sense.
pub uninterp spec fn unicode_alphanumeric(c: char) -> bool;

/// `char::is_alphanumeric`.
///
/// Trusted: std's classification (Unicode `Alphabetic` or `Numeric`); it
/// depends on the character alone and is named, not restated.
#[verifier::external_body]
fn is_alphanumeric(c: char) -> (res: bool)
    ensures
        res == unicode_alphanumeric(c),
{
    c.is_alphanumeric()
}

/// A character that separates tokens: neither alphanumeric nor `_`.
pub open spec fn separates(c: char) -> bool {
    !unicode_alphanumeric(c) && c != '_'
}

/// The number of bytes a character takes in UTF-8.
pub open spec fn utf8_width(c: char) -> nat {
    if (c as u32) < 0x80 { 1 } else if (c as u32) < 0x800 { 2 } else if (c as u32) < 0x10000 { 3 } else { 4 }
}

/// The number of bytes a text takes in UTF-8.
pub open spec fn utf8_len(s: Seq<char>) -> nat
    decreases s.len(),
{
    if s.len() == 0 { 0 } else { utf8_len(s.drop_last()) + utf8_width(s.last()) }
}

/// The parts of a text between separators, from a part that began at `start`,
/// scanning at `i`.
pub open spec fn parts_from(s: Seq<char>, start: int, i: int) -> Seq<Seq<char>>
    decreases s.len() - i,
{
    if i < start || i > s.len() {
        Seq::empty()
    } else if i == s.len() {
        seq![s.subrange(start, i)]
    } else if separates(s[i]) {
        seq![s.subrange(start, i)] + parts_from(s, i + 1, i + 1)
    } else {
        parts_from(s, start, i + 1)
    }
}

/// The tokens of a text: parts between separators longer than two bytes.
pub open spec fn tokens_of(parts: Seq<Seq<char>>) -> Seq<Seq<char>>
    decreases parts.len(),
{
    if parts.len() == 0 {
        Seq::empty()
    } else {
        tokens_of(parts.drop_last()) + if utf8_len(parts.last()) > 2 { seq![parts.last()] } else { Seq::empty() }
    }
}

fn utf8_length(v: &[char]) -> (res: usize)
    ensures
        res == utf8_len(v@) || (res > 2 && utf8_len(v@) > 2),
{
    let mut n: usize = 0;
    let mut i: usize = 0;
    while i < v.len()
        invariant
            0 <= i <= v@.len(),
            n == utf8_len(v@.take(i as int)) || (n > 2 && utf8_len(v@.take(i as int)) > 2),
            n <= 4 * i,
        decreases v@.len() - i,
    {
        assert(v@.take(i + 1).drop_last() =~= v@.take(i as int));
        let c = v[i] as u32;
        let w: usize = if c < 0x80 { 1 } else if c < 0x800 { 2 } else if c < 0x10000 { 3 } else { 4 };
        if n <= 2 {
            n = n + w;
        }
        i = i + 1;
    }
    assert(v@.take(v@.len() as int) =~= v@);
    n
}

/// The words of a text for the index: split on every character that is not
/// alphanumeric or `_`, words of up to two bytes dropped.
pub fn tokenize(text: &str) -> (res: Vec<String>)
    ensures
        res@.map_values(|t: String| t@) == tokens_of(parts_from(text@, 0, 0)),
{
    let s = chars_of(text);
    let mut out: Vec<String> = Vec::new();
    let mut start: usize = 0;
    let mut i: usize = 0;
    let ghost mut done: Seq<Seq<char>> = Seq::empty();
    while i < s.len()
        invariant
            0 <= start <= i <= s@.len(),
            done + parts_from(s@, start as int, i as int) == parts_from(text@, 0, 0),
            s@ == text@,
            out@.map_values(|t: String| t@) == tokens_of(done),
        decreases s@.len() - i,
    {
        if !is_alphanumeric(s[i]) && s[i] != '_' {
            let part = &s[start..i];
            let ghost before = out@;
            if utf8_length(part) > 2 {
                out.push(string_of(part));
            }
            proof {
                assert(done.push(part@).drop_last() =~= done);
                assert(parts_from(s@, start as int, i as int) =~= seq![part@] + parts_from(s@, i + 1, i + 1));
                assert(done + seq![part@] + parts_from(s@, i + 1, i + 1) =~= done.push(part@) + parts_from(s@, i + 1, i + 1));
                assert(out@.map_values(|t: String| t@) =~= tokens_of(done.push(part@)));
                done = done.push(part@);
            }
            start = i + 1;
        }
        i = i + 1;
    }
    let part = &s[start..s.len()];
    if utf8_length(part) > 2 {
        out.push(string_of(part));
    }
    proof {
        assert(done.push(part@).drop_last() =~= done);
        assert(parts_from(s@, start as int, s@.len() as int) =~= seq![part@]);
        assert(done + seq![part@] =~= done.push(part@));
        assert(out@.map_values(|t: String| t@) =~= tokens_of(done.push(part@)));
    }
    out
}

} // verus!
