//! Text helpers shared by the checks: Unicode whitespace and trimming.

use vstd::prelude::*;

verus! {

/// The characters with the Unicode `White_Space` property.
pub open spec fn is_white_space(c: char) -> bool {
    ||| ('\u{9}' <= c && c <= '\u{d}')
    ||| c == ' '
    ||| c == '\u{85}'
    ||| c == '\u{a0}'
    ||| c == '\u{1680}'
    ||| ('\u{2000}' <= c && c <= '\u{200a}')
    ||| c == '\u{2028}'
    ||| c == '\u{2029}'
    ||| c == '\u{202f}'
    ||| c == '\u{205f}'
    ||| c == '\u{3000}'
}

/// The characters of `s`, in order.
pub fn chars_of(s: &str) -> (chars: Vec<char>)
    ensures
        chars@ == s@,
{
    let mut chars: Vec<char> = Vec::new();
    for c in it: s.chars()
        invariant
            chars@ == it.seq().take(it.index() as int),
            it.seq() == s@,
    {
        chars.push(c);
    }
    chars
}

/// Calls `char::is_whitespace`, which std documents as the Unicode
/// `White_Space` property; the contract spells that property out.
#[verifier::external_body]
fn char_is_whitespace(c: char) -> (ws: bool)
    ensures
        ws == is_white_space(c),
{
    c.is_whitespace()
}

/// `s` without its leading whitespace.
pub open spec fn trim_start(s: Seq<char>) -> Seq<char>
    decreases s.len(),
{
    if s.len() > 0 && is_white_space(s[0]) {
        trim_start(s.drop_first())
    } else {
        s
    }
}

/// `s` without its trailing whitespace.
pub open spec fn trim_end(s: Seq<char>) -> Seq<char>
    decreases s.len(),
{
    if s.len() > 0 && is_white_space(s.last()) {
        trim_end(s.drop_last())
    } else {
        s
    }
}

/// `s` without leading and trailing whitespace, as `str::trim` gives it.
pub open spec fn trim(s: Seq<char>) -> Seq<char> {
    trim_end(trim_start(s))
}

/// The bounds of the trimmed part of `chars`.
pub fn trimmed_bounds(chars: &Vec<char>) -> (bounds: (usize, usize))
    ensures
        bounds.0 <= bounds.1 <= chars@.len(),
        chars@.subrange(bounds.0 as int, bounds.1 as int) == trim(chars@),
{
    let len = chars.len();
    let mut start: usize = 0;
    assert(chars@.subrange(0, len as int) =~= chars@);
    while start < len && char_is_whitespace(chars[start])
        invariant
            start <= len == chars@.len(),
            trim_start(chars@) == trim_start(chars@.subrange(start as int, len as int)),
        decreases len - start,
    {
        let ghost rest = chars@.subrange(start as int, len as int);
        assert(rest.drop_first() =~= chars@.subrange(start + 1, len as int));
        start = start + 1;
    }
    assert(trim_start(chars@) == chars@.subrange(start as int, len as int));
    let mut end: usize = len;
    while end > start && char_is_whitespace(chars[end - 1])
        invariant
            start <= end <= len == chars@.len(),
            trim_start(chars@) == chars@.subrange(start as int, len as int),
            trim(chars@) == trim_end(chars@.subrange(start as int, end as int)),
        decreases end - start,
    {
        let ghost part = chars@.subrange(start as int, end as int);
        assert(part.drop_last() =~= chars@.subrange(start as int, end - 1));
        end = end - 1;
    }
    (start, end)
}

/// Whether `s` is empty once trimmed, that is, whether it holds nothing but
/// whitespace.
pub fn is_blank(s: &str) -> (blank: bool)
    ensures
        blank == (trim(s@).len() == 0),
{
    let chars = chars_of(s);
    let (start, end) = trimmed_bounds(&chars);
    start == end
}

/// `s` trimmed, as a string slice of it.
pub fn trim_str(s: &str) -> (trimmed: &str)
    ensures
        trimmed@ == trim(s@),
{
    let chars = chars_of(s);
    let (start, end) = trimmed_bounds(&chars);
    s.substring_char(start, end)
}

} // verus!
