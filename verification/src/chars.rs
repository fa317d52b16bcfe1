//! Character-level helpers shared by the parsers: indexable characters, whitespace
//! and trimming.

use vstd::prelude::*;
use vstd::string::StrSliceExecFns;

verus! {

/// Whether `c` is whitespace: what `char::is_whitespace` answers for `c`, which is
/// the Unicode property `White_Space`.
pub uninterp spec fn white_space(c: char) -> bool;

/// `char::is_whitespace` of std. The answer depends on `c` alone; the contract gives
/// it the name [`white_space`] and claims nothing else of it.
#[verifier::external_body]
pub(crate) fn is_whitespace(c: char) -> (b: bool)
    ensures
        b == white_space(c),
{
    c.is_whitespace()
}

/// The first index at or behind `from` at which a character that is no whitespace
/// stands, or the length of `s` if there is none.
pub open spec fn text_start(s: Seq<char>, from: int) -> int
    decreases s.len() - from,
{
    if from < 0 || from >= s.len() {
        s.len() as int
    } else if !white_space(s[from]) {
        from
    } else {
        text_start(s, from + 1)
    }
}

/// The index right behind the last character before `upto` that is no whitespace,
/// or 0 if there is none.
pub open spec fn text_end(s: Seq<char>, upto: int) -> int
    decreases upto,
{
    if upto <= 0 || upto > s.len() {
        0
    } else if !white_space(s[upto - 1]) {
        upto
    } else {
        text_end(s, upto - 1)
    }
}

/// `s` without the whitespace at its start and at its end. A sequence of whitespace
/// alone gives the empty sequence.
pub open spec fn trim_of(s: Seq<char>) -> Seq<char> {
    let start = text_start(s, 0);
    let end = text_end(s, s.len() as int);
    if start < end {
        s.subrange(start, end)
    } else {
        Seq::empty()
    }
}

/// The characters of `s`, in order, as a vector that can be indexed in constant time.
pub fn to_chars(s: &str) -> (v: Vec<char>)
    ensures
        v@ == s@,
{
    let mut v: Vec<char> = Vec::new();
    for c in it: s.chars()
        invariant
            v@ == it.seq().take(it.index() as int),
    {
        v.push(c);
    }
    v
}

/// Where the text of `cs[from..upto]` starts and ends once the whitespace at both of
/// its ends is left out; an empty range where there is nothing but whitespace.
pub(crate) fn trim_bounds(cs: &[char], from: usize, upto: usize) -> (bounds: (usize, usize))
    requires
        from <= upto <= cs@.len(),
    ensures
        from <= bounds.0 <= bounds.1 <= upto,
        cs@.subrange(bounds.0 as int, bounds.1 as int) == trim_of(
            cs@.subrange(from as int, upto as int),
        ),
{
    let ghost part = cs@.subrange(from as int, upto as int);
    let mut start: usize = from;
    while start < upto && is_whitespace(cs[start])
        invariant
            from <= start <= upto <= cs@.len(),
            part == cs@.subrange(from as int, upto as int),
            text_start(part, start - from) == text_start(part, 0),
        decreases upto - start,
    {
        start = start + 1;
    }
    let mut end: usize = upto;
    while end > start && is_whitespace(cs[end - 1])
        invariant
            from <= start <= end <= upto <= cs@.len(),
            part == cs@.subrange(from as int, upto as int),
            text_end(part, end - from) == text_end(part, part.len() as int),
        decreases end,
    {
        end = end - 1;
    }
    proof {
        lemma_text_end(part, end - from);
        assert(part.subrange(start - from, end - from) == cs@.subrange(start as int, end as int));
        assert(cs@.subrange(start as int, start as int) == Seq::<char>::empty());
    }
    (start, end)
}

/// The text starts no earlier than the point from which it was sought, behind
/// whitespace only, and at a character that is none unless at the end.
pub proof fn lemma_text_start(s: Seq<char>, from: int)
    requires
        0 <= from <= s.len(),
    ensures
        from <= text_start(s, from) <= s.len(),
        text_start(s, from) < s.len() ==> !white_space(s[text_start(s, from)]),
        forall|k: int| from <= k < text_start(s, from) ==> white_space(#[trigger] s[k]),
    decreases s.len() - from,
{
    if from < s.len() && white_space(s[from]) {
        lemma_text_start(s, from + 1);
    }
}

/// The text ends no later than the point up to which it was sought, before
/// whitespace only, and behind a character that is none unless at the start.
pub proof fn lemma_text_end(s: Seq<char>, upto: int)
    requires
        0 <= upto <= s.len(),
    ensures
        0 <= text_end(s, upto) <= upto,
        text_end(s, upto) > 0 ==> !white_space(s[text_end(s, upto) - 1]),
        forall|k: int| text_end(s, upto) <= k < upto ==> white_space(#[trigger] s[k]),
    decreases upto,
{
    if upto > 0 && white_space(s[upto - 1]) {
        lemma_text_end(s, upto - 1);
    }
}

/// What trimming keeps and what it drops: the result is a piece of `s` with nothing
/// but whitespace before it and behind it, and it neither starts nor ends with
/// whitespace.
pub proof fn lemma_trim_of(s: Seq<char>)
    ensures
        ({
            let kept = trim_of(s);
            let start = text_start(s, 0);
            &&& 0 <= start <= start + kept.len() <= s.len()
            &&& kept == s.subrange(start, start + kept.len())
            &&& forall|k: int| 0 <= k < start ==> white_space(#[trigger] s[k])
            &&& forall|k: int| start + kept.len() <= k < s.len() ==> white_space(#[trigger] s[k])
            &&& kept.len() > 0 ==> !white_space(kept[0]) && !white_space(kept[kept.len() - 1])
        }),
{
    let start = text_start(s, 0);
    let end = text_end(s, s.len() as int);
    lemma_text_start(s, 0);
    lemma_text_end(s, s.len() as int);
    if start < end {
        assert(trim_of(s) == s.subrange(start, end));
    } else {
        assert(trim_of(s) == s.subrange(start, start));
        assert forall|k: int| start <= k < s.len() implies white_space(#[trigger] s[k]) by {
            if start < s.len() {
                assert(!white_space(s[start]));
                assert(start < end);
            }
        }
    }
}

/// `input` without the whitespace at its start and at its end.
pub fn trim(input: &str) -> (trimmed: &str)
    ensures
        trimmed@ == trim_of(input@),
{
    let chars = to_chars(input);
    let (start, end) = trim_bounds(chars.as_slice(), 0, chars.len());
    proof {
        assert(chars@.subrange(0, chars@.len() as int) == chars@);
    }
    input.substring_char(start, end)
}

} // verus!
