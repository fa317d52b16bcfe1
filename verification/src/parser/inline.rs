//! The inline tokenizer: one run of text becomes an ordered sequence of styled spans.
//!
//! Three characters are reserved as markers: `*`, `_` and `` ` ``. A span opens with
//! `**` (strong), `*` or `_` (italic) or `` ` `` (code) and closes with the same
//! delimiter. An opening delimiter that is never closed stays in the output as plain
//! text. There is no escaping and no nesting.

use vstd::prelude::*;
use vstd::slice::slice_subrange;
use vstd::string::StrSliceExecFns;
use crate::chars::to_chars;
use crate::types::{Span, TextBody, TextBodyStyle};

verus! {

/// The delimiter that opens at the head of a slice. Finer than [`TextBodyStyle`]: the
/// two italic delimiters are kept apart until a span has been matched.
#[derive(Debug, Clone, Copy, PartialEq, Eq, Structural)]
pub enum RawStyle {
    Plain,
    Strong,
    AsteriskItalic,
    UnderscoreItalic,
    Code,
}

/// One extraction step in contracts: the span taken from the head of a slice and what
/// is left of the slice behind it.
pub struct Lookup {
    pub text_body: Span,
    pub rest: Seq<char>,
}

/// One extraction step: the span taken from the head of the input and the unconsumed
/// remainder.
#[derive(Debug, Clone, PartialEq, Eq)]
pub struct LookupResult {
    pub text_body: TextBody,
    pub rest: String,
}

impl View for LookupResult {
    type V = Lookup;

    open spec fn view(&self) -> Lookup {
        Lookup { text_body: self.text_body@, rest: self.rest@ }
    }
}

/// Whether `c` is one of the three reserved marker characters.
pub open spec fn is_marker(c: char) -> bool {
    c == '*' || c == '_' || c == '`'
}

/// The delimiter kind that opens at the head of `s`. Two asterisks win over one.
pub open spec fn classify(s: Seq<char>) -> RawStyle {
    if s.len() >= 2 && s[0] == '*' && s[1] == '*' {
        RawStyle::Strong
    } else if s.len() >= 1 && s[0] == '*' {
        RawStyle::AsteriskItalic
    } else if s.len() >= 1 && s[0] == '_' {
        RawStyle::UnderscoreItalic
    } else if s.len() >= 1 && s[0] == '`' {
        RawStyle::Code
    } else {
        RawStyle::Plain
    }
}

/// The visible style that a delimiter kind stands for.
pub open spec fn style_of(kind: RawStyle) -> TextBodyStyle {
    match kind {
        RawStyle::Plain => TextBodyStyle::Plain,
        RawStyle::Strong => TextBodyStyle::Strong,
        RawStyle::AsteriskItalic => TextBodyStyle::Italic,
        RawStyle::UnderscoreItalic => TextBodyStyle::Italic,
        RawStyle::Code => TextBodyStyle::Code,
    }
}

/// The character that the delimiter of `kind` is made of. Plain has no delimiter; the
/// value given for it is never read.
pub open spec fn delimiter_char(kind: RawStyle) -> char {
    match kind {
        RawStyle::Strong | RawStyle::AsteriskItalic => '*',
        RawStyle::UnderscoreItalic => '_',
        RawStyle::Code => '`',
        RawStyle::Plain => ' ',
    }
}

/// How many characters the delimiter of `kind` has.
pub open spec fn delimiter_len(kind: RawStyle) -> int {
    match kind {
        RawStyle::Plain => 0,
        RawStyle::Strong => 2,
        _ => 1,
    }
}

/// Whether the delimiter of `kind` stands in `s` at index `at`. For Plain, whose
/// delimiter is empty, this holds at every index up to the end.
pub open spec fn delimiter_at(s: Seq<char>, kind: RawStyle, at: int) -> bool {
    &&& 0 <= at
    &&& at + delimiter_len(kind) <= s.len()
    &&& forall|k: int| at <= k < at + delimiter_len(kind) ==> s[k] == delimiter_char(kind)
}

/// Whether a span of `kind` can be taken from the head of `s`: `s` starts with the
/// opening delimiter of `kind`, or, for Plain, with a character that is no marker.
pub open spec fn opens_with(s: Seq<char>, kind: RawStyle) -> bool {
    match kind {
        RawStyle::Plain => s.len() > 0 && !is_marker(s[0]),
        _ => delimiter_at(s, kind, 0),
    }
}

/// Whether `c` ends the content of a span of `kind`: inside code only a backtick does,
/// everywhere else each of the three markers.
pub open spec fn ends_content(kind: RawStyle, c: char) -> bool {
    if kind == RawStyle::Code {
        c == '`'
    } else {
        is_marker(c)
    }
}

/// The first index at or behind `from` at which a character that ends the content of
/// `kind` stands, or the length of `s` if there is none.
pub open spec fn content_end(s: Seq<char>, kind: RawStyle, from: int) -> int
    decreases s.len() - from,
{
    if from < 0 || from >= s.len() {
        s.len() as int
    } else if ends_content(kind, s[from]) {
        from
    } else {
        content_end(s, kind, from + 1)
    }
}

/// The index at which the content of the span at the head of `s` ends.
pub open spec fn span_end(s: Seq<char>, kind: RawStyle) -> int {
    content_end(s, kind, delimiter_len(kind))
}

/// Whether the span of `kind` that opens at the head of `s` is closed: its content is
/// not empty and the closing delimiter stands right behind it.
pub open spec fn is_closed(s: Seq<char>, kind: RawStyle) -> bool {
    &&& kind != RawStyle::Plain
    &&& span_end(s, kind) > delimiter_len(kind)
    &&& delimiter_at(s, kind, span_end(s, kind))
}

/// One extraction step on `s` for the delimiter kind `kind`.
///
/// A closed span gives its content, without the delimiters, in the style of `kind`, and
/// the rest starts behind the closing delimiter. Everything else gives plain text: the
/// head of `s` up to the character that ends the content, opening delimiter included,
/// and the rest starts at that character.
pub open spec fn extract(s: Seq<char>, kind: RawStyle) -> Lookup {
    let open = delimiter_len(kind);
    let end = span_end(s, kind);
    if is_closed(s, kind) {
        Lookup {
            text_body: Span { style: style_of(kind), value: s.subrange(open, end) },
            rest: s.subrange(end + open, s.len() as int),
        }
    } else {
        Lookup {
            text_body: Span { style: TextBodyStyle::Plain, value: s.subrange(0, end) },
            rest: s.subrange(end, s.len() as int),
        }
    }
}

/// The spans of `s`, in order: one extraction step at the head of `s`, for the kind
/// that opens there, then the spans of what that step left. Empty input has no spans.
pub open spec fn tokens(s: Seq<char>) -> Seq<Span>
    decreases s.len(),
    via tokens_terminates
{
    if s.len() == 0 {
        Seq::empty()
    } else {
        let step = extract(s, classify(s));
        seq![step.text_body] + tokens(step.rest)
    }
}

#[via_fn]
proof fn tokens_terminates(s: Seq<char>) {
    if s.len() != 0 {
        lemma_classify_opens(s);
        lemma_extract_progress(s, classify(s));
    }
}

/// Where the content ends: not before `from`, not behind the end of `s`, with no
/// character that ends the content in between, and at such a character unless at the
/// end of `s`.
pub proof fn lemma_content_end(s: Seq<char>, kind: RawStyle, from: int)
    requires
        0 <= from <= s.len(),
    ensures
        from <= content_end(s, kind, from) <= s.len(),
        forall|k: int| from <= k < content_end(s, kind, from) ==> !ends_content(kind, #[trigger] s[k]),
        content_end(s, kind, from) < s.len() ==> ends_content(kind, s[content_end(s, kind, from)]),
    decreases s.len() - from,
{
    if from < s.len() && !ends_content(kind, s[from]) {
        lemma_content_end(s, kind, from + 1);
    }
}

/// The kind found at the head of a slice that is not empty opens there.
pub proof fn lemma_classify_opens(s: Seq<char>)
    requires
        s.len() > 0,
    ensures
        opens_with(s, classify(s)),
{
}

/// Progress: a step on a slice that opens with `kind` takes at least one character
/// into its span and leaves a rest that is strictly shorter than the slice.
pub proof fn lemma_extract_progress(s: Seq<char>, kind: RawStyle)
    requires
        opens_with(s, kind),
    ensures
        extract(s, kind).text_body.value.len() > 0,
        extract(s, kind).rest.len() < s.len(),
{
    let open = delimiter_len(kind);
    lemma_content_end(s, kind, open);
    if kind == RawStyle::Plain {
        lemma_content_end(s, kind, 1);
    }
}

/// Priority: two asterisks at the head of a slice open a strong span, whatever
/// follows them; they are never read as two italic delimiters.
pub proof fn lemma_strong_first(s: Seq<char>)
    requires
        s.len() >= 2,
        s[0] == '*',
        s[1] == '*',
    ensures
        classify(s) == RawStyle::Strong,
        tokens(s)[0] == extract(s, RawStyle::Strong).text_body,
{
}

/// A span is closed exactly if the slice reads: opening delimiter, a content of at
/// least one character none of which ends the content, closing delimiter. The content
/// is then the one that [`extract`] gives.
pub proof fn lemma_closed_iff_matched(s: Seq<char>, kind: RawStyle)
    requires
        opens_with(s, kind),
        kind != RawStyle::Plain,
    ensures
        is_closed(s, kind) <==> exists|n: int| is_match(s, kind, n),
        forall|n: int| is_match(s, kind, n) ==> delimiter_len(kind) + n == span_end(s, kind),
{
    let open = delimiter_len(kind);
    let end = span_end(s, kind);
    lemma_content_end(s, kind, open);
    assert forall|n: int| is_match(s, kind, n) implies open + n == end by {
        assert(s[open + n] == delimiter_char(kind));
        if open + n < end {
            assert(!ends_content(kind, s[open + n]));
        }
        if end < open + n {
            assert(!ends_content(kind, s[end]));
        }
    }
    if is_closed(s, kind) {
        assert(is_match(s, kind, end - open));
    }
}

/// Whether `s` reads: opening delimiter of `kind`, `n` characters of content, closing
/// delimiter, with a content that is not empty and holds no character that ends it.
pub open spec fn is_match(s: Seq<char>, kind: RawStyle, n: int) -> bool {
    &&& n >= 1
    &&& delimiter_at(s, kind, 0)
    &&& delimiter_at(s, kind, delimiter_len(kind) + n)
    &&& forall|k: int|
        delimiter_len(kind) <= k < delimiter_len(kind) + n ==> !ends_content(kind, #[trigger] s[k])
}

/// What a step takes and what it leaves make up the slice. A closed span loses its
/// two delimiters on the way; an opening delimiter that is not closed stays in the
/// plain text that the step gives.
pub proof fn lemma_extract_partition(s: Seq<char>, kind: RawStyle)
    requires
        opens_with(s, kind),
    ensures
        is_closed(s, kind) ==> {
            let open = delimiter_len(kind);
            let step = extract(s, kind);
            &&& step.text_body.style == style_of(kind)
            &&& s == s.subrange(0, open) + step.text_body.value + s.subrange(
                span_end(s, kind),
                span_end(s, kind) + open,
            ) + step.rest
        },
        !is_closed(s, kind) ==> {
            let step = extract(s, kind);
            &&& step.text_body.style == TextBodyStyle::Plain
            &&& s == step.text_body.value + step.rest
        },
{
    let open = delimiter_len(kind);
    let end = span_end(s, kind);
    let step = extract(s, kind);
    lemma_content_end(s, kind, open);
    if is_closed(s, kind) {
        assert(s =~= s.subrange(0, open) + step.text_body.value + s.subrange(end, end + open)
            + step.rest);
    } else {
        assert(s =~= step.text_body.value + step.rest);
    }
}

/// The content of a closed span holds none of the characters that would end it: no
/// marker in strong and italic text, no backtick in code.
pub proof fn lemma_closed_content(s: Seq<char>, kind: RawStyle)
    requires
        opens_with(s, kind),
        is_closed(s, kind),
    ensures
        forall|k: int|
            0 <= k < extract(s, kind).text_body.value.len() ==> !ends_content(
                kind,
                #[trigger] extract(s, kind).text_body.value[k],
            ),
{
    let open = delimiter_len(kind);
    lemma_content_end(s, kind, open);
    let value = extract(s, kind).text_body.value;
    assert forall|k: int| 0 <= k < value.len() implies !ends_content(kind, #[trigger] value[k]) by {
        assert(value[k] == s[open + k]);
    }
}

/// Where plain text is cut: a step that finds no closed span gives the head of the
/// slice as it stands, opening delimiter included, with no character that ends the
/// content behind the delimiter; what it leaves is empty or starts with such a
/// character. For an opening backtick that character is the next backtick, so the
/// text is cut at no other marker.
pub proof fn lemma_unclosed_cut(s: Seq<char>, kind: RawStyle)
    requires
        opens_with(s, kind),
        !is_closed(s, kind),
    ensures
        ({
            let step = extract(s, kind);
            let taken = step.text_body.value;
            &&& step.text_body.style == TextBodyStyle::Plain
            &&& delimiter_len(kind) <= taken.len() <= s.len()
            &&& taken == s.take(taken.len() as int)
            &&& step.rest == s.skip(taken.len() as int)
            &&& forall|k: int|
                delimiter_len(kind) <= k < taken.len() ==> !ends_content(kind, #[trigger] taken[k])
            &&& step.rest.len() > 0 ==> ends_content(kind, step.rest[0])
        }),
{
    lemma_content_end(s, kind, delimiter_len(kind));
}

/// The delimiter of `kind` as text: `**`, `*`, `_` or a backtick; empty for Plain.
pub open spec fn delimiter(kind: RawStyle) -> Seq<char> {
    Seq::new(delimiter_len(kind) as nat, |i: int| delimiter_char(kind))
}

/// The content ends at `end` if a character that ends it stands there, or the slice
/// ends there, and none stands between `from` and `end`.
pub proof fn lemma_content_ends_at(s: Seq<char>, kind: RawStyle, from: int, end: int)
    requires
        0 <= from <= end <= s.len(),
        forall|k: int| from <= k < end ==> !ends_content(kind, #[trigger] s[k]),
        end < s.len() ==> ends_content(kind, s[end]),
    ensures
        content_end(s, kind, from) == end,
    decreases end - from,
{
    if from < end {
        lemma_content_ends_at(s, kind, from + 1, end);
    }
}

/// Round trip of a closed span: a content between two delimiters of one kind comes
/// out as one span of that kind with exactly that content, whatever stands behind it,
/// and the spans of what stands behind it follow with no span in between. The content
/// must not be empty and must hold no character that ends it; inside code that is the
/// backtick alone, so asterisks and underscores in code are content.
pub proof fn lemma_closed_round_trip(kind: RawStyle, content: Seq<char>, behind: Seq<char>)
    requires
        kind != RawStyle::Plain,
        content.len() > 0,
        forall|k: int| 0 <= k < content.len() ==> !ends_content(kind, #[trigger] content[k]),
    ensures
        ({
            let s = delimiter(kind) + content + delimiter(kind) + behind;
            let span = Span { style: style_of(kind), value: content };
            &&& classify(s) == kind
            &&& extract(s, kind) == Lookup { text_body: span, rest: behind }
            &&& tokens(s) == seq![span] + tokens(behind)
        }),
{
    let open = delimiter_len(kind);
    let s = delimiter(kind) + content + delimiter(kind) + behind;
    let end = open + content.len();
    assert(s[0] == delimiter_char(kind));
    assert(kind == RawStyle::Strong ==> s[1] == '*');
    assert(s[open] == content[0]);
    assert forall|k: int| open <= k < end implies !ends_content(kind, #[trigger] s[k]) by {
        assert(s[k] == content[k - open]);
    }
    assert(s[end] == delimiter_char(kind));
    lemma_content_ends_at(s, kind, open, end);
    assert(delimiter_at(s, kind, end)) by {
        assert forall|k: int| end <= k < end + open implies s[k] == delimiter_char(kind) by {
            assert(s[k] == delimiter(kind)[k - end]);
        }
    }
    assert(s.subrange(open, end) == content);
    assert(s.subrange(end + open, s.len() as int) == behind);
}

/// Progress over a whole run: there are no more spans than characters, and no span
/// is empty.
pub proof fn lemma_tokens_bounded(s: Seq<char>)
    ensures
        tokens(s).len() <= s.len(),
        forall|i: int| 0 <= i < tokens(s).len() ==> (#[trigger] tokens(s)[i]).value.len() > 0,
    decreases s.len(),
{
    if s.len() > 0 {
        let step = extract(s, classify(s));
        lemma_classify_opens(s);
        lemma_extract_progress(s, classify(s));
        lemma_tokens_bounded(step.rest);
        assert forall|i: int| 0 <= i < tokens(s).len() implies (#[trigger] tokens(s)[i]).value.len()
            > 0 by {
            if i > 0 {
                assert(tokens(s)[i] == tokens(step.rest)[i - 1]);
            }
        }
    }
}

/// The visible style of a delimiter kind: both italic delimiters give Italic.
pub fn convert_raw_style_to_text_body_style(raw: &RawStyle) -> (style: TextBodyStyle)
    ensures
        style == style_of(*raw),
{
    match raw {
        RawStyle::Strong => TextBodyStyle::Strong,
        RawStyle::Code => TextBodyStyle::Code,
        RawStyle::AsteriskItalic | RawStyle::UnderscoreItalic => TextBodyStyle::Italic,
        RawStyle::Plain => TextBodyStyle::Plain,
    }
}

/// The delimiter kind that opens at the head of `input`; Plain where none does, as
/// for the empty string.
pub fn check_head_symbol(input: &str) -> (kind: RawStyle)
    ensures
        kind == classify(input@),
{
    broadcast use vstd::string::group_string_axioms;

    let mut heads = input.chars();
    let first = heads.next();
    let second = heads.next();
    match first {
        Some('*') => match second {
            Some('*') => RawStyle::Strong,
            _ => RawStyle::AsteriskItalic,
        },
        Some('_') => RawStyle::UnderscoreItalic,
        Some('`') => RawStyle::Code,
        _ => RawStyle::Plain,
    }
}

/// [`check_head_symbol`] on characters that are already at hand.
fn classify_chars(cs: &[char]) -> (kind: RawStyle)
    ensures
        kind == classify(cs@),
{
    if cs.len() == 0 {
        RawStyle::Plain
    } else if cs[0] == '*' {
        if cs.len() >= 2 && cs[1] == '*' {
            RawStyle::Strong
        } else {
            RawStyle::AsteriskItalic
        }
    } else if cs[0] == '_' {
        RawStyle::UnderscoreItalic
    } else if cs[0] == '`' {
        RawStyle::Code
    } else {
        RawStyle::Plain
    }
}

fn is_content_end(kind: RawStyle, c: char) -> (b: bool)
    ensures
        b == ends_content(kind, c),
{
    match kind {
        RawStyle::Code => c == '`',
        _ => c == '*' || c == '_' || c == '`',
    }
}

fn opening_len(kind: RawStyle) -> (n: usize)
    ensures
        n == delimiter_len(kind),
{
    match kind {
        RawStyle::Plain => 0,
        RawStyle::Strong => 2,
        _ => 1,
    }
}

fn has_delimiter_at(cs: &[char], kind: RawStyle, at: usize) -> (b: bool)
    requires
        at <= cs@.len(),
    ensures
        b == delimiter_at(cs@, kind, at as int),
{
    let rest: usize = cs.len() - at;
    match kind {
        RawStyle::Plain => true,
        RawStyle::Strong => rest >= 2 && cs[at] == '*' && cs[at + 1] == '*',
        RawStyle::AsteriskItalic => rest >= 1 && cs[at] == '*',
        RawStyle::UnderscoreItalic => rest >= 1 && cs[at] == '_',
        RawStyle::Code => rest >= 1 && cs[at] == '`',
    }
}

fn find_content_end(cs: &[char], kind: RawStyle, from: usize) -> (end: usize)
    requires
        from <= cs@.len(),
    ensures
        end == content_end(cs@, kind, from as int),
        from <= end <= cs@.len(),
{
    let mut at: usize = from;
    while at < cs.len() && !is_content_end(kind, cs[at])
        invariant
            from <= at <= cs@.len(),
            content_end(cs@, kind, at as int) == content_end(cs@, kind, from as int),
        decreases cs@.len() - at,
    {
        at = at + 1;
    }
    at
}

/// Where the span at the head of `cs` ends, and whether it is closed there.
fn measure(cs: &[char], kind: RawStyle) -> (cut: (bool, usize))
    requires
        opens_with(cs@, kind),
    ensures
        cut.0 == is_closed(cs@, kind),
        cut.1 == span_end(cs@, kind),
        delimiter_len(kind) <= cut.1 <= cs@.len(),
        cut.0 ==> cut.1 + delimiter_len(kind) <= cs@.len(),
{
    let open = opening_len(kind);
    let end = find_content_end(cs, kind, open);
    let closed = match kind {
        RawStyle::Plain => false,
        _ => end > open && has_delimiter_at(cs, kind, end),
    };
    (closed, end)
}

/// Takes the span of `style` from the head of `input`.
///
/// A closed span comes out in the style of its delimiter, without the delimiters; an
/// opening delimiter that is not closed comes out as plain text, up to the next
/// marker (for code: up to the next backtick, so to the end of the input unless the
/// code span is empty). At least one character is taken.
pub fn lookup_until_close(input: &str, style: &RawStyle) -> (found: LookupResult)
    requires
        opens_with(input@, *style),
    ensures
        found@ == extract(input@, *style),
        found.text_body.value@.len() > 0,
        found.rest@.len() < input@.len(),
{
    proof {
        lemma_extract_progress(input@, *style);
    }
    let chars = to_chars(input);
    let total = chars.len();
    let (closed, end) = measure(chars.as_slice(), *style);
    if closed {
        let open = opening_len(*style);
        LookupResult {
            text_body: TextBody {
                style: convert_raw_style_to_text_body_style(style),
                value: input.substring_char(open, end).to_owned(),
            },
            rest: input.substring_char(end + open, total).to_owned(),
        }
    } else {
        LookupResult {
            text_body: TextBody {
                style: TextBodyStyle::Plain,
                value: input.substring_char(0, end).to_owned(),
            },
            rest: input.substring_char(end, total).to_owned(),
        }
    }
}

/// Splits one run of text into its styled spans, in the order of the text.
///
/// Every input has a result: markup that does not close stays in the output as plain
/// text. The empty input has no spans, and no span is empty.
pub fn parse_text_body_style(input: &str) -> (spans: Vec<TextBody>)
    ensures
        spans.deep_view() == tokens(input@),
        spans.len() <= input@.len(),
        forall|i: int| 0 <= i < spans.len() ==> (#[trigger] spans[i]).value@.len() > 0,
{
    let chars = to_chars(input);
    let total = chars.len();
    let mut spans: Vec<TextBody> = Vec::new();
    let mut pos: usize = 0;
    proof {
        assert(input@.subrange(0, total as int) == input@);
        assert(spans.deep_view() + tokens(input@) == tokens(input@));
    }
    while pos < total
        invariant
            chars@ == input@,
            total == chars@.len(),
            pos <= total,
            spans.len() <= pos,
            spans.deep_view() + tokens(input@.subrange(pos as int, total as int)) == tokens(
                input@,
            ),
        decreases total - pos,
    {
        let ghost done = spans.deep_view();
        let ghost tail = input@.subrange(pos as int, total as int);
        let rest = slice_subrange(chars.as_slice(), pos, total);
        let kind = classify_chars(rest);
        proof {
            lemma_classify_opens(tail);
            lemma_extract_progress(tail, kind);
        }
        let (closed, end) = measure(rest, kind);
        let open = if closed {
            opening_len(kind)
        } else {
            0
        };
        let style = if closed {
            convert_raw_style_to_text_body_style(&kind)
        } else {
            TextBodyStyle::Plain
        };
        let value = input.substring_char(pos + open, pos + end).to_owned();
        let span = TextBody { style, value };
        proof {
            let step = extract(tail, kind);
            assert(input@.subrange(pos + open, pos + end) == tail.subrange(
                open as int,
                end as int,
            ));
            assert(span@ == step.text_body);
            assert(step.rest == input@.subrange(pos + end + open, total as int));
            assert(spans.deep_view().push(span@) + tokens(step.rest) == done + tokens(tail));
        }
        spans.push(span);
        pos = pos + end + open;
        proof {
            assert(spans.deep_view() == done.push(span@));
        }
    }
    proof {
        assert(input@.subrange(pos as int, total as int).len() == 0);
        assert(spans.deep_view() + Seq::<Span>::empty() == spans.deep_view());
        lemma_tokens_bounded(input@);
        assert forall|i: int| 0 <= i < spans.len() implies (#[trigger] spans[i]).value@.len()
            > 0 by {
            assert(spans.deep_view()[i] == spans[i]@);
        }
    }
    spans
}

} // verus!
