//! The header of a document: a block of `key: value` lines between two lines of
//! dashes, read into a map from key to value.

use vstd::prelude::*;
use vstd::hash_map::StringHashMap;
use vstd::string::StrSliceExecFns;
use crate::chars::{
    is_whitespace, lemma_trim_of, to_chars, trim, trim_bounds, trim_of, white_space,
};
use crate::pattern::{captures, regex_captures};

verus! {

/// A header block anywhere in a document: three dashes and at least one line break,
/// then as much text as possible up to the last three dashes (group 1).
pub const FRONTMATTER_PATTERN: &'static str = r"---\n+([\s\S]+)---";

/// The first index at or behind `from` at which a line break stands, or the length of
/// `s` if there is none.
pub open spec fn line_end(s: Seq<char>, from: int) -> int
    decreases s.len() - from,
{
    if from < 0 || from >= s.len() {
        s.len() as int
    } else if s[from] == '\n' {
        from
    } else {
        line_end(s, from + 1)
    }
}

/// Whether the colon that parts key and value stands in `line` at index `at`: a colon
/// with whitespace, or the end of the line, right behind it.
pub open spec fn is_separator(line: Seq<char>, at: int) -> bool {
    &&& 0 <= at < line.len()
    &&& line[at] == ':'
    &&& (at + 1 == line.len() || white_space(line[at + 1]))
}

/// The first index at or behind `from` at which a separator stands in `line`, or the
/// length of `line` if there is none.
pub open spec fn separator(line: Seq<char>, from: int) -> int
    decreases line.len() - from,
{
    if from < 0 || from >= line.len() {
        line.len() as int
    } else if is_separator(line, from) {
        from
    } else {
        separator(line, from + 1)
    }
}

/// Whether `c` is a quotation mark, double or single.
pub open spec fn is_quote(c: char) -> bool {
    c == '"' || c == '\''
}

/// `value` without the pair of quotation marks around it, if it stands between two
/// marks of the same kind; one pair only.
pub open spec fn unquote(value: Seq<char>) -> Seq<char> {
    if value.len() >= 2 && is_quote(value[0]) && value[value.len() - 1] == value[0] {
        value.subrange(1, value.len() - 1)
    } else {
        value
    }
}

/// The key and the value that one line of a header gives, if it gives any.
///
/// The line is cut at its first separator. The key is what stands before it, trimmed;
/// the value is what stands behind it, trimmed and without quotation marks around it. A
/// line without a separator, or with nothing but whitespace before it, gives nothing.
pub open spec fn line_entry(line: Seq<char>) -> Option<(Seq<char>, Seq<char>)> {
    let at = separator(line, 0);
    let key = trim_of(line.subrange(0, at));
    if at < line.len() && key.len() > 0 {
        Some((key, unquote(trim_of(line.subrange(at + 1, line.len() as int)))))
    } else {
        None
    }
}

/// `found` with the entry of `line` added, where the line gives one. An entry
/// replaces an earlier one of the same key.
pub open spec fn with_line(found: Map<Seq<char>, Seq<char>>, line: Seq<char>) -> Map<
    Seq<char>,
    Seq<char>,
> {
    match line_entry(line) {
        Some((key, value)) => found.insert(key, value),
        None => found,
    }
}

/// `found` with the entries of the lines of `raw` that start at `from` or later, added
/// line by line from the first to the last.
pub open spec fn entries_from(raw: Seq<char>, from: int, found: Map<Seq<char>, Seq<char>>) -> Map<
    Seq<char>,
    Seq<char>,
>
    decreases raw.len() + 1 - from,
    via entries_from_terminates
{
    if from < 0 || from > raw.len() {
        found
    } else {
        let end = line_end(raw, from);
        entries_from(raw, end + 1, with_line(found, raw.subrange(from, end)))
    }
}

#[via_fn]
proof fn entries_from_terminates(raw: Seq<char>, from: int, found: Map<Seq<char>, Seq<char>>) {
    if 0 <= from <= raw.len() {
        lemma_line_end(raw, from);
    }
}

/// The entries of a header block: those of its lines, where a later line wins over an
/// earlier one that has the same key.
pub open spec fn header_entries(raw: Seq<char>) -> Map<Seq<char>, Seq<char>> {
    entries_from(raw, 0, Map::empty())
}

/// The entries of a document's header, given what the search of the trimmed document
/// for [`FRONTMATTER_PATTERN`] found: those of the block (group 1), and none where no
/// block was found.
pub open spec fn frontmatter_of(groups: Option<Seq<Option<Seq<char>>>>) -> Map<
    Seq<char>,
    Seq<char>,
> {
    if has_block(groups) {
        header_entries(groups.unwrap()[1].unwrap())
    } else {
        Map::empty()
    }
}

/// Whether a search found a header block.
pub open spec fn has_block(groups: Option<Seq<Option<Seq<char>>>>) -> bool {
    &&& groups is Some
    &&& groups.unwrap().len() >= 2
    &&& groups.unwrap()[1] is Some
}

/// What a map of strings holds, each value taken by its characters.
pub open spec fn entries_of(found: Map<Seq<char>, String>) -> Map<Seq<char>, Seq<char>> {
    Map::new(|key: Seq<char>| found.contains_key(key), |key: Seq<char>| found[key]@)
}

/// A line ends at or behind the index from which its end was sought, before any line
/// break, and at a line break unless at the end of the text.
pub proof fn lemma_line_end(s: Seq<char>, from: int)
    requires
        0 <= from <= s.len(),
    ensures
        from <= line_end(s, from) <= s.len(),
        forall|k: int| from <= k < line_end(s, from) ==> #[trigger] s[k] != '\n',
        line_end(s, from) < s.len() ==> s[line_end(s, from)] == '\n',
    decreases s.len() - from,
{
    if from < s.len() && s[from] != '\n' {
        lemma_line_end(s, from + 1);
    }
}

/// The key of an entry is never blank: it is not empty and neither starts nor ends
/// with whitespace.
pub proof fn lemma_entry_key(line: Seq<char>)
    ensures
        line_entry(line) matches Some(entry) ==> {
            &&& entry.0.len() > 0
            &&& !white_space(entry.0[0])
            &&& !white_space(entry.0[entry.0.len() - 1])
        },
{
    lemma_trim_of(line.subrange(0, separator(line, 0)));
}

/// Whether no key of `found` is empty.
pub open spec fn keys_filled(found: Map<Seq<char>, Seq<char>>) -> bool {
    forall|key: Seq<char>| found.contains_key(key) ==> key.len() > 0
}

/// Reading further lines into a map without empty keys gives a map without empty
/// keys.
pub proof fn lemma_entries_from_keys(raw: Seq<char>, from: int, found: Map<Seq<char>, Seq<char>>)
    requires
        keys_filled(found),
    ensures
        keys_filled(entries_from(raw, from, found)),
    decreases raw.len() + 1 - from,
{
    if 0 <= from <= raw.len() {
        let end = line_end(raw, from);
        let line = raw.subrange(from, end);
        lemma_line_end(raw, from);
        lemma_entry_key(line);
        lemma_entries_from_keys(raw, end + 1, with_line(found, line));
    }
}

/// No entry of a header has an empty key.
pub proof fn lemma_header_keys(raw: Seq<char>)
    ensures
        keys_filled(header_entries(raw)),
{
    lemma_entries_from_keys(raw, 0, Map::empty());
}

/// Where the key and the value of an entry stand in the text of a header.
struct EntryBounds {
    key_start: usize,
    key_end: usize,
    value_start: usize,
    value_end: usize,
}

impl EntryBounds {
    /// The key and the value that stand in `s` at these bounds.
    spec fn of(self, s: Seq<char>) -> (Seq<char>, Seq<char>) {
        (
            s.subrange(self.key_start as int, self.key_end as int),
            s.subrange(self.value_start as int, self.value_end as int),
        )
    }

    spec fn within(self, from: int, end: int) -> bool {
        from <= self.key_start <= self.key_end <= self.value_start <= self.value_end <= end
    }
}

fn find_line_end(cs: &[char], from: usize) -> (end: usize)
    requires
        from <= cs@.len(),
    ensures
        end == line_end(cs@, from as int),
        from <= end <= cs@.len(),
{
    let mut at: usize = from;
    while at < cs.len() && cs[at] != '\n'
        invariant
            from <= at <= cs@.len(),
            line_end(cs@, at as int) == line_end(cs@, from as int),
        decreases cs@.len() - at,
    {
        at = at + 1;
    }
    at
}

/// The separator of the line `cs[from..end]`, as an index into `cs`; `end` where the
/// line has none.
fn find_separator(cs: &[char], from: usize, end: usize) -> (at: usize)
    requires
        from <= end <= cs@.len(),
    ensures
        from <= at <= end,
        at - from == separator(cs@.subrange(from as int, end as int), 0),
{
    let ghost line = cs@.subrange(from as int, end as int);
    let mut at: usize = from;
    while at < end && !(cs[at] == ':' && (at + 1 == end || is_whitespace(cs[at + 1])))
        invariant
            from <= at <= end <= cs@.len(),
            line == cs@.subrange(from as int, end as int),
            separator(line, at - from) == separator(line, 0),
        decreases end - at,
    {
        at = at + 1;
    }
    at
}

/// Where the entry of the line `cs[from..end]` stands, if the line gives one.
fn entry_bounds(cs: &[char], from: usize, end: usize) -> (bounds: Option<EntryBounds>)
    requires
        from <= end <= cs@.len(),
    ensures
        match bounds {
            Some(b) => b.within(from as int, end as int) && line_entry(
                cs@.subrange(from as int, end as int),
            ) == Some(b.of(cs@)),
            None => line_entry(cs@.subrange(from as int, end as int)) is None,
        },
{
    let ghost line = cs@.subrange(from as int, end as int);
    let at = find_separator(cs, from, end);
    if at == end {
        return None;
    }
    let (key_start, key_end) = trim_bounds(cs, from, at);
    proof {
        assert(line.subrange(0, at - from) == cs@.subrange(from as int, at as int));
    }
    if key_start == key_end {
        return None;
    }
    let (start, stop) = trim_bounds(cs, at + 1, end);
    let ghost value = cs@.subrange(start as int, stop as int);
    proof {
        assert(line.subrange(at + 1 - from, line.len() as int) == cs@.subrange(
            at + 1,
            end as int,
        ));
    }
    let quoted = stop - start >= 2 && (cs[start] == '"' || cs[start] == '\'') && cs[stop - 1]
        == cs[start];
    let (value_start, value_end) = if quoted {
        (start + 1, stop - 1)
    } else {
        (start, stop)
    };
    proof {
        assert(quoted ==> value.subrange(1, value.len() - 1) == cs@.subrange(
            value_start as int,
            value_end as int,
        ));
    }
    Some(EntryBounds { key_start, key_end, value_start, value_end })
}

/// Reads one line of a header: its key and its value, or nothing where the line has
/// no separator or no key.
pub fn parse_line(line: &str) -> (entry: Option<(String, String)>)
    ensures
        entry.deep_view() == line_entry(line@),
{
    let chars = to_chars(line);
    proof {
        assert(chars@.subrange(0, chars@.len() as int) == chars@);
    }
    match entry_bounds(chars.as_slice(), 0, chars.len()) {
        Some(b) => {
            let key = line.substring_char(b.key_start, b.key_end).to_owned();
            let value = line.substring_char(b.value_start, b.value_end).to_owned();
            Some((key, value))
        },
        None => None,
    }
}

/// Reads the lines of a header block into a map from key to value. Lines that give no
/// entry are passed over; of two lines with the same key the later one stays.
pub fn parse_header(raw: &str) -> (found: StringHashMap<String>)
    ensures
        entries_of(found@) == header_entries(raw@),
{
    let chars = to_chars(raw);
    let total = chars.len();
    let mut found: StringHashMap<String> = StringHashMap::new();
    let mut from: usize = 0;
    let mut done = false;
    proof {
        assert(entries_of(found@) == Map::<Seq<char>, Seq<char>>::empty());
    }
    while !done
        invariant
            chars@ == raw@,
            total == chars@.len(),
            from <= total,
            !done ==> entries_from(raw@, from as int, entries_of(found@)) == header_entries(raw@),
            done ==> entries_of(found@) == header_entries(raw@),
        decreases
            (if done {
                0
            } else {
                total - from + 1
            }),
    {
        let ghost before = entries_of(found@);
        let end = find_line_end(chars.as_slice(), from);
        match entry_bounds(chars.as_slice(), from, end) {
            Some(b) => {
                let key = raw.substring_char(b.key_start, b.key_end).to_owned();
                let value = raw.substring_char(b.value_start, b.value_end).to_owned();
                found.insert(key, value);
                proof {
                    assert(entries_of(found@) == before.insert(key@, value@));
                }
            },
            None => {},
        }
        proof {
            assert(entries_of(found@) == with_line(before, raw@.subrange(from as int, end as int)));
            assert(entries_from(raw@, from as int, before) == entries_from(
                raw@,
                end + 1,
                entries_of(found@),
            ));
            assert(end == total ==> entries_from(raw@, end + 1, entries_of(found@)) == entries_of(
                found@,
            ));
        }
        if end < total {
            from = end + 1;
        } else {
            done = true;
        }
    }
    found
}

/// Reads the header of a document into a map from key to value.
///
/// The document is trimmed and searched for a header block; the entries are those of
/// the lines of that block. A document without a header block has no entries.
pub fn parse_frontmatter(input: &str) -> (found: StringHashMap<String>)
    ensures
        entries_of(found@) == frontmatter_of(
            regex_captures(FRONTMATTER_PATTERN@, trim_of(input@)),
        ),
{
    let groups = captures(FRONTMATTER_PATTERN, trim(input));
    frontmatter_found(&groups)
}

/// Reads the header of a document from what the search of the trimmed document for
/// [`FRONTMATTER_PATTERN`] found.
pub fn frontmatter_found(groups: &Option<Vec<Option<String>>>) -> (found: StringHashMap<String>)
    ensures
        entries_of(found@) == frontmatter_of(groups.deep_view()),
{
    if let Some(texts) = groups {
        assert(groups.deep_view() == Some(texts.deep_view()));
        if texts.len() >= 2 {
            assert(texts.deep_view()[1] == texts[1].deep_view());
            if let Some(raw) = &texts[1] {
                return parse_header(raw.as_str());
            }
        }
    }
    let found: StringHashMap<String> = StringHashMap::new();
    assert(entries_of(found@) == Map::<Seq<char>, Seq<char>>::empty());
    found
}

} // verus!
