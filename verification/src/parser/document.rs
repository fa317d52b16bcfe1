//! Separation of a document into its header block and its body.

use vstd::prelude::*;
use crate::chars::{trim, trim_of};
use crate::pattern::{captures, regex_captures};

verus! {

/// A header block at the very start of a document: a line of three dashes, then as
/// little text as possible up to the next three dashes (group 1); behind it any number
/// of line breaks and then the body (group 2).
pub const SPLIT_PATTERN: &'static str = r"^(---\n[\s\S]*?---)\n*([\s\S]*)$";

/// A document in two parts, in contracts.
pub struct Parts {
    pub head: Seq<char>,
    pub body: Seq<char>,
}

/// A document in two parts: the header block, dashes included, and the body. A
/// document without a header block has an empty head.
#[derive(Debug, Clone, PartialEq, Eq)]
pub struct SplitResult {
    pub head: String,
    pub body: String,
}

impl View for SplitResult {
    type V = Parts;

    open spec fn view(&self) -> Parts {
        Parts { head: self.head@, body: self.body@ }
    }
}

/// The two parts of the document `input`, given what the search of the trimmed
/// document for [`SPLIT_PATTERN`] found.
///
/// Where the header block (group 1) and the text behind it (group 2) were found, the
/// head is the block and the body is that text, trimmed. Otherwise the head is empty and
/// the body is `input` as it stands, untrimmed.
pub open spec fn parts_of(input: Seq<char>, groups: Option<Seq<Option<Seq<char>>>>) -> Parts {
    if has_parts(groups) {
        Parts { head: groups.unwrap()[1].unwrap(), body: trim_of(groups.unwrap()[2].unwrap()) }
    } else {
        Parts { head: Seq::empty(), body: input }
    }
}

/// Whether a search found both the header block and the text behind it.
pub open spec fn has_parts(groups: Option<Seq<Option<Seq<char>>>>) -> bool {
    &&& groups is Some
    &&& groups.unwrap().len() >= 3
    &&& groups.unwrap()[1] is Some
    &&& groups.unwrap()[2] is Some
}

/// Builds the two parts of `input` from what the search of the trimmed document for
/// [`SPLIT_PATTERN`] found.
pub fn split_found(input: &str, groups: &Option<Vec<Option<String>>>) -> (found: SplitResult)
    ensures
        found@ == parts_of(input@, groups.deep_view()),
{
    if let Some(texts) = groups {
        assert(groups.deep_view() == Some(texts.deep_view()));
        if texts.len() >= 3 {
            assert(texts.deep_view()[1] == texts[1].deep_view());
            assert(texts.deep_view()[2] == texts[2].deep_view());
            if let Some(head) = &texts[1] {
                if let Some(rest) = &texts[2] {
                    return SplitResult {
                        head: head.clone(),
                        body: trim(rest.as_str()).to_owned(),
                    };
                }
            }
        }
    }
    SplitResult { head: String::new(), body: input.to_owned() }
}

/// Separates the header block of a document from its body.
///
/// The document is trimmed and searched for a header block at its start. Where there is
/// one, the head is the block and the body is what follows it, trimmed; where there is
/// none, the head is empty and the body is `input`, untrimmed.
pub fn split(input: &str) -> (found: SplitResult)
    ensures
        found@ == parts_of(input@, regex_captures(SPLIT_PATTERN@, trim_of(input@))),
{
    let groups = captures(SPLIT_PATTERN, trim(input));
    split_found(input, &groups)
}

} // verus!
