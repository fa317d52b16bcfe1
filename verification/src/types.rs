//! The document model: styled inline text and the blocks built from it.

use vstd::prelude::*;

verus! {

/// The visible style of one run of inline text.
#[derive(Debug, Clone, Copy, PartialEq, Eq, Structural)]
pub enum TextBodyStyle {
    Plain,
    Italic,
    Strong,
    Code,
}

/// What a [`TextBody`] is in contracts: its style and the characters it holds.
pub struct Span {
    pub style: TextBodyStyle,
    pub value: Seq<char>,
}

/// One run of inline text together with its style.
#[derive(Debug, Clone, PartialEq, Eq)]
pub struct TextBody {
    pub style: TextBodyStyle,
    pub value: String,
}

impl View for TextBody {
    type V = Span;

    open spec fn view(&self) -> Span {
        Span { style: self.style, value: self.value@ }
    }
}

impl DeepView for TextBody {
    type V = Span;

    open spec fn deep_view(&self) -> Span {
        self@
    }
}

/// A link: the styled text that is shown and the address it leads to.
#[derive(Debug, Clone, PartialEq, Eq)]
pub struct Link {
    pub body: Vec<TextBody>,
    pub url: String,
}

/// One piece of inline content: styled text or a link.
#[derive(Debug, Clone, PartialEq, Eq)]
pub enum InlineContent {
    TextBody(TextBody),
    Link(Link),
}

/// A paragraph of inline content.
#[derive(Debug, Clone, PartialEq, Eq)]
pub struct ParagraphBlock {
    pub body: Vec<InlineContent>,
}

/// The level of a heading, from 1 (the top level) to 6.
#[derive(Debug, Clone, Copy, PartialEq, Eq)]
pub struct HeadingLevel(u8);

impl View for HeadingLevel {
    type V = u8;

    closed spec fn view(&self) -> u8 {
        self.0
    }
}

impl HeadingLevel {
    #[verifier::type_invariant]
    spec fn in_range(self) -> bool {
        1 <= self.0 <= 6
    }

    /// The heading level `level`, which must lie between 1 and 6; every other number
    /// is refused with the message "Unexpected level".
    pub fn new(level: u8) -> (made: Result<HeadingLevel, String>)
        ensures
            made is Ok <==> 1 <= level <= 6,
            made matches Ok(heading) ==> heading@ == level,
            made matches Err(message) ==> message@ == "Unexpected level"@,
    {
        if 1 <= level && level <= 6 {
            Ok(HeadingLevel(level))
        } else {
            Err("Unexpected level".to_owned())
        }
    }

    /// The level as a number; it always lies between 1 and 6.
    pub fn level(&self) -> (level: u8)
        ensures
            level == self@,
            1 <= level <= 6,
    {
        proof {
            use_type_invariant(self);
        }
        self.0
    }
}

/// A heading: its inline content and its level.
#[derive(Debug, Clone, PartialEq, Eq)]
pub struct HeadingBlock {
    pub body: Vec<InlineContent>,
    pub level: HeadingLevel,
}

/// A quotation.
#[derive(Debug, Clone, PartialEq, Eq)]
pub struct QuoteBlock {
    pub body: Vec<InlineContent>,
}

/// One item of a list.
#[derive(Debug, Clone, PartialEq, Eq)]
pub struct ListItem {
    pub body: Vec<InlineContent>,
}

/// A list, numbered or not.
#[derive(Debug, Clone, PartialEq, Eq)]
pub struct ListBlock {
    pub body: Vec<ListItem>,
    pub ordered: bool,
}

/// An image with its alternative text and its caption.
#[derive(Debug, Clone, PartialEq, Eq)]
pub struct ImageBlock {
    pub url: String,
    pub alt_text: String,
    pub caption: String,
}

/// A block of code, with the language it is written in where that is known.
#[derive(Debug, Clone, PartialEq, Eq)]
pub struct CodeBlock {
    pub lang: Option<String>,
    pub body: String,
}

/// One block of a document.
#[derive(Debug, Clone, PartialEq, Eq)]
pub enum Block {
    Paragraph(ParagraphBlock),
    Heading(HeadingBlock),
    Quote(QuoteBlock),
    List(ListBlock),
    Image(ImageBlock),
    Code(CodeBlock),
    ThematicBreak,
}

} // verus!
