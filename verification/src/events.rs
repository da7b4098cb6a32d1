//! The event model consumed by [`crate::Writer::write_event`].
//!
//! Events mirror what a pull parser yields for a document: start tags with
//! their attributes, end tags, and text-bearing nodes. Every text or
//! attribute payload is understood to be exactly as it appeared in source,
//! already escaped; the writer re-emits it byte for byte.

use vstd::prelude::*;

use crate::escape::{B_APOS, B_QUOT};

verus! {

/// Which quote byte delimits an attribute value.
#[derive(Clone, Copy, Debug)]
pub enum AttributeQuote {
    /// `"`
    Double,
    /// `'`
    Single,
}

impl AttributeQuote {
    /// The quote byte itself.
    pub open spec fn spec_byte(self) -> u8 {
        match self {
            AttributeQuote::Double => B_QUOT,
            AttributeQuote::Single => B_APOS,
        }
    }

    /// Returns the quote byte itself.
    pub fn byte(self) -> (r: u8)
        ensures
            r == self.spec_byte(),
    {
        match self {
            AttributeQuote::Double => B_QUOT,
            AttributeQuote::Single => B_APOS,
        }
    }
}

/// One attribute of a start or empty tag, with its raw (already escaped)
/// value.
#[derive(Clone, Debug)]
pub struct AttributeEvent {
    /// The attribute's name.
    pub name: String,
    /// The quote character that delimited the value in source.
    pub quote: AttributeQuote,
    /// The attribute's value, exactly as it appeared between the quotes.
    pub raw_value: String,
}

/// A start tag, either normal or self-closing.
#[derive(Clone, Debug)]
pub struct StartEvent {
    /// The tag's namespace prefix, if it had one.
    pub prefix: Option<String>,
    /// The tag's name.
    pub name: String,
    /// The tag's attributes, in source order.
    pub attributes: Vec<AttributeEvent>,
    /// Whether the tag was self-closing (`<a/>` rather than `<a>`).
    pub is_empty: bool,
}

/// An end tag.
#[derive(Clone, Debug)]
pub struct EndEvent {
    /// The tag's namespace prefix, if it had one.
    pub prefix: Option<String>,
    /// The tag's name.
    pub name: String,
}

/// A run of character data, exactly as it appeared in source.
#[derive(Clone, Debug)]
pub struct TextEvent {
    /// The raw text, delimiters and escapes included.
    pub text: String,
}

/// A CDATA section, exactly as it appeared in source.
#[derive(Clone, Debug)]
pub struct CDataEvent {
    /// The raw text, `<![CDATA[` and `]]>` included.
    pub text: String,
}

/// A comment, exactly as it appeared in source.
#[derive(Clone, Debug)]
pub struct CommentEvent {
    /// The raw text, `<!--` and `-->` included.
    pub text: String,
}

/// A doctype declaration, exactly as it appeared in source.
#[derive(Clone, Debug)]
pub struct DoctypeEvent {
    /// The raw text of the declaration.
    pub text: String,
}

/// One structural node of a document, as an event source yields it.
#[derive(Clone, Debug)]
pub enum Event {
    /// A start tag.
    Start(StartEvent),
    /// A self-closing tag.
    Empty(StartEvent),
    /// An end tag.
    End(EndEvent),
    /// Character data.
    Text(TextEvent),
    /// A CDATA section.
    CData(CDataEvent),
    /// A comment.
    Comment(CommentEvent),
    /// A doctype declaration.
    Doctype(DoctypeEvent),
}

} // verus!
