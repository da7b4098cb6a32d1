//! A streaming XML serializer.
//!
//! The [`Writer`] turns a sequence of structural write calls (start tag,
//! attribute, text, CDATA, comment, end tag) into a syntactically valid XML
//! byte stream, enforcing XML lexical rules without building a document tree.

pub mod escape;
pub mod events;
pub mod names;
pub mod scan;
pub mod writer;

pub use escape::{comment_escape, content_escape};
pub use events::{
    AttributeEvent, AttributeQuote, CDataEvent, CommentEvent, DoctypeEvent, EndEvent, Event,
    StartEvent, TextEvent,
};
pub use names::{attr_name_byte_ok, element_name_ok, name_byte_ok, prefix_ok};
pub use scan::{has_subseq, matches_at};
pub use writer::{Error, Options, TagState, Writer};
