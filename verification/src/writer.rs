//! The XML writer: a state machine over a byte sink.
//!
//! The writer owns a byte buffer, an [`Options`] value, and the state of the
//! one tag that may currently be open for attributes, together with a ghost
//! count of the elements opened and not yet closed. Every structural write
//! first closes a pending open tag, then validates, then emits; validation
//! failures leave the writer exactly as it was.

use vstd::prelude::*;
use vstd::string::StringSliceAdditionalSpecFns;
use vstd::utf8::encode_utf8;

use crate::escape::{
    comment_escape, comment_escaped, content_escape, content_escaped,
    lemma_comment_escaped_no_double_dash, lemma_content_escaped_no_markup,
    lemma_content_escaped_nul, no_double_dash, B_GT, B_LT, B_QUOT, B_SPACE,
};
use crate::events::{AttributeEvent, AttributeQuote, Event, StartEvent};
use crate::names::{
    all_attr_name_bytes_ok, all_name_bytes_ok, attr_name_bytes_are_ok, contains_either_byte,
    element_name_is_ok, element_name_ok, has_either_byte, name_bytes_are_ok, prefix_ok, B_COLON,
    B_DASH,
};
use crate::scan::{has_subseq, matches_at};

verus! {

/// `/`
pub const B_SLASH: u8 = 0x2f;

/// `=`
pub const B_EQ: u8 = 0x3d;

/// `!`
pub const B_BANG: u8 = 0x21;

/// `[`
pub const B_LBRACKET: u8 = 0x5b;

/// `]`
pub const B_RBRACKET: u8 = 0x5d;

/// The bytes of `<![CDATA[`.
pub open spec fn cdata_open() -> Seq<u8> {
    seq![B_LT, B_BANG, B_LBRACKET, 0x43, 0x44, 0x41, 0x54, 0x41, B_LBRACKET]
}

/// The bytes of `]]>`.
pub open spec fn cdata_close() -> Seq<u8> {
    seq![B_RBRACKET, B_RBRACKET, B_GT]
}

/// The bytes of `<!--`.
pub open spec fn comment_open() -> Seq<u8> {
    seq![B_LT, B_BANG, B_DASH, B_DASH]
}

/// The bytes of `-->`.
pub open spec fn comment_close() -> Seq<u8> {
    seq![B_DASH, B_DASH, B_GT]
}

/// What an optional prefix contributes to a tag: the prefix bytes and a
/// colon, or nothing.
pub open spec fn opt_prefix_bytes(prefix: Option<&str>) -> Seq<u8> {
    match prefix {
        Some(p) => p.spec_bytes() + seq![B_COLON],
        None => Seq::empty(),
    }
}

/// XML writer options.
#[non_exhaustive]
#[derive(Clone, Copy, Debug)]
pub struct Options {
    /// Whether to ignore all calls to [`Writer::write_comment`] and
    /// [`Writer::write_raw_comment`]: they still validate their input but
    /// emit nothing.
    pub omit_comments: bool,
}

impl Default for Options {
    /// Returns the default options: comments are written.
    fn default() -> (r: Self)
        ensures
            !r.omit_comments,
    {
        Options { omit_comments: false }
    }
}

/// Whether a start tag is currently open for attributes.
#[derive(Clone, Copy, Debug)]
pub enum TagState {
    /// No start tag is open; the next structural write emits directly.
    Idle,
    /// The opening `<name` of a tag has been written but its closing `>` or
    /// `/>` has not; attribute writes are legal.
    Open {
        /// Whether the pending tag was declared self-closing, so that its
        /// closure emits `/>` and does not deepen the nesting.
        is_empty: bool,
    },
}

/// An error that can occur while writing XML.
///
/// Every error is detected before any byte is written for the failing call,
/// which is left without effect on the writer.
#[derive(Clone, Copy, Debug, PartialEq, Eq)]
pub enum Error {
    /// An invalid prefix was passed to [`Writer::write_start`] or
    /// [`Writer::write_end`].
    InvalidElementPrefix,
    /// An invalid name was passed to [`Writer::write_start`],
    /// [`Writer::write_empty`] or [`Writer::write_end`].
    InvalidElementName,
    /// An invalid name was passed to [`Writer::write_attribute`] or
    /// [`Writer::write_raw_attribute`].
    InvalidAttributeName,
    /// A name or value holding a null byte or the chosen quote character was
    /// passed to [`Writer::write_attribute`] or
    /// [`Writer::write_raw_attribute`].
    InvalidAttributeValue,
    /// An attribute write was attempted while no start tag was open.
    AttributeOutsideTag,
    /// Improperly escaped content was passed to [`Writer::write_raw_comment`]
    /// or [`Writer::write_raw_text`].
    ImproperlyEscaped,
    /// A string containing `]]>` was passed to [`Writer::write_cdata`].
    InvalidCData,
    /// A string containing a null byte was passed to
    /// [`Writer::write_raw_text`].
    InvalidValue,
}

impl Error {
    /// A short description of the error.
    pub fn message(&self) -> (r: &'static str)
        ensures
            r@ == match *self {
                Error::InvalidElementPrefix => "invalid element prefix"@,
                Error::InvalidElementName => "invalid element name"@,
                Error::InvalidAttributeName => "invalid attribute name"@,
                Error::InvalidAttributeValue => "invalid attribute value"@,
                Error::AttributeOutsideTag => "attributes are only allowed inside tags"@,
                Error::ImproperlyEscaped => "improperly escaped content"@,
                Error::InvalidCData => "cdata content cannot contain `]]>`"@,
                Error::InvalidValue => "value contains null byte"@,
            },
    {
        match *self {
            Error::InvalidElementPrefix => "invalid element prefix",
            Error::InvalidElementName => "invalid element name",
            Error::InvalidAttributeName => "invalid attribute name",
            Error::InvalidAttributeValue => "invalid attribute value",
            Error::AttributeOutsideTag => "attributes are only allowed inside tags",
            Error::ImproperlyEscaped => "improperly escaped content",
            Error::InvalidCData => "cdata content cannot contain `]]>`",
            Error::InvalidValue => "value contains null byte",
        }
    }
}

/// Appends every byte of `bs` to `out`.
fn push_bytes(out: &mut Vec<u8>, bs: &[u8])
    ensures
        final(out)@ == old(out)@ + bs@,
{
    let mut i: usize = 0;
    while i < bs.len()
        invariant
            0 <= i <= bs@.len(),
            out@ == old(out)@ + bs@.take(i as int),
        decreases bs@.len() - i,
    {
        out.push(bs[i]);
        assert(old(out)@ + bs@.take(i as int) + seq![bs@[i as int]] =~= old(out)@ + bs@.take(
            i as int + 1,
        ));
        i += 1;
    }
    assert(bs@.take(bs@.len() as int) =~= bs@);
}

/// An XML writer over a byte buffer.
pub struct Writer {
    sink: Vec<u8>,
    options: Options,
    state: TagState,
    depth: Ghost<int>,
    starts: Ghost<int>,
    ends: Ghost<int>,
}

impl Writer {
    /// The bytes emitted so far, including any the buffer held at
    /// construction.
    pub closed spec fn out(self) -> Seq<u8> {
        self.sink@
    }

    /// The writer's options.
    pub closed spec fn opts(self) -> Options {
        self.options
    }

    /// The pending-tag state.
    pub closed spec fn tag(self) -> TagState {
        self.state
    }

    /// The number of elements opened by a completed `write_start` and not
    /// yet closed by `write_end`; a normal start tag is counted from the
    /// moment its opening `<name` is finished with `>`.
    pub closed spec fn depth(self) -> int {
        self.depth@
    }

    /// The number of successful `write_start` calls made on this writer.
    pub closed spec fn starts(self) -> int {
        self.starts@
    }

    /// The number of successful `write_end` calls made on this writer.
    pub closed spec fn ends(self) -> int {
        self.ends@
    }

    /// The bytes that closing the pending open tag will emit: nothing when
    /// no tag is open, `/>` for a self-closing tag, `>` otherwise.
    pub open spec fn close_seq(self) -> Seq<u8> {
        match self.tag() {
            TagState::Idle => Seq::empty(),
            TagState::Open { is_empty } => if is_empty {
                seq![B_SLASH, B_GT]
            } else {
                seq![B_GT]
            },
        }
    }

    /// The nesting depth once the pending tag, if any, has been closed:
    /// closing a normal start tag adds one open element, closing a
    /// self-closing tag adds none.
    pub open spec fn closed_depth(self) -> int {
        self.depth() + match self.tag() {
            TagState::Idle => 0int,
            TagState::Open { is_empty } => if is_empty {
                0int
            } else {
                1int
            },
        }
    }

    /// Well-formedness: the count of open elements is never negative, and
    /// the tag-closure invariant holds: the nesting depth, once the pending
    /// tag is closed, equals the number of `write_start` calls not yet
    /// matched by a `write_end`.
    pub open spec fn wf(self) -> bool {
        self.depth() >= 0 && self.closed_depth() == self.starts() - self.ends()
    }

    /// Creates a new writer that appends to `writer`, with default options.
    pub fn new(writer: Vec<u8>) -> (w: Writer)
        ensures
            w.out() == writer@,
            w.tag() == TagState::Idle,
            w.depth() == 0,
            w.starts() == 0,
            w.ends() == 0,
            !w.opts().omit_comments,
            w.wf(),
    {
        Writer::with_options(writer, Options::default())
    }

    /// Creates a new writer that appends to `writer`, with the given
    /// options.
    pub fn with_options(writer: Vec<u8>, options: Options) -> (w: Writer)
        ensures
            w.out() == writer@,
            w.tag() == TagState::Idle,
            w.depth() == 0,
            w.starts() == 0,
            w.ends() == 0,
            w.opts() == options,
            w.wf(),
    {
        Writer {
            sink: writer,
            options,
            state: TagState::Idle,
            depth: Ghost(0),
            starts: Ghost(0),
            ends: Ghost(0),
        }
    }

    /// Whether the pending open tag was declared self-closing.
    fn in_empty_tag(&self) -> (r: bool)
        ensures
            r == (self.tag() matches TagState::Open { is_empty: true }),
    {
        match self.state {
            TagState::Open { is_empty } => is_empty,
            TagState::Idle => false,
        }
    }

    /// Closes the pending open tag, if one is pending: emits `/>` or `>`,
    /// counts a normally opened element as one more open element, and
    /// returns the writer to the idle state.
    fn ensure_tag_closed(&mut self)
        ensures
            final(self).out() == old(self).out() + old(self).close_seq(),
            final(self).tag() == TagState::Idle,
            final(self).depth() == old(self).closed_depth(),
            final(self).opts() == old(self).opts(),
            final(self).starts() == old(self).starts(),
            final(self).ends() == old(self).ends(),
    {
        match self.state {
            TagState::Idle => {
                assert(self.out() =~= self.out() + Seq::<u8>::empty());
            },
            TagState::Open { is_empty: _ } => {
                if self.in_empty_tag() {
                    self.sink.push(B_SLASH);
                    self.sink.push(B_GT);
                    assert(self.sink@ =~= old(self).out() + seq![B_SLASH, B_GT]);
                } else {
                    self.sink.push(B_GT);
                    proof {
                        self.depth@ = self.depth@ + 1;
                    }
                    assert(self.sink@ =~= old(self).out() + seq![B_GT]);
                }
                self.state = TagState::Idle;
            },
        }
    }

    /// Writes a start tag with the specified `prefix` and `name`.
    ///
    /// Fails with `InvalidElementPrefix` or `InvalidElementName`, and leaves
    /// the writer unchanged, exactly when the prefix holds a byte outside
    /// the name grammar, or the name is empty or holds such a byte. On
    /// success it closes any pending tag, emits `<`, the optional
    /// `prefix:`, and the name, and leaves the new tag open for attributes.
    pub fn write_start(&mut self, prefix: Option<&str>, name: &str) -> (r: Result<(), Error>)
        requires
            old(self).wf(),
        ensures
            final(self).opts() == old(self).opts(),
            final(self).wf(),
            if !prefix_ok(prefix) {
                r == Err::<(), Error>(Error::InvalidElementPrefix) && *final(self) == *old(self)
            } else if !element_name_ok(name.spec_bytes()) {
                r == Err::<(), Error>(Error::InvalidElementName) && *final(self) == *old(self)
            } else {
                &&& r == Ok::<(), Error>(())
                &&& final(self).out() == old(self).out() + old(self).close_seq() + seq![B_LT] + opt_prefix_bytes(prefix) + name.spec_bytes()
                &&& final(self).tag() == (TagState::Open { is_empty: false })
                &&& final(self).depth() == old(self).closed_depth()
                &&& final(self).starts() == old(self).starts() + 1
                &&& final(self).ends() == old(self).ends()
            },
    {
        if let Some(pfx) = prefix {
            if !name_bytes_are_ok(pfx.as_bytes()) {
                return Err(Error::InvalidElementPrefix);
            }
        }
        if !element_name_is_ok(name.as_bytes()) {
            return Err(Error::InvalidElementName);
        }
        self.ensure_tag_closed();
        self.state = TagState::Open { is_empty: false };
        proof {
            self.starts@ = self.starts@ + 1;
        }
        let ghost mid = self.sink@;
        self.sink.push(B_LT);
        if let Some(pfx) = prefix {
            push_bytes(&mut self.sink, pfx.as_bytes());
            self.sink.push(B_COLON);
        }
        push_bytes(&mut self.sink, name.as_bytes());
        assert(self.sink@ =~= mid + seq![B_LT] + opt_prefix_bytes(prefix) + name.spec_bytes());
        Ok(())
    }

    /// Writes a self-closing tag with the specified `prefix` and `name`.
    ///
    /// Validates only the name, not the prefix, which is emitted as given.
    /// Fails with `InvalidElementName`, and leaves the writer unchanged,
    /// exactly when the name is empty or holds a byte outside the name
    /// grammar. On success it closes any pending tag, emits `<`, the
    /// optional `prefix:`, and the name, and leaves the new tag open for
    /// attributes, marked self-closing.
    pub fn write_empty(&mut self, prefix: Option<&str>, name: &str) -> (r: Result<(), Error>)
        requires
            old(self).wf(),
        ensures
            final(self).opts() == old(self).opts(),
            final(self).wf(),
            if !element_name_ok(name.spec_bytes()) {
                r == Err::<(), Error>(Error::InvalidElementName) && *final(self) == *old(self)
            } else {
                &&& r == Ok::<(), Error>(())
                &&& final(self).out() == old(self).out() + old(self).close_seq() + seq![B_LT] + opt_prefix_bytes(prefix) + name.spec_bytes()
                &&& final(self).tag() == (TagState::Open { is_empty: true })
                &&& final(self).depth() == old(self).closed_depth()
                &&& final(self).starts() == old(self).starts()
                &&& final(self).ends() == old(self).ends()
            },
    {
        if !element_name_is_ok(name.as_bytes()) {
            return Err(Error::InvalidElementName);
        }
        self.ensure_tag_closed();
        self.state = TagState::Open { is_empty: true };
        let ghost mid = self.sink@;
        self.sink.push(B_LT);
        if let Some(pfx) = prefix {
            push_bytes(&mut self.sink, pfx.as_bytes());
            self.sink.push(B_COLON);
        }
        push_bytes(&mut self.sink, name.as_bytes());
        assert(self.sink@ =~= mid + seq![B_LT] + opt_prefix_bytes(prefix) + name.spec_bytes());
        Ok(())
    }

    /// Writes an end tag with the specified `prefix` and `name`.
    ///
    /// Fails with `InvalidElementPrefix` or `InvalidElementName`, and leaves
    /// the writer unchanged, as `write_start` does. On success it closes any
    /// pending tag, emits `</`, the optional `prefix:`, the name and `>`,
    /// and counts one open element as closed. The caller must pair end tags
    /// with outstanding start tags: the writer counts depth but keeps no
    /// name stack.
    pub fn write_end(&mut self, prefix: Option<&str>, name: &str) -> (r: Result<(), Error>)
        requires
            old(self).wf(),
            prefix_ok(prefix) && element_name_ok(name.spec_bytes()) ==> old(self).closed_depth()
                >= 1,
        ensures
            final(self).opts() == old(self).opts(),
            final(self).wf(),
            if !prefix_ok(prefix) {
                r == Err::<(), Error>(Error::InvalidElementPrefix) && *final(self) == *old(self)
            } else if !element_name_ok(name.spec_bytes()) {
                r == Err::<(), Error>(Error::InvalidElementName) && *final(self) == *old(self)
            } else {
                &&& r == Ok::<(), Error>(())
                &&& final(self).out() == old(self).out() + old(self).close_seq() + seq![B_LT, B_SLASH] + opt_prefix_bytes(prefix) + name.spec_bytes() + seq![B_GT]
                &&& final(self).tag() == TagState::Idle
                &&& final(self).depth() == old(self).closed_depth() - 1
                &&& final(self).starts() == old(self).starts()
                &&& final(self).ends() == old(self).ends() + 1
            },
    {
        if let Some(pfx) = prefix {
            if !name_bytes_are_ok(pfx.as_bytes()) {
                return Err(Error::InvalidElementPrefix);
            }
        }
        if !element_name_is_ok(name.as_bytes()) {
            return Err(Error::InvalidElementName);
        }
        self.ensure_tag_closed();
        let ghost mid = self.sink@;
        self.sink.push(B_LT);
        self.sink.push(B_SLASH);
        if let Some(pfx) = prefix {
            push_bytes(&mut self.sink, pfx.as_bytes());
            self.sink.push(B_COLON);
        }
        push_bytes(&mut self.sink, name.as_bytes());
        self.sink.push(B_GT);
        proof {
            self.depth@ = self.depth@ - 1;
            self.ends@ = self.ends@ + 1;
        }
        assert(self.sink@ =~= mid + seq![B_LT, B_SLASH] + opt_prefix_bytes(prefix)
            + name.spec_bytes() + seq![B_GT]);
        Ok(())
    }

    /// Writes one attribute, given its value as raw bytes. Shared by the raw
    /// and the escaping attribute paths.
    fn raw_attribute_bytes(&mut self, name: &str, quote: AttributeQuote, value: &[u8]) -> (r:
        Result<(), Error>)
        requires
            old(self).wf(),
        ensures
            final(self).opts() == old(self).opts(),
            final(self).wf(),
            if old(self).tag() is Idle {
                r == Err::<(), Error>(Error::AttributeOutsideTag) && *final(self) == *old(self)
            } else if !all_attr_name_bytes_ok(name.spec_bytes()) {
                r == Err::<(), Error>(Error::InvalidAttributeName) && *final(self) == *old(self)
            } else if has_either_byte(name.spec_bytes(), 0, quote.spec_byte()) || has_either_byte(
                value@,
                0,
                quote.spec_byte(),
            ) {
                r == Err::<(), Error>(Error::InvalidAttributeValue) && *final(self) == *old(self)
            } else {
                &&& r == Ok::<(), Error>(())
                &&& final(self).out() == old(self).out() + attr_bytes(name.spec_bytes(), quote.spec_byte(), value@)
                &&& final(self).tag() == old(self).tag()
                &&& final(self).depth() == old(self).depth()
                &&& final(self).starts() == old(self).starts()
                &&& final(self).ends() == old(self).ends()
            },
    {
        if let TagState::Idle = self.state {
            return Err(Error::AttributeOutsideTag);
        }
        if !attr_name_bytes_are_ok(name.as_bytes()) {
            return Err(Error::InvalidAttributeName);
        }
        let qb = quote.byte();
        if contains_either_byte(name.as_bytes(), 0, qb) || contains_either_byte(value, 0, qb) {
            return Err(Error::InvalidAttributeValue);
        }
        let ghost pre = self.sink@;
        self.sink.push(B_SPACE);
        push_bytes(&mut self.sink, name.as_bytes());
        self.sink.push(B_EQ);
        self.sink.push(qb);
        push_bytes(&mut self.sink, value);
        self.sink.push(qb);
        assert(self.sink@ =~= pre + attr_bytes(name.spec_bytes(), quote.spec_byte(), value@));
        Ok(())
    }

    /// Writes an attribute with the specified `name`, `quote` character and
    /// raw `value`.
    ///
    /// Valid only while a start tag is open; fails with
    /// `AttributeOutsideTag` otherwise, with `InvalidAttributeName` when the
    /// name holds a byte outside the attribute-name grammar, and with
    /// `InvalidAttributeValue` when the name or the value holds a null byte
    /// or the chosen quote character. The value is not escaped: it is
    /// emitted exactly as given, between the chosen quotes.
    pub fn write_raw_attribute(&mut self, name: &str, quote: AttributeQuote, value: &str) -> (r:
        Result<(), Error>)
        requires
            old(self).wf(),
        ensures
            final(self).opts() == old(self).opts(),
            final(self).wf(),
            if old(self).tag() is Idle {
                r == Err::<(), Error>(Error::AttributeOutsideTag) && *final(self) == *old(self)
            } else if !all_attr_name_bytes_ok(name.spec_bytes()) {
                r == Err::<(), Error>(Error::InvalidAttributeName) && *final(self) == *old(self)
            } else if has_either_byte(name.spec_bytes(), 0, quote.spec_byte()) || has_either_byte(
                value.spec_bytes(),
                0,
                quote.spec_byte(),
            ) {
                r == Err::<(), Error>(Error::InvalidAttributeValue) && *final(self) == *old(self)
            } else {
                &&& r == Ok::<(), Error>(())
                &&& final(self).out() == old(self).out() + attr_bytes(name.spec_bytes(), quote.spec_byte(), value.spec_bytes())
                &&& final(self).tag() == old(self).tag()
                &&& final(self).depth() == old(self).depth()
                &&& final(self).starts() == old(self).starts()
                &&& final(self).ends() == old(self).ends()
            },
    {
        self.raw_attribute_bytes(name, quote, value.as_bytes())
    }

    /// Writes an attribute with the specified `name` and `value`, escaping
    /// the value and delimiting it with double quotes.
    ///
    /// Valid only while a start tag is open; fails with
    /// `AttributeOutsideTag` otherwise, with `InvalidAttributeName` when the
    /// name holds a byte outside the attribute-name grammar, and with
    /// `InvalidAttributeValue` when the name holds a null byte or a double
    /// quote, or the value holds a null byte (escaping removes every quote
    /// from the value but passes null bytes through).
    pub fn write_attribute(&mut self, name: &str, value: &str) -> (r: Result<(), Error>)
        requires
            old(self).wf(),
        ensures
            final(self).opts() == old(self).opts(),
            final(self).wf(),
            if old(self).tag() is Idle {
                r == Err::<(), Error>(Error::AttributeOutsideTag) && *final(self) == *old(self)
            } else if !all_attr_name_bytes_ok(name.spec_bytes()) {
                r == Err::<(), Error>(Error::InvalidAttributeName) && *final(self) == *old(self)
            } else if has_either_byte(name.spec_bytes(), 0, B_QUOT) || has_either_byte(
                value.spec_bytes(),
                0,
                0,
            ) {
                r == Err::<(), Error>(Error::InvalidAttributeValue) && *final(self) == *old(self)
            } else {
                &&& r == Ok::<(), Error>(())
                &&& final(self).out() == old(self).out() + attr_bytes(name.spec_bytes(), B_QUOT, content_escaped(value.spec_bytes()))
                &&& final(self).tag() == old(self).tag()
                &&& final(self).depth() == old(self).depth()
                &&& final(self).starts() == old(self).starts()
                &&& final(self).ends() == old(self).ends()
            },
    {
        let escaped = content_escape(value);
        proof {
            lemma_content_escaped_no_markup(value.spec_bytes());
            lemma_content_escaped_nul(value.spec_bytes());
            let e = content_escaped(value.spec_bytes());
            if has_either_byte(e, 0, B_QUOT) {
                let i = choose|i: int| 0 <= i < e.len() && (e[i] == 0 || e[i] == B_QUOT);
                assert(e[i] == 0);
                assert(has_either_byte(e, 0, 0));
            }
            if has_either_byte(e, 0, 0) {
                let i = choose|i: int| 0 <= i < e.len() && (e[i] == 0 || e[i] == 0);
                assert(e[i] == 0 || e[i] == B_QUOT);
                assert(has_either_byte(e, 0, B_QUOT));
            }
        }
        self.raw_attribute_bytes(name, AttributeQuote::Double, escaped.as_slice())
    }

    /// Writes an attribute exactly as an event source yielded it: name,
    /// original quote character and raw value, none of them validated or
    /// escaped.
    ///
    /// Valid only while a start tag is open; fails with
    /// `AttributeOutsideTag` otherwise.
    pub fn write_attribute_event(&mut self, attr: &AttributeEvent) -> (r: Result<(), Error>)
        requires
            old(self).wf(),
        ensures
            final(self).opts() == old(self).opts(),
            final(self).wf(),
            if old(self).tag() is Idle {
                r == Err::<(), Error>(Error::AttributeOutsideTag) && *final(self) == *old(self)
            } else {
                &&& r == Ok::<(), Error>(())
                &&& final(self).out() == old(self).out() + attr_event_bytes(*attr)
                &&& final(self).tag() == old(self).tag()
                &&& final(self).depth() == old(self).depth()
                &&& final(self).starts() == old(self).starts()
                &&& final(self).ends() == old(self).ends()
            },
    {
        if let TagState::Idle = self.state {
            return Err(Error::AttributeOutsideTag);
        }
        let ghost pre = self.sink@;
        self.sink.push(B_SPACE);
        push_bytes(&mut self.sink, attr.name.as_str().as_bytes());
        self.sink.push(B_EQ);
        self.sink.push(attr.quote.byte());
        push_bytes(&mut self.sink, attr.raw_value.as_str().as_bytes());
        self.sink.push(attr.quote.byte());
        assert(self.sink@ =~= pre + attr_event_bytes(*attr));
        Ok(())
    }

    /// Closes any pending tag, then emits `bs` as it stands.
    fn emit_raw(&mut self, bs: &[u8])
        ensures
            final(self).out() == old(self).out() + old(self).close_seq() + bs@,
            final(self).tag() == TagState::Idle,
            final(self).depth() == old(self).closed_depth(),
            final(self).opts() == old(self).opts(),
            final(self).starts() == old(self).starts(),
            final(self).ends() == old(self).ends(),
    {
        self.ensure_tag_closed();
        push_bytes(&mut self.sink, bs);
    }

    /// Closes any pending tag, then emits `text` as it stands.
    fn write_raw_text_unchecked(&mut self, text: &str)
        ensures
            final(self).out() == old(self).out() + old(self).close_seq() + text.spec_bytes(),
            final(self).tag() == TagState::Idle,
            final(self).depth() == old(self).closed_depth(),
            final(self).opts() == old(self).opts(),
            final(self).starts() == old(self).starts(),
            final(self).ends() == old(self).ends(),
    {
        self.emit_raw(text.as_bytes());
    }

    /// Writes already-escaped text content.
    ///
    /// Fails, leaving the writer unchanged, when the text holds a byte that
    /// must never appear unescaped in text content: with `ImproperlyEscaped`
    /// when the first such byte is `<`, and with `InvalidValue` when it is a
    /// null byte. Otherwise it closes any pending tag and emits the text
    /// exactly as given.
    pub fn write_raw_text(&mut self, text: &str) -> (r: Result<(), Error>)
        requires
            old(self).wf(),
        ensures
            final(self).opts() == old(self).opts(),
            final(self).wf(),
            final(self).starts() == old(self).starts(),
            final(self).ends() == old(self).ends(),
            text_ok(text.spec_bytes()) ==> ({
                &&& r == Ok::<(), Error>(())
                &&& final(self).out() == old(self).out() + old(self).close_seq() + text.spec_bytes()
                &&& final(self).tag() == TagState::Idle
                &&& final(self).depth() == old(self).closed_depth()
            }),
            forall|i: int|
                0 <= i < text.spec_bytes().len() && #[trigger] text.spec_bytes()[i] == B_LT
                    && text_ok_upto(text.spec_bytes(), i) ==> r == Err::<(), Error>(
                    Error::ImproperlyEscaped,
                ) && *final(self) == *old(self),
            forall|i: int|
                0 <= i < text.spec_bytes().len() && #[trigger] text.spec_bytes()[i] == 0
                    && text_ok_upto(text.spec_bytes(), i) ==> r == Err::<(), Error>(
                    Error::InvalidValue,
                ) && *final(self) == *old(self),
    {
        let tb = text.as_bytes();
        match memchr::memchr2(0, B_LT, tb) {
            Some(idx) => {
                if tb[idx] == B_LT {
                    Err(Error::ImproperlyEscaped)
                } else {
                    Err(Error::InvalidValue)
                }
            },
            None => {
                self.write_raw_text_unchecked(text);
                Ok(())
            },
        }
    }

    /// Writes text content, escaping it first.
    ///
    /// Always succeeds: escaping makes any content safe for the text
    /// context. Null bytes are not checked for and pass through. Closes any
    /// pending tag first.
    pub fn write_text(&mut self, content: &str) -> (r: Result<(), Error>)
        requires
            old(self).wf(),
        ensures
            final(self).opts() == old(self).opts(),
            final(self).wf(),
            r == Ok::<(), Error>(()),
            final(self).out() == old(self).out() + old(self).close_seq() + content_escaped(
                content.spec_bytes(),
            ),
            final(self).tag() == TagState::Idle,
            final(self).depth() == old(self).closed_depth(),
            final(self).starts() == old(self).starts(),
            final(self).ends() == old(self).ends(),
    {
        let escaped = content_escape(content);
        self.emit_raw(escaped.as_slice());
        Ok(())
    }

    /// Closes any pending tag, then emits `text` wrapped in the CDATA
    /// delimiters.
    fn write_cdata_unchecked(&mut self, text: &str)
        ensures
            final(self).out() == old(self).out() + old(self).close_seq() + cdata_open()
                + text.spec_bytes() + cdata_close(),
            final(self).tag() == TagState::Idle,
            final(self).depth() == old(self).closed_depth(),
            final(self).opts() == old(self).opts(),
            final(self).starts() == old(self).starts(),
            final(self).ends() == old(self).ends(),
    {
        self.ensure_tag_closed();
        let ghost mid = self.sink@;
        self.sink.push(B_LT);
        self.sink.push(B_BANG);
        self.sink.push(B_LBRACKET);
        self.sink.push(0x43);
        self.sink.push(0x44);
        self.sink.push(0x41);
        self.sink.push(0x54);
        self.sink.push(0x41);
        self.sink.push(B_LBRACKET);
        push_bytes(&mut self.sink, text.as_bytes());
        self.sink.push(B_RBRACKET);
        self.sink.push(B_RBRACKET);
        self.sink.push(B_GT);
        assert(self.sink@ =~= mid + cdata_open() + text.spec_bytes() + cdata_close());
    }

    /// Writes a CDATA section.
    ///
    /// Fails with `InvalidCData`, leaving the writer unchanged, exactly when
    /// the text holds the CDATA terminator `]]>`. Otherwise it closes any
    /// pending tag and emits the text between `<![CDATA[` and `]]>`. Null
    /// bytes are not checked for and pass through.
    pub fn write_cdata(&mut self, text: &str) -> (r: Result<(), Error>)
        requires
            old(self).wf(),
        ensures
            final(self).opts() == old(self).opts(),
            final(self).wf(),
            final(self).starts() == old(self).starts(),
            final(self).ends() == old(self).ends(),
            if has_subseq(text.spec_bytes(), cdata_close()) {
                r == Err::<(), Error>(Error::InvalidCData) && *final(self) == *old(self)
            } else {
                &&& r == Ok::<(), Error>(())
                &&& final(self).out() == old(self).out() + old(self).close_seq() + cdata_open() + text.spec_bytes() + cdata_close()
                &&& final(self).tag() == TagState::Idle
                &&& final(self).depth() == old(self).closed_depth()
            },
    {
        let needle: Vec<u8> = vec![B_RBRACKET, B_RBRACKET, B_GT];
        assert(needle@ =~= cdata_close());
        match memchr::memmem::find(text.as_bytes(), needle.as_slice()) {
            Some(i) => {
                assert(matches_at(text.spec_bytes(), cdata_close(), i as int));
                return Err(Error::InvalidCData);
            },
            None => {},
        }
        self.write_cdata_unchecked(text);
        Ok(())
    }

    /// Closes any pending tag, then emits `bs` wrapped in the comment
    /// delimiters.
    fn emit_comment_bytes(&mut self, bs: &[u8])
        ensures
            final(self).out() == old(self).out() + old(self).close_seq() + comment_open() + bs@
                + comment_close(),
            final(self).tag() == TagState::Idle,
            final(self).depth() == old(self).closed_depth(),
            final(self).opts() == old(self).opts(),
            final(self).starts() == old(self).starts(),
            final(self).ends() == old(self).ends(),
    {
        self.ensure_tag_closed();
        let ghost mid = self.sink@;
        self.sink.push(B_LT);
        self.sink.push(B_BANG);
        self.sink.push(B_DASH);
        self.sink.push(B_DASH);
        push_bytes(&mut self.sink, bs);
        self.sink.push(B_DASH);
        self.sink.push(B_DASH);
        self.sink.push(B_GT);
        assert(self.sink@ =~= mid + comment_open() + bs@ + comment_close());
    }

    /// Closes any pending tag, then emits `text` wrapped in the comment
    /// delimiters.
    fn write_raw_comment_unchecked(&mut self, text: &str)
        ensures
            final(self).out() == old(self).out() + old(self).close_seq() + comment_open()
                + text.spec_bytes() + comment_close(),
            final(self).tag() == TagState::Idle,
            final(self).depth() == old(self).closed_depth(),
            final(self).opts() == old(self).opts(),
            final(self).starts() == old(self).starts(),
            final(self).ends() == old(self).ends(),
    {
        self.emit_comment_bytes(text.as_bytes());
    }

    /// Writes a comment whose content is taken as already escaped.
    ///
    /// Fails with `ImproperlyEscaped`, leaving the writer unchanged, exactly
    /// when the text holds the comment terminator `-->` (a bare `--` is
    /// accepted). Otherwise, when comments are omitted by the options, it
    /// succeeds without emitting or changing anything; when they are not, it
    /// closes any pending tag and emits the text between `<!--` and `-->`.
    pub fn write_raw_comment(&mut self, text: &str) -> (r: Result<(), Error>)
        requires
            old(self).wf(),
        ensures
            final(self).opts() == old(self).opts(),
            final(self).wf(),
            final(self).starts() == old(self).starts(),
            final(self).ends() == old(self).ends(),
            if has_subseq(text.spec_bytes(), comment_close()) {
                r == Err::<(), Error>(Error::ImproperlyEscaped) && *final(self) == *old(self)
            } else if old(self).opts().omit_comments {
                r == Ok::<(), Error>(()) && *final(self) == *old(self)
            } else {
                &&& r == Ok::<(), Error>(())
                &&& final(self).out() == old(self).out() + old(self).close_seq() + comment_open() + text.spec_bytes() + comment_close()
                &&& final(self).tag() == TagState::Idle
                &&& final(self).depth() == old(self).closed_depth()
            },
    {
        let needle: Vec<u8> = vec![B_DASH, B_DASH, B_GT];
        assert(needle@ =~= comment_close());
        match memchr::memmem::find(text.as_bytes(), needle.as_slice()) {
            Some(i) => {
                assert(matches_at(text.spec_bytes(), comment_close(), i as int));
                return Err(Error::ImproperlyEscaped);
            },
            None => {},
        }
        if !self.options.omit_comments {
            self.write_raw_comment_unchecked(text);
        }
        Ok(())
    }

    /// Writes a comment, escaping its content first.
    ///
    /// Always succeeds: escaping breaks up every `--` pair, so the content
    /// cannot hold the comment terminator. When comments are omitted by the
    /// options, nothing is emitted and the writer is unchanged; otherwise
    /// any pending tag is closed and the escaped content is emitted between
    /// `<!--` and `-->`.
    pub fn write_comment(&mut self, content: &str) -> (r: Result<(), Error>)
        requires
            old(self).wf(),
        ensures
            final(self).opts() == old(self).opts(),
            final(self).wf(),
            r == Ok::<(), Error>(()),
            final(self).starts() == old(self).starts(),
            final(self).ends() == old(self).ends(),
            if old(self).opts().omit_comments {
                *final(self) == *old(self)
            } else {
                &&& final(self).out() == old(self).out() + old(self).close_seq() + comment_open() + comment_escaped(content.spec_bytes()) + comment_close()
                &&& final(self).tag() == TagState::Idle
                &&& final(self).depth() == old(self).closed_depth()
            },
    {
        if !self.options.omit_comments {
            let escaped = comment_escape(content);
            self.emit_comment_bytes(escaped.as_slice());
        }
        Ok(())
    }

    /// Returns a reference to the underlying buffer.
    pub fn inner_ref(&self) -> (r: &Vec<u8>)
        ensures
            r@ == self.out(),
    {
        &self.sink
    }

    /// Returns a mutable reference to the underlying buffer. What the
    /// caller writes through it becomes part of the output as it stands;
    /// the tag state and the element counts are untouched.
    pub fn inner_mut(&mut self) -> (r: &mut Vec<u8>)
        ensures
            r@ == old(self).out(),
            final(self).out() == final(r)@,
            final(self).tag() == old(self).tag(),
            final(self).depth() == old(self).depth(),
            final(self).opts() == old(self).opts(),
            final(self).starts() == old(self).starts(),
            final(self).ends() == old(self).ends(),
    {
        &mut self.sink
    }

    /// Closes any pending tag, then returns the underlying buffer.
    pub fn finish(self) -> (r: Vec<u8>)
        ensures
            r@ == self.out() + self.close_seq(),
    {
        let mut w = self;
        w.ensure_tag_closed();
        w.sink
    }

    /// Closes any pending tag. The buffer needs no flushing of its own.
    pub fn flush(&mut self)
        ensures
            final(self).out() == old(self).out() + old(self).close_seq(),
            final(self).tag() == TagState::Idle,
            final(self).depth() == old(self).closed_depth(),
            final(self).opts() == old(self).opts(),
            final(self).starts() == old(self).starts(),
            final(self).ends() == old(self).ends(),
    {
        self.ensure_tag_closed();
    }
}

/// The bytes one attribute write emits: a space, the name, `=`, and the
/// value between two copies of the quote byte.
pub open spec fn attr_bytes(name: Seq<u8>, quote: u8, value: Seq<u8>) -> Seq<u8> {
    seq![B_SPACE] + name + seq![B_EQ, quote] + value + seq![quote]
}

/// The bytes emitted for one attribute event: its name, its original quote
/// character and its raw value.
pub open spec fn attr_event_bytes(a: AttributeEvent) -> Seq<u8> {
    attr_bytes(encode_utf8(a.name@), a.quote.spec_byte(), encode_utf8(a.raw_value@))
}

/// Text content fit for the raw path: no null byte and no `<`.
pub open spec fn text_ok(s: Seq<u8>) -> bool {
    forall|i: int| 0 <= i < s.len() ==> (#[trigger] s[i]) != 0 && s[i] != B_LT
}

/// No byte of `s` before index `n` is a null byte or `<`.
pub open spec fn text_ok_upto(s: Seq<u8>, n: int) -> bool {
    forall|j: int| 0 <= j < n ==> (#[trigger] s[j]) != 0 && s[j] != B_LT
}

/// Content escaping yields text that the raw text path accepts whenever
/// the input holds no null byte (escaping replaces every `<` but passes
/// null bytes through).
pub proof fn lemma_content_escape_text_safe(s: Seq<u8>)
    requires
        !has_either_byte(s, 0, 0),
    ensures
        text_ok(content_escaped(s)),
{
    lemma_content_escaped_no_markup(s);
    lemma_content_escaped_nul(s);
    let e = content_escaped(s);
    assert forall|i: int| 0 <= i < e.len() implies (#[trigger] e[i]) != 0 && e[i] != B_LT by {
        if e[i] == 0 {
            assert(has_either_byte(e, 0, 0));
        }
    }
}

/// A byte sequence without two adjacent dashes cannot contain the comment
/// terminator `-->`.
pub proof fn lemma_no_double_dash_no_terminator(s: Seq<u8>)
    requires
        no_double_dash(s),
    ensures
        !has_subseq(s, comment_close()),
{
    if has_subseq(s, comment_close()) {
        let i = choose|i: int| matches_at(s, comment_close(), i);
        assert(s.subrange(i, i + 3) == comment_close());
        assert(s[i] == B_DASH && s[i + 1] == B_DASH) by {
            assert(s.subrange(i, i + 3)[0] == s[i]);
            assert(s.subrange(i, i + 3)[1] == s[i + 1]);
        }
    }
}

/// Comment escaping always yields content that is safe for the comment
/// context: the escaped form never contains the terminator `-->`, so
/// `write_comment` may bypass the raw path's validation.
pub proof fn lemma_comment_escape_safe(s: Seq<u8>)
    ensures
        !has_subseq(comment_escaped(s), comment_close()),
{
    lemma_comment_escaped_no_double_dash(s);
    lemma_no_double_dash_no_terminator(comment_escaped(s));
}

/// Tag-closure invariant: in every well-formed writer — and the write
/// methods' contracts keep every writer reachable from `new` or
/// `with_options` well-formed — the number of `write_start` calls not yet
/// matched by a `write_end` equals the nesting depth once the pending open
/// tag is closed, and that depth is never negative.
pub proof fn lemma_tag_closure_invariant(w: Writer)
    requires
        w.wf(),
    ensures
        w.starts() - w.ends() == w.closed_depth(),
        w.closed_depth() >= 0,
{
}

/// A valid (optional) element prefix held in an event.
pub open spec fn event_prefix_ok(p: Option<String>) -> bool {
    match p {
        Some(p) => all_name_bytes_ok(encode_utf8(p@)),
        None => true,
    }
}

/// What an event's optional prefix contributes to a tag.
pub open spec fn event_prefix_bytes(p: Option<String>) -> Seq<u8> {
    match p {
        Some(p) => encode_utf8(p@) + seq![B_COLON],
        None => Seq::empty(),
    }
}

/// The validation error replaying a start or empty event produces, if any:
/// the event's own self-closing flag decides which of the two opening paths
/// runs, and only the normal one validates the prefix.
pub open spec fn start_event_error(s: StartEvent) -> Option<Error> {
    if s.is_empty {
        if !element_name_ok(encode_utf8(s.name@)) {
            Some(Error::InvalidElementName)
        } else {
            None
        }
    } else {
        if !event_prefix_ok(s.prefix) {
            Some(Error::InvalidElementPrefix)
        } else if !element_name_ok(encode_utf8(s.name@)) {
            Some(Error::InvalidElementName)
        } else {
            None
        }
    }
}

/// The bytes emitted for a sequence of attribute events, in order.
pub open spec fn attrs_bytes(attrs: Seq<AttributeEvent>) -> Seq<u8>
    decreases attrs.len(),
{
    if attrs.len() == 0 {
        Seq::empty()
    } else {
        attr_event_bytes(attrs[0]) + attrs_bytes(attrs.drop_first())
    }
}

/// The bytes emitted for a successful start or empty event: the opening
/// `<`, the optional prefix, the name, and every attribute.
pub open spec fn start_event_bytes(s: StartEvent) -> Seq<u8> {
    seq![B_LT] + event_prefix_bytes(s.prefix) + encode_utf8(s.name@) + attrs_bytes(s.attributes@)
}

/// What replaying a start or empty event does: on a validation error the
/// writer is unchanged; on success the pending tag is closed, the tag and
/// its attributes are emitted, and the new tag is left open for attributes
/// with the event's self-closing flag.
pub open spec fn open_event_post(pre: Writer, post: Writer, r: Result<(), Error>, s: StartEvent) -> bool {
    match start_event_error(s) {
        Some(e) => r == Err::<(), Error>(e) && post == pre,
        None => {
            &&& r == Ok::<(), Error>(())
            &&& post.out() == pre.out() + pre.close_seq() + start_event_bytes(s)
            &&& post.tag() == (TagState::Open { is_empty: s.is_empty })
            &&& post.depth() == pre.closed_depth()
            &&& post.opts() == pre.opts()
            &&& post.starts() == pre.starts() + (if s.is_empty { 0int } else { 1int })
            &&& post.ends() == pre.ends()
        },
    }
}

/// What replaying an end event does: validation as in `write_end`, then the
/// end tag is emitted and one open element is counted as closed.
pub open spec fn end_event_post(pre: Writer, post: Writer, r: Result<(), Error>, prefix: Option<
    String,
>, name: Seq<char>) -> bool {
    if !event_prefix_ok(prefix) {
        r == Err::<(), Error>(Error::InvalidElementPrefix) && post == pre
    } else if !element_name_ok(encode_utf8(name)) {
        r == Err::<(), Error>(Error::InvalidElementName) && post == pre
    } else {
        &&& r == Ok::<(), Error>(())
        &&& post.out() == pre.out() + pre.close_seq() + seq![B_LT, B_SLASH] + event_prefix_bytes(prefix) + encode_utf8(name) + seq![B_GT]
        &&& post.tag() == TagState::Idle
        &&& post.depth() == pre.closed_depth() - 1
        &&& post.opts() == pre.opts()
        &&& post.starts() == pre.starts()
        &&& post.ends() == pre.ends() + 1
    }
}

/// What replaying a text-bearing event (text, CDATA, comment or doctype)
/// does: the pending tag is closed and the event's raw text is emitted byte
/// for byte, delimiters included, whatever the options say about comments.
pub open spec fn passthrough_event_post(pre: Writer, post: Writer, r: Result<(), Error>, text: Seq<
    char,
>) -> bool {
    &&& r == Ok::<(), Error>(())
    &&& post.out() == pre.out() + pre.close_seq() + encode_utf8(text)
    &&& post.tag() == TagState::Idle
    &&& post.depth() == pre.closed_depth()
    &&& post.opts() == pre.opts()
    &&& post.starts() == pre.starts()
    &&& post.ends() == pre.ends()
}

impl Writer {
    /// Replays a start or empty event: opens the tag (validated as
    /// `write_start` or `write_empty`, by the event's self-closing flag)
    /// and emits each of its attributes.
    fn write_open_event(&mut self, s: &StartEvent) -> (r: Result<(), Error>)
        requires
            old(self).wf(),
        ensures
            final(self).wf(),
            open_event_post(*old(self), *final(self), r, *s),
    {
        let prefix: Option<&str> = match &s.prefix {
            Some(p) => Some(p.as_str()),
            None => None,
        };
        proof {
            assert(prefix_ok(prefix) == event_prefix_ok(s.prefix));
            assert(opt_prefix_bytes(prefix) =~= event_prefix_bytes(s.prefix));
        }
        let r = if s.is_empty {
            self.write_empty(prefix, s.name.as_str())
        } else {
            self.write_start(prefix, s.name.as_str())
        };
        if let Err(e) = r {
            return Err(e);
        }
        let ghost base = self.sink@;
        let ghost pre = *old(self);
        let attrs = &s.attributes;
        assert(attrs@.skip(0) =~= attrs@);
        assert(base + attrs_bytes(attrs@) =~= base + attrs_bytes(attrs@.skip(0)));
        let mut i: usize = 0;
        while i < attrs.len()
            invariant
                0 <= i <= attrs@.len(),
                self.wf(),
                self.tag() == (TagState::Open { is_empty: s.is_empty }),
                self.depth() == pre.closed_depth(),
                self.opts() == pre.opts(),
                self.starts() == pre.starts() + (if s.is_empty { 0int } else { 1int }),
                self.ends() == pre.ends(),
                self.out() + attrs_bytes(attrs@.skip(i as int)) == base + attrs_bytes(attrs@),
            decreases attrs@.len() - i,
        {
            let ghost rest = attrs@.skip(i as int);
            let r2 = self.write_attribute_event(&attrs[i]);
            proof {
                assert(rest.len() > 0 && rest[0] == attrs@[i as int]);
                assert(rest.drop_first() =~= attrs@.skip(i as int + 1));
                assert(self.out() + attrs_bytes(attrs@.skip(i as int + 1)) =~= base + attrs_bytes(
                    attrs@,
                ));
            }
            i += 1;
        }
        proof {
            assert(attrs@.skip(attrs@.len() as int) =~= Seq::<AttributeEvent>::empty());
            assert(self.out() =~= base + attrs_bytes(attrs@));
            assert(self.out() =~= pre.out() + pre.close_seq() + start_event_bytes(*s));
        }
        Ok(())
    }

    /// Replays one event from an event source, re-emitting it without
    /// re-escaping.
    ///
    /// Start and empty events open a tag (the event's own self-closing flag
    /// decides which path, with its validation) and then emit every
    /// attribute as it stands. End events behave as `write_end`. Text,
    /// CDATA, comment and doctype events close any pending tag and emit
    /// their raw text byte for byte — comments among them even when the
    /// options omit comments.
    pub fn write_event(&mut self, event: &Event) -> (r: Result<(), Error>)
        requires
            old(self).wf(),
            match *event {
                Event::End(ref e) => event_prefix_ok(e.prefix) && element_name_ok(
                    encode_utf8(e.name@),
                ) ==> old(self).closed_depth() >= 1,
                _ => true,
            },
        ensures
            final(self).wf(),
            match *event {
                Event::Start(ref s) => open_event_post(*old(self), *final(self), r, *s),
                Event::Empty(ref s) => open_event_post(*old(self), *final(self), r, *s),
                Event::End(ref e) => end_event_post(*old(self), *final(self), r, e.prefix, e.name@),
                Event::Text(ref t) => passthrough_event_post(*old(self), *final(self), r, t.text@),
                Event::CData(ref t) => passthrough_event_post(*old(self), *final(self), r, t.text@),
                Event::Comment(ref t) => passthrough_event_post(
                    *old(self),
                    *final(self),
                    r,
                    t.text@,
                ),
                Event::Doctype(ref t) => passthrough_event_post(
                    *old(self),
                    *final(self),
                    r,
                    t.text@,
                ),
            },
    {
        match event {
            Event::Start(s) => self.write_open_event(s),
            Event::Empty(s) => self.write_open_event(s),
            Event::End(e) => {
                let prefix: Option<&str> = match &e.prefix {
                    Some(p) => Some(p.as_str()),
                    None => None,
                };
                proof {
                    assert(prefix_ok(prefix) == event_prefix_ok(e.prefix));
                    assert(opt_prefix_bytes(prefix) =~= event_prefix_bytes(e.prefix));
                }
                self.write_end(prefix, e.name.as_str())
            },
            Event::Text(t) => {
                self.emit_raw(t.text.as_str().as_bytes());
                Ok(())
            },
            Event::CData(t) => {
                self.emit_raw(t.text.as_str().as_bytes());
                Ok(())
            },
            Event::Comment(t) => {
                self.emit_raw(t.text.as_str().as_bytes());
                Ok(())
            },
            Event::Doctype(t) => {
                self.emit_raw(t.text.as_str().as_bytes());
                Ok(())
            },
        }
    }
}

} // verus!
