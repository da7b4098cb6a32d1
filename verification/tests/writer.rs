use xmlwrite::{
    AttributeEvent, AttributeQuote, CDataEvent, CommentEvent, DoctypeEvent, EndEvent, Error, Event,
    Options, StartEvent, TextEvent, Writer,
};

fn replay(events: Vec<Event>) -> String {
    let mut writer = Writer::new(Vec::new());
    for event in &events {
        writer.write_event(event).unwrap();
    }
    String::from_utf8(writer.finish()).unwrap()
}

fn attr(name: &str, quote: AttributeQuote, raw_value: &str) -> AttributeEvent {
    AttributeEvent { name: name.to_string(), quote, raw_value: raw_value.to_string() }
}

#[test]
fn reader_writer_roundtrip() {
    // Each case pairs a document with the event stream a pull parser yields
    // for it; replaying the events must reproduce the document exactly.
    let input1 = "hello world";
    let events1 = vec![Event::Text(TextEvent { text: "hello world".to_string() })];
    assert_eq!(replay(events1), input1);

    let input2 = "<some xml='text'/>";
    let events2 = vec![Event::Empty(StartEvent {
        prefix: None,
        name: "some".to_string(),
        attributes: vec![attr("xml", AttributeQuote::Single, "text")],
        is_empty: true,
    })];
    assert_eq!(replay(events2), input2);

    let input3 = r#"more stuff<then a_tag="here">with content and <![CDATA[value]]></end>"#;
    let events3 = vec![
        Event::Text(TextEvent { text: "more stuff".to_string() }),
        Event::Start(StartEvent {
            prefix: None,
            name: "then".to_string(),
            attributes: vec![attr("a_tag", AttributeQuote::Double, "here")],
            is_empty: false,
        }),
        Event::Text(TextEvent { text: "with content and ".to_string() }),
        Event::CData(CDataEvent { text: "<![CDATA[value]]>".to_string() }),
        Event::End(EndEvent { prefix: None, name: "end".to_string() }),
    ];
    assert_eq!(replay(events3), input3);

    let input4 = "text <!-- something with comments --> text text";
    let events4 = vec![
        Event::Text(TextEvent { text: "text ".to_string() }),
        Event::Comment(CommentEvent { text: "<!-- something with comments -->".to_string() }),
        Event::Text(TextEvent { text: " text text".to_string() }),
    ];
    assert_eq!(replay(events4), input4);
}

#[test]
fn start_tag_names_are_validated() {
    let mut w = Writer::new(Vec::new());
    assert_eq!(w.write_start(None, ""), Err(Error::InvalidElementName));
    assert_eq!(w.write_start(None, "1abc"), Err(Error::InvalidElementName));
    assert_eq!(w.write_start(None, "a b"), Err(Error::InvalidElementName));
    assert_eq!(w.write_start(None, "h1"), Err(Error::InvalidElementName));
    assert_eq!(w.write_start(None, "abc"), Ok(()));
    assert_eq!(String::from_utf8(w.finish()).unwrap(), "<abc>");
}

#[test]
fn start_tag_prefix_is_validated() {
    let mut w = Writer::new(Vec::new());
    assert_eq!(w.write_start(Some("1ns"), "a"), Err(Error::InvalidElementPrefix));
    assert_eq!(w.write_start(Some("ns"), "a"), Ok(()));
    assert_eq!(String::from_utf8(w.finish()).unwrap(), "<ns:a>");
}

#[test]
fn empty_tag_does_not_validate_prefix() {
    // write_empty checks only the name; an invalid prefix passes through
    // as given.
    let mut w = Writer::new(Vec::new());
    assert_eq!(w.write_empty(Some("bad prefix"), "x"), Ok(()));
    assert_eq!(String::from_utf8(w.finish()).unwrap(), "<bad prefix:x/>");

    let mut w = Writer::new(Vec::new());
    assert_eq!(w.write_empty(None, "a b"), Err(Error::InvalidElementName));
    assert_eq!(w.write_empty(None, "br"), Ok(()));
    assert_eq!(String::from_utf8(w.finish()).unwrap(), "<br/>");
}

#[test]
fn attribute_outside_tag_fails() {
    let mut w = Writer::new(Vec::new());
    assert_eq!(w.write_attribute("a", "b"), Err(Error::AttributeOutsideTag));
    assert_eq!(w.write_start(None, "tag"), Ok(()));
    assert_eq!(w.write_attribute("a", "b"), Ok(()));
    assert_eq!(String::from_utf8(w.finish()).unwrap(), r#"<tag a="b">"#);
}

#[test]
fn attribute_after_text_is_outside_tag() {
    let mut w = Writer::new(Vec::new());
    assert_eq!(w.write_start(None, "tag"), Ok(()));
    assert_eq!(w.write_text("x"), Ok(()));
    assert_eq!(w.write_attribute("a", "b"), Err(Error::AttributeOutsideTag));
    assert_eq!(String::from_utf8(w.finish()).unwrap(), "<tag>x");
}

#[test]
fn attribute_names_are_validated() {
    let mut w = Writer::new(Vec::new());
    assert_eq!(w.write_start(None, "tag"), Ok(()));
    assert_eq!(w.write_attribute("a b", "v"), Err(Error::InvalidAttributeName));
    // the attribute classifier is more permissive: digits are allowed
    assert_eq!(w.write_attribute("a1", "v"), Ok(()));
    assert_eq!(String::from_utf8(w.finish()).unwrap(), r#"<tag a1="v">"#);
}

#[test]
fn attribute_values_are_escaped() {
    let mut w = Writer::new(Vec::new());
    assert_eq!(w.write_start(None, "tag"), Ok(()));
    assert_eq!(w.write_attribute("q", "he said \"hi\" & left"), Ok(()));
    assert_eq!(
        String::from_utf8(w.finish()).unwrap(),
        r#"<tag q="he said &quot;hi&quot; &amp; left">"#
    );
}

#[test]
fn attribute_value_with_null_byte_fails() {
    let mut w = Writer::new(Vec::new());
    assert_eq!(w.write_start(None, "tag"), Ok(()));
    assert_eq!(w.write_attribute("a", "x\0y"), Err(Error::InvalidAttributeValue));
}

#[test]
fn raw_attribute_rejects_chosen_quote() {
    let mut w = Writer::new(Vec::new());
    assert_eq!(w.write_start(None, "tag"), Ok(()));
    assert_eq!(
        w.write_raw_attribute("a'b", AttributeQuote::Single, "v"),
        Err(Error::InvalidAttributeName)
    );
    assert_eq!(
        w.write_raw_attribute("a", AttributeQuote::Single, "v'x"),
        Err(Error::InvalidAttributeValue)
    );
    assert_eq!(w.write_raw_attribute("a", AttributeQuote::Single, "v"), Ok(()));
    assert_eq!(String::from_utf8(w.finish()).unwrap(), "<tag a='v'>");
}

#[test]
fn nested_elements() {
    let mut w = Writer::new(Vec::new());
    assert_eq!(w.write_start(None, "a"), Ok(()));
    assert_eq!(w.write_start(None, "b"), Ok(()));
    assert_eq!(w.write_end(None, "b"), Ok(()));
    assert_eq!(w.write_end(None, "a"), Ok(()));
    assert_eq!(String::from_utf8(w.finish()).unwrap(), "<a><b></b></a>");
}

#[test]
fn end_tag_validates_prefix_and_name() {
    let mut w = Writer::new(Vec::new());
    assert_eq!(w.write_start(Some("ns"), "a"), Ok(()));
    assert_eq!(w.write_end(Some("1ns"), "a"), Err(Error::InvalidElementPrefix));
    assert_eq!(w.write_end(Some("ns"), ""), Err(Error::InvalidElementName));
    assert_eq!(w.write_end(Some("ns"), "a"), Ok(()));
    assert_eq!(String::from_utf8(w.finish()).unwrap(), "<ns:a></ns:a>");
}

#[test]
fn text_is_escaped() {
    let mut w = Writer::new(Vec::new());
    assert_eq!(w.write_text("a < b & c"), Ok(()));
    assert_eq!(String::from_utf8(w.finish()).unwrap(), "a &lt; b &amp; c");
}

#[test]
fn raw_text_rejects_markup_and_null() {
    let mut w = Writer::new(Vec::new());
    assert_eq!(w.write_raw_text("a < b"), Err(Error::ImproperlyEscaped));
    assert_eq!(w.write_raw_text("a\0b"), Err(Error::InvalidValue));
    // the first offending byte decides the error
    assert_eq!(w.write_raw_text("a\0b<c"), Err(Error::InvalidValue));
    assert_eq!(w.write_raw_text("a &lt; b"), Ok(()));
    assert_eq!(String::from_utf8(w.finish()).unwrap(), "a &lt; b");
}

#[test]
fn cdata_rejects_terminator() {
    let mut w = Writer::new(Vec::new());
    assert_eq!(w.write_cdata("x]]>y"), Err(Error::InvalidCData));
    assert_eq!(w.write_cdata("x ]] > y"), Ok(()));
    assert_eq!(String::from_utf8(w.finish()).unwrap(), "<![CDATA[x ]] > y]]>");
}

#[test]
fn raw_comment_rejects_terminator_only() {
    let mut w = Writer::new(Vec::new());
    assert_eq!(w.write_raw_comment("a-->b"), Err(Error::ImproperlyEscaped));
    // a bare `--` is accepted by the raw path
    assert_eq!(w.write_raw_comment("a--b"), Ok(()));
    assert_eq!(String::from_utf8(w.finish()).unwrap(), "<!--a--b-->");
}

#[test]
fn comment_escaping_breaks_dash_pairs() {
    let mut w = Writer::new(Vec::new());
    assert_eq!(w.write_comment("a--b"), Ok(()));
    assert_eq!(String::from_utf8(w.finish()).unwrap(), "<!--a- -b-->");
}

#[test]
fn omit_comments_swallows_comments() {
    let mut options = Options::default();
    options.omit_comments = true;
    let mut w = Writer::with_options(Vec::new(), options);
    assert_eq!(w.write_comment("anything"), Ok(()));
    assert_eq!(w.write_raw_comment("raw"), Ok(()));
    // validation still happens
    assert_eq!(w.write_raw_comment("a-->b"), Err(Error::ImproperlyEscaped));
    assert_eq!(String::from_utf8(w.finish()).unwrap(), "");
}

#[test]
fn write_event_comment_ignores_omit_comments() {
    // event replay is a byte-for-byte passthrough; the omit_comments option
    // does not apply to it
    let mut options = Options::default();
    options.omit_comments = true;
    let mut w = Writer::with_options(Vec::new(), options);
    w.write_event(&Event::Comment(CommentEvent { text: "<!--c-->".to_string() })).unwrap();
    assert_eq!(String::from_utf8(w.finish()).unwrap(), "<!--c-->");
}

#[test]
fn write_event_doctype_passthrough() {
    let mut w = Writer::new(Vec::new());
    w.write_event(&Event::Doctype(DoctypeEvent { text: "<!DOCTYPE html>".to_string() })).unwrap();
    assert_eq!(String::from_utf8(w.finish()).unwrap(), "<!DOCTYPE html>");
}

#[test]
fn write_event_rejects_invalid_names() {
    let mut w = Writer::new(Vec::new());
    let bad = Event::Start(StartEvent {
        prefix: None,
        name: "not a name".to_string(),
        attributes: vec![attr("a", AttributeQuote::Double, "v")],
        is_empty: false,
    });
    assert_eq!(w.write_event(&bad), Err(Error::InvalidElementName));
    assert_eq!(String::from_utf8(w.finish()).unwrap(), "");
}

#[test]
fn finish_closes_pending_tag() {
    let mut w = Writer::new(Vec::new());
    assert_eq!(w.write_start(None, "a"), Ok(()));
    assert_eq!(String::from_utf8(w.finish()).unwrap(), "<a>");

    let mut w = Writer::new(Vec::new());
    assert_eq!(w.write_empty(None, "a"), Ok(()));
    assert_eq!(String::from_utf8(w.finish()).unwrap(), "<a/>");
}

#[test]
fn flush_closes_pending_tag() {
    let mut w = Writer::new(Vec::new());
    assert_eq!(w.write_start(None, "a"), Ok(()));
    w.flush();
    assert_eq!(w.inner_ref().as_slice(), b"<a>");
    assert_eq!(w.write_text("x"), Ok(()));
    assert_eq!(String::from_utf8(w.finish()).unwrap(), "<a>x");
}

#[test]
fn writer_appends_to_given_buffer() {
    let mut w = Writer::new(b"<?xml version=\"1.0\"?>".to_vec());
    assert_eq!(w.write_empty(None, "root"), Ok(()));
    assert_eq!(String::from_utf8(w.finish()).unwrap(), "<?xml version=\"1.0\"?><root/>");
}

#[test]
fn write_event_flag_decides_not_variant() {
    // the event's own self-closing flag, not its variant, picks the path
    let mut w = Writer::new(Vec::new());
    let e = Event::Empty(StartEvent {
        prefix: None,
        name: "a".to_string(),
        attributes: vec![],
        is_empty: false,
    });
    w.write_event(&e).unwrap();
    assert_eq!(String::from_utf8(w.finish()).unwrap(), "<a>");
}

#[test]
fn pending_empty_tag_closed_by_next_write() {
    let mut w = Writer::new(Vec::new());
    assert_eq!(w.write_empty(None, "a"), Ok(()));
    assert_eq!(w.write_start(None, "b"), Ok(()));
    assert_eq!(String::from_utf8(w.finish()).unwrap(), "<a/><b>");
}

#[test]
fn inner_mut_exposes_buffer() {
    let mut w = Writer::new(Vec::new());
    assert_eq!(w.write_start(None, "a"), Ok(()));
    w.inner_mut().extend_from_slice(b" raw");
    assert_eq!(String::from_utf8(w.finish()).unwrap(), "<a raw>");
}

#[test]
fn error_messages() {
    assert_eq!(Error::InvalidElementName.message(), "invalid element name");
    assert_eq!(Error::AttributeOutsideTag.message(), "attributes are only allowed inside tags");
    assert_eq!(Error::InvalidCData.message(), "cdata content cannot contain `]]>`");
}

#[test]
fn escape_functions_expose_bytes() {
    assert_eq!(xmlwrite::content_escape("a<b>'\"&"), b"a&lt;b&gt;&apos;&quot;&amp;".to_vec());
    assert_eq!(xmlwrite::comment_escape("a---b"), b"a- - -b".to_vec());
}
