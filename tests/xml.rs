use xmpp_core::client::Packet;
use xmpp_core::element::{Element, Node};
use xmpp_core::xml::{next_packet, parse, serialize, stream_footer, stream_header, XmlError};

#[test]
fn round_trip_of_nested_element() {
    let e = Element::new("message", "jabber:client")
        .with_attr("to", String::from("a@b"))
        .with_child(Element::new("body", "jabber:client").with_text(String::from("1 < 2 & 'x'")))
        .with_child(Element::new("x", "urn:other").with_attr("k", String::from("\"q\"")));
    let text = serialize(&e, "");
    assert_eq!(
        text,
        "<message xmlns='jabber:client' to='a@b'><body>1 &lt; 2 &amp; &apos;x&apos;</body><x xmlns='urn:other' k='&quot;q&quot;'/></message>"
    );
    assert_eq!(parse(&text).unwrap(), e);
}

#[test]
fn prefixes_and_declaration() {
    let e = parse("<?xml version='1.0'?>\n<s:a xmlns:s='urn:s' xml:lang='en'><s:b/><c/></s:a>").unwrap();
    assert!(e.is("a", "urn:s"));
    assert_eq!(e.attr("xml:lang"), Some(String::from("en")));
    match &e.children[0] {
        Node::Element(b) => assert!(b.is("b", "urn:s")),
        _ => panic!(),
    }
    match &e.children[1] {
        Node::Element(c) => assert!(c.is("c", "")),
        _ => panic!(),
    }
}

#[test]
fn malformed_and_incomplete() {
    assert_eq!(parse("<a><b></a>"), Err(XmlError::Malformed));
    assert_eq!(parse("<a><b/>"), Err(XmlError::Incomplete));
    assert_eq!(parse("<p:a/>"), Err(XmlError::Malformed));
    assert_eq!(parse("<a>&bogus;</a>"), Err(XmlError::Malformed));
}

#[test]
fn depth_limit() {
    let mut deep = String::new();
    for _ in 0..1100 {
        deep.push_str("<a>");
    }
    assert_eq!(parse(&deep), Err(XmlError::Malformed));
    let mut ok = String::new();
    for _ in 0..100 {
        ok.push_str("<a>");
    }
    for _ in 0..100 {
        ok.push_str("</a>");
    }
    assert!(parse(&ok).is_ok());
}

#[test]
fn stream_framing() {
    let text = "<stream:stream xmlns='jabber:client' xmlns:stream='http://etherx.jabber.org/streams' id='1'> <message><body>hi</body></message></stream:stream>";
    let cs: Vec<char> = text.chars().collect();
    let ns = String::from("jabber:client");
    let scope = vec![(String::from("stream"), String::from("http://etherx.jabber.org/streams"))];
    let (p, k) = next_packet(&cs, 0, &ns, &scope).unwrap();
    match p {
        Packet::StreamStart(attrs) => assert!(attrs.contains(&(String::from("id"), String::from("1")))),
        _ => panic!(),
    }
    let (p, k) = next_packet(&cs, k, &ns, &scope).unwrap();
    assert_eq!(p, Packet::Text(String::from(" ")));
    let (p, k) = next_packet(&cs, k, &ns, &scope).unwrap();
    match p {
        Packet::Stanza(e) => assert!(e.is("message", "jabber:client")),
        _ => panic!(),
    }
    let (p, k) = next_packet(&cs, k, &ns, &scope).unwrap();
    assert_eq!(p, Packet::StreamEnd);
    assert_eq!(k, cs.len());
}

#[test]
fn partial_input_stays_pending() {
    let ns = String::from("jabber:client");
    let scope = Vec::new();
    for text in ["<message><body>h", "</stream:str", "<", "text without end"] {
        let cs: Vec<char> = text.chars().collect();
        assert_eq!(next_packet(&cs, 0, &ns, &scope), Err(true));
    }
    let cs: Vec<char> = "</other>".chars().collect();
    assert_eq!(next_packet(&cs, 0, &ns, &scope), Err(false));
}

#[test]
fn header_and_footer() {
    assert_eq!(
        stream_header("example.org", "jabber:client"),
        "<stream:stream xmlns='jabber:client' xmlns:stream='http://etherx.jabber.org/streams' to='example.org' version='1.0'>"
    );
    assert_eq!(stream_footer(), "</stream:stream>");
}

#[test]
fn declaration_at_stream_head_and_restart() {
    let text = "<?xml version='1.0'?><stream:stream xmlns='jabber:client' xmlns:stream='http://etherx.jabber.org/streams'><?xml version='1.0'?><stream:stream xmlns='jabber:client' xmlns:stream='http://etherx.jabber.org/streams'>";
    let cs: Vec<char> = text.chars().collect();
    let ns = String::from("jabber:client");
    let scope = Vec::new();
    let (p, k) = next_packet(&cs, 0, &ns, &scope).unwrap();
    assert!(matches!(p, Packet::StreamStart(_)));
    let (p, k) = next_packet(&cs, k, &ns, &scope).unwrap();
    assert!(matches!(p, Packet::StreamStart(_)));
    assert_eq!(k, cs.len());
    let cs: Vec<char> = "<?xml version".chars().collect();
    assert_eq!(next_packet(&cs, 0, &ns, &scope), Err(true));
}

#[test]
fn numeric_character_references() {
    let e = parse("<a b='&#x41;&#66;'>x&#10;y&#x1F600;</a>").unwrap();
    assert_eq!(e.attr("b"), Some(String::from("AB")));
    assert_eq!(e.text(), "x\ny\u{1F600}");
    assert_eq!(parse("<a>&#xD800;</a>"), Err(XmlError::Malformed));
    assert_eq!(parse("<a>&#;</a>"), Err(XmlError::Malformed));
    assert_eq!(parse("<a>&#x110000;</a>"), Err(XmlError::Malformed));
}

#[test]
fn cdata_sections_are_text() {
    let e = parse("<a>one<![CDATA[<b>&amp;]]]]>two</a>").unwrap();
    assert_eq!(e.text(), "one<b>&amp;]]two");
    assert_eq!(parse("<a><![CDATA[open</a>"), Err(XmlError::Incomplete));
    assert_eq!(parse("<a><!-- c --></a>"), Err(XmlError::Malformed));
}
