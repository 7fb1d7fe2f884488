use xmpp_core::jid::Jid;
use xmpp_core::websocket::Open;
use xmpp_core::xml::parse;

#[test]
fn websocket_test_simple() {
    let elem = parse("<open xmlns='urn:ietf:params:xml:ns:xmpp-framing'/>").unwrap();
    let open = Open::try_from(elem).unwrap();
    assert_eq!(open.from, None);
    assert_eq!(open.to, None);
    assert_eq!(open.id, None);
    assert_eq!(open.version, None);
    assert_eq!(open.xml_lang, None);
}

#[test]
fn websocket_builders() {
    let to = Jid::from_str("example.org").unwrap();
    let open = Open::new(to).with_id(String::from("abc")).with_lang(String::from("en"));
    assert!(open.is_version("1.0"));
    assert!(!open.is_version("2.0"));
    assert_eq!(open.id, Some(String::from("abc")));
    assert_eq!(open.xml_lang, Some(String::from("en")));
    let from = Jid::from_str("u@example.org/r").unwrap();
    let open = open.with_from(from.clone());
    assert_eq!(open.from, Some(from));
}
