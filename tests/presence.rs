use xmpp_core::element::Element;
use xmpp_core::error::Error;
use xmpp_core::error::IntErrorKind;
use xmpp_core::ns;
use xmpp_core::presence::{Presence, Show, Type};
use xmpp_core::xml::parse;

fn elem(s: &str) -> Element {
    parse(s).unwrap()
}

#[test]
fn presence_test_simple() {
    let elem = elem("<presence xmlns='jabber:client'/>");
    let presence = Presence::try_from(elem).unwrap();
    assert_eq!(presence.from, None);
    assert_eq!(presence.to, None);
    assert_eq!(presence.id, None);
    assert_eq!(presence.type_, Type::Unset);
    assert!(presence.payloads.is_empty());
}

#[test]
fn presence_test_serialise() {
    let elem = elem("<presence xmlns='jabber:client' type='unavailable'/>/>");
    let presence = Presence::new(Type::Unavailable);
    let elem2 = presence.into_element();
    assert_eq!(elem, elem2);
}

#[test]
fn test_show() {
    let elem = elem("<presence xmlns='jabber:client'><show>chat</show></presence>");
    let presence = Presence::try_from(elem).unwrap();
    assert_eq!(presence.payloads.len(), 0);
    assert_eq!(presence.show, Show::Chat);
}

#[test]
fn test_missing_show_value() {
    let elem = elem("<presence xmlns='jabber:client'><show/></presence>");
    let error = Presence::try_from(elem).unwrap_err();
    let message = match error {
        Error::ParseError(string) => string,
        _ => panic!(),
    };
    assert_eq!(message, "Invalid value for show.");
}

#[test]
fn test_invalid_show() {
    // "online" used to be a pretty common mistake.
    let elem = elem("<presence xmlns='jabber:client'><show>online</show></presence>");
    let error = Presence::try_from(elem).unwrap_err();
    let message = match error {
        Error::ParseError(string) => string,
        _ => panic!(),
    };
    assert_eq!(message, "Invalid value for show.");
}

#[test]
fn test_empty_status() {
    let elem = elem("<presence xmlns='jabber:client'><status/></presence>");
    let presence = Presence::try_from(elem).unwrap();
    assert_eq!(presence.payloads.len(), 0);
    assert_eq!(presence.statuses.len(), 1);
    assert_eq!(presence.status("").unwrap(), "");
}

#[test]
fn test_status() {
    let elem = elem("<presence xmlns='jabber:client'><status>Here!</status></presence>");
    let presence = Presence::try_from(elem).unwrap();
    assert_eq!(presence.payloads.len(), 0);
    assert_eq!(presence.statuses.len(), 1);
    assert_eq!(presence.status("").unwrap(), "Here!");
}

#[test]
fn test_multiple_statuses() {
    let elem = elem("<presence xmlns='jabber:client'><status>Here!</status><status xml:lang='fr'>Là!</status></presence>");
    let presence = Presence::try_from(elem).unwrap();
    assert_eq!(presence.payloads.len(), 0);
    assert_eq!(presence.statuses.len(), 2);
    assert_eq!(presence.status("").unwrap(), "Here!");
    assert_eq!(presence.status("fr").unwrap(), "Là!");
}

#[test]
fn test_invalid_multiple_statuses() {
    let elem = elem("<presence xmlns='jabber:client'><status xml:lang='fr'>Here!</status><status xml:lang='fr'>Là!</status></presence>");
    let error = Presence::try_from(elem).unwrap_err();
    let message = match error {
        Error::ParseError(string) => string,
        _ => panic!(),
    };
    assert_eq!(message, "Status element present twice for the same xml:lang.");
}

#[test]
fn test_priority() {
    let elem = elem("<presence xmlns='jabber:client'><priority>-1</priority></presence>");
    let presence = Presence::try_from(elem).unwrap();
    assert_eq!(presence.payloads.len(), 0);
    assert_eq!(presence.priority, -1i8);
}

#[test]
fn test_invalid_priority() {
    let elem = elem("<presence xmlns='jabber:client'><priority>128</priority></presence>");
    let error = Presence::try_from(elem).unwrap_err();
    match error {
        Error::ParseIntError(_) => (),
        _ => panic!(),
    };
}

#[test]
fn test_unknown_child() {
    let elem = elem("<presence xmlns='jabber:client'><test xmlns='invalid'/></presence>");
    let presence = Presence::try_from(elem).unwrap();
    let payload = &presence.payloads[0];
    assert!(payload.is("test", "invalid"));
}

#[test]
fn test_invalid_status_child() {
    let elem = elem("<presence xmlns='jabber:client'><status><coucou/></status></presence>");
    let error = Presence::try_from(elem).unwrap_err();
    let message = match error {
        Error::ParseError(string) => string,
        _ => panic!(),
    };
    assert_eq!(message, "Unknown child in status element.");
}

#[test]
fn test_invalid_attribute() {
    let elem = elem("<presence xmlns='jabber:client'><status coucou=''/></presence>");
    let error = Presence::try_from(elem).unwrap_err();
    let message = match error {
        Error::ParseError(string) => string,
        _ => panic!(),
    };
    assert_eq!(message, "Unknown attribute in status element.");
}

#[test]
fn test_serialise_status() {
    let status = String::from("Hello world!");
    let mut presence = Presence::new(Type::Unavailable);
    presence.set_status(String::from(""), status);
    let elem: Element = presence.into_element();
    assert!(elem.is("presence", ns::JABBER_CLIENT));
    assert!(elem.get_child("status", ns::JABBER_CLIENT).is_some());
}

#[test]
fn presence_priority_overflow_kind() {
    let elem = elem("<presence xmlns='jabber:client'><priority>128</priority></presence>");
    match Presence::try_from(elem).unwrap_err() {
        Error::ParseIntError(e) => assert_eq!(e.kind, IntErrorKind::PosOverflow),
        _ => panic!(),
    }
}

#[test]
fn presence_two_shows_refused() {
    let elem = elem("<presence xmlns='jabber:client'><show>dnd</show><show>xa</show></presence>");
    assert_eq!(
        Presence::try_from(elem).unwrap_err(),
        Error::ParseError("More than one show element in a presence.")
    );
}

#[test]
fn presence_wrong_element_refused() {
    let elem = elem("<message xmlns='jabber:client'/>");
    assert_eq!(
        Presence::try_from(elem).unwrap_err(),
        Error::ParseError("This is not a presence element.")
    );
}

#[test]
fn presence_invalid_type_refused() {
    let elem = elem("<presence xmlns='jabber:client' type='coucou'/>");
    assert_eq!(
        Presence::try_from(elem).unwrap_err(),
        Error::ParseError("Invalid 'type' attribute on presence element.")
    );
}

#[test]
fn presence_full_round_trip() {
    let elem = elem("<presence xmlns='jabber:client' from='a@b/c' type='subscribe'><show>away</show><status xml:lang='en'>out</status><priority>5</priority><x xmlns='urn:example'/></presence>");
    let presence = Presence::try_from(elem).unwrap();
    assert_eq!(presence.type_, Type::Subscribe);
    assert_eq!(presence.show, Show::Away);
    assert_eq!(presence.priority, 5);
    assert_eq!(presence.from.as_ref().unwrap().to_string(), "a@b/c");
    let out = presence.into_element();
    let text = xmpp_core::xml::serialize(&out, "jabber:client");
    assert_eq!(
        text,
        "<presence from='a@b/c' type='subscribe'><show>away</show><status xml:lang='en'>out</status><priority>5</priority><x xmlns='urn:example'/></presence>"
    );
}

#[test]
fn show_and_type_texts() {
    assert_eq!(Show::from_str("xa").unwrap(), Show::Xa);
    assert!(Show::Unset.into_element().is_none());
    assert_eq!(Type::from_str("probe").unwrap(), Type::Probe);
    assert_eq!(Type::Unset.into_attribute_value(), None);
    assert_eq!(Type::Unsubscribed.into_attribute_value(), Some(String::from("unsubscribed")));
    assert_eq!(Show::default(), Show::Unset);
    assert_eq!(Type::default(), Type::Unset);
}
