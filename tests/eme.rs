use xmpp_core::eme::ExplicitMessageEncryption;
use xmpp_core::error::Error;
use xmpp_core::xml::parse;

#[test]
fn eme_test_simple() {
    let elem = parse("<encryption xmlns='urn:xmpp:eme:0' namespace='urn:xmpp:otr:0'/>").unwrap();
    let encryption = ExplicitMessageEncryption::try_from(elem).unwrap();
    assert_eq!(encryption.namespace, "urn:xmpp:otr:0");
    assert_eq!(encryption.name, None);

    let elem = parse("<encryption xmlns='urn:xmpp:eme:0' namespace='some.unknown.mechanism' name='SuperMechanism'/>").unwrap();
    let encryption = ExplicitMessageEncryption::try_from(elem).unwrap();
    assert_eq!(encryption.namespace, "some.unknown.mechanism");
    assert_eq!(encryption.name, Some(String::from("SuperMechanism")));
}

#[test]
fn test_unknown() {
    let elem = parse("<replace xmlns='urn:xmpp:message-correct:0'/>").unwrap();
    let error = ExplicitMessageEncryption::try_from(elem).unwrap_err();
    let message = match error {
        Error::ParseError(string) => string,
        _ => panic!(),
    };
    assert_eq!(message, "This is not a encryption element.");
}

#[test]
fn test_invalid_child() {
    let elem = parse("<encryption xmlns='urn:xmpp:eme:0'><coucou/></encryption>").unwrap();
    let error = ExplicitMessageEncryption::try_from(elem).unwrap_err();
    let message = match error {
        Error::ParseError(string) => string,
        _ => panic!(),
    };
    assert_eq!(message, "Unknown child in encryption element.");
}

#[test]
fn eme_test_serialise() {
    let elem = parse("<encryption xmlns='urn:xmpp:eme:0' namespace='coucou'/>").unwrap();
    let eme = ExplicitMessageEncryption { namespace: String::from("coucou"), name: None };
    let elem2 = eme.into_element();
    assert_eq!(elem, elem2);
}
