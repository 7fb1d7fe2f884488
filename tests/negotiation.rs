use xmpp_core::client::{ClientError, ProtocolError};
use xmpp_core::negotiation::{
    auth_element, bind_request, on_bind_reply, on_plain_features, on_sasl_reply, on_starttls_reply,
    on_tls_features, response_element, SaslReply, StreamFeatures,
};
use xmpp_core::sasl::{Mechanism, SaslCredentials};
use xmpp_core::xml::{parse, serialize};

#[test]
fn features_with_required_starttls() {
    let e = parse("<stream:features xmlns:stream='http://etherx.jabber.org/streams'><starttls xmlns='urn:ietf:params:xml:ns:xmpp-tls'><required/></starttls></stream:features>").unwrap();
    let f = StreamFeatures::from_element(&e);
    assert!(f.starttls);
    assert!(f.starttls_required);
    assert!(f.mechanisms.is_empty());
    assert_eq!(on_plain_features(&f), Ok(()));
}

#[test]
fn features_without_starttls() {
    let e = parse("<stream:features xmlns:stream='http://etherx.jabber.org/streams'><mechanisms xmlns='urn:ietf:params:xml:ns:xmpp-sasl'><mechanism>PLAIN</mechanism></mechanisms></stream:features>").unwrap();
    let f = StreamFeatures::from_element(&e);
    assert!(!f.starttls);
    assert_eq!(on_plain_features(&f), Err(ClientError::Protocol(ProtocolError::NoTls)));
}

#[test]
fn tls_features_pick_scram() {
    let e = parse("<stream:features xmlns:stream='http://etherx.jabber.org/streams'><mechanisms xmlns='urn:ietf:params:xml:ns:xmpp-sasl'><mechanism>PLAIN</mechanism><mechanism>SCRAM-SHA-1</mechanism></mechanisms></stream:features>").unwrap();
    let f = StreamFeatures::from_element(&e);
    assert_eq!(f.mechanisms, vec![String::from("PLAIN"), String::from("SCRAM-SHA-1")]);
    let creds = SaslCredentials::with_password(String::from("user"), String::from("pencil"));
    assert_eq!(on_tls_features(&f, &creds), Ok(Mechanism::ScramSha1));
}

#[test]
fn starttls_reply() {
    let ok = parse("<proceed xmlns='urn:ietf:params:xml:ns:xmpp-tls'/>").unwrap();
    assert_eq!(on_starttls_reply(&ok), Ok(()));
    let no = parse("<failure xmlns='urn:ietf:params:xml:ns:xmpp-tls'/>").unwrap();
    assert_eq!(on_starttls_reply(&no), Err(ClientError::Protocol(ProtocolError::TlsRefused)));
}

#[test]
fn sasl_framing() {
    let auth = auth_element(Mechanism::ScramSha1, b"n,,n=user,r=abc");
    assert_eq!(
        serialize(&auth, "jabber:client"),
        "<auth xmlns='urn:ietf:params:xml:ns:xmpp-sasl' mechanism='SCRAM-SHA-1'>biwsbj11c2VyLHI9YWJj</auth>"
    );
    let empty = response_element(b"");
    assert_eq!(serialize(&empty, "urn:ietf:params:xml:ns:xmpp-sasl"), "<response>=</response>");
    let failure = parse("<failure xmlns='urn:ietf:params:xml:ns:xmpp-sasl'><not-authorized/></failure>").unwrap();
    assert_eq!(on_sasl_reply(&failure), Err(ClientError::Protocol(ProtocolError::NotAuthorized)));
    let ch = parse("<challenge xmlns='urn:ietf:params:xml:ns:xmpp-sasl'>YWJj</challenge>").unwrap();
    assert_eq!(on_sasl_reply(&ch), Ok(SaslReply::Challenge(b"abc".to_vec())));
    let ok = parse("<success xmlns='urn:ietf:params:xml:ns:xmpp-sasl'/>").unwrap();
    assert_eq!(on_sasl_reply(&ok), Ok(SaslReply::Success(Vec::new())));
}

#[test]
fn bind_exchange() {
    let req = bind_request(String::from("b1"), Some(String::from("home")));
    assert_eq!(
        serialize(&req, "jabber:client"),
        "<iq type='set' id='b1'><bind xmlns='urn:ietf:params:xml:ns:xmpp-bind'><resource>home</resource></bind></iq>"
    );
    let reply = parse("<iq xmlns='jabber:client' type='result' id='b1'><bind xmlns='urn:ietf:params:xml:ns:xmpp-bind'><jid>user@example/home</jid></bind></iq>").unwrap();
    let jid = on_bind_reply(&reply, "b1").unwrap();
    assert_eq!(jid.to_string(), "user@example/home");
    assert_eq!(on_bind_reply(&reply, "b2"), Err(ClientError::Protocol(ProtocolError::BindError)));
}
