use xmpp_core::client::{ClientError, ProtocolError};
use xmpp_core::negotiation::{Command, Negotiator, Stage};
use xmpp_core::xml::{parse, serialize};

fn negotiator() -> Negotiator {
    Negotiator::new(
        String::from("user"),
        String::from("pencil"),
        String::from("example"),
        String::from("fyko+d2lbbFgONRv9qkxdawL"),
        String::from("bind-1"),
        None,
    )
}

fn sent(c: Command) -> String {
    match c {
        Command::Send(e) => serialize(&e, "jabber:client"),
        other => panic!("expected an element to send, got {:?}", other),
    }
}

#[test]
fn happy_path_scram_sha1() {
    let mut n = negotiator();
    let features = parse("<stream:features xmlns:stream='http://etherx.jabber.org/streams'><starttls xmlns='urn:ietf:params:xml:ns:xmpp-tls'><required/></starttls></stream:features>").unwrap();
    assert_eq!(sent(n.on_element(features)), "<starttls xmlns='urn:ietf:params:xml:ns:xmpp-tls'/>");
    let proceed = parse("<proceed xmlns='urn:ietf:params:xml:ns:xmpp-tls'/>").unwrap();
    assert_eq!(n.on_element(proceed), Command::StartTls);
    let features = parse("<stream:features xmlns:stream='http://etherx.jabber.org/streams'><mechanisms xmlns='urn:ietf:params:xml:ns:xmpp-sasl'><mechanism>SCRAM-SHA-1</mechanism></mechanisms></stream:features>").unwrap();
    assert_eq!(
        sent(n.on_element(features)),
        "<auth xmlns='urn:ietf:params:xml:ns:xmpp-sasl' mechanism='SCRAM-SHA-1'>biwsbj11c2VyLHI9ZnlrbytkMmxiYkZnT05Sdjlxa3hkYXdM</auth>"
    );
    let challenge = parse("<challenge xmlns='urn:ietf:params:xml:ns:xmpp-sasl'>cj1meWtvK2QybGJiRmdPTlJ2OXFreGRhd0wzcmZjTkhZSlkxWlZ2V1ZzN2oscz1RU1hDUitRNnNlazhiZjkyLGk9NDA5Ng==</challenge>").unwrap();
    assert_eq!(
        sent(n.on_element(challenge)),
        "<response xmlns='urn:ietf:params:xml:ns:xmpp-sasl'>Yz1iaXdzLHI9ZnlrbytkMmxiYkZnT05Sdjlxa3hkYXdMM3JmY05IWUpZMVpWdldWczdqLHA9djBYOHYzQnoyVDBDSkdiSlF5RjBYK0hJNFRzPQ==</response>"
    );
    let success = parse("<success xmlns='urn:ietf:params:xml:ns:xmpp-sasl'>dj1ybUY5cHFWOFM3c3VBb1pXamE0ZEpSa0ZzS1E9</success>").unwrap();
    assert_eq!(n.on_element(success), Command::RestartStream);
    let features = parse("<stream:features xmlns:stream='http://etherx.jabber.org/streams'><bind xmlns='urn:ietf:params:xml:ns:xmpp-bind'/></stream:features>").unwrap();
    assert_eq!(
        sent(n.on_element(features)),
        "<iq type='set' id='bind-1'><bind xmlns='urn:ietf:params:xml:ns:xmpp-bind'/></iq>"
    );
    let reply = parse("<iq xmlns='jabber:client' type='result' id='bind-1'><bind xmlns='urn:ietf:params:xml:ns:xmpp-bind'><jid>user@example/4db</jid></bind></iq>").unwrap();
    match n.on_element(reply) {
        Command::Finished(j) => assert_eq!(j.to_string(), "user@example/4db"),
        other => panic!("{:?}", other),
    }
    assert_eq!(n.stage(), Stage::Done);
}

#[test]
fn starttls_absent_fails_before_auth() {
    let mut n = negotiator();
    let features = parse("<stream:features xmlns:stream='http://etherx.jabber.org/streams'><mechanisms xmlns='urn:ietf:params:xml:ns:xmpp-sasl'><mechanism>PLAIN</mechanism></mechanisms></stream:features>").unwrap();
    assert_eq!(n.on_element(features), Command::Fail(ClientError::Protocol(ProtocolError::NoTls)));
    assert_eq!(n.stage(), Stage::Failed);
}

#[test]
fn sasl_failure_is_not_authorized() {
    let mut n = negotiator();
    n.on_element(parse("<f xmlns='x'><starttls xmlns='urn:ietf:params:xml:ns:xmpp-tls'/></f>").unwrap());
    n.on_element(parse("<proceed xmlns='urn:ietf:params:xml:ns:xmpp-tls'/>").unwrap());
    n.on_element(parse("<f xmlns='x'><mechanisms xmlns='urn:ietf:params:xml:ns:xmpp-sasl'><mechanism>SCRAM-SHA-1</mechanism></mechanisms></f>").unwrap());
    let failure = parse("<failure xmlns='urn:ietf:params:xml:ns:xmpp-sasl'><not-authorized/></failure>").unwrap();
    assert_eq!(n.on_element(failure), Command::Fail(ClientError::Protocol(ProtocolError::NotAuthorized)));
}

#[test]
fn bad_server_signature_fails() {
    let mut n = negotiator();
    n.on_element(parse("<f xmlns='x'><starttls xmlns='urn:ietf:params:xml:ns:xmpp-tls'/></f>").unwrap());
    n.on_element(parse("<proceed xmlns='urn:ietf:params:xml:ns:xmpp-tls'/>").unwrap());
    n.on_element(parse("<f xmlns='x'><mechanisms xmlns='urn:ietf:params:xml:ns:xmpp-sasl'><mechanism>SCRAM-SHA-1</mechanism></mechanisms></f>").unwrap());
    n.on_element(parse("<challenge xmlns='urn:ietf:params:xml:ns:xmpp-sasl'>cj1meWtvK2QybGJiRmdPTlJ2OXFreGRhd0wzcmZjTkhZSlkxWlZ2V1ZzN2oscz1RU1hDUitRNnNlazhiZjkyLGk9NDA5Ng==</challenge>").unwrap());
    let success = parse("<success xmlns='urn:ietf:params:xml:ns:xmpp-sasl'>dj1BQUFB</success>").unwrap();
    assert_eq!(
        n.on_element(success),
        Command::Fail(ClientError::Sasl(xmpp_core::sasl::SaslError::BadServerSignature))
    );
}

fn bound_stage() -> Negotiator {
    let mut n = negotiator();
    n.on_element(parse("<f xmlns='x'><starttls xmlns='urn:ietf:params:xml:ns:xmpp-tls'/></f>").unwrap());
    n.on_element(parse("<proceed xmlns='urn:ietf:params:xml:ns:xmpp-tls'/>").unwrap());
    n.on_element(parse("<f xmlns='x'><mechanisms xmlns='urn:ietf:params:xml:ns:xmpp-sasl'><mechanism>PLAIN</mechanism></mechanisms></f>").unwrap());
    assert_eq!(n.on_element(parse("<success xmlns='urn:ietf:params:xml:ns:xmpp-sasl'/>").unwrap()), Command::RestartStream);
    n.on_element(parse("<f xmlns='x'><bind xmlns='urn:ietf:params:xml:ns:xmpp-bind'/></f>").unwrap());
    n
}

#[test]
fn plain_auth_carries_credentials() {
    let mut n = negotiator();
    n.on_element(parse("<f xmlns='x'><starttls xmlns='urn:ietf:params:xml:ns:xmpp-tls'/></f>").unwrap());
    n.on_element(parse("<proceed xmlns='urn:ietf:params:xml:ns:xmpp-tls'/>").unwrap());
    let auth = n.on_element(parse("<f xmlns='x'><mechanisms xmlns='urn:ietf:params:xml:ns:xmpp-sasl'><mechanism>PLAIN</mechanism></mechanisms></f>").unwrap());
    assert_eq!(sent(auth), "<auth xmlns='urn:ietf:params:xml:ns:xmpp-sasl' mechanism='PLAIN'>AHVzZXIAcGVuY2ls</auth>");
}

#[test]
fn bound_jid_must_be_the_login() {
    let mut n = bound_stage();
    let other = parse("<iq xmlns='jabber:client' type='result' id='bind-1'><bind xmlns='urn:ietf:params:xml:ns:xmpp-bind'><jid>mallory@example/r</jid></bind></iq>").unwrap();
    assert_eq!(n.on_element(other), Command::Fail(ClientError::Protocol(ProtocolError::BindError)));
    assert_eq!(n.stage(), Stage::Failed);
    let mut n = bound_stage();
    let bare = parse("<iq xmlns='jabber:client' type='result' id='bind-1'><bind xmlns='urn:ietf:params:xml:ns:xmpp-bind'><jid>user@example</jid></bind></iq>").unwrap();
    assert_eq!(n.on_element(bare), Command::Fail(ClientError::Protocol(ProtocolError::BindError)));
}
