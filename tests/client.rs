use xmpp_core::connector::{order_srv, SrvRecord};
use xmpp_core::client::{
    Action, Client, ClientError, Config, Event, Observation, Packet, Phase, Poll, ProtocolError,
    ServerConfig, Step,
};
use xmpp_core::element::Element;
use xmpp_core::jid::Jid;
use xmpp_core::xml::parse;

fn config() -> Config {
    Config {
        jid: Jid::from_str("user@example").unwrap(),
        password: String::from("pencil"),
        server: ServerConfig::UseSrv,
    }
}

fn bound() -> Jid {
    Jid::from_str("user@example/abc").unwrap()
}

#[test]
fn happy_path_goes_online_once() {
    let mut c = Client::new_with_config(config(), 0);
    assert_eq!(c.phase(), Phase::Connecting);
    assert!(c.bound_jid().is_none());
    let s = c.step(Observation::ConnectPending, 10);
    assert_eq!(s.poll, Poll::Pending);
    let s = c.step(Observation::ConnectDone(Ok(bound())), 20);
    assert_eq!(s.poll, Poll::Ready(Some(Event::Online { bound_jid: bound(), resumed: false })));
    assert_eq!(c.phase(), Phase::Connected);
    assert_eq!(c.bound_jid(), Some(&bound()));
    let s = c.step(Observation::ReadPending, 30);
    assert_eq!(s, Step { action: Action::Nothing, poll: Poll::Pending });
}

#[test]
fn missing_starttls_disconnects() {
    let mut c = Client::new_with_config(config(), 0);
    let s = c.step(Observation::ConnectDone(Err(ClientError::Protocol(ProtocolError::NoTls))), 5);
    assert_eq!(s.poll, Poll::Ready(Some(Event::Disconnected(ClientError::Protocol(ProtocolError::NoTls)))));
    assert_eq!(c.phase(), Phase::Disconnected);
    let s = c.step(Observation::Idle, 6);
    assert_eq!(s.poll, Poll::Ready(None));
}

#[test]
fn sasl_failure_disconnects() {
    let mut c = Client::new_with_config(config(), 0);
    let s = c.step(Observation::ConnectDone(Err(ClientError::Protocol(ProtocolError::NotAuthorized))), 5);
    assert_eq!(
        s.poll,
        Poll::Ready(Some(Event::Disconnected(ClientError::Protocol(ProtocolError::NotAuthorized))))
    );
}

#[test]
fn mid_session_stanza_is_delivered() {
    let mut c = Client::new_with_config(config(), 0);
    c.step(Observation::ConnectDone(Ok(bound())), 1);
    let e = parse("<message xmlns='jabber:client' from='a@b' to='c@d'><body>hi</body></message>").unwrap();
    let s = c.step(Observation::Read(Packet::Stanza(e)), 2);
    match s.poll {
        Poll::Ready(Some(Event::Stanza(e))) => {
            assert_eq!(e.name, "message");
            assert_eq!(e.get_child("body", "jabber:client").unwrap().text(), "hi");
        }
        _ => panic!(),
    }
    let s = c.step(Observation::Read(Packet::Text(String::from("\n"))), 3);
    assert_eq!(s.poll, Poll::Again);
    assert_eq!(c.phase(), Phase::Connected);
}

#[test]
fn graceful_close_reports_once_then_ends() {
    let mut c = Client::new_with_config(config(), 0);
    c.step(Observation::ConnectDone(Ok(bound())), 1);
    assert_eq!(c.send_end(), Ok(Packet::StreamEnd));
    let s = c.step(Observation::Read(Packet::StreamEnd), 2);
    assert_eq!(s.poll, Poll::Ready(Some(Event::Disconnected(ClientError::Disconnected))));
    assert_eq!(s.action, Action::DropSession);
    let s = c.step(Observation::Idle, 3);
    assert_eq!(s.poll, Poll::Ready(None));
    let s = c.step(Observation::Idle, 4);
    assert_eq!(s.poll, Poll::Ready(None));
}

#[test]
fn reconnect_after_close_waits_a_second() {
    let mut c = Client::new_with_config(config(), 0);
    c.set_reconnect(true);
    c.step(Observation::ConnectDone(Ok(bound())), 100);
    let s = c.step(Observation::ReadEof, 200);
    assert_eq!(s.poll, Poll::Ready(Some(Event::Disconnected(ClientError::Disconnected))));
    let s = c.step(Observation::Idle, 500);
    assert_eq!(s, Step { action: Action::Nothing, poll: Poll::Pending });
    let s = c.step(Observation::Idle, 1000);
    assert_eq!(s, Step { action: Action::SpawnConnect, poll: Poll::Again });
    assert_eq!(c.phase(), Phase::Connecting);
    let s = c.step(Observation::ConnectDone(Ok(bound())), 1100);
    assert_eq!(s.poll, Poll::Ready(Some(Event::Online { bound_jid: bound(), resumed: false })));
}

#[test]
fn send_refused_unless_connected() {
    let mut c = Client::new_with_config(config(), 0);
    let e = Element::new("message", "jabber:client");
    assert_eq!(c.send_stanza(e, String::from("x")), Err(ClientError::InvalidState));
    c.step(Observation::ConnectDone(Ok(bound())), 1);
    let e = Element::new("message", "jabber:client");
    match c.send_stanza(e, String::from("x1")).unwrap() {
        Packet::Stanza(s) => assert_eq!(s.attr("id"), Some(String::from("x1"))),
        _ => panic!(),
    }
    let e = Element::new("message", "jabber:client").with_attr("id", String::from("mine"));
    match c.send_stanza(e, String::from("x2")).unwrap() {
        Packet::Stanza(s) => assert_eq!(s.attr("id"), Some(String::from("mine"))),
        _ => panic!(),
    }
    c.step(Observation::ReadFailed(ClientError::Io), 2);
    let e = Element::new("message", "jabber:client");
    assert_eq!(c.send_stanza(e, String::from("x3")), Err(ClientError::InvalidState));
    assert_eq!(c.send_end(), Err(ClientError::InvalidState));
}

#[test]
fn stream_start_mid_session_is_an_error() {
    let mut c = Client::new_with_config(config(), 0);
    c.step(Observation::ConnectDone(Ok(bound())), 1);
    let s = c.step(Observation::Read(Packet::StreamStart(Vec::new())), 2);
    assert_eq!(
        s.poll,
        Poll::Ready(Some(Event::Disconnected(ClientError::Protocol(ProtocolError::InvalidStreamStart))))
    );
    assert!(c.bound_jid().is_none());
}

#[test]
fn srv_order_by_priority_then_weight() {
    let rec = |priority: u16, weight: u16, target: &str| SrvRecord { priority, weight, port: 5222, target: String::from(target) };
    let records = vec![rec(10, 60, "a"), rec(10, 40, "b"), rec(5, 0, "c")];
    let order: Vec<String> = order_srv(records.clone(), &vec![0, 70, 0]).into_iter().map(|r| r.target).collect();
    assert_eq!(order, vec!["c", "b", "a"]);
    let order: Vec<String> = order_srv(records, &vec![0, 10]).into_iter().map(|r| r.target).collect();
    assert_eq!(order, vec!["c", "a", "b"]);
}

#[test]
fn disconnected_without_reconnect_stays_ended() {
    let mut c = Client::new_with_config(config(), 0);
    c.step(Observation::ConnectDone(Err(ClientError::Io)), 1);
    for t in 2..5 {
        assert_eq!(c.step(Observation::Idle, t), Step { action: Action::Nothing, poll: Poll::Ready(None) });
        assert_eq!(c.phase(), Phase::Disconnected);
    }
}
