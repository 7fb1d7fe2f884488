use xmpp_core::error::Error;
use xmpp_core::ibb::{Close, Data, Open, Stanza};
use xmpp_core::xml::{parse, serialize};

#[test]
fn ibb_test_simple() {
    let elem = parse("<open xmlns='http://jabber.org/protocol/ibb' block-size='3' sid='coucou'/>").unwrap();
    let open = Open::try_from(elem).unwrap();
    assert_eq!(open.block_size, 3);
    assert_eq!(open.sid, "coucou");
    assert_eq!(open.stanza, Stanza::Iq);

    let elem = parse("<data xmlns='http://jabber.org/protocol/ibb' seq='0' sid='coucou'>AAAA</data>").unwrap();
    let data = Data::try_from(elem).unwrap();
    assert_eq!(data.seq, 0);
    assert_eq!(data.sid, "coucou");
    assert_eq!(data.data, vec!(0, 0, 0));

    let elem = parse("<close xmlns='http://jabber.org/protocol/ibb' sid='coucou'/>").unwrap();
    let close = Close::try_from(elem).unwrap();
    assert_eq!(close.sid, "coucou");
}

#[test]
fn test_invalid() {
    let elem = parse("<open xmlns='http://jabber.org/protocol/ibb'/>").unwrap();
    let error = Open::try_from(elem).unwrap_err();
    let message = match error {
        Error::ParseError(string) => string,
        _ => panic!(),
    };
    assert_eq!(message, "Required attribute 'block-size' missing.");

    let elem = parse("<open xmlns='http://jabber.org/protocol/ibb' block-size='-5'/>").unwrap();
    let error = Open::try_from(elem).unwrap_err();
    let message = match error {
        Error::ParseIntError(error) => error,
        _ => panic!(),
    };
    assert_eq!(message.description(), "invalid digit found in string");

    let elem = parse("<open xmlns='http://jabber.org/protocol/ibb' block-size='128'/>").unwrap();
    let error = Open::try_from(elem).unwrap_err();
    let message = match error {
        Error::ParseError(error) => error,
        _ => panic!(),
    };
    assert_eq!(message, "Required attribute 'sid' missing.");
}

#[test]
fn test_invalid_stanza() {
    let elem = parse("<open xmlns='http://jabber.org/protocol/ibb' block-size='128' sid='coucou' stanza='fdsq'/>").unwrap();
    let error = Open::try_from(elem).unwrap_err();
    let message = match error {
        Error::ParseError(string) => string,
        _ => panic!(),
    };
    assert_eq!(message, "Unknown value for 'stanza' attribute.");
}

#[test]
fn ibb_data_serialises_in_base64() {
    let data = Data { seq: 7, sid: String::from("s"), data: vec![1, 2, 3, 4] };
    let elem = data.into_element();
    assert_eq!(
        serialize(&elem, ""),
        "<data xmlns='http://jabber.org/protocol/ibb' seq='7' sid='s'>AQIDBA==</data>"
    );
    let back = Data::try_from(elem).unwrap();
    assert_eq!(back.data, vec![1, 2, 3, 4]);
}

#[test]
fn ibb_bad_base64_refused() {
    let elem = parse("<data xmlns='http://jabber.org/protocol/ibb' seq='0' sid='x'>!!!</data>").unwrap();
    assert_eq!(Data::try_from(elem).unwrap_err(), Error::Base64Error);
}

#[test]
fn ibb_message_stanza_and_overflow() {
    let elem = parse("<open xmlns='http://jabber.org/protocol/ibb' block-size='4096' sid='a' stanza='message'/>").unwrap();
    assert_eq!(Open::try_from(elem).unwrap().stanza, Stanza::Message);
    let elem = parse("<open xmlns='http://jabber.org/protocol/ibb' block-size='65536' sid='a'/>").unwrap();
    match Open::try_from(elem).unwrap_err() {
        Error::ParseIntError(e) => assert_eq!(e.description(), "number too large to fit in target type"),
        _ => panic!(),
    }
}
