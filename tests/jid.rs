use xmpp_core::error::{parse_i8, parse_u16, IntErrorKind, JidParseError};
use xmpp_core::jid::Jid;

#[test]
fn jid_parts() {
    let j = Jid::from_str("node@domain/res/with/slash").unwrap();
    assert_eq!(j.node, Some(String::from("node")));
    assert_eq!(j.domain, "domain");
    assert_eq!(j.resource, Some(String::from("res/with/slash")));
    assert_eq!(j.to_string(), "node@domain/res/with/slash");
    let b = j.to_bare();
    assert_eq!(b.to_string(), "node@domain");
    assert!(b.same_bare(&j));
    let d = Jid::from_str("domain/a@b").unwrap();
    assert_eq!(d.node, None);
    assert_eq!(d.resource, Some(String::from("a@b")));
}

#[test]
fn jid_errors() {
    assert_eq!(Jid::from_str("@domain"), Err(JidParseError::EmptyNode));
    assert_eq!(Jid::from_str(""), Err(JidParseError::NoDomain));
    assert_eq!(Jid::from_str("a@"), Err(JidParseError::NoDomain));
    assert_eq!(Jid::from_str("a@b/"), Err(JidParseError::EmptyResource));
}

#[test]
fn integer_parsing_like_std() {
    assert_eq!(parse_i8("-128"), Ok(-128));
    assert_eq!(parse_i8("+7"), Ok(7));
    assert_eq!(parse_i8("-129").unwrap_err().kind, IntErrorKind::NegOverflow);
    assert_eq!(parse_i8("").unwrap_err().kind, IntErrorKind::Empty);
    assert_eq!(parse_i8("-").unwrap_err().kind, IntErrorKind::InvalidDigit);
    assert_eq!(parse_u16("65535"), Ok(65535));
    assert_eq!(parse_u16("-0").unwrap_err().kind, IntErrorKind::InvalidDigit);
    assert_eq!(parse_u16("99999999999999999999999").unwrap_err().kind, IntErrorKind::PosOverflow);
}
