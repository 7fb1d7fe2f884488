//! In-band bytestreams: `<open/>`, `<data/>` and `<close/>`.

use vstd::prelude::*;
use crate::element::{attr_value, check_shape, has_element_child, nodes_text, shape_fault, Element, Node, ShapeFault};
use crate::encoding::{base64_bytes, base64_decode, base64_encode, base64_text};
use crate::error::{int_parse, parse_u16, Error, ParseIntError};
use crate::ns::IBB;
use crate::text::{int_text, int_to_text, same_text};

verus! {

/// Which stanza carries the data of a bytestream.
#[derive(Clone, Copy, Debug, PartialEq, Eq, Structural)]
pub enum Stanza {
    /// `<iq/>` stanzas.
    Iq,
    /// `<message/>` stanzas.
    Message,
}

impl Default for Stanza {
    fn default() -> (r: Stanza)
        ensures
            r == Stanza::Iq,
    {
        Stanza::Iq
    }
}

/// The stanza kind that a `stanza` attribute names.
pub open spec fn stanza_of(s: Seq<char>) -> Option<Stanza> {
    if s == "iq"@ {
        Some(Stanza::Iq)
    } else if s == "message"@ {
        Some(Stanza::Message)
    } else {
        None
    }
}

impl Stanza {
    /// Reads a `stanza` attribute.
    pub fn from_str(s: &str) -> (r: Result<Stanza, Error>)
        ensures
            match stanza_of(s@) {
                Some(v) => r == Ok::<Stanza, Error>(v),
                None => r == Err::<Stanza, Error>(
                    Error::ParseError("Unknown value for 'stanza' attribute."),
                ),
            },
    {
        if same_text(s, "iq") {
            Ok(Stanza::Iq)
        } else if same_text(s, "message") {
            Ok(Stanza::Message)
        } else {
            Err(Error::ParseError("Unknown value for 'stanza' attribute."))
        }
    }
}

/// A required `u16` attribute, as read.
pub open spec fn u16_attr(attrs: Seq<(String, String)>, key: Seq<char>) -> Option<Result<u16, Error>> {
    match attr_value(attrs, key) {
        None => None,
        Some(v) => Some(
            match int_parse(v, 0, 65535) {
                Ok(n) => Ok(n as u16),
                Err(k) => Err(Error::ParseIntError(ParseIntError { kind: k })),
            },
        ),
    }
}

fn read_u16(e: &Element, key: &str, missing: &'static str) -> (r: Result<u16, Error>)
    ensures
        match u16_attr(e.attrs@, key@) {
            None => r == Err::<u16, Error>(Error::ParseError(missing)),
            Some(x) => r == x,
        },
{
    match e.attr(key) {
        None => Err(Error::ParseError(missing)),
        Some(v) => match parse_u16(v.as_str()) {
            Ok(n) => Ok(n),
            Err(err) => Err(Error::ParseIntError(err)),
        },
    }
}

fn read_text(e: &Element, key: &str, missing: &'static str) -> (r: Result<String, Error>)
    ensures
        match attr_value(e.attrs@, key@) {
            None => r == Err::<String, Error>(Error::ParseError(missing)),
            Some(v) => r matches Ok(s) && s@ == v,
        },
{
    match e.attr(key) {
        None => Err(Error::ParseError(missing)),
        Some(v) => Ok(v),
    }
}

/// The opening of an in-band bytestream.
#[derive(Clone, Debug, PartialEq)]
pub struct Open {
    /// The size of each block of data, in bytes.
    pub block_size: u16,
    /// The session identifier.
    pub sid: String,
    /// Which stanza carries the data.
    pub stanza: Stanza,
}

impl Open {
    /// Reads an `<open/>` element.
    pub fn try_from(elem: Element) -> (r: Result<Open, Error>)
        ensures
            match shape_fault(elem, "open"@, IBB@, seq!["block-size", "sid", "stanza"]) {
                Some(ShapeFault::WrongName) => r == Err::<Open, Error>(
                    Error::ParseError("This is not a open element."),
                ),
                Some(ShapeFault::HasChild) => r == Err::<Open, Error>(
                    Error::ParseError("Unknown child in open element."),
                ),
                Some(ShapeFault::UnknownAttribute) => r == Err::<Open, Error>(
                    Error::ParseError("Unknown attribute in open element."),
                ),
                None => match u16_attr(elem.attrs@, "block-size"@) {
                    None => r == Err::<Open, Error>(
                        Error::ParseError("Required attribute 'block-size' missing."),
                    ),
                    Some(Err(e)) => r == Err::<Open, Error>(e),
                    Some(Ok(size)) => match attr_value(elem.attrs@, "sid"@) {
                        None => r == Err::<Open, Error>(
                            Error::ParseError("Required attribute 'sid' missing."),
                        ),
                        Some(sid) => match attr_value(elem.attrs@, "stanza"@) {
                            Some(s) if stanza_of(s) is None => r == Err::<Open, Error>(
                                Error::ParseError("Unknown value for 'stanza' attribute."),
                            ),
                            st => r matches Ok(o) && o.block_size == size && o.sid@ == sid
                                && o.stanza == match st {
                                Some(s) => stanza_of(s)->0,
                                None => Stanza::Iq,
                            },
                        },
                    },
                },
            },
    {
        match check_shape(&elem, "open", IBB, &["block-size", "sid", "stanza"]) {
            Some(ShapeFault::WrongName) => {
                return Err(Error::ParseError("This is not a open element."));
            },
            Some(ShapeFault::HasChild) => {
                return Err(Error::ParseError("Unknown child in open element."));
            },
            Some(ShapeFault::UnknownAttribute) => {
                return Err(Error::ParseError("Unknown attribute in open element."));
            },
            None => {},
        }
        let block_size = read_u16(&elem, "block-size", "Required attribute 'block-size' missing.")?;
        let sid = read_text(&elem, "sid", "Required attribute 'sid' missing.")?;
        let stanza = match elem.attr("stanza") {
            Some(s) => Stanza::from_str(s.as_str())?,
            None => Stanza::Iq,
        };
        Ok(Open { block_size, sid, stanza })
    }
}

/// The closing of an in-band bytestream.
#[derive(Clone, Debug, PartialEq)]
pub struct Close {
    /// The session identifier.
    pub sid: String,
}

impl Close {
    /// Reads a `<close/>` element.
    pub fn try_from(elem: Element) -> (r: Result<Close, Error>)
        ensures
            match shape_fault(elem, "close"@, IBB@, seq!["sid"]) {
                Some(ShapeFault::WrongName) => r == Err::<Close, Error>(
                    Error::ParseError("This is not a close element."),
                ),
                Some(ShapeFault::HasChild) => r == Err::<Close, Error>(
                    Error::ParseError("Unknown child in close element."),
                ),
                Some(ShapeFault::UnknownAttribute) => r == Err::<Close, Error>(
                    Error::ParseError("Unknown attribute in close element."),
                ),
                None => match attr_value(elem.attrs@, "sid"@) {
                    None => r == Err::<Close, Error>(
                        Error::ParseError("Required attribute 'sid' missing."),
                    ),
                    Some(sid) => r matches Ok(c) && c.sid@ == sid,
                },
            },
    {
        let allowed: [&str; 1] = ["sid"];
        assert(allowed@ =~= seq!["sid"]);
        match check_shape(&elem, "close", IBB, &allowed) {
            Some(ShapeFault::WrongName) => {
                return Err(Error::ParseError("This is not a close element."));
            },
            Some(ShapeFault::HasChild) => {
                return Err(Error::ParseError("Unknown child in close element."));
            },
            Some(ShapeFault::UnknownAttribute) => {
                return Err(Error::ParseError("Unknown attribute in close element."));
            },
            None => {},
        }
        let sid = read_text(&elem, "sid", "Required attribute 'sid' missing.")?;
        Ok(Close { sid })
    }
}

/// A block of data of an in-band bytestream.
#[derive(Clone, Debug, PartialEq)]
pub struct Data {
    /// The sequence number of this block.
    pub seq: u16,
    /// The session identifier.
    pub sid: String,
    /// The bytes of this block.
    pub data: Vec<u8>,
}

impl Data {
    /// Reads a `<data/>` element; its text is the base64 of the bytes.
    pub fn try_from(elem: Element) -> (r: Result<Data, Error>)
        ensures
            !(elem.name@ == "data"@ && elem.ns@ == IBB@) ==> r == Err::<Data, Error>(
                Error::ParseError("This is not a data element."),
            ),
            elem.name@ == "data"@ && elem.ns@ == IBB@ ==> {
                if has_element_child(elem.children@) {
                    r == Err::<Data, Error>(Error::ParseError("Unknown child in data element."))
                } else {
                    match u16_attr(elem.attrs@, "seq"@) {
                        None => r == Err::<Data, Error>(
                            Error::ParseError("Required attribute 'seq' missing."),
                        ),
                        Some(Err(e)) => r == Err::<Data, Error>(e),
                        Some(Ok(seq)) => match attr_value(elem.attrs@, "sid"@) {
                            None => r == Err::<Data, Error>(
                                Error::ParseError("Required attribute 'sid' missing."),
                            ),
                            Some(sid) => match base64_bytes(nodes_text(elem.children@)) {
                                None => r == Err::<Data, Error>(Error::Base64Error),
                                Some(bytes) => r matches Ok(d) && d.seq == seq && d.sid@ == sid
                                    && d.data@ == bytes,
                            },
                        },
                    }
                }
            },
    {
        if !elem.is("data", IBB) {
            return Err(Error::ParseError("This is not a data element."));
        }
        if elem.has_element_children() {
            return Err(Error::ParseError("Unknown child in data element."));
        }
        let seq = read_u16(&elem, "seq", "Required attribute 'seq' missing.")?;
        let sid = read_text(&elem, "sid", "Required attribute 'sid' missing.")?;
        let text = elem.text();
        match base64_decode(text.as_str()) {
            Some(data) => Ok(Data { seq, sid, data }),
            None => Err(Error::Base64Error),
        }
    }

    /// The `<data/>` element: `seq` and `sid`, and the bytes in base64.
    pub fn into_element(self) -> (r: Element)
        requires
            self.data@.len() <= usize::MAX / 2,
        ensures
            r.name@ == "data"@,
            r.ns@ == IBB@,
            r.attrs@.len() == 2,
            r.attrs@[0].0@ == "seq"@,
            r.attrs@[0].1@ == int_text(self.seq as int),
            r.attrs@[1].0@ == "sid"@,
            r.attrs@[1].1@ == self.sid@,
            r.children@.len() == 1,
            r.children@[0] matches Node::Text(t) && t@ == base64_text(self.data@),
    {
        let seq = int_to_text(self.seq as i64);
        let text = base64_encode(self.data.as_slice());
        Element::new("data", IBB).with_attr("seq", seq).with_attr("sid", self.sid).with_text(text)
    }
}

} // verus!
