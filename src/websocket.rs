//! The stream opening of XMPP over WebSocket.

use vstd::prelude::*;
use crate::element::{attr_value, check_shape, shape_fault, Element, ShapeFault};
use crate::error::Error;
use crate::jid::Jid;
use crate::ns::WEBSOCKET;
use crate::presence::{jid_attr, opt_jid_parts, opt_text};
use crate::text::same_text;

verus! {

/// The `<open/>` element that starts a stream over WebSocket.
#[derive(Clone, Debug, PartialEq)]
pub struct Open {
    /// The entity opening the stream.
    pub from: Option<Jid>,
    /// The entity receiving the opening.
    pub to: Option<Jid>,
    /// The id of the stream.
    pub id: Option<String>,
    /// The XMPP version used.
    pub version: Option<String>,
    /// The default language of the stream.
    pub xml_lang: Option<String>,
}

fn read_jid(elem: &Element, key: &str) -> (r: Result<Option<Jid>, Error>)
    ensures
        match jid_attr(elem.attrs@, key@) {
            Ok(p) => r matches Ok(j) && opt_jid_parts(j) == p,
            Err(e) => r == Err::<Option<Jid>, Error>(e),
        },
{
    match elem.attr(key) {
        None => Ok(None),
        Some(v) => match Jid::from_str(v.as_str()) {
            Ok(j) => Ok(Some(j)),
            Err(e) => Err(Error::JidParseError(e)),
        },
    }
}

impl Open {
    /// A client-to-server opening addressed to `to`, version 1.0.
    pub fn new(to: Jid) -> (r: Open)
        ensures
            r.from is None,
            r.to == Some(to),
            r.id is None,
            r.version matches Some(v) && v@ == "1.0"@,
            r.xml_lang is None,
    {
        Open {
            from: None,
            to: Some(to),
            id: None,
            version: Some(String::from_str("1.0")),
            xml_lang: None,
        }
    }

    /// Sets the sender.
    pub fn with_from(self, from: Jid) -> (r: Open)
        ensures
            r == (Open { from: Some(from), ..self }),
    {
        let mut o = self;
        o.from = Some(from);
        o
    }

    /// Sets the stream id.
    pub fn with_id(self, id: String) -> (r: Open)
        ensures
            r == (Open { id: Some(id), ..self }),
    {
        let mut o = self;
        o.id = Some(id);
        o
    }

    /// Sets the default language.
    pub fn with_lang(self, xml_lang: String) -> (r: Open)
        ensures
            r == (Open { xml_lang: Some(xml_lang), ..self }),
    {
        let mut o = self;
        o.xml_lang = Some(xml_lang);
        o
    }

    /// Whether the version is `version`.
    pub fn is_version(&self, version: &str) -> (r: bool)
        ensures
            r == (self.version matches Some(v) && v@ == version@),
    {
        match &self.version {
            None => false,
            Some(v) => same_text(v.as_str(), version),
        }
    }

    /// Reads an `<open/>` element.
    pub fn try_from(elem: Element) -> (r: Result<Open, Error>)
        ensures
            match shape_fault(elem, "open"@, WEBSOCKET@, seq!["from", "to", "id", "version", "xml:lang"]) {
                Some(ShapeFault::WrongName) => r == Err::<Open, Error>(
                    Error::ParseError("This is not a open element."),
                ),
                Some(ShapeFault::HasChild) => r == Err::<Open, Error>(
                    Error::ParseError("Unknown child in open element."),
                ),
                Some(ShapeFault::UnknownAttribute) => r == Err::<Open, Error>(
                    Error::ParseError("Unknown attribute in open element."),
                ),
                None => if jid_attr(elem.attrs@, "from"@) is Err {
                    r == Err::<Open, Error>(jid_attr(elem.attrs@, "from"@)->Err_0)
                } else if jid_attr(elem.attrs@, "to"@) is Err {
                    r == Err::<Open, Error>(jid_attr(elem.attrs@, "to"@)->Err_0)
                } else {
                    r matches Ok(o) && opt_jid_parts(o.from) == jid_attr(elem.attrs@, "from"@)->Ok_0
                        && opt_jid_parts(o.to) == jid_attr(elem.attrs@, "to"@)->Ok_0 && opt_text(o.id)
                        == attr_value(elem.attrs@, "id"@) && opt_text(o.version) == attr_value(
                        elem.attrs@,
                        "version"@,
                    ) && opt_text(o.xml_lang) == attr_value(elem.attrs@, "xml:lang"@)
                },
            },
    {
        let allowed: [&str; 5] = ["from", "to", "id", "version", "xml:lang"];
        assert(allowed@ =~= seq!["from", "to", "id", "version", "xml:lang"]);
        match check_shape(&elem, "open", WEBSOCKET, &allowed) {
            Some(ShapeFault::WrongName) => {
                return Err(Error::ParseError("This is not a open element."));
            },
            Some(ShapeFault::HasChild) => {
                return Err(Error::ParseError("Unknown child in open element."));
            },
            Some(ShapeFault::UnknownAttribute) => {
                return Err(Error::ParseError("Unknown attribute in open element."));
            },
            None => {},
        }
        let from = read_jid(&elem, "from")?;
        let to = read_jid(&elem, "to")?;
        let id = elem.attr("id");
        let version = elem.attr("version");
        let xml_lang = elem.attr("xml:lang");
        Ok(Open { from, to, id, version, xml_lang })
    }
}

} // verus!
