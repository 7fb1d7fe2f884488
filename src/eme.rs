//! Explicit message encryption: `<encryption xmlns='urn:xmpp:eme:0'/>`.

use vstd::prelude::*;
use crate::element::{attr_value, check_shape, shape_fault, Element, ShapeFault};
use crate::error::Error;
use crate::ns::EME;
use crate::presence::{attr_views, opt_attr, opt_text};

verus! {

/// The encryption scheme that a message uses.
#[derive(Clone, Debug, PartialEq)]
pub struct ExplicitMessageEncryption {
    /// Namespace of the encryption scheme used.
    pub namespace: String,
    /// User-friendly name of the scheme, `None` for well-known ones.
    pub name: Option<String>,
}

impl ExplicitMessageEncryption {
    /// Reads an `<encryption/>` element.
    pub fn try_from(elem: Element) -> (r: Result<ExplicitMessageEncryption, Error>)
        ensures
            match shape_fault(elem, "encryption"@, EME@, seq!["namespace", "name"]) {
                Some(ShapeFault::WrongName) => r == Err::<ExplicitMessageEncryption, Error>(
                    Error::ParseError("This is not a encryption element."),
                ),
                Some(ShapeFault::HasChild) => r == Err::<ExplicitMessageEncryption, Error>(
                    Error::ParseError("Unknown child in encryption element."),
                ),
                Some(ShapeFault::UnknownAttribute) => r == Err::<ExplicitMessageEncryption, Error>(
                    Error::ParseError("Unknown attribute in encryption element."),
                ),
                None => match attr_value(elem.attrs@, "namespace"@) {
                    None => r == Err::<ExplicitMessageEncryption, Error>(
                        Error::ParseError("Required attribute 'namespace' missing."),
                    ),
                    Some(n) => r matches Ok(e) && e.namespace@ == n && opt_text(e.name)
                        == attr_value(elem.attrs@, "name"@),
                },
            },
    {
        let allowed: [&str; 2] = ["namespace", "name"];
        assert(allowed@ =~= seq!["namespace", "name"]);
        match check_shape(&elem, "encryption", EME, &allowed) {
            Some(ShapeFault::WrongName) => {
                return Err(Error::ParseError("This is not a encryption element."));
            },
            Some(ShapeFault::HasChild) => {
                return Err(Error::ParseError("Unknown child in encryption element."));
            },
            Some(ShapeFault::UnknownAttribute) => {
                return Err(Error::ParseError("Unknown attribute in encryption element."));
            },
            None => {},
        }
        let namespace = match elem.attr("namespace") {
            Some(n) => n,
            None => {
                return Err(Error::ParseError("Required attribute 'namespace' missing."));
            },
        };
        let name = elem.attr("name");
        Ok(ExplicitMessageEncryption { namespace, name })
    }

    /// The `<encryption/>` element: `namespace`, then `name` when there is one.
    pub fn into_element(self) -> (r: Element)
        ensures
            r.name@ == "encryption"@,
            r.ns@ == EME@,
            attr_views(r.attrs@) == opt_attr("namespace"@, Some(self.namespace@)) + opt_attr(
                "name"@,
                opt_text(self.name),
            ),
            r.children@.len() == 0,
    {
        let ghost n = self.namespace@;
        let e = Element::new("encryption", EME).with_attr("namespace", self.namespace);
        assert(attr_views(e.attrs@) =~= opt_attr("namespace"@, Some(n)));
        match self.name {
            Some(name) => {
                let ghost v = name@;
                let r = e.with_attr("name", name);
                assert(attr_views(r.attrs@) =~= opt_attr("namespace"@, Some(n)) + opt_attr(
                    "name"@,
                    Some(v),
                ));
                r
            },
            None => {
                assert(attr_views(e.attrs@) + opt_attr("name"@, None) =~= attr_views(e.attrs@));
                e
            },
        }
    }
}

} // verus!
