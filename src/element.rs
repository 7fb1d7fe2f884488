//! XML elements: a qualified name, attributes, and children that are
//! elements or text.

use vstd::prelude::*;
use crate::text::{append_str, same_text};

verus! {

/// A child of an element.
#[derive(Debug, PartialEq)]
pub enum Node {
    /// A nested element.
    Element(Element),
    /// A run of text.
    Text(String),
}

/// An XML element; its namespace is part of its name, prefixes are not kept.
#[derive(Debug, PartialEq)]
pub struct Element {
    /// The local name.
    pub name: String,
    /// The namespace.
    pub ns: String,
    /// The attributes, in the order in which they are written.
    pub attrs: Vec<(String, String)>,
    /// The children, in order.
    pub children: Vec<Node>,
}

/// The value of the first attribute named `key`.
pub open spec fn attr_value(attrs: Seq<(String, String)>, key: Seq<char>) -> Option<Seq<char>>
    decreases attrs.len(),
{
    if attrs.len() == 0 {
        None
    } else if attrs[0].0@ == key {
        Some(attrs[0].1@)
    } else {
        attr_value(attrs.drop_first(), key)
    }
}

/// The text children, joined.
pub open spec fn nodes_text(children: Seq<Node>) -> Seq<char>
    decreases children.len(),
{
    if children.len() == 0 {
        Seq::empty()
    } else {
        nodes_text(children.drop_last()) + match children.last() {
            Node::Text(t) => t@,
            Node::Element(_) => Seq::empty(),
        }
    }
}

/// Whether `e` is `<{name} xmlns='{ns}'>{text}</{name}>`, with no attribute.
pub open spec fn is_text_element(e: Element, name: Seq<char>, ns: Seq<char>, text: Seq<char>) -> bool {
    &&& e.name@ == name
    &&& e.ns@ == ns
    &&& e.attrs@.len() == 0
    &&& e.children@.len() == 1
    &&& (e.children@[0] matches Node::Text(x) && x@ == text)
}

/// Whether one of the children is an element.
pub open spec fn has_element_child(children: Seq<Node>) -> bool {
    exists|i: int| 0 <= i < children.len() && children[i] is Element
}

impl Element {
    /// An element with no attribute and no child.
    pub fn new(name: &str, ns: &str) -> (r: Element)
        ensures
            r.name@ == name@,
            r.ns@ == ns@,
            r.attrs@.len() == 0,
            r.children@.len() == 0,
    {
        Element {
            name: String::from_str(name),
            ns: String::from_str(ns),
            attrs: Vec::new(),
            children: Vec::new(),
        }
    }

    /// This element with one more attribute, written last.
    pub fn with_attr(self, key: &str, value: String) -> (r: Element)
        ensures
            r.name == self.name,
            r.ns == self.ns,
            r.attrs@ == self.attrs@.push((r.attrs@.last().0, value)),
            r.attrs@.last().0@ == key@,
            r.children == self.children,
    {
        let mut e = self;
        e.attrs.push((String::from_str(key), value));
        e
    }

    /// This element with one more child element, last.
    pub fn with_child(self, child: Element) -> (r: Element)
        ensures
            r.name == self.name,
            r.ns == self.ns,
            r.attrs == self.attrs,
            r.children@ == self.children@.push(Node::Element(child)),
    {
        let mut e = self;
        e.children.push(Node::Element(child));
        e
    }

    /// This element with one more text child, last.
    pub fn with_text(self, text: String) -> (r: Element)
        ensures
            r.name == self.name,
            r.ns == self.ns,
            r.attrs == self.attrs,
            r.children@ == self.children@.push(Node::Text(text)),
    {
        let mut e = self;
        e.children.push(Node::Text(text));
        e
    }

    /// Whether this element has the local name `name` in the namespace `ns`.
    pub fn is(&self, name: &str, ns: &str) -> (r: bool)
        ensures
            r == (self.name@ == name@ && self.ns@ == ns@),
    {
        same_text(self.name.as_str(), name) && same_text(self.ns.as_str(), ns)
    }

    /// The value of the attribute `key`, if it is present.
    pub fn attr(&self, key: &str) -> (r: Option<String>)
        ensures
            match r {
                Some(v) => attr_value(self.attrs@, key@) == Some(v@),
                None => attr_value(self.attrs@, key@) is None,
            },
    {
        let mut i: usize = 0;
        proof {
            assert(self.attrs@.skip(0) == self.attrs@);
        }
        while i < self.attrs.len()
            invariant
                i <= self.attrs@.len(),
                attr_value(self.attrs@, key@) == attr_value(self.attrs@.skip(i as int), key@),
            decreases self.attrs@.len() - i,
        {
            proof {
                assert(self.attrs@.skip(i as int).drop_first() == self.attrs@.skip(i + 1));
            }
            if same_text(self.attrs[i].0.as_str(), key) {
                return Some(self.attrs[i].1.clone());
            }
            i = i + 1;
        }
        None
    }

    /// The text children, joined.
    pub fn text(&self) -> (r: String)
        ensures
            r@ == nodes_text(self.children@),
    {
        let mut r = String::new();
        let mut i: usize = 0;
        while i < self.children.len()
            invariant
                i <= self.children@.len(),
                r@ == nodes_text(self.children@.take(i as int)),
            decreases self.children@.len() - i,
        {
            proof {
                assert(self.children@.take(i + 1).drop_last() == self.children@.take(i as int));
            }
            match &self.children[i] {
                Node::Text(t) => append_str(&mut r, t.as_str()),
                Node::Element(_) => {
                    proof {
                        assert(r@ + Seq::<char>::empty() == r@);
                    }
                },
            }
            i = i + 1;
        }
        proof {
            assert(self.children@.take(self.children@.len() as int) == self.children@);
        }
        r
    }

    /// Whether one of the children is an element.
    pub fn has_element_children(&self) -> (r: bool)
        ensures
            r == has_element_child(self.children@),
    {
        let mut i: usize = 0;
        while i < self.children.len()
            invariant
                i <= self.children@.len(),
                forall|j: int| 0 <= j < i ==> !(self.children@[j] is Element),
            decreases self.children@.len() - i,
        {
            if let Node::Element(_) = &self.children[i] {
                return true;
            }
            i = i + 1;
        }
        false
    }

    /// The first child element with the local name `name` in the namespace `ns`.
    pub fn get_child(&self, name: &str, ns: &str) -> (r: Option<&Element>)
        ensures
            match r {
                Some(c) => exists|i: int|
                    0 <= i < self.children@.len() && self.children@[i] == Node::Element(*c)
                        && c.name@ == name@ && c.ns@ == ns@,
                None => forall|i: int|
                    0 <= i < self.children@.len() ==> !(#[trigger] self.children@[i] matches Node::Element(c)
                        && c.name@ == name@ && c.ns@ == ns@),
            },
    {
        let mut i: usize = 0;
        while i < self.children.len()
            invariant
                i <= self.children@.len(),
                forall|j: int|
                    0 <= j < i ==> !(#[trigger] self.children@[j] matches Node::Element(c) && c.name@
                        == name@ && c.ns@ == ns@),
            decreases self.children@.len() - i,
        {
            if let Node::Element(c) = &self.children[i] {
                if c.is(name, ns) {
                    return Some(c);
                }
            }
            i = i + 1;
        }
        None
    }
}

} // verus!

verus! {

/// What makes an element unfit for a type that holds attributes only.
#[derive(Clone, Copy, Debug, PartialEq, Eq, Structural)]
pub enum ShapeFault {
    /// Another name or namespace.
    WrongName,
    /// A child element.
    HasChild,
    /// An attribute that the type does not know.
    UnknownAttribute,
}

/// Whether `key` is one of `allowed`.
pub open spec fn is_allowed(allowed: Seq<&str>, key: Seq<char>) -> bool {
    exists|j: int| 0 <= j < allowed.len() && #[trigger] allowed[j]@ == key
}

/// The first fault of `e` for a type named `name` in `ns` with the attributes `allowed`.
pub open spec fn shape_fault(e: Element, name: Seq<char>, ns: Seq<char>, allowed: Seq<&str>) -> Option<
    ShapeFault,
> {
    if !(e.name@ == name && e.ns@ == ns) {
        Some(ShapeFault::WrongName)
    } else if has_element_child(e.children@) {
        Some(ShapeFault::HasChild)
    } else if exists|i: int| 0 <= i < e.attrs@.len() && !is_allowed(allowed, #[trigger] e.attrs@[i].0@) {
        Some(ShapeFault::UnknownAttribute)
    } else {
        None
    }
}

fn allowed_key(allowed: &[&str], key: &str) -> (r: bool)
    ensures
        r == is_allowed(allowed@, key@),
{
    let mut j: usize = 0;
    while j < allowed.len()
        invariant
            j <= allowed@.len(),
            forall|k: int| 0 <= k < j ==> allowed@[k]@ != key@,
        decreases allowed@.len() - j,
    {
        if same_text(allowed[j], key) {
            return true;
        }
        j = j + 1;
    }
    false
}

/// Checks the name, the absence of child elements and the attributes of `e`.
pub fn check_shape(e: &Element, name: &str, ns: &str, allowed: &[&str]) -> (r: Option<ShapeFault>)
    ensures
        r == shape_fault(*e, name@, ns@, allowed@),
{
    if !e.is(name, ns) {
        return Some(ShapeFault::WrongName);
    }
    if e.has_element_children() {
        return Some(ShapeFault::HasChild);
    }
    let mut i: usize = 0;
    while i < e.attrs.len()
        invariant
            i <= e.attrs@.len(),
            e.name@ == name@ && e.ns@ == ns@,
            !has_element_child(e.children@),
            forall|k: int| 0 <= k < i ==> is_allowed(allowed@, #[trigger] e.attrs@[k].0@),
        decreases e.attrs@.len() - i,
    {
        if !allowed_key(allowed, e.attrs[i].0.as_str()) {
            assert(!is_allowed(allowed@, e.attrs@[i as int].0@));
            return Some(ShapeFault::UnknownAttribute);
        }
        i = i + 1;
    }
    None
}

} // verus!
