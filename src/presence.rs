//! The `<presence/>` stanza.

use vstd::prelude::*;
use crate::element::{attr_value, is_text_element, has_element_child, nodes_text, Element, Node};
use crate::error::{int_parse, parse_i8, Error, JidParseError, ParseIntError};
use crate::jid::{jid_parse, Jid};
use crate::ns::JABBER_CLIENT;
use crate::text::{int_text, int_to_text, same_text};

verus! {

/// A payload that can be carried by a `<presence/>`.
pub trait PresencePayload {
    /// The payload as an element.
    fn into_element(self) -> Element;
}

/// The availability of an entity or resource.
#[derive(Clone, Copy, Debug, PartialEq, Eq, Structural)]
pub enum Show {
    /// No show value is set.
    Unset,
    /// Temporarily away.
    Away,
    /// Actively interested in chatting.
    Chat,
    /// Busy ("do not disturb").
    Dnd,
    /// Away for an extended period.
    Xa,
}

impl Default for Show {
    fn default() -> (r: Show)
        ensures
            r == Show::Unset,
    {
        Show::Unset
    }
}

/// The show value that a `<show/>` text names.
pub open spec fn show_of(s: Seq<char>) -> Option<Show> {
    if s == "away"@ {
        Some(Show::Away)
    } else if s == "chat"@ {
        Some(Show::Chat)
    } else if s == "dnd"@ {
        Some(Show::Dnd)
    } else if s == "xa"@ {
        Some(Show::Xa)
    } else {
        None
    }
}

/// The text of the `<show/>` element for a show value; none when it is unset.
pub open spec fn show_text(s: Show) -> Option<Seq<char>> {
    match s {
        Show::Unset => None,
        Show::Away => Some("away"@),
        Show::Chat => Some("chat"@),
        Show::Dnd => Some("dnd"@),
        Show::Xa => Some("xa"@),
    }
}

impl Show {
    /// Reads a show value.
    pub fn from_str(s: &str) -> (r: Result<Show, Error>)
        ensures
            match show_of(s@) {
                Some(v) => r == Ok::<Show, Error>(v),
                None => r == Err::<Show, Error>(Error::ParseError("Invalid value for show.")),
            },
    {
        if same_text(s, "away") {
            Ok(Show::Away)
        } else if same_text(s, "chat") {
            Ok(Show::Chat)
        } else if same_text(s, "dnd") {
            Ok(Show::Dnd)
        } else if same_text(s, "xa") {
            Ok(Show::Xa)
        } else {
            Err(Error::ParseError("Invalid value for show."))
        }
    }

    /// The text of the `<show/>` element; none when the value is unset.
    pub fn text(&self) -> (r: Option<&'static str>)
        ensures
            match show_text(*self) {
                Some(t) => r matches Some(x) && x@ == t,
                None => r is None,
            },
    {
        match self {
            Show::Unset => None,
            Show::Away => Some("away"),
            Show::Chat => Some("chat"),
            Show::Dnd => Some("dnd"),
            Show::Xa => Some("xa"),
        }
    }

    /// The `<show/>` element for this value; none when it is unset.
    pub fn into_element(self) -> (r: Option<Element>)
        ensures
            match show_text(self) {
                Some(t) => r matches Some(e) && is_text_element(e, "show"@, JABBER_CLIENT@, t),
                None => r is None,
            },
    {
        match self.text() {
            Some(t) => Some(Element::new("show", JABBER_CLIENT).with_text(String::from_str(t))),
            None => None,
        }
    }
}

/// The type of a presence stanza.
#[derive(Clone, Copy, Debug, PartialEq, Eq, Structural)]
pub enum Type {
    /// No `type` attribute: the sender is available.
    Unset,
    /// An error occurred about a presence that was sent earlier.
    Error,
    /// A request for an entity's current presence.
    Probe,
    /// The sender wishes to subscribe to the recipient's presence.
    Subscribe,
    /// The sender allowed the recipient to receive their presence.
    Subscribed,
    /// The sender is no longer available.
    Unavailable,
    /// The sender is unsubscribing from the recipient's presence.
    Unsubscribe,
    /// A subscription request was denied, or a subscription cancelled.
    Unsubscribed,
}

impl Default for Type {
    fn default() -> (r: Type)
        ensures
            r == Type::Unset,
    {
        Type::Unset
    }
}

/// The type that a `type` attribute names.
pub open spec fn type_of(s: Seq<char>) -> Option<Type> {
    if s == "error"@ {
        Some(Type::Error)
    } else if s == "probe"@ {
        Some(Type::Probe)
    } else if s == "subscribe"@ {
        Some(Type::Subscribe)
    } else if s == "subscribed"@ {
        Some(Type::Subscribed)
    } else if s == "unavailable"@ {
        Some(Type::Unavailable)
    } else if s == "unsubscribe"@ {
        Some(Type::Unsubscribe)
    } else if s == "unsubscribed"@ {
        Some(Type::Unsubscribed)
    } else {
        None
    }
}

/// The `type` attribute for a type; none when it is unset.
pub open spec fn type_text(t: Type) -> Option<Seq<char>> {
    match t {
        Type::Unset => None,
        Type::Error => Some("error"@),
        Type::Probe => Some("probe"@),
        Type::Subscribe => Some("subscribe"@),
        Type::Subscribed => Some("subscribed"@),
        Type::Unavailable => Some("unavailable"@),
        Type::Unsubscribe => Some("unsubscribe"@),
        Type::Unsubscribed => Some("unsubscribed"@),
    }
}

impl Type {
    /// Reads a presence type.
    pub fn from_str(s: &str) -> (r: Result<Type, Error>)
        ensures
            match type_of(s@) {
                Some(v) => r == Ok::<Type, Error>(v),
                None => r == Err::<Type, Error>(
                    Error::ParseError("Invalid 'type' attribute on presence element."),
                ),
            },
    {
        if same_text(s, "error") {
            Ok(Type::Error)
        } else if same_text(s, "probe") {
            Ok(Type::Probe)
        } else if same_text(s, "subscribe") {
            Ok(Type::Subscribe)
        } else if same_text(s, "subscribed") {
            Ok(Type::Subscribed)
        } else if same_text(s, "unavailable") {
            Ok(Type::Unavailable)
        } else if same_text(s, "unsubscribe") {
            Ok(Type::Unsubscribe)
        } else if same_text(s, "unsubscribed") {
            Ok(Type::Unsubscribed)
        } else {
            Err(Error::ParseError("Invalid 'type' attribute on presence element."))
        }
    }

    /// The `type` attribute value; none when the type is unset.
    pub fn into_attribute_value(self) -> (r: Option<String>)
        ensures
            match type_text(self) {
                Some(t) => r matches Some(x) && x@ == t,
                None => r is None,
            },
    {
        let t: &str = match self {
            Type::Unset => {
                return None;
            },
            Type::Error => "error",
            Type::Probe => "probe",
            Type::Subscribe => "subscribe",
            Type::Subscribed => "subscribed",
            Type::Unavailable => "unavailable",
            Type::Unsubscribe => "unsubscribe",
            Type::Unsubscribed => "unsubscribed",
        };
        Some(String::from_str(t))
    }
}

} // verus!

verus! {

/// The availability, priority, statuses (by language) and payloads read from
/// the children of a presence.
pub type PresenceFields = (Option<Show>, Option<i8>, Seq<(Seq<char>, Seq<char>)>, Seq<Element>);

/// Whether `statuses` holds one for the language `lang`.
pub open spec fn has_lang(statuses: Seq<(Seq<char>, Seq<char>)>, lang: Seq<char>) -> bool {
    exists|i: int| 0 <= i < statuses.len() && #[trigger] statuses[i].0 == lang
}

/// Whether every attribute is `xml:lang`.
pub open spec fn only_lang_attr(attrs: Seq<(String, String)>) -> bool {
    forall|i: int| 0 <= i < attrs.len() ==> #[trigger] attrs[i].0@ == "xml:lang"@
}

/// Whether no two statuses have the same language.
pub open spec fn langs_unique(v: Seq<(String, String)>) -> bool {
    forall|i: int, j: int| 0 <= i < j < v.len() ==> v[i].0@ != v[j].0@
}

/// The statuses as text pairs.
pub open spec fn statuses_view(v: Seq<(String, String)>) -> Seq<(Seq<char>, Seq<char>)> {
    Seq::new(v.len(), |i: int| (v[i].0@, v[i].1@))
}

/// One child of a presence, read after the ones before it.
pub open spec fn presence_child(acc: PresenceFields, child: Node) -> Result<PresenceFields, Error> {
    let (show, priority, statuses, payloads) = acc;
    match child {
        Node::Text(_) => Ok(acc),
        Node::Element(e) => {
            let text = nodes_text(e.children@);
            if e.name@ == "show"@ && e.ns@ == JABBER_CLIENT@ {
                if show is Some {
                    Err(Error::ParseError("More than one show element in a presence."))
                } else if e.attrs@.len() != 0 {
                    Err(Error::ParseError("Unknown attribute in show element."))
                } else if has_element_child(e.children@) {
                    Err(Error::ParseError("Unknown child in show element."))
                } else {
                    match show_of(text) {
                        Some(s) => Ok((Some(s), priority, statuses, payloads)),
                        None => Err(Error::ParseError("Invalid value for show.")),
                    }
                }
            } else if e.name@ == "status"@ && e.ns@ == JABBER_CLIENT@ {
                if !only_lang_attr(e.attrs@) {
                    Err(Error::ParseError("Unknown attribute in status element."))
                } else if has_element_child(e.children@) {
                    Err(Error::ParseError("Unknown child in status element."))
                } else {
                    let lang = match attr_value(e.attrs@, "xml:lang"@) {
                        Some(l) => l,
                        None => Seq::empty(),
                    };
                    if has_lang(statuses, lang) {
                        Err(Error::ParseError("Status element present twice for the same xml:lang."))
                    } else {
                        Ok((show, priority, statuses.push((lang, text)), payloads))
                    }
                }
            } else if e.name@ == "priority"@ && e.ns@ == JABBER_CLIENT@ {
                if priority is Some {
                    Err(Error::ParseError("More than one priority element in a presence."))
                } else if e.attrs@.len() != 0 {
                    Err(Error::ParseError("Unknown attribute in priority element."))
                } else if has_element_child(e.children@) {
                    Err(Error::ParseError("Unknown child in priority element."))
                } else {
                    match int_parse(text, -128, 127) {
                        Ok(v) => Ok((show, Some(v as i8), statuses, payloads)),
                        Err(k) => Err(Error::ParseIntError(ParseIntError { kind: k })),
                    }
                }
            } else {
                Ok((show, priority, statuses, payloads.push(e)))
            }
        },
    }
}

/// The children of a presence, read in order; the first error stops the reading.
pub open spec fn presence_children(children: Seq<Node>) -> Result<PresenceFields, Error>
    decreases children.len(),
{
    if children.len() == 0 {
        Ok((None, None, Seq::empty(), Seq::empty()))
    } else {
        match presence_children(children.drop_last()) {
            Ok(acc) => presence_child(acc, children.last()),
            Err(e) => Err(e),
        }
    }
}

proof fn lemma_presence_error_stays(children: Seq<Node>, k: int)
    requires
        0 <= k <= children.len(),
        presence_children(children.take(k)) is Err,
    ensures
        presence_children(children) == presence_children(children.take(k)),
    decreases children.len() - k,
{
    if k < children.len() {
        assert(children.take(k + 1).drop_last() == children.take(k));
        lemma_presence_error_stays(children, k + 1);
    } else {
        assert(children.take(k) == children);
    }
}

/// A JID attribute: absent, or read as a JID.
pub open spec fn jid_attr(attrs: Seq<(String, String)>, key: Seq<char>) -> Result<
    Option<(Option<Seq<char>>, Seq<char>, Option<Seq<char>>)>,
    Error,
> {
    match attr_value(attrs, key) {
        None => Ok(None),
        Some(v) => match jid_parse(v) {
            Ok(p) => Ok(Some(p)),
            Err(e) => Err(Error::JidParseError(e)),
        },
    }
}

/// The parts of an optional JID.
pub open spec fn opt_jid_parts(j: Option<Jid>) -> Option<(Option<Seq<char>>, Seq<char>, Option<Seq<char>>)> {
    match j {
        Some(j) => Some(j.parts()),
        None => None,
    }
}

/// The view of an optional text.
pub open spec fn opt_text(o: Option<String>) -> Option<Seq<char>> {
    match o {
        Some(s) => Some(s@),
        None => None,
    }
}

/// The main structure representing the `<presence/>` stanza.
#[derive(Debug, PartialEq)]
pub struct Presence {
    /// The sender of this presence.
    pub from: Option<Jid>,
    /// The recipient of this presence.
    pub to: Option<Jid>,
    /// The identifier, unique on this stream, of this stanza.
    pub id: Option<String>,
    /// The type of this presence stanza.
    pub type_: Type,
    /// The availability of the sender.
    pub show: Show,
    /// The statuses, one per language (the empty language when none is given).
    pub statuses: Vec<(String, String)>,
    /// The priority of the sender's resource.
    pub priority: i8,
    /// The other children of this presence.
    pub payloads: Vec<Element>,
}

fn read_jid_attr(root: &Element, key: &str) -> (r: Result<Option<Jid>, Error>)
    ensures
        match jid_attr(root.attrs@, key@) {
            Ok(p) => r matches Ok(j) && opt_jid_parts(j) == p,
            Err(e) => r == Err::<Option<Jid>, Error>(e),
        },
{
    match root.attr(key) {
        None => Ok(None),
        Some(v) => match Jid::from_str(v.as_str()) {
            Ok(j) => Ok(Some(j)),
            Err(e) => Err(Error::JidParseError(e)),
        },
    }
}

fn find_lang(statuses: &Vec<(String, String)>, lang: &str) -> (r: bool)
    ensures
        r == has_lang(statuses_view(statuses@), lang@),
{
    let mut i: usize = 0;
    while i < statuses.len()
        invariant
            i <= statuses@.len(),
            forall|j: int| 0 <= j < i ==> statuses@[j].0@ != lang@,
        decreases statuses@.len() - i,
    {
        if same_text(statuses[i].0.as_str(), lang) {
            assert(statuses_view(statuses@)[i as int].0 == lang@);
            return true;
        }
        i = i + 1;
    }
    assert forall|j: int| 0 <= j < statuses_view(statuses@).len() implies #[trigger] statuses_view(
        statuses@,
    )[j].0 != lang@ by {
    }
    false
}

fn only_lang(attrs: &Vec<(String, String)>) -> (r: bool)
    ensures
        r == only_lang_attr(attrs@),
{
    let mut i: usize = 0;
    while i < attrs.len()
        invariant
            i <= attrs@.len(),
            forall|j: int| 0 <= j < i ==> #[trigger] attrs@[j].0@ == "xml:lang"@,
        decreases attrs@.len() - i,
    {
        if !same_text(attrs[i].0.as_str(), "xml:lang") {
            return false;
        }
        i = i + 1;
    }
    true
}

impl Presence {
    /// A presence of this type, with nothing else set.
    pub fn new(type_: Type) -> (r: Presence)
        ensures
            r.from is None,
            r.to is None,
            r.id is None,
            r.type_ == type_,
            r.show == Show::Unset,
            r.statuses@.len() == 0,
            r.priority == 0,
            r.payloads@.len() == 0,
            langs_unique(r.statuses@),
    {
        Presence {
            from: None,
            to: None,
            id: None,
            type_,
            show: Show::Unset,
            statuses: Vec::new(),
            priority: 0,
            payloads: Vec::new(),
        }
    }

    /// Reads a `<presence/>` element.
    pub fn try_from(root: Element) -> (r: Result<Presence, Error>)
        ensures
            !(root.name@ == "presence"@ && root.ns@ == JABBER_CLIENT@) ==> r == Err::<Presence, Error>(
                Error::ParseError("This is not a presence element."),
            ),
            root.name@ == "presence"@ && root.ns@ == JABBER_CLIENT@ ==> {
                if jid_attr(root.attrs@, "from"@) is Err {
                    r == Err::<Presence, Error>(jid_attr(root.attrs@, "from"@)->Err_0)
                } else if jid_attr(root.attrs@, "to"@) is Err {
                    r == Err::<Presence, Error>(jid_attr(root.attrs@, "to"@)->Err_0)
                } else if attr_value(root.attrs@, "type"@) matches Some(t) && type_of(t) is None {
                    r == Err::<Presence, Error>(
                        Error::ParseError("Invalid 'type' attribute on presence element."),
                    )
                } else {
                    match presence_children(root.children@) {
                        Err(e) => r == Err::<Presence, Error>(e),
                        Ok((show, priority, statuses, payloads)) => r matches Ok(p) && {
                            &&& opt_jid_parts(p.from) == jid_attr(root.attrs@, "from"@)->Ok_0
                            &&& opt_jid_parts(p.to) == jid_attr(root.attrs@, "to"@)->Ok_0
                            &&& opt_text(p.id) == attr_value(root.attrs@, "id"@)
                            &&& p.type_ == match attr_value(root.attrs@, "type"@) {
                                Some(t) => type_of(t)->0,
                                None => Type::Unset,
                            }
                            &&& p.show == match show {
                                Some(s) => s,
                                None => Show::Unset,
                            }
                            &&& p.priority == match priority {
                                Some(v) => v,
                                None => 0i8,
                            }
                            &&& statuses_view(p.statuses@) == statuses
                            &&& langs_unique(p.statuses@)
                            &&& p.payloads@ == payloads
                        },
                    }
                }
            },
    {
        if !root.is("presence", JABBER_CLIENT) {
            return Err(Error::ParseError("This is not a presence element."));
        }
        let from = read_jid_attr(&root, "from")?;
        let to = read_jid_attr(&root, "to")?;
        let id = root.attr("id");
        let type_ = match root.attr("type") {
            Some(t) => Type::from_str(t.as_str())?,
            None => Type::Unset,
        };
        let Element { name, ns, attrs, children } = root;
        let ghost all = children@;
        let mut show: Option<Show> = None;
        let mut priority: Option<i8> = None;
        let mut statuses: Vec<(String, String)> = Vec::new();
        let mut payloads: Vec<Element> = Vec::new();
        proof {
            assert(all.take(0) == Seq::<Node>::empty());
            assert(statuses_view(statuses@) =~= Seq::<(Seq<char>, Seq<char>)>::empty());
        }
        for child in it: children.into_iter()
            invariant
                it.seq() == all,
                all == root.children@,
                root.name@ == "presence"@ && root.ns@ == JABBER_CLIENT@,
                jid_attr(root.attrs@, "from"@) is Ok,
                jid_attr(root.attrs@, "to"@) is Ok,
                !(attr_value(root.attrs@, "type"@) matches Some(t) && type_of(t) is None),
                langs_unique(statuses@),
                presence_children(all.take(it.index() as int)) == Ok::<PresenceFields, Error>(
                    (show, priority, statuses_view(statuses@), payloads@),
                ),
        {
            let ghost k = it.index() as int;
            proof {
                assert(all.take(k + 1).drop_last() == all.take(k));
                assert(all.take(k + 1).last() == child);
            }
            match child {
                Node::Text(_) => {},
                Node::Element(e) => {
                    if e.is("show", JABBER_CLIENT) {
                        if show.is_some() {
                            proof { lemma_presence_error_stays(all, k + 1); }
                            return Err(Error::ParseError("More than one show element in a presence."));
                        }
                        if e.attrs.len() != 0 {
                            proof { lemma_presence_error_stays(all, k + 1); }
                            return Err(Error::ParseError("Unknown attribute in show element."));
                        }
                        if e.has_element_children() {
                            proof { lemma_presence_error_stays(all, k + 1); }
                            return Err(Error::ParseError("Unknown child in show element."));
                        }
                        let text = e.text();
                        match Show::from_str(text.as_str()) {
                            Ok(s) => {
                                show = Some(s);
                            },
                            Err(err) => {
                                proof { lemma_presence_error_stays(all, k + 1); }
                                return Err(err);
                            },
                        }
                    } else if e.is("status", JABBER_CLIENT) {
                        if !only_lang(&e.attrs) {
                            proof { lemma_presence_error_stays(all, k + 1); }
                            return Err(Error::ParseError("Unknown attribute in status element."));
                        }
                        if e.has_element_children() {
                            proof { lemma_presence_error_stays(all, k + 1); }
                            return Err(Error::ParseError("Unknown child in status element."));
                        }
                        let lang = match e.attr("xml:lang") {
                            Some(l) => l,
                            None => String::new(),
                        };
                        if find_lang(&statuses, lang.as_str()) {
                            proof { lemma_presence_error_stays(all, k + 1); }
                            return Err(
                                Error::ParseError("Status element present twice for the same xml:lang."),
                            );
                        }
                        let text = e.text();
                        let ghost before = statuses@;
                        let ghost entry = (lang@, text@);
                        statuses.push((lang, text));
                        proof {
                            assert(statuses_view(statuses@) =~= statuses_view(before).push(entry));
                            assert forall|a: int, b: int| 0 <= a < b < statuses@.len() implies statuses@[a].0@
                                != statuses@[b].0@ by {
                                if b == before.len() {
                                    assert(statuses_view(before)[a].0 == before[a].0@);
                                }
                            }
                        }
                    } else if e.is("priority", JABBER_CLIENT) {
                        if priority.is_some() {
                            proof { lemma_presence_error_stays(all, k + 1); }
                            return Err(Error::ParseError("More than one priority element in a presence."));
                        }
                        if e.attrs.len() != 0 {
                            proof { lemma_presence_error_stays(all, k + 1); }
                            return Err(Error::ParseError("Unknown attribute in priority element."));
                        }
                        if e.has_element_children() {
                            proof { lemma_presence_error_stays(all, k + 1); }
                            return Err(Error::ParseError("Unknown child in priority element."));
                        }
                        let text = e.text();
                        match parse_i8(text.as_str()) {
                            Ok(v) => {
                                priority = Some(v);
                            },
                            Err(err) => {
                                proof { lemma_presence_error_stays(all, k + 1); }
                                return Err(Error::ParseIntError(err));
                            },
                        }
                    } else {
                        payloads.push(e);
                    }
                },
            }
        }
        proof {
            assert(all.take(all.len() as int) == all);
        }
        Ok(Presence {
            from,
            to,
            id,
            type_,
            show: match show {
                Some(s) => s,
                None => Show::Unset,
            },
            statuses,
            priority: match priority {
                Some(v) => v,
                None => 0,
            },
            payloads,
        })
    }
}

} // verus!

verus! {

/// Attributes as text pairs.
pub open spec fn attr_views(attrs: Seq<(String, String)>) -> Seq<(Seq<char>, Seq<char>)> {
    Seq::new(attrs.len(), |i: int| (attrs[i].0@, attrs[i].1@))
}

/// One attribute when the value is present, none otherwise.
pub open spec fn opt_attr(key: Seq<char>, value: Option<Seq<char>>) -> Seq<(Seq<char>, Seq<char>)> {
    match value {
        Some(v) => seq![(key, v)],
        None => Seq::empty(),
    }
}

/// The written form of an optional JID.
pub open spec fn opt_jid_text(j: Option<Jid>) -> Option<Seq<char>> {
    match j {
        Some(j) => Some(
            crate::jid::jid_text(crate::jid::opt_view(j.node), j.domain@, crate::jid::opt_view(j.resource)),
        ),
        None => None,
    }
}

/// Whether `e` is the `<status/>` element for `text` in the language `lang`
/// (no `xml:lang` for the empty language).
pub open spec fn is_status_element(e: Element, lang: Seq<char>, text: Seq<char>) -> bool {
    &&& e.name@ == "status"@
    &&& e.ns@ == JABBER_CLIENT@
    &&& attr_views(e.attrs@) == opt_attr(
        "xml:lang"@,
        if lang.len() == 0 {
            None
        } else {
            Some(lang)
        },
    )
    &&& e.children@.len() == 1
    &&& (e.children@[0] matches Node::Text(x) && x@ == text)
}

fn with_opt_attr(e: Element, key: &str, value: Option<String>) -> (r: Element)
    ensures
        r.name == e.name,
        r.ns == e.ns,
        r.children == e.children,
        attr_views(r.attrs@) == attr_views(e.attrs@) + opt_attr(key@, opt_text(value)),
{
    match value {
        Some(v) => {
            let r = e.with_attr(key, v);
            assert(attr_views(r.attrs@) =~= attr_views(e.attrs@) + opt_attr(key@, opt_text(Some(v))));
            r
        },
        None => {
            assert(attr_views(e.attrs@) + opt_attr(key@, None) =~= attr_views(e.attrs@));
            e
        },
    }
}

fn status_element(lang: String, text: String) -> (r: Element)
    ensures
        is_status_element(r, lang@, text@),
{
    let e = Element::new("status", JABBER_CLIENT);
    let e = if lang.as_str().is_empty() {
        assert(attr_views(e.attrs@) =~= opt_attr("xml:lang"@, None));
        e
    } else {
        let ghost l = lang@;
        let r = e.with_attr("xml:lang", lang);
        assert(attr_views(r.attrs@) =~= opt_attr("xml:lang"@, Some(l)));
        r
    };
    e.with_text(text)
}

impl Presence {
    /// Sets the sender.
    pub fn with_from(self, from: Option<Jid>) -> (r: Presence)
        ensures
            r == (Presence { from, ..self }),
    {
        let mut p = self;
        p.from = from;
        p
    }

    /// Sets the recipient (a directed presence).
    pub fn with_to(self, to: Option<Jid>) -> (r: Presence)
        ensures
            r == (Presence { to, ..self }),
    {
        let mut p = self;
        p.to = to;
        p
    }

    /// Sets the identifier.
    pub fn with_id(self, id: Option<String>) -> (r: Presence)
        ensures
            r == (Presence { id, ..self }),
    {
        let mut p = self;
        p.id = id;
        p
    }

    /// Sets the availability.
    pub fn with_show(self, show: Show) -> (r: Presence)
        ensures
            r == (Presence { show, ..self }),
    {
        let mut p = self;
        p.show = show;
        p
    }

    /// Sets the priority.
    pub fn with_priority(self, priority: i8) -> (r: Presence)
        ensures
            r == (Presence { priority, ..self }),
    {
        let mut p = self;
        p.priority = priority;
        p
    }

    /// Sets the payloads.
    pub fn with_payloads(self, payloads: Vec<Element>) -> (r: Presence)
        ensures
            r == (Presence { payloads, ..self }),
    {
        let mut p = self;
        p.payloads = payloads;
        p
    }

    /// Sets the status for the language `lang`, replacing the one it had.
    pub fn set_status(&mut self, lang: String, status: String)
        ensures
            final(self).from == old(self).from,
            final(self).to == old(self).to,
            final(self).id == old(self).id,
            final(self).type_ == old(self).type_,
            final(self).show == old(self).show,
            final(self).priority == old(self).priority,
            final(self).payloads == old(self).payloads,
            has_lang(statuses_view(old(self).statuses@), lang@) ==> exists|i: int|
                0 <= i < old(self).statuses@.len() && old(self).statuses@[i].0@ == lang@
                    && statuses_view(final(self).statuses@) == statuses_view(
                    old(self).statuses@,
                ).update(i, (lang@, status@)),
            !has_lang(statuses_view(old(self).statuses@), lang@) ==> statuses_view(
                final(self).statuses@,
            ) == statuses_view(old(self).statuses@).push((lang@, status@)),
            langs_unique(old(self).statuses@) ==> langs_unique(final(self).statuses@),
    {
        let mut i: usize = 0;
        while i < self.statuses.len()
            invariant
                i <= self.statuses@.len(),
                self == old(self),
                forall|j: int| 0 <= j < i ==> self.statuses@[j].0@ != lang@,
            decreases self.statuses@.len() - i,
        {
            if same_text(self.statuses[i].0.as_str(), lang.as_str()) {
                let ghost before = self.statuses@;
                let ghost entry = (lang@, status@);
                assert(statuses_view(before)[i as int].0 == lang@);
                self.statuses.set(i, (lang, status));
                proof {
                    assert(statuses_view(self.statuses@) =~= statuses_view(before).update(
                        i as int,
                        entry,
                    ));
                    assert forall|a: int, b: int| 0 <= a < b < self.statuses@.len() && langs_unique(before) implies self.statuses@[a].0@
                        != self.statuses@[b].0@ by {
                        assert(self.statuses@[a].0@ == (if a == i { lang@ } else { before[a].0@ }));
                        assert(self.statuses@[b].0@ == (if b == i { lang@ } else { before[b].0@ }));
                    }
                }
                return;
            }
            i = i + 1;
        }
        let ghost before = self.statuses@;
        let ghost entry = (lang@, status@);
        self.statuses.push((lang, status));
        proof {
            assert(statuses_view(self.statuses@) =~= statuses_view(before).push(entry));
            assert forall|j: int| 0 <= j < statuses_view(before).len() implies #[trigger] statuses_view(
                before,
            )[j].0 != lang@ by {}
            assert forall|a: int, b: int| 0 <= a < b < self.statuses@.len() && langs_unique(before) implies self.statuses@[a].0@
                != self.statuses@[b].0@ by {
                if b == before.len() {
                    assert(self.statuses@[b].0@ == lang@);
                }
            }
        }
    }

    /// The status for the language `lang`, if there is one.
    pub fn status(&self, lang: &str) -> (r: Option<String>)
        ensures
            match r {
                Some(s) => exists|i: int|
                    0 <= i < self.statuses@.len() && self.statuses@[i].0@ == lang@
                        && self.statuses@[i].1@ == s@,
                None => !has_lang(statuses_view(self.statuses@), lang@),
            },
    {
        let mut i: usize = 0;
        while i < self.statuses.len()
            invariant
                i <= self.statuses@.len(),
                forall|j: int| 0 <= j < i ==> self.statuses@[j].0@ != lang@,
            decreases self.statuses@.len() - i,
        {
            if same_text(self.statuses[i].0.as_str(), lang) {
                return Some(self.statuses[i].1.clone());
            }
            i = i + 1;
        }
        assert forall|j: int| 0 <= j < statuses_view(self.statuses@).len() implies #[trigger] statuses_view(
            self.statuses@,
        )[j].0 != lang@ by {}
        None
    }

    /// Adds a payload.
    pub fn add_payload<P: PresencePayload>(&mut self, payload: P)
        ensures
            final(self).payloads@.len() == old(self).payloads@.len() + 1,
            final(self).payloads@.take(old(self).payloads@.len() as int) == old(self).payloads@,
            final(self).from == old(self).from,
            final(self).to == old(self).to,
            final(self).id == old(self).id,
            final(self).type_ == old(self).type_,
            final(self).show == old(self).show,
            final(self).statuses == old(self).statuses,
            final(self).priority == old(self).priority,
    {
        let e = payload.into_element();
        self.payloads.push(e);
        assert(self.payloads@.take(old(self).payloads@.len() as int) =~= old(self).payloads@);
    }

    /// The `<presence/>` element: its attributes, then the show, the statuses,
    /// the priority when it is not zero, and the payloads.
    pub fn into_element(self) -> (r: Element)
        ensures
            r.name@ == "presence"@,
            r.ns@ == JABBER_CLIENT@,
            attr_views(r.attrs@) == opt_attr("from"@, opt_jid_text(self.from)) + opt_attr(
                "to"@,
                opt_jid_text(self.to),
            ) + opt_attr("id"@, opt_text(self.id)) + opt_attr("type"@, type_text(self.type_)),
            ({
                let ns = if show_text(self.show) is Some {
                    1int
                } else {
                    0int
                };
                let n = self.statuses@.len() as int;
                let np = if self.priority != 0 {
                    1int
                } else {
                    0int
                };
                &&& r.children@.len() == ns + n + np + self.payloads@.len()
                &&& (show_text(self.show) matches Some(t) ==> (r.children@[0] matches Node::Element(
                    e,
                ) && is_text_element(e, "show"@, JABBER_CLIENT@, t)))
                &&& forall|i: int|
                    0 <= i < n ==> (#[trigger] r.children@[ns + i] matches Node::Element(e)
                        && is_status_element(e, self.statuses@[i].0@, self.statuses@[i].1@))
                &&& (self.priority != 0 ==> (r.children@[ns + n] matches Node::Element(e)
                    && is_text_element(e, "priority"@, JABBER_CLIENT@, int_text(self.priority as int))))
                &&& forall|j: int|
                    0 <= j < self.payloads@.len() ==> #[trigger] r.children@[ns + n + np + j]
                        == Node::Element(self.payloads@[j])
            }),
    {
        let Presence { from, to, id, type_, show, statuses, priority, payloads } = self;
        let e = Element::new("presence", JABBER_CLIENT);
        proof {
            assert(attr_views(e.attrs@) =~= Seq::<(Seq<char>, Seq<char>)>::empty());
        }
        let from_text = match &from {
            Some(j) => Some(j.to_string()),
            None => None,
        };
        let to_text = match &to {
            Some(j) => Some(j.to_string()),
            None => None,
        };
        let e = with_opt_attr(e, "from", from_text);
        let e = with_opt_attr(e, "to", to_text);
        let e = with_opt_attr(e, "id", id);
        let e = with_opt_attr(e, "type", type_.into_attribute_value());
        proof {
            assert(Seq::<(Seq<char>, Seq<char>)>::empty() + opt_attr("from"@, opt_jid_text(from))
                == opt_attr("from"@, opt_jid_text(from)));
        }
        let Element { name, ns, attrs, children } = e;
        let mut children: Vec<Node> = children;
        match show.into_element() {
            Some(s) => children.push(Node::Element(s)),
            None => {},
        }
        let ghost base = children@.len() as int;
        let ghost st = statuses@;
        for entry in it: statuses.into_iter()
            invariant
                it.seq() == st,
                base == (if show_text(show) is Some { 1int } else { 0int }),
                children@.len() == base + it.index(),
                show_text(show) matches Some(t) ==> (children@[0] matches Node::Element(e)
                    && is_text_element(e, "show"@, JABBER_CLIENT@, t)),
                forall|i: int|
                    0 <= i < it.index() ==> (#[trigger] children@[base + i] matches Node::Element(e)
                        && is_status_element(e, st[i].0@, st[i].1@)),
        {
            let (lang, text) = entry;
            let s = status_element(lang, text);
            children.push(Node::Element(s));
        }
        let ghost before_priority = children@;
        if priority != 0 {
            let text = int_to_text(priority as i64);
            children.push(Node::Element(Element::new("priority", JABBER_CLIENT).with_text(text)));
        }
        proof {
            let nshow = if show_text(show) is Some { 1int } else { 0int };
            let n = st.len() as int;
            assert(children@.len() == nshow + n + if priority != 0 { 1int } else { 0int });
            assert(show_text(show) matches Some(t) ==> (children@[0] matches Node::Element(e)
                    && is_text_element(e, "show"@, JABBER_CLIENT@, t)));
            assert(forall|i: int| 0 <= i < n ==> (#[trigger] children@[nshow + i] matches Node::Element(e)
                        && is_status_element(e, st[i].0@, st[i].1@)));
            assert(priority != 0 ==> (children@[nshow + n] matches Node::Element(e)
                    && is_text_element(e, "priority"@, JABBER_CLIENT@, int_text(priority as int))));
        }
        let ghost upto = children@.len() as int;
        let ghost prefix = children@;
        let ghost pl = payloads@;
        for p in it: payloads.into_iter()
            invariant
                it.seq() == pl,
                children@.len() == upto + it.index(),
                upto == prefix.len(),
                children@.take(upto) == prefix,
                forall|j: int| 0 <= j < it.index() ==> #[trigger] children@[upto + j] == Node::Element(pl[j]),
        {
            let ghost before = children@;
            children.push(Node::Element(p));
            proof {
                assert(children@.take(upto) =~= before.take(upto));
            }
        }
        proof {
            assert forall|k: int| 0 <= k < upto implies children@[k] == prefix[k] by {
                assert(children@.take(upto)[k] == children@[k]);
            }
            let nshow = if show_text(show) is Some { 1int } else { 0int };
            let n = st.len() as int;
            assert(upto == nshow + n + if priority != 0 { 1int } else { 0int });
            assert(show_text(show) matches Some(t) ==> (children@[0] matches Node::Element(e)
                    && is_text_element(e, "show"@, JABBER_CLIENT@, t)));
            assert forall|i: int| 0 <= i < n implies (#[trigger] children@[nshow + i] matches Node::Element(e)
                        && is_status_element(e, st[i].0@, st[i].1@)) by {
                assert(children@[nshow + i] == prefix[nshow + i]);
            }
            assert(priority != 0 ==> (children@[nshow + n] matches Node::Element(e)
                    && is_text_element(e, "priority"@, JABBER_CLIENT@, int_text(priority as int))));
        }
        Element { name, ns, attrs, children }
    }
}

} // verus!
