//! Jabber identifiers: `node@domain/resource`, node and resource optional.

use vstd::prelude::*;
use crate::error::JidParseError;
use crate::text::{append_str, chars_of, find_char, find_char_in, text_of};

verus! {

/// A JID; a bare one has no resource, a full one has one.
#[derive(Clone, Debug, PartialEq)]
pub struct Jid {
    /// The part before `@`, if any.
    pub node: Option<String>,
    /// The server part.
    pub domain: String,
    /// The part after `/`, if any.
    pub resource: Option<String>,
}

/// The parts of a JID written as `s`: the node ends at the first `@` that
/// comes before the first `/`, the resource starts after that `/`.
pub open spec fn jid_parts(s: Seq<char>) -> (Option<Seq<char>>, Seq<char>, Option<Seq<char>>) {
    let slash = find_char(s, '/', 0);
    let at = find_char(s, '@', 0);
    let node = if at < slash {
        Some(s.subrange(0, at))
    } else {
        None
    };
    let domain = if at < slash {
        s.subrange(at + 1, slash)
    } else {
        s.subrange(0, slash)
    };
    let resource = if slash < s.len() {
        Some(s.subrange(slash + 1, s.len() as int))
    } else {
        None
    };
    (node, domain, resource)
}

/// What reading `s` as a JID gives.
pub open spec fn jid_parse(s: Seq<char>) -> Result<
    (Option<Seq<char>>, Seq<char>, Option<Seq<char>>),
    JidParseError,
> {
    let (node, domain, resource) = jid_parts(s);
    if node matches Some(n) && n.len() == 0 {
        Err(JidParseError::EmptyNode)
    } else if domain.len() == 0 {
        Err(JidParseError::NoDomain)
    } else if resource matches Some(r) && r.len() == 0 {
        Err(JidParseError::EmptyResource)
    } else {
        Ok((node, domain, resource))
    }
}

/// The view of an optional text.
pub open spec fn opt_view(o: Option<String>) -> Option<Seq<char>> {
    match o {
        Some(s) => Some(s@),
        None => None,
    }
}

/// The written form of a JID.
pub open spec fn jid_text(node: Option<Seq<char>>, domain: Seq<char>, resource: Option<
    Seq<char>,
>) -> Seq<char> {
    let head = match node {
        Some(n) => n + "@"@,
        None => Seq::empty(),
    };
    let tail = match resource {
        Some(r) => "/"@ + r,
        None => Seq::empty(),
    };
    head + domain + tail
}

impl Jid {
    /// The parts of this JID, as text.
    pub open spec fn parts(&self) -> (Option<Seq<char>>, Seq<char>, Option<Seq<char>>) {
        (opt_view(self.node), self.domain@, opt_view(self.resource))
    }

    /// Reads a JID.
    pub fn from_str(s: &str) -> (r: Result<Jid, JidParseError>)
        ensures
            match jid_parse(s@) {
                Ok(p) => r matches Ok(j) && j.parts() == p,
                Err(e) => r == Err::<Jid, JidParseError>(e),
            },
    {
        let cs = chars_of(s);
        let slash = find_char_in(&cs, '/', 0);
        let at = find_char_in(&cs, '@', 0);
        let node = if at < slash {
            Some(text_of(&cs, 0, at))
        } else {
            None
        };
        let domain = if at < slash {
            text_of(&cs, at + 1, slash)
        } else {
            text_of(&cs, 0, slash)
        };
        let resource = if slash < cs.len() {
            Some(text_of(&cs, slash + 1, cs.len()))
        } else {
            None
        };
        if let Some(n) = &node {
            if n.as_str().is_empty() {
                return Err(JidParseError::EmptyNode);
            }
        }
        if domain.as_str().is_empty() {
            return Err(JidParseError::NoDomain);
        }
        if let Some(res) = &resource {
            if res.as_str().is_empty() {
                return Err(JidParseError::EmptyResource);
            }
        }
        Ok(Jid { node, domain, resource })
    }

    /// The written form: `node@domain/resource`.
    pub fn to_string(&self) -> (r: String)
        ensures
            r@ == jid_text(opt_view(self.node), self.domain@, opt_view(self.resource)),
    {
        let mut r = String::new();
        if let Some(n) = &self.node {
            append_str(&mut r, n.as_str());
            append_str(&mut r, "@");
        }
        append_str(&mut r, self.domain.as_str());
        if let Some(res) = &self.resource {
            append_str(&mut r, "/");
            append_str(&mut r, res.as_str());
        }
        proof {
            assert(Seq::<char>::empty() + self.domain@ == self.domain@);
            assert(self.domain@ + Seq::<char>::empty() == self.domain@);
        }
        r
    }

    /// A copy of this JID.
    pub fn duplicate(&self) -> (r: Jid)
        ensures
            r == *self,
    {
        let node = match &self.node {
            Some(n) => Some(n.clone()),
            None => None,
        };
        let resource = match &self.resource {
            Some(n) => Some(n.clone()),
            None => None,
        };
        Jid { node, domain: self.domain.clone(), resource }
    }

    /// The same JID without its resource.
    pub fn to_bare(&self) -> (r: Jid)
        ensures
            opt_view(r.node) == opt_view(self.node),
            r.domain@ == self.domain@,
            r.resource is None,
    {
        let node = match &self.node {
            Some(n) => Some(n.clone()),
            None => None,
        };
        Jid { node, domain: self.domain.clone(), resource: None }
    }

    /// Whether this JID and `other` are the same account, resources aside.
    pub fn same_bare(&self, other: &Jid) -> (r: bool)
        ensures
            r == (opt_view(self.node) == opt_view(other.node) && self.domain@ == other.domain@),
    {
        let nodes = match (&self.node, &other.node) {
            (Some(a), Some(b)) => *a == *b,
            (None, None) => true,
            _ => false,
        };
        nodes && self.domain == other.domain
    }
}

} // verus!
