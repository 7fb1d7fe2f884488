//! The XML stream codec: elements to text and back, and the framing of an
//! XMPP stream into packets.

use vstd::prelude::*;
use crate::client::Packet;
use crate::element::{Element, Node};
use crate::text::{
    append_str, chars_of, decimal_value, find_char, find_char_in, hex_value, parse_decimal, parse_hex,
    push_char, text_of,
};

verus! {

/// An element as plain text values.
pub enum ElementV {
    Elem { name: Seq<char>, ns: Seq<char>, attrs: Seq<(Seq<char>, Seq<char>)>, children: Seq<NodeV> },
}

/// A child as plain text values.
pub enum NodeV {
    Element(ElementV),
    Text(Seq<char>),
}

/// The value of a node.
pub open spec fn node_view(n: Node) -> NodeV
    decreases n,
{
    match n {
        Node::Text(t) => NodeV::Text(t@),
        Node::Element(e) => NodeV::Element(
            ElementV::Elem {
                name: e.name@,
                ns: e.ns@,
                attrs: Seq::new(e.attrs@.len(), |i: int| (e.attrs@[i].0@, e.attrs@[i].1@)),
                children: nodes_view(e.children@, 0),
            },
        ),
    }
}

/// The values of `nodes[i..]`.
pub open spec fn nodes_view(nodes: Seq<Node>, i: int) -> Seq<NodeV>
    decreases nodes, nodes.len() - i,
{
    if 0 <= i < nodes.len() {
        seq![node_view(nodes[i])] + nodes_view(nodes, i + 1)
    } else {
        Seq::empty()
    }
}

/// The value of an element.
pub open spec fn element_view(e: Element) -> ElementV {
    node_view(Node::Element(e))->Element_0
}

// ---------------------------------------------------------------- serialising

/// How a character is written in text and in attribute values.
pub open spec fn escape_char(c: char) -> Seq<char> {
    if c == '&' {
        "&amp;"@
    } else if c == '<' {
        "&lt;"@
    } else if c == '>' {
        "&gt;"@
    } else if c == '\'' {
        "&apos;"@
    } else if c == '"' {
        "&quot;"@
    } else {
        seq![c]
    }
}

/// `s` with the five special characters written as entities.
pub open spec fn escaped(s: Seq<char>) -> Seq<char>
    decreases s.len(),
{
    if s.len() == 0 {
        Seq::empty()
    } else {
        escaped(s.drop_last()) + escape_char(s.last())
    }
}

/// ` k='v'` for each attribute, in order.
pub open spec fn attrs_xml(attrs: Seq<(Seq<char>, Seq<char>)>) -> Seq<char>
    decreases attrs.len(),
{
    if attrs.len() == 0 {
        Seq::empty()
    } else {
        attrs_xml(attrs.drop_last()) + " "@ + attrs.last().0 + "='"@ + escaped(attrs.last().1) + "'"@
    }
}

/// The text of an element whose parent is in `parent_ns`: the namespace is
/// declared only where it differs from the parent's.
pub open spec fn element_xml(e: ElementV, parent_ns: Seq<char>) -> Seq<char>
    decreases e,
{
    match e {
        ElementV::Elem { name, ns, attrs, children } => {
            let decl = if ns == parent_ns {
                Seq::empty()
            } else {
                " xmlns='"@ + escaped(ns) + "'"@
            };
            let open = "<"@ + name + decl + attrs_xml(attrs);
            if children.len() == 0 {
                open + "/>"@
            } else {
                open + ">"@ + children_xml(children, 0, ns) + "</"@ + name + ">"@
            }
        },
    }
}

/// The text of `children[i..]` inside an element in `ns`.
pub open spec fn children_xml(children: Seq<NodeV>, i: int, ns: Seq<char>) -> Seq<char>
    decreases children, children.len() - i,
{
    if 0 <= i < children.len() {
        let piece = match children[i] {
            NodeV::Text(t) => escaped(t),
            NodeV::Element(c) => element_xml(c, ns),
        };
        piece + children_xml(children, i + 1, ns)
    } else {
        Seq::empty()
    }
}

fn escape_char_text(c: char) -> (r: &'static str)
    requires
        c == '&' || c == '<' || c == '>' || c == '\'' || c == '"',
    ensures
        r@ == escape_char(c),
{
    if c == '&' {
        "&amp;"
    } else if c == '<' {
        "&lt;"
    } else if c == '>' {
        "&gt;"
    } else if c == '\'' {
        "&apos;"
    } else {
        "&quot;"
    }
}

/// Appends `s` with its special characters escaped.
pub fn push_escaped(out: &mut String, s: &str)
    ensures
        final(out)@ == old(out)@ + escaped(s@),
{
    let cs = chars_of(s);
    let mut i: usize = 0;
    while i < cs.len()
        invariant
            cs@ == s@,
            i <= cs@.len(),
            out@ == old(out)@ + escaped(cs@.take(i as int)),
        decreases cs@.len() - i,
    {
        let c = cs[i];
        proof {
            assert(cs@.take(i + 1).drop_last() == cs@.take(i as int));
        }
        if c == '&' || c == '<' || c == '>' || c == '\'' || c == '"' {
            append_str(out, escape_char_text(c));
        } else {
            push_char(out, c);
        }
        i = i + 1;
    }
    proof {
        assert(cs@.take(cs@.len() as int) == cs@);
    }
}

fn write_attrs(out: &mut String, attrs: &Vec<(String, String)>)
    ensures
        final(out)@ == old(out)@ + attrs_xml(Seq::new(attrs@.len(), |i: int| (attrs@[i].0@, attrs@[i].1@))),
{
    let ghost v = Seq::new(attrs@.len(), |i: int| (attrs@[i].0@, attrs@[i].1@));
    let mut i: usize = 0;
    while i < attrs.len()
        invariant
            i <= attrs@.len(),
            v == Seq::new(attrs@.len(), |i: int| (attrs@[i].0@, attrs@[i].1@)),
            out@ == old(out)@ + attrs_xml(v.take(i as int)),
        decreases attrs@.len() - i,
    {
        proof {
            assert(v.take(i + 1).drop_last() == v.take(i as int));
        }
        append_str(out, " ");
        append_str(out, attrs[i].0.as_str());
        append_str(out, "='");
        push_escaped(out, attrs[i].1.as_str());
        append_str(out, "'");
        i = i + 1;
    }
    proof {
        assert(v.take(attrs@.len() as int) == v);
    }
}

proof fn lemma_nodes_view(nodes: Seq<Node>, i: int)
    requires
        0 <= i <= nodes.len(),
    ensures
        nodes_view(nodes, i).len() == nodes.len() - i,
        forall|k: int| 0 <= k < nodes.len() - i ==> #[trigger] nodes_view(nodes, i)[k] == node_view(nodes[i + k]),
    decreases nodes.len() - i,
{
    if i < nodes.len() {
        lemma_nodes_view(nodes, i + 1);
        assert forall|k: int| 0 <= k < nodes.len() - i implies #[trigger] nodes_view(nodes, i)[k] == node_view(nodes[i + k]) by {
            if k > 0 {
                assert(nodes_view(nodes, i)[k] == nodes_view(nodes, i + 1)[k - 1]);
            }
        }
    }
}

#[verifier::rlimit(50)]
fn write_element(out: &mut String, e: &Element, parent_ns: &str)
    ensures
        final(out)@ == old(out)@ + element_xml(element_view(*e), parent_ns@),
    decreases e,
{
    append_str(out, "<");
    append_str(out, e.name.as_str());
    if !crate::text::same_text(e.ns.as_str(), parent_ns) {
        append_str(out, " xmlns='");
        push_escaped(out, e.ns.as_str());
        append_str(out, "'");
    }
    write_attrs(out, &e.attrs);
    if e.children.len() == 0 {
        append_str(out, "/>");
        return;
    }
    append_str(out, ">");
    let ghost kids = nodes_view(e.children@, 0);
    let ghost start = out@;
    proof {
        lemma_nodes_view(e.children@, 0);
    }
    let mut i: usize = 0;
    while i < e.children.len()
        invariant
            i <= e.children@.len(),
            kids == nodes_view(e.children@, 0),
            kids.len() == e.children@.len(),
            forall|k: int| 0 <= k < kids.len() ==> #[trigger] kids[k] == node_view(e.children@[k]),
            start + children_xml(kids, 0, e.ns@) == out@ + children_xml(kids, i as int, e.ns@),
        decreases e.children@.len() - i,
    {
        let ghost before = out@;
        match &e.children[i] {
            Node::Text(t) => push_escaped(out, t.as_str()),
            Node::Element(c) => {
                write_element(out, c, e.ns.as_str());
            },
        }
        proof {
            let piece = match kids[i as int] {
                NodeV::Text(t) => escaped(t),
                NodeV::Element(c) => element_xml(c, e.ns@),
            };
            assert(children_xml(kids, i as int, e.ns@) == piece + children_xml(kids, i + 1, e.ns@));
            assert(out@ == before + piece);
            assert(before + (piece + children_xml(kids, i + 1, e.ns@)) == (before + piece)
                + children_xml(kids, i + 1, e.ns@));
        }
        i = i + 1;
    }
    proof {
        assert(children_xml(kids, i as int, e.ns@) == Seq::<char>::empty());
        assert(out@ + Seq::<char>::empty() == out@);
    }
    append_str(out, "</");
    append_str(out, e.name.as_str());
    append_str(out, ">");
}

} // verus!

verus! {

// ------------------------------------------------------------------ parsing

/// Whether `c` is XML white space.
pub open spec fn is_space(c: char) -> bool {
    c == ' ' || c == '\t' || c == '\n' || c == '\r'
}

/// Whether `c` may stand in a name.
pub open spec fn is_name_char(c: char) -> bool {
    !is_space(c) && c != '<' && c != '>' && c != '/' && c != '=' && c != '\'' && c != '"' && c
        != '&' && c != '?' && c != '!'
}

/// The first position at or after `i` that is not white space.
pub open spec fn skip_space(s: Seq<char>, i: int) -> int
    decreases s.len() - i,
{
    if i < 0 || i >= s.len() || !is_space(s[i]) {
        i
    } else {
        skip_space(s, i + 1)
    }
}

/// The first position at or after `i` that cannot stand in a name.
pub open spec fn name_end(s: Seq<char>, i: int) -> int
    decreases s.len() - i,
{
    if i < 0 || i >= s.len() || !is_name_char(s[i]) {
        i
    } else {
        name_end(s, i + 1)
    }
}

/// The character that a named entity stands for.
pub open spec fn entity_char(name: Seq<char>) -> Option<char> {
    if name == "lt"@ {
        Some('<')
    } else if name == "gt"@ {
        Some('>')
    } else if name == "amp"@ {
        Some('&')
    } else if name == "apos"@ {
        Some('\'')
    } else if name == "quot"@ {
        Some('"')
    } else {
        match char_ref(name) {
            Some(n) => if is_scalar(n) {
                Some((n as u32) as char)
            } else {
                None
            },
            None => None,
        }
    }
}

/// The code point that a character reference `#N` or `#xH` names.
pub open spec fn char_ref(name: Seq<char>) -> Option<nat> {
    if name.len() >= 2 && name[0] == '#' {
        if name[1] == 'x' {
            hex_value(name.skip(2))
        } else {
            decimal_value(name.drop_first())
        }
    } else {
        None
    }
}

/// Whether `n` is a Unicode scalar value: at most `0x10FFFF` and not a surrogate.
pub open spec fn is_scalar(n: nat) -> bool {
    n <= 0x10FFFF && !(0xD800 <= n && n <= 0xDFFF)
}

/// Relies on `char::from_u32`: the character whose scalar value is `n`, when `n` is one.
#[verifier::external_body]
fn char_from_u32(n: u32) -> (r: Option<char>)
    ensures
        r matches Some(c) ==> c as u32 == n,
        r is None <==> !is_scalar(n as nat),
{
    char::from_u32(n)
}

/// The text written in `s[i..end]`, appended to `acc`; entities are expanded,
/// and `<` or an unknown entity makes it invalid.
pub open spec fn decode(s: Seq<char>, i: int, end: int, acc: Seq<char>) -> Option<Seq<char>>
    decreases end - i,
{
    if i >= end || i < 0 || end > s.len() {
        Some(acc)
    } else if s[i] == '&' {
        let semi = find_char(s, ';', i + 1);
        if semi >= end || semi <= i {
            None
        } else {
            match entity_char(s.subrange(i + 1, semi)) {
                Some(c) => decode(s, semi + 1, end, acc.push(c)),
                None => None,
            }
        }
    } else if s[i] == '<' {
        None
    } else {
        decode(s, i + 1, end, acc.push(s[i]))
    }
}

/// Why parsing stopped: `true` when the input ended too early, `false` when it is malformed.
pub type Incomplete = bool;

/// The attributes from `i` on, appended to `acc`, and the position of the `>` or `/` that ends them.
pub open spec fn parse_attrs(s: Seq<char>, i: int, acc: Seq<(Seq<char>, Seq<char>)>) -> Result<
    (Seq<(Seq<char>, Seq<char>)>, int),
    Incomplete,
>
    decreases s.len() - i,
{
    let j = skip_space(s, i);
    if i < 0 || j >= s.len() {
        Err(true)
    } else if s[j] == '>' || s[j] == '/' {
        Ok((acc, j))
    } else if j == i {
        Err(false)
    } else {
        let ne = name_end(s, j);
        if ne == j {
            Err(false)
        } else if ne >= s.len() {
            Err(true)
        } else if s[ne] != '=' {
            Err(false)
        } else if ne + 1 >= s.len() {
            Err(true)
        } else if !(s[ne + 1] == '\'' || s[ne + 1] == '"') {
            Err(false)
        } else {
            let close = find_char(s, s[ne + 1], ne + 2);
            if close >= s.len() || close < i {
                Err(true)
            } else {
                match decode(s, ne + 2, close, Seq::empty()) {
                    None => Err(false),
                    Some(v) => parse_attrs(s, close + 1, acc.push((s.subrange(j, ne), v))),
                }
            }
        }
    }
}

} // verus!

verus! {

fn is_space_char(c: char) -> (r: bool)
    ensures
        r == is_space(c),
{
    c == ' ' || c == '\t' || c == '\n' || c == '\r'
}

fn is_name_ch(c: char) -> (r: bool)
    ensures
        r == is_name_char(c),
{
    !is_space_char(c) && c != '<' && c != '>' && c != '/' && c != '=' && c != '\'' && c != '"'
        && c != '&' && c != '?' && c != '!'
}

fn skip_space_in(cs: &Vec<char>, i: usize) -> (r: usize)
    requires
        i <= cs@.len(),
    ensures
        r == skip_space(cs@, i as int),
        i <= r <= cs@.len(),
{
    let mut j = i;
    while j < cs.len() && is_space_char(cs[j])
        invariant
            i <= j <= cs@.len(),
            skip_space(cs@, i as int) == skip_space(cs@, j as int),
        decreases cs@.len() - j,
    {
        j = j + 1;
    }
    j
}

fn name_end_in(cs: &Vec<char>, i: usize) -> (r: usize)
    requires
        i <= cs@.len(),
    ensures
        r == name_end(cs@, i as int),
        i <= r <= cs@.len(),
{
    let mut j = i;
    while j < cs.len() && is_name_ch(cs[j])
        invariant
            i <= j <= cs@.len(),
            name_end(cs@, i as int) == name_end(cs@, j as int),
        decreases cs@.len() - j,
    {
        j = j + 1;
    }
    j
}

fn same_range(cs: &Vec<char>, from: usize, to: usize, word: &str) -> (r: bool)
    requires
        from <= to <= cs@.len(),
    ensures
        r == (cs@.subrange(from as int, to as int) == word@),
{
    let w = chars_of(word);
    if to - from != w.len() {
        return false;
    }
    let mut k: usize = 0;
    while k < w.len()
        invariant
            w@ == word@,
            to - from == w@.len(),
            from <= to <= cs@.len(),
            k <= w@.len(),
            forall|m: int| 0 <= m < k ==> cs@[from + m] == w@[m],
        decreases w@.len() - k,
    {
        if cs[from + k] != w[k] {
            assert(cs@.subrange(from as int, to as int)[k as int] != word@[k as int]);
            return false;
        }
        k = k + 1;
    }
    assert(cs@.subrange(from as int, to as int) =~= word@);
    true
}

fn entity_in(cs: &Vec<char>, from: usize, to: usize) -> (r: Option<char>)
    requires
        from <= to <= cs@.len(),
    ensures
        r == entity_char(cs@.subrange(from as int, to as int)),
{
    if same_range(cs, from, to, "lt") {
        Some('<')
    } else if same_range(cs, from, to, "gt") {
        Some('>')
    } else if same_range(cs, from, to, "amp") {
        Some('&')
    } else if same_range(cs, from, to, "apos") {
        Some('\'')
    } else if same_range(cs, from, to, "quot") {
        Some('"')
    } else {
        let ghost name = cs@.subrange(from as int, to as int);
        if to - from < 2 || cs[from] != '#' {
            return None;
        }
        let n = if cs[from + 1] == 'x' {
            proof {
                assert(cs@.subrange(from + 2, to as int) =~= name.skip(2));
            }
            parse_hex(cs, from + 2, to, 0x10FFFF)
        } else {
            proof {
                assert(cs@.subrange(from + 1, to as int) =~= name.drop_first());
            }
            parse_decimal(cs, from + 1, to, 0x10FFFF)
        };
        match n {
            None => None,
            Some(v) => match char_from_u32(v as u32) {
                Some(c) => {
                    proof {
                        vstd::utf8::char_u32_cast(c, v as u32);
                    }
                    Some(c)
                },
                None => None,
            },
        }
    }
}

fn decode_in(cs: &Vec<char>, from: usize, end: usize) -> (r: Option<String>)
    requires
        from <= end <= cs@.len(),
    ensures
        match decode(cs@, from as int, end as int, Seq::empty()) {
            Some(t) => r matches Some(x) && x@ == t,
            None => r is None,
        },
{
    let mut out = String::new();
    let mut i = from;
    while i < end
        invariant
            from <= i <= end <= cs@.len(),
            decode(cs@, from as int, end as int, Seq::empty()) == decode(
                cs@,
                i as int,
                end as int,
                out@,
            ),
        decreases end - i,
    {
        let c = cs[i];
        if c == '&' {
            let semi = find_char_in(cs, ';', i + 1);
            if semi >= end {
                return None;
            }
            match entity_in(cs, i + 1, semi) {
                Some(e) => {
                    push_char(&mut out, e);
                    i = semi + 1;
                },
                None => {
                    return None;
                },
            }
        } else if c == '<' {
            return None;
        } else {
            push_char(&mut out, c);
            i = i + 1;
        }
    }
    Some(out)
}

fn parse_attrs_in(cs: &Vec<char>, start: usize) -> (r: Result<
    (Vec<(String, String)>, usize),
    Incomplete,
>)
    requires
        start <= cs@.len(),
    ensures
        match parse_attrs(cs@, start as int, Seq::empty()) {
            Ok((a, j)) => r matches Ok((v, k)) && k == j && k < cs@.len() && Seq::new(
                v@.len(),
                |m: int| (v@[m].0@, v@[m].1@),
            ) == a,
            Err(x) => r == Err::<(Vec<(String, String)>, usize), Incomplete>(x),
        },
        r matches Ok((_, k)) ==> start <= k,
{
    let mut attrs: Vec<(String, String)> = Vec::new();
    let mut i = start;
    proof {
        assert(Seq::new(attrs@.len(), |m: int| (attrs@[m].0@, attrs@[m].1@)) =~= Seq::<
            (Seq<char>, Seq<char>),
        >::empty());
    }
    loop
        invariant
            start <= i <= cs@.len(),
            parse_attrs(cs@, start as int, Seq::empty()) == parse_attrs(
                cs@,
                i as int,
                Seq::new(attrs@.len(), |m: int| (attrs@[m].0@, attrs@[m].1@)),
            ),
        decreases cs@.len() - i,
    {
        let j = skip_space_in(cs, i);
        if j >= cs.len() {
            return Err(true);
        }
        if cs[j] == '>' || cs[j] == '/' {
            return Ok((attrs, j));
        }
        if j == i {
            return Err(false);
        }
        let ne = name_end_in(cs, j);
        if ne == j {
            return Err(false);
        }
        if ne >= cs.len() {
            return Err(true);
        }
        if cs[ne] != '=' {
            return Err(false);
        }
        if ne + 1 >= cs.len() {
            return Err(true);
        }
        let q = cs[ne + 1];
        if !(q == '\'' || q == '"') {
            return Err(false);
        }
        let close = find_char_in(cs, q, ne + 2);
        if close >= cs.len() {
            return Err(true);
        }
        match decode_in(cs, ne + 2, close) {
            None => {
                return Err(false);
            },
            Some(v) => {
                let ghost before = Seq::new(attrs@.len(), |m: int| (attrs@[m].0@, attrs@[m].1@));
                let key = text_of(cs, j, ne);
                let ghost entry = (key@, v@);
                attrs.push((key, v));
                proof {
                    assert(Seq::new(attrs@.len(), |m: int| (attrs@[m].0@, attrs@[m].1@)) =~= before.push(
                        entry,
                    ));
                }
                i = close + 1;
            },
        }
    }
}

} // verus!

verus! {

/// Pairs of texts, as values.
pub open spec fn pairs_view(v: Seq<(String, String)>) -> Seq<(Seq<char>, Seq<char>)> {
    Seq::new(v.len(), |m: int| (v[m].0@, v[m].1@))
}

/// The default namespace declared by `attrs`, the prefixes they declare, and
/// the other attributes, each in order.
pub open spec fn ns_decls(attrs: Seq<(Seq<char>, Seq<char>)>) -> (
    Option<Seq<char>>,
    Seq<(Seq<char>, Seq<char>)>,
    Seq<(Seq<char>, Seq<char>)>,
)
    decreases attrs.len(),
{
    if attrs.len() == 0 {
        (None, Seq::empty(), Seq::empty())
    } else {
        let (d, p, o) = ns_decls(attrs.drop_last());
        let (k, v) = attrs.last();
        if k == "xmlns"@ {
            (Some(v), p, o)
        } else if k.len() > 6 && k.take(6) == "xmlns:"@ {
            (d, p.push((k.skip(6), v)), o)
        } else {
            (d, p, o.push((k, v)))
        }
    }
}

/// The namespace bound to `prefix`, the latest binding first.
pub open spec fn prefix_ns(scope: Seq<(Seq<char>, Seq<char>)>, prefix: Seq<char>) -> Option<Seq<char>>
    decreases scope.len(),
{
    if scope.len() == 0 {
        None
    } else if scope.last().0 == prefix {
        Some(scope.last().1)
    } else {
        prefix_ns(scope.drop_last(), prefix)
    }
}

/// The local name and the namespace of the qualified name `q`.
pub open spec fn resolve(q: Seq<char>, default_ns: Seq<char>, scope: Seq<(Seq<char>, Seq<char>)>) -> Option<
    (Seq<char>, Seq<char>),
> {
    let c = find_char(q, ':', 0);
    if c >= q.len() {
        Some((q, default_ns))
    } else if c <= 0 || c + 1 >= q.len() {
        None
    } else {
        match prefix_ns(scope, q.take(c)) {
            Some(ns) => Some((q.skip(c + 1), ns)),
            None => None,
        }
    }
}

/// The element that starts at `i`, and the position after it. Children get
/// one less of `depth`; an element with children at depth zero is refused.
pub open spec fn parse_element(
    s: Seq<char>,
    i: int,
    default_ns: Seq<char>,
    scope: Seq<(Seq<char>, Seq<char>)>,
    depth: nat,
) -> Result<(ElementV, int), Incomplete>
    decreases depth, 0int, s.len() - i,
{
    if i < 0 || i >= s.len() {
        Err(true)
    } else if s[i] != '<' {
        Err(false)
    } else {
        let ne = name_end(s, i + 1);
        if ne >= s.len() {
            Err(true)
        } else if ne == i + 1 {
            Err(false)
        } else {
            match parse_attrs(s, ne, Seq::empty()) {
                Err(x) => Err(x),
                Ok((attrs, j)) => {
                    let (d, p, others) = ns_decls(attrs);
                    let dns = match d {
                        Some(n) => n,
                        None => default_ns,
                    };
                    let sc = scope + p;
                    match resolve(s.subrange(i + 1, ne), dns, sc) {
                        None => Err(false),
                        Some((local, ns)) => if j < 0 || j >= s.len() {
                            Err(true)
                        } else if s[j] == '/' {
                            if j + 1 >= s.len() {
                                Err(true)
                            } else if s[j + 1] != '>' {
                                Err(false)
                            } else {
                                Ok(
                                    (
                                        ElementV::Elem {
                                            name: local,
                                            ns,
                                            attrs: others,
                                            children: Seq::empty(),
                                        },
                                        j + 2,
                                    ),
                                )
                            }
                        } else if depth == 0 {
                            Err(false)
                        } else {
                            match parse_content(
                                s,
                                j + 1,
                                s.subrange(i + 1, ne),
                                dns,
                                sc,
                                (depth - 1) as nat,
                                Seq::empty(),
                            ) {
                                Err(x) => Err(x),
                                Ok((kids, k)) => Ok(
                                    (ElementV::Elem { name: local, ns, attrs: others, children: kids }, k),
                                ),
                            }
                        },
                    }
                },
            }
        }
    }
}

/// Whether `]]>` stands at `k`.
pub open spec fn cdata_close_at(s: Seq<char>, k: int) -> bool {
    0 <= k && k + 3 <= s.len() && s[k] == ']' && s[k + 1] == ']' && s[k + 2] == '>'
}

/// The first position at or after `k` where `]]>` stands, or the length of `s`.
pub open spec fn cdata_end(s: Seq<char>, k: int) -> int
    decreases s.len() - k,
{
    if k < 0 || k + 3 > s.len() {
        s.len() as int
    } else if cdata_close_at(s, k) {
        k
    } else {
        cdata_end(s, k + 1)
    }
}

/// The children from `i` on, appended to `acc`, up to the end tag of `qname`;
/// a CDATA section is read as one text child.
/// and the position after that end tag.
pub open spec fn parse_content(
    s: Seq<char>,
    i: int,
    qname: Seq<char>,
    dns: Seq<char>,
    sc: Seq<(Seq<char>, Seq<char>)>,
    depth: nat,
    acc: Seq<NodeV>,
) -> Result<(Seq<NodeV>, int), Incomplete>
    decreases depth, 1int, s.len() - i,
{
    if i < 0 || i >= s.len() {
        Err(true)
    } else if s[i] == '<' {
        if i + 1 >= s.len() {
            Err(true)
        } else if s[i + 1] == '/' {
            let ne = name_end(s, i + 2);
            if ne >= s.len() {
                Err(true)
            } else if s.subrange(i + 2, ne) != qname {
                Err(false)
            } else {
                let j = skip_space(s, ne);
                if j >= s.len() {
                    Err(true)
                } else if s[j] != '>' {
                    Err(false)
                } else {
                    Ok((acc, j + 1))
                }
            }
        } else if s[i + 1] == '!' {
            if i + 9 > s.len() {
                Err(true)
            } else if s.subrange(i, i + 9) != "<![CDATA["@ {
                Err(false)
            } else {
                let e = cdata_end(s, i + 9);
                if e + 3 > s.len() || e < i + 9 {
                    Err(true)
                } else {
                    parse_content(s, e + 3, qname, dns, sc, depth, acc.push(NodeV::Text(s.subrange(i + 9, e))))
                }
            }
        } else {
            match parse_element(s, i, dns, sc, depth) {
                Err(x) => Err(x),
                Ok((c, k)) => if k <= i || k > s.len() {
                    Err(false)
                } else {
                    parse_content(s, k, qname, dns, sc, depth, acc.push(NodeV::Element(c)))
                },
            }
        }
    } else {
        let lt = find_char(s, '<', i);
        if lt >= s.len() || lt <= i {
            Err(true)
        } else {
            match decode(s, i, lt, Seq::empty()) {
                None => Err(false),
                Some(t) => parse_content(s, lt, qname, dns, sc, depth, acc.push(NodeV::Text(t))),
            }
        }
    }
}

} // verus!

verus! {

proof fn lemma_nodes_view_push(v: Seq<Node>, x: Node)
    ensures
        nodes_view(v.push(x), 0) == nodes_view(v, 0).push(node_view(x)),
{
    lemma_nodes_view(v.push(x), 0);
    lemma_nodes_view(v, 0);
    assert(nodes_view(v.push(x), 0) =~= nodes_view(v, 0).push(node_view(x))) by {
        assert forall|k: int| 0 <= k < v.len() implies #[trigger] nodes_view(v.push(x), 0)[k]
            == nodes_view(v, 0)[k] by {
            assert(v.push(x)[k] == v[k]);
        }
        assert(nodes_view(v.push(x), 0)[v.len() as int] == node_view(v.push(x)[v.len() as int]));
    }
}

fn copy_pairs(a: &Vec<(String, String)>, out: &mut Vec<(String, String)>)
    ensures
        pairs_view(final(out)@) == pairs_view(old(out)@) + pairs_view(a@),
{
    let ghost start = pairs_view(out@);
    let mut i: usize = 0;
    while i < a.len()
        invariant
            i <= a@.len(),
            pairs_view(out@) == start + pairs_view(a@).take(i as int),
        decreases a@.len() - i,
    {
        let ghost before = pairs_view(out@);
        let k = a[i].0.clone();
        let v = a[i].1.clone();
        out.push((k, v));
        proof {
            assert(pairs_view(out@) =~= before.push(pairs_view(a@)[i as int]));
            assert(pairs_view(a@).take(i + 1) =~= pairs_view(a@).take(i as int).push(
                pairs_view(a@)[i as int],
            ));
        }
        i = i + 1;
    }
    proof {
        assert(pairs_view(a@).take(a@.len() as int) =~= pairs_view(a@));
    }
}

fn is_xmlns_prefix(k: &Vec<char>) -> (r: bool)
    ensures
        r == (k@.len() > 6 && k@.take(6) == "xmlns:"@),
{
    proof {
        reveal_strlit("xmlns:");
    }
    if k.len() <= 6 {
        return false;
    }
    let r = k[0] == 'x' && k[1] == 'm' && k[2] == 'l' && k[3] == 'n' && k[4] == 's' && k[5] == ':';
    proof {
        if r {
            assert(k@.take(6) =~= "xmlns:"@);
        } else {
            assert(k@.take(6) != "xmlns:"@) by {
                if k@.take(6) == "xmlns:"@ {
                    assert("xmlns:"@ =~= seq!['x', 'm', 'l', 'n', 's', ':']);
                    assert(k@[0] == k@.take(6)[0]);
                    assert(k@[1] == k@.take(6)[1]);
                    assert(k@[2] == k@.take(6)[2]);
                    assert(k@[3] == k@.take(6)[3]);
                    assert(k@[4] == k@.take(6)[4]);
                    assert(k@[5] == k@.take(6)[5]);
                }
            }
        }
    }
    r
}

fn split_decls(attrs: Vec<(String, String)>) -> (r: (Option<String>, Vec<(String, String)>, Vec<
    (String, String),
>))
    ensures
        ({
            let (d, p, o) = ns_decls(pairs_view(attrs@));
            &&& match d {
                Some(n) => r.0 matches Some(x) && x@ == n,
                None => r.0 is None,
            }
            &&& pairs_view(r.1@) == p
            &&& pairs_view(r.2@) == o
        }),
{
    let ghost all = pairs_view(attrs@);
    let mut d: Option<String> = None;
    let mut p: Vec<(String, String)> = Vec::new();
    let mut o: Vec<(String, String)> = Vec::new();
    proof {
        assert(all.take(0) =~= Seq::<(Seq<char>, Seq<char>)>::empty());
        assert(pairs_view(p@) =~= Seq::<(Seq<char>, Seq<char>)>::empty());
        assert(pairs_view(o@) =~= Seq::<(Seq<char>, Seq<char>)>::empty());
    }
    for entry in it: attrs.into_iter()
        invariant
            all == pairs_view(it.seq()),
            ({
                let (sd, sp, so) = ns_decls(all.take(it.index() as int));
                &&& match sd {
                    Some(n) => d matches Some(x) && x@ == n,
                    None => d is None,
                }
                &&& pairs_view(p@) == sp
                &&& pairs_view(o@) == so
            }),
    {
        let ghost k = it.index() as int;
        proof {
            assert(all.take(k + 1).drop_last() =~= all.take(k));
            assert(all.take(k + 1).last() == (entry.0@, entry.1@));
        }
        let (key, value) = entry;
        let kc = chars_of(key.as_str());
        if crate::text::same_text(key.as_str(), "xmlns") {
            d = Some(value);
        } else if is_xmlns_prefix(&kc) {
            let ghost before = pairs_view(p@);
            let prefix = text_of(&kc, 6, kc.len());
            let ghost entry_v = (prefix@, value@);
            p.push((prefix, value));
            proof {
                assert(kc@.skip(6) =~= kc@.subrange(6, kc@.len() as int));
                assert(pairs_view(p@) =~= before.push(entry_v));
            }
        } else {
            let ghost before = pairs_view(o@);
            let ghost entry_v = (key@, value@);
            o.push((key, value));
            proof {
                assert(pairs_view(o@) =~= before.push(entry_v));
            }
        }
    }
    proof {
        assert(all.take(all.len() as int) =~= all);
    }
    (d, p, o)
}

fn prefix_ns_in(scope: &Vec<(String, String)>, prefix: &Vec<char>) -> (r: Option<String>)
    ensures
        match prefix_ns(pairs_view(scope@), prefix@) {
            Some(n) => r matches Some(x) && x@ == n,
            None => r is None,
        },
{
    let mut i: usize = scope.len();
    let pt = text_of(prefix, 0, prefix.len());
    proof {
        assert(prefix@.subrange(0, prefix@.len() as int) =~= prefix@);
        assert(pairs_view(scope@).take(scope@.len() as int) =~= pairs_view(scope@));
    }
    while i > 0
        invariant
            i <= scope@.len(),
            pt@ == prefix@,
            prefix_ns(pairs_view(scope@), prefix@) == prefix_ns(pairs_view(scope@).take(i as int), prefix@),
        decreases i,
    {
        proof {
            assert(pairs_view(scope@).take(i as int).drop_last() =~= pairs_view(scope@).take(i - 1));
        }
        if crate::text::same_text(scope[i - 1].0.as_str(), pt.as_str()) {
            return Some(scope[i - 1].1.clone());
        }
        i = i - 1;
    }
    None
}

fn resolve_in(q: &Vec<char>, default_ns: &String, scope: &Vec<(String, String)>) -> (r: Option<
    (String, String),
>)
    ensures
        match resolve(q@, default_ns@, pairs_view(scope@)) {
            Some((l, n)) => r matches Some(x) && x.0@ == l && x.1@ == n,
            None => r is None,
        },
{
    let c = find_char_in(q, ':', 0);
    if c >= q.len() {
        proof {
            assert(q@.subrange(0, q@.len() as int) =~= q@);
        }
        return Some((text_of(q, 0, q.len()), default_ns.clone()));
    }
    if c == 0 || c + 1 >= q.len() {
        return None;
    }
    let mut prefix: Vec<char> = Vec::new();
    let mut k: usize = 0;
    while k < c
        invariant
            k <= c < q@.len(),
            prefix@ == q@.take(k as int),
        decreases c - k,
    {
        prefix.push(q[k]);
        proof {
            assert(q@.take(k + 1) =~= q@.take(k as int).push(q@[k as int]));
        }
        k = k + 1;
    }
    match prefix_ns_in(scope, &prefix) {
        Some(ns) => {
            let local = text_of(q, c + 1, q.len());
            proof {
                assert(q@.skip(c + 1) =~= q@.subrange(c + 1, q@.len() as int));
            }
            Some((local, ns))
        },
        None => None,
    }
}

} // verus!

verus! {

fn cdata_end_in(cs: &Vec<char>, k: usize) -> (r: usize)
    requires
        k <= cs@.len(),
    ensures
        r == cdata_end(cs@, k as int),
        r <= cs@.len(),
        r < cs@.len() ==> k <= r && r + 3 <= cs@.len(),
{
    let mut j = k;
    while cs.len() >= 3 && j <= cs.len() - 3
        invariant
            k <= j <= cs@.len(),
            cdata_end(cs@, k as int) == cdata_end(cs@, j as int),
        decreases cs@.len() - j,
    {
        if cs[j] == ']' && cs[j + 1] == ']' && cs[j + 2] == '>' {
            return j;
        }
        j = j + 1;
    }
    cs.len()
}

fn chars_range(cs: &Vec<char>, from: usize, to: usize) -> (r: Vec<char>)
    requires
        from <= to <= cs@.len(),
    ensures
        r@ == cs@.subrange(from as int, to as int),
{
    let mut r: Vec<char> = Vec::new();
    let mut k = from;
    while k < to
        invariant
            from <= k <= to <= cs@.len(),
            r@ == cs@.subrange(from as int, k as int),
        decreases to - k,
    {
        r.push(cs[k]);
        proof {
            assert(cs@.subrange(from as int, k + 1) =~= cs@.subrange(from as int, k as int).push(cs@[k as int]));
        }
        k = k + 1;
    }
    r
}

fn same_chars(cs: &Vec<char>, from: usize, to: usize, q: &Vec<char>) -> (r: bool)
    requires
        from <= to <= cs@.len(),
    ensures
        r == (cs@.subrange(from as int, to as int) == q@),
{
    if to - from != q.len() {
        return false;
    }
    let mut k: usize = 0;
    while k < q.len()
        invariant
            to - from == q@.len(),
            from <= to <= cs@.len(),
            k <= q@.len(),
            forall|m: int| 0 <= m < k ==> cs@[from + m] == q@[m],
        decreases q@.len() - k,
    {
        if cs[from + k] != q[k] {
            assert(cs@.subrange(from as int, to as int)[k as int] != q@[k as int]);
            return false;
        }
        k = k + 1;
    }
    assert(cs@.subrange(from as int, to as int) =~= q@);
    true
}

/// Parses the element that starts at `i` in `cs`.
pub fn parse_element_in(
    cs: &Vec<char>,
    i: usize,
    default_ns: &String,
    scope: &Vec<(String, String)>,
    depth: usize,
) -> (r: Result<(Element, usize), Incomplete>)
    ensures
        match parse_element(cs@, i as int, default_ns@, pairs_view(scope@), depth as nat) {
            Ok((v, k)) => r matches Ok((e, k2)) && k2 == k && element_view(e) == v,
            Err(x) => r == Err::<(Element, usize), Incomplete>(x),
        },
        r matches Ok((_, k)) ==> i < k <= cs@.len(),
    decreases depth,
{
    if i >= cs.len() {
        return Err(true);
    }
    if cs[i] != '<' {
        return Err(false);
    }
    let ne = name_end_in(cs, i + 1);
    if ne >= cs.len() {
        return Err(true);
    }
    if ne == i + 1 {
        return Err(false);
    }
    let (attrs, j) = match parse_attrs_in(cs, ne) {
        Ok(x) => x,
        Err(x) => {
            return Err(x);
        },
    };
    let (d, p, others) = split_decls(attrs);
    let dns = match d {
        Some(n) => n,
        None => default_ns.clone(),
    };
    let mut sc: Vec<(String, String)> = Vec::new();
    proof {
        assert(pairs_view(sc@) =~= Seq::<(Seq<char>, Seq<char>)>::empty());
    }
    copy_pairs(scope, &mut sc);
    copy_pairs(&p, &mut sc);
    proof {
        assert(Seq::<(Seq<char>, Seq<char>)>::empty() + pairs_view(scope@) =~= pairs_view(scope@));
    }
    let q = chars_range(cs, i + 1, ne);
    let (local, ns) = match resolve_in(&q, &dns, &sc) {
        Some(x) => x,
        None => {
            return Err(false);
        },
    };
    if cs[j] == '/' {
        if j + 1 >= cs.len() {
            return Err(true);
        }
        if cs[j + 1] != '>' {
            return Err(false);
        }
        let e = Element { name: local, ns, attrs: others, children: Vec::new() };
        proof {
            lemma_nodes_view(e.children@, 0);
            assert(nodes_view(e.children@, 0) =~= Seq::<NodeV>::empty());
        }
        return Ok((e, j + 2));
    }
    if depth == 0 {
        return Err(false);
    }
    let ghost s = cs@;
    let ghost qv = q@;
    let ghost scv = pairs_view(sc@);
    let ghost whole = parse_element(cs@, i as int, default_ns@, pairs_view(scope@), depth as nat);
    assert(whole == match parse_content(s, j + 1, qv, dns@, scv, (depth - 1) as nat, Seq::empty()) {
        Err(x) => Err(x),
        Ok((kids, k)) => Ok((ElementV::Elem { name: local@, ns: ns@, attrs: pairs_view(others@), children: kids }, k)),
    });
    let mut children: Vec<Node> = Vec::new();
    let mut pos = j + 1;
    proof {
        lemma_nodes_view(children@, 0);
        assert(nodes_view(children@, 0) =~= Seq::<NodeV>::empty());
    }
    loop
        invariant
            i < j < pos <= cs@.len(),
            s == cs@,
            parse_content(s, j + 1, qv, dns@, scv, (depth - 1) as nat, Seq::empty())
                == parse_content(s, pos as int, qv, dns@, scv, (depth - 1) as nat, nodes_view(children@, 0)),
            q@ == qv,
            pairs_view(sc@) == scv,
            depth > 0,
            whole == parse_element(cs@, i as int, default_ns@, pairs_view(scope@), depth as nat),
            whole == match parse_content(s, j + 1, qv, dns@, scv, (depth - 1) as nat, Seq::empty()) {
                Err(x) => Err(x),
                Ok((kids, k)) => Ok((ElementV::Elem { name: local@, ns: ns@, attrs: pairs_view(others@), children: kids }, k)),
            },
        decreases cs@.len() - pos,
    {
        if pos >= cs.len() {
            return Err(true);
        }
        if cs[pos] == '<' {
            if pos + 1 >= cs.len() {
                return Err(true);
            }
            if cs[pos + 1] == '/' {
                let ne2 = name_end_in(cs, pos + 2);
                if ne2 >= cs.len() {
                    return Err(true);
                }
                if !same_chars(cs, pos + 2, ne2, &q) {
                    return Err(false);
                }
                let j2 = skip_space_in(cs, ne2);
                if j2 >= cs.len() {
                    return Err(true);
                }
                if cs[j2] != '>' {
                    return Err(false);
                }
                let e = Element { name: local, ns, attrs: others, children };
                return Ok((e, j2 + 1));
            }
            if cs[pos + 1] == '!' {
                if cs.len() < 9 || pos > cs.len() - 9 {
                    return Err(true);
                }
                if !same_range(cs, pos, pos + 9, "<![CDATA[") {
                    return Err(false);
                }
                let e = cdata_end_in(cs, pos + 9);
                if e >= cs.len() || e < pos + 9 {
                    return Err(true);
                }
                let t = text_of(cs, pos + 9, e);
                proof {
                    lemma_nodes_view_push(children@, Node::Text(t));
                }
                children.push(Node::Text(t));
                pos = e + 3;
                continue;
            }
            match parse_element_in(cs, pos, &dns, &sc, depth - 1) {
                Err(x) => {
                    return Err(x);
                },
                Ok((c, k)) => {
                    if k <= pos || k > cs.len() {
                        return Err(false);
                    }
                    proof {
                        lemma_nodes_view_push(children@, Node::Element(c));
                    }
                    children.push(Node::Element(c));
                    pos = k;
                },
            }
        } else {
            let lt = find_char_in(cs, '<', pos);
            if lt >= cs.len() || lt <= pos {
                return Err(true);
            }
            match decode_in(cs, pos, lt) {
                None => {
                    return Err(false);
                },
                Some(t) => {
                    proof {
                        lemma_nodes_view_push(children@, Node::Text(t));
                    }
                    children.push(Node::Text(t));
                    pos = lt;
                },
            }
        }
    }
}

} // verus!

verus! {

/// The deepest nesting of elements that the parser accepts.
pub const MAX_DEPTH: usize = 1024;

/// Why a text is not one XML element.
#[derive(Clone, Copy, Debug, PartialEq, Eq, Structural)]
pub enum XmlError {
    /// The text ends before the element does.
    Incomplete,
    /// The text is not well formed, or nests too deep.
    Malformed,
}

/// The position after the XML declaration `<?xml …?>` that starts `s`, or 0
/// when there is none; `None` when the declaration is not closed by `?>`.
pub open spec fn after_declaration(s: Seq<char>) -> Option<int> {
    if s.len() >= 5 && s.take(5) == "<?xml"@ {
        let gt = find_char(s, '>', 5);
        if gt < s.len() && s[gt - 1] == '?' {
            Some(gt + 1)
        } else {
            None
        }
    } else {
        Some(0)
    }
}

/// What reading the first element of `s` gives; what follows it is not read.
pub open spec fn document(s: Seq<char>) -> Result<ElementV, XmlError> {
    match after_declaration(s) {
        None => Err(XmlError::Malformed),
        Some(st) => match parse_element(s, skip_space(s, st), Seq::empty(), Seq::empty(), MAX_DEPTH as nat) {
            Err(true) => Err(XmlError::Incomplete),
            Err(false) => Err(XmlError::Malformed),
            Ok((e, _)) => Ok(e),
        },
    }
}

fn declaration_end(cs: &Vec<char>) -> (r: Option<usize>)
    ensures
        match after_declaration(cs@) {
            Some(p) => r == Some(p as usize) && 0 <= p <= cs@.len(),
            None => r is None,
        },
{
    if cs.len() >= 5 && same_range(cs, 0, 5, "<?xml") {
        proof {
            assert(cs@.subrange(0, 5) == cs@.take(5));
        }
        let gt = find_char_in(cs, '>', 5);
        if gt < cs.len() && cs[gt - 1] == '?' {
            Some(gt + 1)
        } else {
            None
        }
    } else {
        proof {
            if cs@.len() >= 5 {
                assert(cs@.subrange(0, 5) == cs@.take(5));
            }
        }
        Some(0)
    }
}

/// Reads the element that a text starts with, after an optional XML
/// declaration and white space. Namespaces are resolved; prefixes are not kept.
pub fn parse(s: &str) -> (r: Result<Element, XmlError>)
    ensures
        match document(s@) {
            Ok(v) => r matches Ok(e) && element_view(e) == v,
            Err(x) => r == Err::<Element, XmlError>(x),
        },
{
    let cs = chars_of(s);
    let st = match declaration_end(&cs) {
        Some(p) => p,
        None => {
            return Err(XmlError::Malformed);
        },
    };
    let i = skip_space_in(&cs, st);
    let empty_ns = String::new();
    let scope: Vec<(String, String)> = Vec::new();
    proof {
        assert(pairs_view(scope@) =~= Seq::<(Seq<char>, Seq<char>)>::empty());
    }
    match parse_element_in(&cs, i, &empty_ns, &scope, MAX_DEPTH) {
        Err(true) => Err(XmlError::Incomplete),
        Err(false) => Err(XmlError::Malformed),
        Ok((e, _)) => Ok(e),
    }
}

/// Writes an element whose surroundings have the default namespace `default_ns`.
pub fn serialize(e: &Element, default_ns: &str) -> (r: String)
    ensures
        r@ == element_xml(element_view(*e), default_ns@),
{
    let mut out = String::new();
    write_element(&mut out, e, default_ns);
    proof {
        assert(Seq::<char>::empty() + element_xml(element_view(*e), default_ns@) == element_xml(
            element_view(*e),
            default_ns@,
        ));
    }
    out
}

} // verus!

verus! {

/// A packet of the stream, as values.
pub enum PacketV {
    Start(Seq<(Seq<char>, Seq<char>)>),
    Stanza(ElementV),
    Text(Seq<char>),
    End,
}

/// The value of a packet.
pub open spec fn packet_view(p: Packet) -> PacketV {
    match p {
        Packet::StreamStart(a) => PacketV::Start(pairs_view(a@)),
        Packet::Stanza(e) => PacketV::Stanza(element_view(e)),
        Packet::Text(t) => PacketV::Text(t@),
        Packet::StreamEnd => PacketV::End,
    }
}

/// Whether the closing `</stream:stream>` stands at `i`.
pub open spec fn stream_end_at(s: Seq<char>, i: int) -> bool {
    0 <= i && i + 16 <= s.len() && s.subrange(i, i + 16) == "</stream:stream>"@
}

/// The packet that starts at `i` of the stream text `s`, and the position
/// after it; `Err(true)` when more input is needed. An XML declaration
/// `<?xml …?>` where a packet may start (at the head of the stream, and again
/// after each restart) is skipped.
pub open spec fn next_packet_at(
    s: Seq<char>,
    i: int,
    default_ns: Seq<char>,
    scope: Seq<(Seq<char>, Seq<char>)>,
) -> Result<(PacketV, int), Incomplete>
    decreases s.len() - i,
{
    if 0 <= i && i + 1 < s.len() && s[i] == '<' && s[i + 1] == '?' {
        if i + 5 > s.len() {
            Err(true)
        } else if s.subrange(i, i + 5) != "<?xml"@ {
            Err(false)
        } else {
            let gt = find_char(s, '>', i + 5);
            if gt >= s.len() || gt < i + 5 {
                Err(true)
            } else if s[gt - 1] != '?' {
                Err(false)
            } else {
                next_packet_at(s, gt + 1, default_ns, scope)
            }
        }
    } else {
        packet_here(s, i, default_ns, scope)
    }
}

/// The packet that starts at `i`, where no XML declaration stands.
pub open spec fn packet_here(
    s: Seq<char>,
    i: int,
    default_ns: Seq<char>,
    scope: Seq<(Seq<char>, Seq<char>)>,
) -> Result<(PacketV, int), Incomplete> {
    if i < 0 || i >= s.len() {
        Err(true)
    } else if s[i] != '<' {
        let lt = find_char(s, '<', i);
        if lt >= s.len() {
            Err(true)
        } else {
            match decode(s, i, lt, Seq::empty()) {
                None => Err(false),
                Some(t) => Ok((PacketV::Text(t), lt)),
            }
        }
    } else if i + 1 >= s.len() {
        Err(true)
    } else if s[i + 1] == '/' {
        if stream_end_at(s, i) {
            Ok((PacketV::End, i + 16))
        } else if s.len() - i < 16 && "</stream:stream>"@.take(s.len() - i) == s.subrange(
            i,
            s.len() as int,
        ) {
            Err(true)
        } else {
            Err(false)
        }
    } else if i + 14 <= s.len() && s.subrange(i, i + 14) == "<stream:stream"@ {
        match parse_attrs(s, i + 14, Seq::empty()) {
            Err(x) => Err(x),
            Ok((a, j)) => if s[j] == '>' {
                Ok((PacketV::Start(a), j + 1))
            } else {
                Err(false)
            },
        }
    } else {
        match parse_element(s, i, default_ns, scope, MAX_DEPTH as nat) {
            Err(x) => Err(x),
            Ok((e, k)) => Ok((PacketV::Stanza(e), k)),
        }
    }
}

fn same_as_prefix(cs: &Vec<char>, from: usize, word: &str) -> (r: bool)
    requires
        from <= cs@.len(),
        cs@.len() - from <= word@.len(),
    ensures
        r == (word@.take(cs@.len() - from) == cs@.subrange(from as int, cs@.len() as int)),
{
    let w = chars_of(word);
    let n = cs.len() - from;
    let mut k: usize = 0;
    while k < n
        invariant
            w@ == word@,
            cs@.len() <= usize::MAX,
            from <= cs@.len(),
            n == cs@.len() - from,
            n <= w@.len(),
            k <= n,
            forall|m: int| 0 <= m < k ==> cs@[from + m] == w@[m],
        decreases n - k,
    {
        if cs[from + k] != w[k] {
            assert(word@.take(n as int)[k as int] != cs@.subrange(from as int, cs@.len() as int)[k as int]);
            return false;
        }
        k = k + 1;
    }
    assert(word@.take(n as int) =~= cs@.subrange(from as int, cs@.len() as int));
    true
}

/// Reads the packet that starts at `pos` of the stream text `cs`: `Ok` with
/// the packet and the position after it, `Err(true)` when more input is
/// needed, `Err(false)` when the stream is malformed. Stanzas are read with
/// the stream's default namespace and prefixes.
pub fn next_packet(
    cs: &Vec<char>,
    pos: usize,
    default_ns: &String,
    scope: &Vec<(String, String)>,
) -> (r: Result<(Packet, usize), Incomplete>)
    ensures
        match next_packet_at(cs@, pos as int, default_ns@, pairs_view(scope@)) {
            Ok((v, k)) => r matches Ok((p, k2)) && k2 == k && packet_view(p) == v,
            Err(x) => r == Err::<(Packet, usize), Incomplete>(x),
        },
        r matches Ok((Packet::StreamEnd, k)) ==> pos + 16 <= k && stream_end_at(cs@, k - 16),
        r matches Ok((_, k)) ==> pos < k <= cs@.len(),
{
    if pos >= cs.len() {
        return Err(true);
    }
    let mut p = pos;
    loop
        invariant
            pos <= p <= cs@.len(),
            next_packet_at(cs@, pos as int, default_ns@, pairs_view(scope@)) == next_packet_at(
                cs@,
                p as int,
                default_ns@,
                pairs_view(scope@),
            ),
        decreases cs@.len() - p,
    {
        if p < cs.len() && p < cs.len() - 1 && cs[p] == '<' && cs[p + 1] == '?' {
            if cs.len() < 5 || p > cs.len() - 5 {
                return Err(true);
            }
            if !same_range(cs, p, p + 5, "<?xml") {
                return Err(false);
            }
            let gt = find_char_in(cs, '>', p + 5);
            if gt >= cs.len() {
                return Err(true);
            }
            if cs[gt - 1] != '?' {
                return Err(false);
            }
            p = gt + 1;
        } else {
            return packet_at(cs, p, default_ns, scope);
        }
    }
}

fn packet_at(
    cs: &Vec<char>,
    pos: usize,
    default_ns: &String,
    scope: &Vec<(String, String)>,
) -> (r: Result<(Packet, usize), Incomplete>)
    ensures
        match packet_here(cs@, pos as int, default_ns@, pairs_view(scope@)) {
            Ok((v, k)) => r matches Ok((p, k2)) && k2 == k && packet_view(p) == v,
            Err(x) => r == Err::<(Packet, usize), Incomplete>(x),
        },
        r matches Ok((Packet::StreamEnd, k)) ==> stream_end_at(cs@, pos as int) && k == pos + 16,
        r matches Ok((_, k)) ==> pos < k <= cs@.len(),
{
    if pos >= cs.len() {
        return Err(true);
    }
    if cs[pos] != '<' {
        let lt = find_char_in(cs, '<', pos + 1);
        assert(find_char(cs@, '<', pos as int) == find_char(cs@, '<', pos + 1));
        if lt >= cs.len() {
            return Err(true);
        }
        return match decode_in(cs, pos, lt) {
            None => Err(false),
            Some(t) => Ok((Packet::Text(t), lt)),
        };
    }
    if pos + 1 >= cs.len() {
        return Err(true);
    }
    if cs[pos + 1] == '/' {
        if cs.len() >= 16 && pos <= cs.len() - 16 && same_range(cs, pos, pos + 16, "</stream:stream>") {
            return Ok((Packet::StreamEnd, pos + 16));
        }
        proof {
            reveal_strlit("</stream:stream>");
        }
        if cs.len() - pos < 16 && same_as_prefix(cs, pos, "</stream:stream>") {
            return Err(true);
        }
        return Err(false);
    }
    if cs.len() >= 14 && pos <= cs.len() - 14 && same_range(cs, pos, pos + 14, "<stream:stream") {
        return match parse_attrs_in(cs, pos + 14) {
            Err(x) => Err(x),
            Ok((a, j)) => if cs[j] == '>' {
                Ok((Packet::StreamStart(a), j + 1))
            } else {
                Err(false)
            },
        };
    }
    match parse_element_in(cs, pos, default_ns, scope, MAX_DEPTH) {
        Err(x) => Err(x),
        Ok((e, k)) => {
            proof {
                assert(cs@[pos as int] == '<');
            }
            Ok((Packet::Stanza(e), k))
        },
    }
}

/// The opening that the client sends:
/// `<stream:stream xmlns='{xmlns}' xmlns:stream='…' to='{to}' version='1.0'>`.
pub fn stream_header(to: &str, xmlns: &str) -> (r: String)
    ensures
        r@ == "<stream:stream xmlns='"@ + escaped(xmlns@)
            + "' xmlns:stream='http://etherx.jabber.org/streams' to='"@ + escaped(to@)
            + "' version='1.0'>"@,
{
    let mut r = String::from_str("<stream:stream xmlns='");
    push_escaped(&mut r, xmlns);
    append_str(&mut r, "' xmlns:stream='http://etherx.jabber.org/streams' to='");
    push_escaped(&mut r, to);
    append_str(&mut r, "' version='1.0'>");
    r
}

/// The closing that ends a stream.
pub fn stream_footer() -> (r: &'static str)
    ensures
        r@ == "</stream:stream>"@,
{
    "</stream:stream>"
}

} // verus!
