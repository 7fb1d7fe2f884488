//! Laws of the XML codec: what the serialiser writes, the parser reads back.

use vstd::prelude::*;
use crate::text::find_char;
use crate::xml::{
    attrs_xml, children_xml, decode, document, element_xml, entity_char, escape_char, escaped,
    is_name_char, is_space, name_end, ns_decls, parse_attrs, parse_content, parse_element,
    resolve, skip_space, after_declaration, ElementV, NodeV, MAX_DEPTH,
};

verus! {

/// Two views of the same text: `s` holds `x` from `i` on.
pub open spec fn holds_at(s: Seq<char>, i: int, x: Seq<char>) -> bool {
    0 <= i && i + x.len() <= s.len() && s.subrange(i, i + x.len()) == x
}

proof fn lemma_holds_split(s: Seq<char>, i: int, a: Seq<char>, b: Seq<char>)
    requires
        holds_at(s, i, a + b),
    ensures
        holds_at(s, i, a),
        holds_at(s, i + a.len(), b),
{
    let whole = s.subrange(i, i + (a + b).len());
    assert(s.subrange(i, i + a.len()) =~= whole.subrange(0, a.len() as int));
    assert(whole.subrange(0, a.len() as int) =~= a);
    assert(s.subrange(i + a.len(), i + a.len() + b.len()) =~= whole.subrange(
        a.len() as int,
        (a + b).len() as int,
    ));
    assert(whole.subrange(a.len() as int, (a + b).len() as int) =~= b);
}

proof fn lemma_holds_char(s: Seq<char>, i: int, x: Seq<char>, k: int)
    requires
        holds_at(s, i, x),
        0 <= k < x.len(),
    ensures
        s[i + k] == x[k],
{
    assert(s.subrange(i, i + x.len())[k] == s[i + k]);
}

proof fn lemma_find_char_at(s: Seq<char>, c: char, from: int, to: int)
    requires
        0 <= from <= to < s.len(),
        s[to] == c,
        forall|k: int| from <= k < to ==> s[k] != c,
    ensures
        find_char(s, c, from) == to,
    decreases to - from,
{
    if from < to {
        lemma_find_char_at(s, c, from + 1, to);
    }
}

proof fn lemma_find_char_none(s: Seq<char>, c: char, from: int)
    requires
        0 <= from <= s.len(),
        forall|k: int| from <= k < s.len() ==> s[k] != c,
    ensures
        find_char(s, c, from) == s.len(),
    decreases s.len() - from,
{
    if from < s.len() {
        lemma_find_char_none(s, c, from + 1);
    }
}

proof fn lemma_name_end_at(s: Seq<char>, from: int, to: int)
    requires
        0 <= from <= to < s.len(),
        !is_name_char(s[to]),
        forall|k: int| from <= k < to ==> is_name_char(s[k]),
    ensures
        name_end(s, from) == to,
    decreases to - from,
{
    if from < to {
        lemma_name_end_at(s, from + 1, to);
    }
}

proof fn lemma_escaped_front(t: Seq<char>)
    requires
        t.len() > 0,
    ensures
        escaped(t) == escape_char(t[0]) + escaped(t.drop_first()),
    decreases t.len(),
{
    if t.len() == 1 {
        assert(t.drop_last() =~= Seq::<char>::empty());
        assert(t.drop_first() =~= Seq::<char>::empty());
        assert(escape_char(t[0]) + Seq::<char>::empty() =~= escape_char(t[0]));
    } else {
        lemma_escaped_front(t.drop_last());
        assert(t.drop_last().drop_first() =~= t.drop_first().drop_last());
        assert(t.drop_first().last() == t.last());
        assert(t.drop_last()[0] == t[0]);
        assert(escaped(t) =~= escape_char(t[0]) + escaped(t.drop_first()));
    }
}

/// Whether `x` holds none of `<`, `'` and `"`.
pub open spec fn quiet(x: Seq<char>) -> bool {
    forall|k: int| 0 <= k < x.len() ==> x[k] != '<' && x[k] != '\'' && x[k] != '"'
}

proof fn lemma_escape_char_quiet(c: char)
    ensures
        quiet(escape_char(c)),
        escape_char(c).len() >= 1,
        escape_char(c)[0] != '<',
{
    reveal_strlit("&amp;");
    reveal_strlit("&lt;");
    reveal_strlit("&gt;");
    reveal_strlit("&apos;");
    reveal_strlit("&quot;");
}

proof fn lemma_escaped_quiet(t: Seq<char>)
    ensures
        quiet(escaped(t)),
        t.len() > 0 ==> escaped(t).len() > 0 && escaped(t)[0] != '<',
    decreases t.len(),
{
    if t.len() > 0 {
        lemma_escaped_quiet(t.drop_last());
        lemma_escape_char_quiet(t.last());
        let a = escaped(t.drop_last());
        let b = escape_char(t.last());
        assert forall|k: int| 0 <= k < (a + b).len() implies (a + b)[k] != '<' && (a + b)[k]
            != '\'' && (a + b)[k] != '"' by {
            if k < a.len() {
                assert((a + b)[k] == a[k]);
            } else {
                assert((a + b)[k] == b[k - a.len()]);
            }
        }
        lemma_escaped_front(t);
        lemma_escape_char_quiet(t[0]);
        assert(escaped(t)[0] == escape_char(t[0])[0]);
    }
}

proof fn lemma_decode_entity(s: Seq<char>, i: int, end: int, c: char, t: Seq<char>, acc: Seq<char>)
    requires
        c == '&' || c == '<' || c == '>' || c == '\'' || c == '"',
        holds_at(s, i, escape_char(c)),
        i + escape_char(c).len() <= end <= s.len(),
    ensures
        decode(s, i, end, acc) == decode(s, i + escape_char(c).len(), end, acc.push(c)),
{
    reveal_strlit("&amp;");
    reveal_strlit("&lt;");
    reveal_strlit("&gt;");
    reveal_strlit("&apos;");
    reveal_strlit("&quot;");
    reveal_strlit("amp");
    reveal_strlit("lt");
    reveal_strlit("gt");
    reveal_strlit("apos");
    reveal_strlit("quot");
    let x = escape_char(c);
    let n = x.len() as int;
    let name = if c == '&' {
        assert(x =~= seq!['&', 'a', 'm', 'p', ';']);
        assert("amp"@.len() == 3);
        assert(entity_char("amp"@) == Some('&'));
        "amp"@
    } else if c == '<' {
        assert(x =~= seq!['&', 'l', 't', ';']);
        assert("lt"@.len() == 2);
        assert(entity_char("lt"@) == Some('<'));
        "lt"@
    } else if c == '>' {
        assert(x =~= seq!['&', 'g', 't', ';']);
        assert("gt"@.len() == 2);
        assert("gt"@[0] == 'g' && "lt"@[0] == 'l');
        assert("gt"@ != "lt"@);
        assert(entity_char("gt"@) == Some('>'));
        "gt"@
    } else if c == '\'' {
        assert(x =~= seq!['&', 'a', 'p', 'o', 's', ';']);
        assert("apos"@.len() == 4);
        assert(entity_char("apos"@) == Some('\''));
        "apos"@
    } else {
        assert(x =~= seq!['&', 'q', 'u', 'o', 't', ';']);
        assert("quot"@.len() == 4);
        assert("quot"@[0] == 'q' && "apos"@[0] == 'a');
        assert("quot"@ != "apos"@);
        assert(entity_char("quot"@) == Some('"'));
        "quot"@
    };
    assert(x[0] == '&');
    assert(x[n - 1] == ';');
    assert forall|k: int| 1 <= k < n - 1 implies x[k] != ';' by {}
    assert forall|k: int| 0 <= k < n implies s[i + k] == x[k] by {
        lemma_holds_char(s, i, x, k);
    }
    lemma_find_char_at(s, ';', i + 1, i + n - 1);
    assert(s.subrange(i + 1, i + n - 1) =~= x.subrange(1, n - 1));
    assert(x.subrange(1, n - 1) =~= name);
    assert(entity_char(name) == Some(c));
}

/// The escaped text of `t` decodes to `t`.
pub proof fn lemma_decode_escaped(s: Seq<char>, i: int, t: Seq<char>, acc: Seq<char>)
    requires
        holds_at(s, i, escaped(t)),
    ensures
        decode(s, i, i + escaped(t).len(), acc) == Some(acc + t),
    decreases t.len(),
{
    if t.len() == 0 {
        assert(acc + t =~= acc);
    } else {
        lemma_escaped_front(t);
        let c = t[0];
        let x = escape_char(c);
        let rest = t.drop_first();
        lemma_holds_split(s, i, x, escaped(rest));
        lemma_decode_escaped(s, i + x.len(), rest, acc.push(c));
        assert(acc.push(c) + rest =~= acc + t);
        if c == '&' || c == '<' || c == '>' || c == '\'' || c == '"' {
            lemma_decode_entity(s, i, i + escaped(t).len(), c, rest, acc);
        } else {
            lemma_holds_char(s, i, x, 0);
        }
    }
}

} // verus!

verus! {

/// ` k='v'`: one attribute as the serialiser writes it.
pub open spec fn attr_piece(p: (Seq<char>, Seq<char>)) -> Seq<char> {
    " "@ + p.0 + "='"@ + escaped(p.1) + "'"@
}

proof fn lemma_attrs_front(a: Seq<(Seq<char>, Seq<char>)>)
    requires
        a.len() > 0,
    ensures
        attrs_xml(a) == attr_piece(a[0]) + attrs_xml(a.drop_first()),
    decreases a.len(),
{
    if a.len() == 1 {
        assert(a.drop_last() =~= Seq::<(Seq<char>, Seq<char>)>::empty());
        assert(a.drop_first() =~= Seq::<(Seq<char>, Seq<char>)>::empty());
        assert(attrs_xml(a) =~= attr_piece(a[0]) + attrs_xml(a.drop_first()));
    } else {
        lemma_attrs_front(a.drop_last());
        assert(a.drop_last().drop_first() =~= a.drop_first().drop_last());
        assert(a.drop_first().last() == a.last());
        assert(a.drop_last()[0] == a[0]);
        assert(attrs_xml(a) =~= attr_piece(a[0]) + attrs_xml(a.drop_first()));
    }
}

/// A name that the parser reads back whole: not empty, name characters only.
pub open spec fn name_ok(k: Seq<char>) -> bool {
    k.len() > 0 && forall|m: int| 0 <= m < k.len() ==> is_name_char(#[trigger] k[m])
}

proof fn lemma_parse_attrs_xml(s: Seq<char>, i: int, a: Seq<(Seq<char>, Seq<char>)>, acc: Seq<(Seq<char>, Seq<char>)>)
    requires
        forall|m: int| 0 <= m < a.len() ==> name_ok(#[trigger] a[m].0),
        holds_at(s, i, attrs_xml(a)),
        i + attrs_xml(a).len() < s.len(),
        s[i + attrs_xml(a).len()] == '>' || s[i + attrs_xml(a).len()] == '/',
    ensures
        parse_attrs(s, i, acc) == Ok::<_, bool>((acc + a, i + attrs_xml(a).len())),
    decreases a.len(),
{
    reveal_strlit(" ");
    reveal_strlit("='");
    reveal_strlit("'");
    if a.len() == 0 {
        assert(acc + a =~= acc);
        assert(!is_space(s[i]));
    } else {
        lemma_attrs_front(a);
        let (k, v) = a[0];
        assert(name_ok(a[0].0));
        let esc = escaped(v);
        let piece = attr_piece(a[0]);
        let rest = attrs_xml(a.drop_first());
        lemma_holds_split(s, i, piece, rest);
        lemma_holds_split(s, i, " "@ + k + "='"@ + esc, "'"@);
        lemma_holds_split(s, i, " "@ + k + "='"@, esc);
        lemma_holds_split(s, i, " "@ + k, "='"@);
        lemma_holds_split(s, i, " "@, k);
        let j = i + 1;
        let ne = j + k.len();
        let close = ne + 2 + esc.len();
        lemma_holds_char(s, i, " "@, 0);
        lemma_holds_char(s, ne, "='"@, 0);
        lemma_holds_char(s, ne, "='"@, 1);
        lemma_holds_char(s, close, "'"@, 0);
        assert forall|m: int| j <= m < ne implies is_name_char(s[m]) by {
            lemma_holds_char(s, j, k, m - j);
        }
        lemma_holds_char(s, j, k, 0);
        assert(!is_space(s[j]));
        assert(skip_space(s, i + 1) == j);
        assert(skip_space(s, i) == j);
        lemma_name_end_at(s, j, ne);
        lemma_escaped_quiet(v);
        assert forall|m: int| ne + 2 <= m < close implies s[m] != '\'' by {
            lemma_holds_char(s, ne + 2, esc, m - ne - 2);
        }
        lemma_find_char_at(s, '\'', ne + 2, close);
        lemma_decode_escaped(s, ne + 2, v, Seq::empty());
        assert(Seq::<char>::empty() + v =~= v);
        assert(s.subrange(j, ne) == k);
        lemma_parse_attrs_xml(s, close + 1, a.drop_first(), acc.push((k, v)));
        assert(acc.push((k, v)) + a.drop_first() =~= acc + a);
        assert(close + 1 + rest.len() == i + attrs_xml(a).len());
    }
}

} // verus!

verus! {

/// An attribute name that is not a namespace declaration.
pub open spec fn plain_key(k: Seq<char>) -> bool {
    k != "xmlns"@ && !(k.len() > 6 && k.take(6) == "xmlns:"@)
}

/// Whether the serialiser's text of `e` reads back as `e`: names and
/// attribute names are non-empty runs of name characters, element names
/// have no prefix, no attribute declares a namespace, text children are not
/// empty and never follow one another, and elements nest at most `depth`
/// deep below `e`.
pub open spec fn wf_element(e: ElementV, depth: nat) -> bool
    decreases e,
{
    match e {
        ElementV::Elem { name, ns, attrs, children } => {
            &&& name_ok(name)
            &&& forall|m: int| 0 <= m < name.len() ==> #[trigger] name[m] != ':'
            &&& forall|m: int|
                0 <= m < attrs.len() ==> name_ok(#[trigger] attrs[m].0) && plain_key(attrs[m].0)
            &&& children.len() > 0 ==> depth > 0 && wf_children(children, 0, (depth - 1) as nat)
        },
    }
}

/// Whether `children[k..]` are well formed at `depth`.
pub open spec fn wf_children(children: Seq<NodeV>, k: int, depth: nat) -> bool
    decreases children, children.len() - k,
{
    if 0 <= k < children.len() {
        &&& match children[k] {
            NodeV::Text(t) => t.len() > 0 && (k + 1 < children.len() ==> children[k + 1] is Element),
            NodeV::Element(c) => wf_element(c, depth),
        }
        &&& wf_children(children, k + 1, depth)
    } else {
        true
    }
}

proof fn lemma_ns_decls_plain(pre: Seq<(Seq<char>, Seq<char>)>, a: Seq<(Seq<char>, Seq<char>)>)
    requires
        forall|m: int| 0 <= m < a.len() ==> plain_key(#[trigger] a[m].0),
    ensures
        ns_decls(pre + a) == (ns_decls(pre).0, ns_decls(pre).1, ns_decls(pre).2 + a),
    decreases a.len(),
{
    if a.len() == 0 {
        assert(pre + a =~= pre);
        assert(ns_decls(pre).2 + a =~= ns_decls(pre).2);
    } else {
        lemma_ns_decls_plain(pre, a.drop_last());
        assert((pre + a).drop_last() =~= pre + a.drop_last());
        assert((pre + a).last() == a.last());
        assert(plain_key(a[a.len() - 1].0));
        reveal_strlit("xmlns");
        assert(ns_decls(pre).2 + a.drop_last() + seq![a.last()] =~= ns_decls(pre).2 + a);
    }
}

proof fn lemma_element_starts(e: ElementV, pns: Seq<char>)
    ensures
        element_xml(e, pns).len() > 1,
        element_xml(e, pns)[0] == '<',
{
    reveal_strlit("<");
    reveal_strlit("/>");
    reveal_strlit(">");
}

proof fn lemma_element_xml_split(e: ElementV, pns: Seq<char>)
    ensures
        ({
            let ElementV::Elem { name, ns, attrs, children } = e;
            let all = if ns == pns {
                attrs
            } else {
                seq![("xmlns"@, ns)] + attrs
            };
            let open = "<"@ + name + attrs_xml(all);
            &&& attrs_xml(all).len() > 0 ==> attrs_xml(all)[0] == ' '
            &&& children.len() == 0 ==> element_xml(e, pns) == open + "/>"@
            &&& children.len() > 0 ==> element_xml(e, pns) == open + ">"@ + children_xml(children, 0, ns)
                + "</"@ + name + ">"@
        }),
{
    reveal_strlit(" xmlns='");
    reveal_strlit(" ");
    reveal_strlit("xmlns");
    reveal_strlit("='");
    let ElementV::Elem { name, ns, attrs, children } = e;
    let all = if ns == pns {
        attrs
    } else {
        seq![("xmlns"@, ns)] + attrs
    };
    let decl = if ns == pns {
        Seq::<char>::empty()
    } else {
        " xmlns='"@ + escaped(ns) + "'"@
    };
    if ns != pns {
        lemma_attrs_front(all);
        assert(all[0] == ("xmlns"@, ns));
        assert(all.drop_first() =~= attrs);
        assert(" xmlns='"@ =~= " "@ + "xmlns"@ + "='"@);
        assert(decl + attrs_xml(attrs) =~= attrs_xml(all));
    } else {
        assert(decl + attrs_xml(attrs) =~= attrs_xml(all));
        if attrs.len() > 0 {
            lemma_attrs_front(attrs);
        }
    }
    assert("<"@ + name + decl + attrs_xml(attrs) =~= "<"@ + name + attrs_xml(all));
}

} // verus!

verus! {

proof fn lemma_resolve_plain(q: Seq<char>, dns: Seq<char>, sc: Seq<(Seq<char>, Seq<char>)>)
    requires
        forall|m: int| 0 <= m < q.len() ==> #[trigger] q[m] != ':',
    ensures
        resolve(q, dns, sc) == Some((q, dns)),
{
    lemma_find_char_none(q, ':', 0);
}

proof fn lemma_parse_element_xml(
    s: Seq<char>,
    i: int,
    e: ElementV,
    pns: Seq<char>,
    scope: Seq<(Seq<char>, Seq<char>)>,
    depth: nat,
)
    requires
        wf_element(e, depth),
        holds_at(s, i, element_xml(e, pns)),
    ensures
        parse_element(s, i, pns, scope, depth) == Ok::<_, bool>((e, i + element_xml(e, pns).len())),
    decreases e,
{
    reveal_strlit("<");
    reveal_strlit("/>");
    reveal_strlit(">");
    reveal_strlit("</");
    reveal_strlit("xmlns");
    let ElementV::Elem { name, ns, attrs, children } = e;
    let all = if ns == pns {
        attrs
    } else {
        seq![("xmlns"@, ns)] + attrs
    };
    let ax = attrs_xml(all);
    let open = "<"@ + name + ax;
    lemma_element_xml_split(e, pns);
    let x = element_xml(e, pns);
    let tail = if children.len() == 0 {
        "/>"@
    } else {
        ">"@ + children_xml(children, 0, ns) + "</"@ + name + ">"@
    };
    assert(x =~= open + tail);
    lemma_holds_split(s, i, open, tail);
    lemma_holds_split(s, i, "<"@ + name, ax);
    lemma_holds_split(s, i, "<"@, name);
    lemma_holds_char(s, i, "<"@, 0);
    let ne = i + 1 + name.len();
    let j = ne + ax.len();
    lemma_holds_char(s, j, tail, 0);
    assert(tail[0] == '/' || tail[0] == '>');
    assert forall|m: int| i + 1 <= m < ne implies is_name_char(s[m]) by {
        lemma_holds_char(s, i + 1, name, m - i - 1);
    }
    if ax.len() > 0 {
        lemma_holds_char(s, ne, ax, 0);
    }
    assert(!is_name_char(s[ne]));
    lemma_name_end_at(s, i + 1, ne);
    assert forall|m: int| 0 <= m < all.len() implies name_ok(#[trigger] all[m].0) by {
        if ns != pns {
            if m == 0 {
                assert(all[0].0 == "xmlns"@);
            } else {
                assert(all[m] == attrs[m - 1]);
            }
        }
    }
    lemma_parse_attrs_xml(s, ne, all, Seq::empty());
    assert(Seq::<(Seq<char>, Seq<char>)>::empty() + all =~= all);
    let pre = if ns == pns {
        Seq::<(Seq<char>, Seq<char>)>::empty()
    } else {
        seq![("xmlns"@, ns)]
    };
    assert(all =~= pre + attrs);
    lemma_ns_decls_plain(pre, attrs);
    if ns != pns {
        assert(pre.drop_last() =~= Seq::<(Seq<char>, Seq<char>)>::empty());
        assert(pre.last() == ("xmlns"@, ns));
    }
    assert(ns_decls(Seq::<(Seq<char>, Seq<char>)>::empty()).2 + attrs =~= attrs);
    assert(scope + ns_decls(pre).1 =~= scope);
    assert(s.subrange(i + 1, ne) == name);
    lemma_resolve_plain(name, ns, scope);
    if children.len() == 0 {
        lemma_holds_char(s, j, tail, 1);
        assert(children =~= Seq::<NodeV>::empty());
    } else {
        let cx = children_xml(children, 0, ns);
        let endtag = "</"@ + name + ">"@;
        assert(tail =~= ">"@ + (cx + endtag));
        lemma_holds_split(s, j, ">"@, cx + endtag);
        lemma_parse_content_xml(s, j + 1, children, 0, name, ns, scope, (depth - 1) as nat, Seq::empty());
        assert(Seq::<NodeV>::empty() + children.subrange(0, children.len() as int) =~= children);
    }
}

proof fn lemma_parse_content_xml(
    s: Seq<char>,
    i: int,
    children: Seq<NodeV>,
    k: int,
    qname: Seq<char>,
    ns: Seq<char>,
    scope: Seq<(Seq<char>, Seq<char>)>,
    depth: nat,
    acc: Seq<NodeV>,
)
    requires
        0 <= k <= children.len(),
        wf_children(children, k, depth),
        name_ok(qname),
        holds_at(s, i, children_xml(children, k, ns) + ("</"@ + qname + ">"@)),
    ensures
        parse_content(s, i, qname, ns, scope, depth, acc) == Ok::<_, bool>(
            (
                acc + children.subrange(k, children.len() as int),
                i + children_xml(children, k, ns).len() + qname.len() + 3,
            ),
        ),
    decreases children, children.len() - k,
{
    reveal_strlit("</");
    reveal_strlit(">");
    let endtag = "</"@ + qname + ">"@;
    if k == children.len() {
        assert(children_xml(children, k, ns) =~= Seq::<char>::empty());
        assert(Seq::<char>::empty() + endtag =~= endtag);
        lemma_holds_split(s, i, "</"@ + qname, ">"@);
        lemma_holds_split(s, i, "</"@, qname);
        lemma_holds_char(s, i, "</"@, 0);
        lemma_holds_char(s, i, "</"@, 1);
        let ne = i + 2 + qname.len();
        lemma_holds_char(s, ne, ">"@, 0);
        assert forall|m: int| i + 2 <= m < ne implies is_name_char(s[m]) by {
            lemma_holds_char(s, i + 2, qname, m - i - 2);
        }
        lemma_name_end_at(s, i + 2, ne);
        assert(!is_space(s[ne]));
        assert(acc + children.subrange(k, children.len() as int) =~= acc);
    } else {
        let piece = match children[k] {
            NodeV::Text(t) => escaped(t),
            NodeV::Element(c) => element_xml(c, ns),
        };
        let rest = children_xml(children, k + 1, ns);
        assert(children_xml(children, k, ns) == piece + rest);
        assert(piece + rest + endtag =~= piece + (rest + endtag));
        lemma_holds_split(s, i, piece, rest + endtag);
        let next = i + piece.len();
        assert(acc.push(children[k]) + children.subrange(k + 1, children.len() as int) =~= acc
            + children.subrange(k, children.len() as int));
        match children[k] {
            NodeV::Element(c) => {
                lemma_element_starts(c, ns);
                lemma_holds_char(s, i, piece, 0);
                lemma_holds_char(s, i, piece, 1);
                lemma_element_xml_split(c, ns);
                let ElementV::Elem { name: cn, ns: cns, attrs: ca, .. } = c;
                assert(wf_element(c, depth));
                assert(name_ok(cn));
                let call = if cns == ns {
                    ca
                } else {
                    seq![("xmlns"@, cns)] + ca
                };
                assert(piece[1] == ("<"@ + cn + attrs_xml(call))[1]);
                reveal_strlit("<");
                assert(("<"@ + cn)[1] == cn[0]);
                assert(("<"@ + cn + attrs_xml(call))[1] == ("<"@ + cn)[1]);
                assert(is_name_char(cn[0]));
                lemma_parse_element_xml(s, i, c, ns, scope, depth);
                lemma_parse_content_xml(s, next, children, k + 1, qname, ns, scope, depth, acc.push(NodeV::Element(c)));
            },
            NodeV::Text(t) => {
                lemma_escaped_quiet(t);
                lemma_holds_char(s, i, piece, 0);
                let after = rest + endtag;
                if k + 1 < children.len() {
                    let c2 = children[k + 1]->Element_0;
                    lemma_element_starts(c2, ns);
                    assert(rest == element_xml(c2, ns) + children_xml(children, k + 2, ns));
                    assert(after[0] == '<');
                } else {
                    assert(rest =~= Seq::<char>::empty());
                    assert(after[0] == '<');
                }
                lemma_holds_char(s, next, after, 0);
                assert forall|m: int| i <= m < next implies s[m] != '<' by {
                    lemma_holds_char(s, i, piece, m - i);
                }
                lemma_find_char_at(s, '<', i, next);
                lemma_decode_escaped(s, i, t, Seq::empty());
                assert(Seq::<char>::empty() + t =~= t);
                lemma_parse_content_xml(s, next, children, k + 1, qname, ns, scope, depth, acc.push(NodeV::Text(t)));
            },
        }
    }
}

/// For every well-formed element `e`, the text that the serialiser writes
/// for it (with no default namespace around it) is read back by the parser as
/// exactly `e`.
pub proof fn lemma_round_trip(e: ElementV)
    requires
        wf_element(e, MAX_DEPTH as nat),
    ensures
        document(element_xml(e, Seq::empty())) == Ok::<ElementV, crate::xml::XmlError>(e),
{
    reveal_strlit("<?xml");
    let s = element_xml(e, Seq::empty());
    assert(s.subrange(0, s.len() as int) =~= s);
    lemma_element_starts(e, Seq::empty());
    lemma_element_xml_split(e, Seq::empty());
    let ElementV::Elem { name, ns, attrs, .. } = e;
    assert(name_ok(name));
    let all = if ns == Seq::<char>::empty() {
        attrs
    } else {
        seq![("xmlns"@, ns)] + attrs
    };
    assert(s[1] == ("<"@ + name + attrs_xml(all))[1]);
    reveal_strlit("<");
    assert(("<"@ + name)[1] == name[0]);
    assert(("<"@ + name + attrs_xml(all))[1] == ("<"@ + name)[1]);
    assert(s[1] == name[0]);
    assert(is_name_char(name[0]));
    if s.len() >= 5 {
        assert(s.take(5)[1] == s[1]);
        assert(s.take(5) != "<?xml"@);
    }
    assert(after_declaration(s) == Some(0int));
    assert(!is_space(s[0]));
    assert(skip_space(s, 0) == 0);
    lemma_parse_element_xml(s, 0, e, Seq::empty(), Seq::empty(), MAX_DEPTH as nat);
}

} // verus!

verus! {

/// The stream framing reports the end of the stream only where the closing
/// `</stream:stream>` stands: on input that does not hold it from `i` on, the
/// answer is a packet of another kind, a request for more input, or an error.
pub proof fn lemma_end_only_at_close(
    s: Seq<char>,
    i: int,
    default_ns: Seq<char>,
    scope: Seq<(Seq<char>, Seq<char>)>,
)
    requires
        forall|p: int| i <= p ==> !crate::xml::stream_end_at(s, p),
    ensures
        !(crate::xml::next_packet_at(s, i, default_ns, scope) matches Ok((crate::xml::PacketV::End, _))),
    decreases s.len() - i,
{
    if 0 <= i && i + 1 < s.len() && s[i] == '<' && s[i + 1] == '?' && i + 5 <= s.len() {
        let gt = find_char(s, '>', i + 5);
        if gt < s.len() && gt >= i + 5 {
            lemma_end_only_at_close(s, gt + 1, default_ns, scope);
        }
    }
}

} // verus!
