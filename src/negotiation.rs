//! Stream negotiation: reading `<stream:features>`, STARTTLS, the SASL
//! exchange framing and resource binding.

use vstd::prelude::*;
use crate::client::{ClientError, ProtocolError};
use crate::element::{attr_value, nodes_text, Element, Node};
use crate::encoding::{base64_bytes, base64_decode, base64_encode, base64_text};
use crate::jid::{jid_parse, Jid};
use crate::ns::{BIND, JABBER_CLIENT, SASL, TLS};
use crate::sasl::{
    mechanism_eligible, mechanism_name, mechanism_rank, select_mechanism, ChannelBinding, Mechanism,
    Password, SaslCredentials, SaslError,
};
use crate::scram::{
    binding_data, client_final, client_first_bare_text, scram_final, server_final_signature,
    verify_server_final, ClientFirst, Sha1, Sha256,
};
use vstd::utf8::encode_utf8;
use crate::text::{same_text, utf8_text};

verus! {

/// Whether `e` has a child element named `name` in `ns`.
pub open spec fn has_child(e: Element, name: Seq<char>, ns: Seq<char>) -> bool {
    exists|i: int|
        0 <= i < e.children@.len() && (#[trigger] e.children@[i] matches Node::Element(c) && c.name@
            == name && c.ns@ == ns)
}

/// What the server advertises in `<stream:features>`.
#[derive(Debug, PartialEq)]
pub struct StreamFeatures {
    /// STARTTLS is offered.
    pub starttls: bool,
    /// STARTTLS is offered and required.
    pub starttls_required: bool,
    /// The SASL mechanisms offered, in the server's order.
    pub mechanisms: Vec<String>,
    /// Resource binding is offered.
    pub bind: bool,
}

/// The texts of the `<mechanism/>` children of `e`.
pub open spec fn mechanism_texts(children: Seq<Node>) -> Seq<Seq<char>>
    decreases children.len(),
{
    if children.len() == 0 {
        Seq::empty()
    } else {
        mechanism_texts(children.drop_last()) + match children.last() {
            Node::Element(c) => if c.name@ == "mechanism"@ && c.ns@ == SASL@ {
                seq![nodes_text(c.children@)]
            } else {
                Seq::empty()
            },
            Node::Text(_) => Seq::empty(),
        }
    }
}

/// The mechanisms that the last `<mechanisms/>` child among `children` offers.
pub open spec fn offered_mechanisms(children: Seq<Node>) -> Seq<Seq<char>>
    decreases children.len(),
{
    if children.len() == 0 {
        Seq::empty()
    } else if children.last() matches Node::Element(c) && c.name@ == "mechanisms"@ && c.ns@ == SASL@ {
        mechanism_texts(children.last()->Element_0.children@)
    } else {
        offered_mechanisms(children.drop_last())
    }
}

/// The views of a list of texts.
pub open spec fn texts_view(v: Seq<String>) -> Seq<Seq<char>> {
    Seq::new(v.len(), |i: int| v[i]@)
}

fn mechanisms_of(e: &Element) -> (r: Vec<String>)
    ensures
        texts_view(r@) == mechanism_texts(e.children@),
{
    let mut r: Vec<String> = Vec::new();
    let mut i: usize = 0;
    while i < e.children.len()
        invariant
            i <= e.children@.len(),
            texts_view(r@) == mechanism_texts(e.children@.take(i as int)),
        decreases e.children@.len() - i,
    {
        proof {
            assert(e.children@.take(i + 1).drop_last() == e.children@.take(i as int));
        }
        let ghost before = r@;
        match &e.children[i] {
            Node::Element(c) => {
                if c.is("mechanism", SASL) {
                    let t = c.text();
                    let ghost tv = t@;
                    r.push(t);
                    proof {
                        assert(texts_view(r@) =~= texts_view(before) + seq![tv]);
                    }
                } else {
                    proof {
                        assert(texts_view(before) + Seq::<Seq<char>>::empty() =~= texts_view(before));
                    }
                }
            },
            Node::Text(_) => {
                proof {
                    assert(texts_view(before) + Seq::<Seq<char>>::empty() =~= texts_view(before));
                }
            },
        }
        i = i + 1;
    }
    proof {
        assert(e.children@.take(e.children@.len() as int) == e.children@);
    }
    r
}

impl StreamFeatures {
    /// Reads `<stream:features>`: STARTTLS (and whether it is required), the
    /// SASL mechanisms, and resource binding.
    pub fn from_element(e: &Element) -> (r: StreamFeatures)
        ensures
            r.starttls == has_child(*e, "starttls"@, TLS@),
            r.starttls_required == exists|i: int|
                0 <= i < e.children@.len() && (#[trigger] e.children@[i] matches Node::Element(c)
                    && c.name@ == "starttls"@ && c.ns@ == TLS@ && has_child(c, "required"@, TLS@)),
            r.bind == has_child(*e, "bind"@, BIND@),
            texts_view(r.mechanisms@) == offered_mechanisms(e.children@),
    {
        let mut starttls = false;
        let mut required = false;
        let mut bind = false;
        let mut mechanisms: Vec<String> = Vec::new();
        let mut i: usize = 0;
        proof {
            assert(texts_view(mechanisms@) =~= Seq::<Seq<char>>::empty());
        }
        while i < e.children.len()
            invariant
                i <= e.children@.len(),
                starttls == exists|j: int|
                    0 <= j < i && (#[trigger] e.children@[j] matches Node::Element(c) && c.name@
                        == "starttls"@ && c.ns@ == TLS@),
                required == exists|j: int|
                    0 <= j < i && (#[trigger] e.children@[j] matches Node::Element(c) && c.name@
                        == "starttls"@ && c.ns@ == TLS@ && has_child(c, "required"@, TLS@)),
                bind == exists|j: int|
                    0 <= j < i && (#[trigger] e.children@[j] matches Node::Element(c) && c.name@
                        == "bind"@ && c.ns@ == BIND@),
                texts_view(mechanisms@) == offered_mechanisms(e.children@.take(i as int)),
            decreases e.children@.len() - i,
        {
            proof {
                reveal_strlit("starttls");
                reveal_strlit("bind");
                reveal_strlit("mechanisms");
                assert("starttls"@.len() == 8);
                assert("bind"@.len() == 4);
                assert("mechanisms"@.len() == 10);
                assert("starttls"@ != "bind"@);
                assert("mechanisms"@ != "bind"@);
                assert("mechanisms"@ != "starttls"@);
                assert(e.children@.take(i + 1).drop_last() == e.children@.take(i as int));
                assert(e.children@.take(i + 1).last() == e.children@[i as int]);
            }
            if let Node::Element(c) = &e.children[i] {
                if c.is("starttls", TLS) {
                    starttls = true;
                    if c.get_child("required", TLS).is_some() {
                        required = true;
                    }
                } else if c.is("bind", BIND) {
                    bind = true;
                } else if c.is("mechanisms", SASL) {
                    mechanisms = mechanisms_of(c);
                }
            }
            i = i + 1;
        }
        proof {
            assert(e.children@.take(e.children@.len() as int) == e.children@);
        }
        StreamFeatures { starttls, starttls_required: required, mechanisms, bind }
    }
}

/// What the server's reply to `<starttls/>` asks for.
pub fn on_starttls_reply(e: &Element) -> (r: Result<(), ClientError>)
    ensures
        r is Ok <==> (e.name@ == "proceed"@ && e.ns@ == TLS@),
        r is Err ==> r == Err::<(), ClientError>(ClientError::Protocol(ProtocolError::TlsRefused)),
{
    if e.is("proceed", TLS) {
        Ok(())
    } else {
        Err(ClientError::Protocol(ProtocolError::TlsRefused))
    }
}

/// The first features of a plain stream: STARTTLS must be offered, since TLS
/// is mandatory.
pub fn on_plain_features(f: &StreamFeatures) -> (r: Result<(), ClientError>)
    ensures
        r is Ok <==> f.starttls,
        r is Err ==> r == Err::<(), ClientError>(ClientError::Protocol(ProtocolError::NoTls)),
{
    if f.starttls {
        Ok(())
    } else {
        Err(ClientError::Protocol(ProtocolError::NoTls))
    }
}

/// The features of the encrypted stream: the mechanism to authenticate with.
pub fn on_tls_features(f: &StreamFeatures, creds: &SaslCredentials) -> (r: Result<
    Mechanism,
    ClientError,
>)
    ensures
        r matches Ok(m) ==> mechanism_eligible(m, f.mechanisms@, *creds, true) && forall|o: Mechanism|
            mechanism_rank(o) < mechanism_rank(m) ==> !mechanism_eligible(o, f.mechanisms@, *creds, true),
        r is Err <==> forall|o: Mechanism| !mechanism_eligible(o, f.mechanisms@, *creds, true),
        r is Err ==> r == Err::<Mechanism, ClientError>(
            ClientError::Sasl(SaslError::NoSupportedMechanism),
        ),
{
    match select_mechanism(&f.mechanisms, creds, true) {
        Ok(m) => Ok(m),
        Err(e) => Err(ClientError::Sasl(e)),
    }
}

/// The text of a SASL payload element: base64, or `=` for an empty payload.
pub open spec fn sasl_payload_text(data: Seq<u8>) -> Seq<char> {
    if data.len() == 0 {
        "="@
    } else {
        base64_text(data)
    }
}

fn payload_text(data: &[u8]) -> (r: String)
    requires
        data@.len() <= usize::MAX / 2,
    ensures
        r@ == sasl_payload_text(data@),
{
    if data.len() == 0 {
        String::from_str("=")
    } else {
        base64_encode(data)
    }
}

/// `<auth xmlns='urn:ietf:params:xml:ns:xmpp-sasl' mechanism='{name}'>{payload}</auth>`.
pub fn auth_element(mechanism: Mechanism, initial: &[u8]) -> (r: Element)
    requires
        initial@.len() <= usize::MAX / 2,
    ensures
        r.name@ == "auth"@,
        r.ns@ == SASL@,
        r.attrs@.len() == 1,
        r.attrs@[0].0@ == "mechanism"@,
        r.attrs@[0].1@ == mechanism_name(mechanism),
        r.children@.len() == 1,
        r.children@[0] matches Node::Text(t) && t@ == sasl_payload_text(initial@),
{
    Element::new("auth", SASL).with_attr("mechanism", String::from_str(mechanism.name())).with_text(
        payload_text(initial),
    )
}

/// `<response xmlns='urn:ietf:params:xml:ns:xmpp-sasl'>{payload}</response>`.
pub fn response_element(data: &[u8]) -> (r: Element)
    requires
        data@.len() <= usize::MAX / 2,
    ensures
        r.name@ == "response"@,
        r.ns@ == SASL@,
        r.attrs@.len() == 0,
        r.children@.len() == 1,
        r.children@[0] matches Node::Text(t) && t@ == sasl_payload_text(data@),
{
    Element::new("response", SASL).with_text(payload_text(data))
}

/// What the server said during the SASL exchange.
#[derive(Debug, PartialEq)]
pub enum SaslReply {
    /// More data is asked for.
    Challenge(Vec<u8>),
    /// Authentication succeeded, with optional final data.
    Success(Vec<u8>),
}

/// The bytes of a SASL payload text: `=` or nothing for none, else base64.
pub open spec fn sasl_payload_bytes(t: Seq<char>) -> Option<Seq<u8>> {
    if t.len() == 0 || t == "="@ {
        Some(Seq::empty())
    } else {
        base64_bytes(t)
    }
}

fn payload_bytes(t: &str) -> (r: Option<Vec<u8>>)
    ensures
        match sasl_payload_bytes(t@) {
            Some(b) => r matches Some(v) && v@ == b,
            None => r is None,
        },
{
    if t.is_empty() || same_text(t, "=") {
        Some(Vec::new())
    } else {
        base64_decode(t)
    }
}

/// Reads the server's `<challenge/>`, `<success/>` or `<failure/>`.
pub fn on_sasl_reply(e: &Element) -> (r: Result<SaslReply, ClientError>)
    ensures
        e.ns@ != SASL@ ==> r == Err::<SaslReply, ClientError>(ClientError::Parse),
        e.ns@ == SASL@ ==> if e.name@ == "failure"@ {
            r == Err::<SaslReply, ClientError>(ClientError::Protocol(ProtocolError::NotAuthorized))
        } else if e.name@ == "challenge"@ || e.name@ == "success"@ {
            match sasl_payload_bytes(nodes_text(e.children@)) {
                None => r == Err::<SaslReply, ClientError>(ClientError::Parse),
                Some(b) => if e.name@ == "challenge"@ {
                    r matches Ok(SaslReply::Challenge(v)) && v@ == b
                } else {
                    r matches Ok(SaslReply::Success(v)) && v@ == b
                },
            }
        } else {
            r == Err::<SaslReply, ClientError>(ClientError::Parse)
        },
{
    if !same_text(e.ns.as_str(), SASL) {
        return Err(ClientError::Parse);
    }
    if same_text(e.name.as_str(), "failure") {
        return Err(ClientError::Protocol(ProtocolError::NotAuthorized));
    }
    let challenge = same_text(e.name.as_str(), "challenge");
    if !challenge && !same_text(e.name.as_str(), "success") {
        return Err(ClientError::Parse);
    }
    let text = e.text();
    match payload_bytes(text.as_str()) {
        None => Err(ClientError::Parse),
        Some(b) => if challenge {
            Ok(SaslReply::Challenge(b))
        } else {
            Ok(SaslReply::Success(b))
        },
    }
}

/// `<iq type='set' id='{id}'><bind xmlns='…-bind'><resource>{r}</resource></bind></iq>`,
/// without `<resource/>` when none is asked for.
pub fn bind_request(id: String, resource: Option<String>) -> (r: Element)
    ensures
        r.name@ == "iq"@,
        r.ns@ == JABBER_CLIENT@,
        attr_value(r.attrs@, "type"@) == Some("set"@),
        attr_value(r.attrs@, "id"@) == Some(id@),
        r.children@.len() == 1,
        r.children@[0] matches Node::Element(b) && b.name@ == "bind"@ && b.ns@ == BIND@ && match resource {
            Some(res) => b.children@.len() == 1 && (b.children@[0] matches Node::Element(x)
                && crate::element::is_text_element(x, "resource"@, BIND@, res@)),
            None => b.children@.len() == 0,
        },
{
    let bind = Element::new("bind", BIND);
    let bind = match resource {
        Some(res) => bind.with_child(Element::new("resource", BIND).with_text(res)),
        None => bind,
    };
    let iq = Element::new("iq", JABBER_CLIENT).with_attr("type", String::from_str("set"));
    let ghost a0 = iq.attrs@;
    let iq = iq.with_attr("id", id);
    proof {
        reveal_strlit("type");
        reveal_strlit("id");
        assert(iq.attrs@.drop_first() == seq![iq.attrs@[1]]);
        assert(a0.len() == 1);
        assert(a0[0].0@ == "type"@);
        assert("type"@.len() == 4);
        assert("type"@ != "id"@);
        assert(iq.attrs@[0].0@ != "id"@);
        assert(attr_value(iq.attrs@.drop_first(), "id"@) == Some(id@));
        assert(attr_value(iq.attrs@, "id"@) == Some(id@));
    }
    iq.with_child(bind)
}

/// The JID that a bind reply carries: `<iq type='result' id='{id}'>` with a
/// `<bind/>` holding `<jid>`.
pub open spec fn bind_reply_jid(e: Element, id: Seq<char>) -> Option<Seq<char>> {
    if e.name@ == "iq"@ && e.ns@ == JABBER_CLIENT@ && attr_value(e.attrs@, "type"@) == Some(
        "result"@,
    ) && attr_value(e.attrs@, "id"@) == Some(id) {
        let b = first_child(e.children@, "bind"@, BIND@);
        match b {
            Some(b) => match first_child(b.children@, "jid"@, BIND@) {
                Some(j) => Some(nodes_text(j.children@)),
                None => None,
            },
            None => None,
        }
    } else {
        None
    }
}

/// The first child element named `name` in `ns`.
pub open spec fn first_child(children: Seq<Node>, name: Seq<char>, ns: Seq<char>) -> Option<Element>
    decreases children.len(),
{
    if children.len() == 0 {
        None
    } else {
        match children[0] {
            Node::Element(c) => if c.name@ == name && c.ns@ == ns {
                Some(c)
            } else {
                first_child(children.drop_first(), name, ns)
            },
            Node::Text(_) => first_child(children.drop_first(), name, ns),
        }
    }
}

fn find_child<'a>(e: &'a Element, name: &str, ns: &str) -> (r: Option<&'a Element>)
    ensures
        match first_child(e.children@, name@, ns@) {
            Some(c) => r == Some(&c),
            None => r is None,
        },
{
    let mut i: usize = 0;
    proof {
        assert(e.children@.skip(0) == e.children@);
    }
    while i < e.children.len()
        invariant
            i <= e.children@.len(),
            first_child(e.children@, name@, ns@) == first_child(e.children@.skip(i as int), name@, ns@),
        decreases e.children@.len() - i,
    {
        proof {
            assert(e.children@.skip(i as int).drop_first() == e.children@.skip(i + 1));
        }
        if let Node::Element(c) = &e.children[i] {
            if c.is(name, ns) {
                return Some(c);
            }
        }
        i = i + 1;
    }
    None
}

/// Reads the server's reply to the bind request `id`.
pub fn on_bind_reply(e: &Element, id: &str) -> (r: Result<Jid, ClientError>)
    ensures
        match bind_reply_jid(*e, id@) {
            None => r == Err::<Jid, ClientError>(ClientError::Protocol(ProtocolError::BindError)),
            Some(t) => match jid_parse(t) {
                Ok(p) => r matches Ok(j) && j.parts() == p,
                Err(_) => r == Err::<Jid, ClientError>(
                    ClientError::Protocol(ProtocolError::BindError),
                ),
            },
        },
{
    let err = ClientError::Protocol(ProtocolError::BindError);
    if !e.is("iq", JABBER_CLIENT) {
        return Err(err);
    }
    match e.attr("type") {
        Some(t) => if !same_text(t.as_str(), "result") {
            return Err(err);
        },
        None => {
            return Err(err);
        },
    }
    match e.attr("id") {
        Some(t) => if !same_text(t.as_str(), id) {
            return Err(err);
        },
        None => {
            return Err(err);
        },
    }
    let bind = match find_child(e, "bind", BIND) {
        Some(b) => b,
        None => {
            return Err(err);
        },
    };
    let jid = match find_child(bind, "jid", BIND) {
        Some(j) => j,
        None => {
            return Err(err);
        },
    };
    let text = jid.text();
    match Jid::from_str(text.as_str()) {
        Ok(j) => Ok(j),
        Err(_) => Err(err),
    }
}

} // verus!

verus! {

/// Where the negotiation of a connection stands.
#[derive(Clone, Copy, Debug, PartialEq, Eq, Structural)]
pub enum Stage {
    /// Waiting for the features of the plain stream.
    PlainFeatures,
    /// `<starttls/>` sent; waiting for `<proceed/>`.
    Proceed,
    /// Waiting for the features of the encrypted stream.
    TlsFeatures,
    /// `<auth/>` sent for SCRAM; waiting for the server's first message.
    ScramFirst(Mechanism),
    /// Waiting for the outcome of the authentication.
    SaslOutcome(Mechanism),
    /// Waiting for the features of the authenticated stream.
    BoundFeatures,
    /// The bind request sent; waiting for its reply.
    BindReply,
    /// The session is bound.
    Done,
    /// The negotiation failed.
    Failed,
}

/// What the runtime has to do next.
#[derive(Debug, PartialEq)]
pub enum Command {
    /// Send this element.
    Send(Element),
    /// Upgrade the transport to TLS, then open a new stream.
    StartTls,
    /// Open a new stream on the same transport.
    RestartStream,
    /// The session is bound to this JID.
    Finished(Jid),
    /// The connection attempt failed.
    Fail(ClientError),
}

/// The client side of stream negotiation: STARTTLS, SASL, then binding.
pub struct Negotiator {
    stage: Stage,
    username: String,
    password: String,
    domain: String,
    nonce: String,
    bind_id: String,
    resource: Option<String>,
    scram: Option<ClientFirst>,
    expected: Vec<u8>,
}

/// Whether a mechanism named in `texts` is `m`.
pub open spec fn offers_name(texts: Seq<Seq<char>>, m: Mechanism) -> bool {
    exists|i: int| 0 <= i < texts.len() && #[trigger] texts[i] == mechanism_name(m)
}

/// Whether a client with a password and no channel binding, over TLS, can use `m`.
pub open spec fn usable_with_password(m: Mechanism) -> bool {
    m == Mechanism::ScramSha256 || m == Mechanism::ScramSha1 || m == Mechanism::Plain || m
        == Mechanism::Anonymous
}

/// The mechanism that a client with a password picks among `texts`, by rank.
pub open spec fn best_for_password(texts: Seq<Seq<char>>, m: Mechanism) -> bool {
    &&& usable_with_password(m)
    &&& offers_name(texts, m)
    &&& forall|o: Mechanism|
        mechanism_rank(o) < mechanism_rank(m) ==> !(usable_with_password(o) && offers_name(texts, o))
}

proof fn lemma_offered_views(v: Seq<String>, m: Mechanism)
    ensures
        crate::sasl::mechanism_offered(m, v) == offers_name(texts_view(v), m),
{
    if crate::sasl::mechanism_offered(m, v) {
        let i = choose|i: int| 0 <= i < v.len() && #[trigger] v[i]@ == mechanism_name(m);
        assert(texts_view(v)[i] == mechanism_name(m));
    }
    if offers_name(texts_view(v), m) {
        let i = choose|i: int| 0 <= i < texts_view(v).len() && #[trigger] texts_view(v)[i] == mechanism_name(m);
        assert(v[i]@ == mechanism_name(m));
    }
}

/// Whether a payload is short enough to be sent in base64.
pub open spec fn encode_len_ok(payload: Seq<u8>) -> bool {
    payload.len() <= usize::MAX / 2
}

/// The initial response of `m` for `username`, `password` and the SCRAM client nonce `nonce`.
pub open spec fn initial_payload(
    m: Mechanism,
    username: Seq<char>,
    password: Seq<char>,
    nonce: Seq<char>,
) -> Seq<u8> {
    if m == Mechanism::ScramSha1 || m == Mechanism::ScramSha256 {
        encode_utf8("n,,"@ + client_first_bare_text(username, nonce))
    } else if m == Mechanism::Plain {
        seq![0u8] + encode_utf8(username) + seq![0u8] + encode_utf8(password)
    } else {
        Seq::empty()
    }
}

/// Whether `x` is `<auth mechanism='{m}'>` in the SASL namespace, carrying `payload`.
pub open spec fn is_auth(x: Element, m: Mechanism, payload: Seq<u8>) -> bool {
    &&& x.name@ == "auth"@
    &&& x.ns@ == SASL@
    &&& x.attrs@.len() == 1
    &&& x.attrs@[0].0@ == "mechanism"@
    &&& x.attrs@[0].1@ == mechanism_name(m)
    &&& x.children@.len() == 1
    &&& (x.children@[0] matches Node::Text(t) && t@ == sasl_payload_text(payload))
}

/// Whether `x` is `<response/>` in the SASL namespace, carrying `payload`.
pub open spec fn is_response(x: Element, payload: Seq<u8>) -> bool {
    &&& x.name@ == "response"@
    &&& x.ns@ == SASL@
    &&& x.attrs@.len() == 0
    &&& x.children@.len() == 1
    &&& (x.children@[0] matches Node::Text(t) && t@ == sasl_payload_text(payload))
}

/// What answering the server's first SCRAM message `t` gives, for mechanism `m`.
pub open spec fn scram_answer(
    m: Mechanism,
    username: Seq<char>,
    password: String,
    nonce: Seq<char>,
    t: Seq<char>,
) -> Result<(Seq<char>, Seq<u8>), SaslError> {
    let bare = client_first_bare_text(username, nonce);
    let binding = binding_data(ChannelBinding::Disabled, false);
    if m == Mechanism::ScramSha256 {
        scram_final::<Sha256>(nonce, bare, binding, Password::Plain(password), t)
    } else {
        scram_final::<Sha1>(nonce, bare, binding, Password::Plain(password), t)
    }
}

/// Whether `m` is one of the SCRAM mechanisms without channel binding.
pub open spec fn is_scram(m: Mechanism) -> bool {
    m == Mechanism::ScramSha1 || m == Mechanism::ScramSha256
}

impl Negotiator {
    /// The stage of the negotiation.
    pub closed spec fn stage_of(&self) -> Stage {
        self.stage
    }

    /// The user name to authenticate as.
    pub closed spec fn username_of(&self) -> Seq<char> {
        self.username@
    }

    /// The password to authenticate with.
    pub closed spec fn password_of(&self) -> String {
        self.password
    }

    /// The domain of the login JID.
    pub closed spec fn domain_of(&self) -> Seq<char> {
        self.domain@
    }

    /// The SCRAM client nonce.
    pub closed spec fn nonce_of(&self) -> Seq<char> {
        self.nonce@
    }

    /// While waiting for the server's first SCRAM message, the client's first
    /// message is the one sent for this user and nonce.
    pub closed spec fn wf(&self) -> bool {
        self.stage is ScramFirst ==> (self.scram matches Some(f) && f.nonce@ == self.nonce@
            && f.bare@ == client_first_bare_text(self.username@, self.nonce@) && f.binding@
            == binding_data(ChannelBinding::Disabled, false))
    }

    /// The server signature that the SCRAM exchange expects.
    pub closed spec fn expected_of(&self) -> Seq<u8> {
        self.expected@
    }

    /// The id of the bind request.
    pub closed spec fn bind_id_of(&self) -> Seq<char> {
        self.bind_id@
    }

    /// A negotiation for `username` and `password` at `domain`; `nonce` is the
    /// SCRAM client nonce, `bind_id` the id of the bind request.
    pub fn new(
        username: String,
        password: String,
        domain: String,
        nonce: String,
        bind_id: String,
        resource: Option<String>,
    ) -> (r: Negotiator)
        ensures
            r.wf(),
            r.stage_of() == Stage::PlainFeatures,
            r.bind_id_of() == bind_id@,
            r.username_of() == username@,
            r.password_of() == password,
            r.domain_of() == domain@,
            r.nonce_of() == nonce@,
    {
        Negotiator {
            stage: Stage::PlainFeatures,
            username,
            password,
            domain,
            nonce,
            bind_id,
            resource,
            scram: None,
            expected: Vec::new(),
        }
    }

    /// The stage of the negotiation.
    pub fn stage(&self) -> (r: Stage)
        ensures
            r == self.stage_of(),
    {
        self.stage
    }

    fn fail(&mut self, e: ClientError) -> (r: Command)
        ensures
            *final(self) == (Negotiator { stage: Stage::Failed, ..*old(self) }),
            r == Command::Fail(e),
    {
        self.stage = Stage::Failed;
        Command::Fail(e)
    }

    fn initial_response(&mut self, m: Mechanism) -> (r: Command)
        requires
            old(self).stage_of() == Stage::TlsFeatures,
        ensures
            *final(self) == (Negotiator { stage: final(self).stage, scram: final(self).scram, ..*old(self) }),
            final(self).wf(),
            usable_with_password(m) ==> if encode_len_ok(initial_payload(m, old(self).username@, old(self).password@, old(self).nonce@)) {
                final(self).stage_of() == (if is_scram(m) {
                    Stage::ScramFirst(m)
                } else {
                    Stage::SaslOutcome(m)
                }) && (r matches Command::Send(x) && is_auth(
                    x,
                    m,
                    initial_payload(m, old(self).username@, old(self).password@, old(self).nonce@),
                ))
            } else {
                final(self).stage_of() == Stage::Failed && r == Command::Fail(
                    ClientError::Sasl(SaslError::Malformed),
                )
            },
            !usable_with_password(m) ==> final(self).stage_of() == Stage::Failed && r == Command::Fail(
                ClientError::Sasl(SaslError::NoSupportedMechanism),
            ),
    {
        match m {
            Mechanism::ScramSha1 | Mechanism::ScramSha256 => {
                let first = ClientFirst::new(
                    self.username.as_str(),
                    self.nonce.clone(),
                    &ChannelBinding::Disabled,
                    false,
                );
                let msg = first.message();
                let bytes = msg.as_str().as_bytes();
                if bytes.len() > usize::MAX / 2 {
                    return self.fail(ClientError::Sasl(SaslError::Malformed));
                }
                let auth = auth_element(m, bytes);
                self.scram = Some(first);
                self.stage = Stage::ScramFirst(m);
                Command::Send(auth)
            },
            Mechanism::Plain => {
                let mut data: Vec<u8> = Vec::new();
                data.push(0u8);
                let ub = self.username.as_str().as_bytes();
                data.extend_from_slice(ub);
                data.push(0u8);
                let pb = self.password.as_str().as_bytes();
                data.extend_from_slice(pb);
                proof {
                    assert(data@ =~= seq![0u8] + encode_utf8(self.username@) + seq![0u8] + encode_utf8(
                        self.password@,
                    ));
                }
                if data.len() > usize::MAX / 2 {
                    return self.fail(ClientError::Sasl(SaslError::Malformed));
                }
                self.stage = Stage::SaslOutcome(m);
                Command::Send(auth_element(m, data.as_slice()))
            },
            Mechanism::Anonymous => {
                let empty: Vec<u8> = Vec::new();
                self.stage = Stage::SaslOutcome(m);
                Command::Send(auth_element(m, empty.as_slice()))
            },
            _ => self.fail(ClientError::Sasl(SaslError::NoSupportedMechanism)),
        }
    }

    /// Takes the next top-level element from the server and says what to do.
    pub fn on_element(&mut self, e: Element) -> (r: Command)
        requires
            old(self).wf(),
        ensures
            final(self).wf(),
            final(self).username_of() == old(self).username_of(),
            final(self).password_of() == old(self).password_of(),
            final(self).nonce_of() == old(self).nonce_of(),
            final(self).domain_of() == old(self).domain_of(),
            final(self).bind_id_of() == old(self).bind_id_of(),
            old(self).stage_of() == Stage::PlainFeatures ==> if has_child(e, "starttls"@, TLS@) {
                final(self).stage_of() == Stage::Proceed && (r matches Command::Send(x) && x.name@
                    == "starttls"@ && x.ns@ == TLS@ && x.attrs@.len() == 0 && x.children@.len() == 0)
            } else {
                final(self).stage_of() == Stage::Failed && r == Command::Fail(
                    ClientError::Protocol(ProtocolError::NoTls),
                )
            },
            old(self).stage_of() == Stage::Proceed ==> if e.name@ == "proceed"@ && e.ns@ == TLS@ {
                final(self).stage_of() == Stage::TlsFeatures && r == Command::StartTls
            } else {
                final(self).stage_of() == Stage::Failed && r == Command::Fail(
                    ClientError::Protocol(ProtocolError::TlsRefused),
                )
            },
            old(self).stage_of() == Stage::TlsFeatures ==> (r is Send || r is Fail) && (r is Send
                ==> final(self).stage_of() is ScramFirst || final(self).stage_of() is SaslOutcome),
            old(self).stage_of() == Stage::TlsFeatures ==> ((r == Command::Fail(
                ClientError::Sasl(SaslError::NoSupportedMechanism),
            )) <==> forall|o: Mechanism|
                !(usable_with_password(o) && offers_name(offered_mechanisms(e.children@), o))),
            old(self).stage_of() == Stage::TlsFeatures ==> match final(self).stage_of() {
                Stage::ScramFirst(m) | Stage::SaslOutcome(m) => best_for_password(
                    offered_mechanisms(e.children@),
                    m,
                ),
                _ => true,
            },
            old(self).stage_of() is ScramFirst ==> (r is Send && final(self).stage_of() is SaslOutcome)
                || (r is Fail && final(self).stage_of() == Stage::Failed),
            old(self).stage_of() == Stage::TlsFeatures ==> match final(self).stage_of() {
                Stage::ScramFirst(m) | Stage::SaslOutcome(m) => r matches Command::Send(x) && is_auth(
                    x,
                    m,
                    initial_payload(
                        m,
                        old(self).username_of(),
                        old(self).password_of()@,
                        old(self).nonce_of(),
                    ),
                ),
                _ => true,
            },
            old(self).stage_of() is ScramFirst ==> (r matches Command::Send(x) ==> x.name@
                == "response"@ && x.ns@ == SASL@),
            (old(self).stage_of() matches Stage::ScramFirst(m) && e.name@ == "challenge"@ && e.ns@
                == SASL@ && sasl_payload_bytes(nodes_text(e.children@)) is Some && exists|t: Seq<char>|
                encode_utf8(t) == sasl_payload_bytes(nodes_text(e.children@))->0) ==> {
                let t = choose|t: Seq<char>| encode_utf8(t) == sasl_payload_bytes(nodes_text(e.children@))->0;
                let m = old(self).stage_of()->ScramFirst_0;
                match scram_answer(m, old(self).username_of(), old(self).password_of(), old(self).nonce_of(), t) {
                    Ok((msg, sig)) => if encode_len_ok(encode_utf8(msg)) {
                        final(self).stage_of() == Stage::SaslOutcome(m) && final(self).expected_of() == sig
                            && (r matches Command::Send(x) && is_response(x, encode_utf8(msg)))
                    } else {
                        r == Command::Fail(ClientError::Sasl(SaslError::Malformed))
                    },
                    Err(err) => r == Command::Fail(ClientError::Sasl(err)),
                }
            },
            (old(self).stage_of() matches Stage::SaslOutcome(m) && e.ns@ == SASL@ && sasl_payload_bytes(
                nodes_text(e.children@),
            ) is Some && if is_scram(m) {
                (e.name@ == "success"@ || e.name@ == "challenge"@) && exists|t: Seq<char>|
                    encode_utf8(t) == sasl_payload_bytes(nodes_text(e.children@))->0
                        && server_final_signature(t) == Some(old(self).expected_of())
            } else {
                e.name@ == "success"@
            }) ==> r == Command::RestartStream && final(self).stage_of() == Stage::BoundFeatures,
            (old(self).stage_of() matches Stage::SaslOutcome(m) && is_scram(m)) && r
                == Command::RestartStream ==> exists|t: Seq<char>|
                vstd::utf8::encode_utf8(t) == sasl_payload_bytes(nodes_text(e.children@))->0
                    && crate::scram::server_final_signature(t) == Some(old(self).expected_of()),
            old(self).stage_of() is SaslOutcome ==> (r == Command::RestartStream
                && final(self).stage_of() == Stage::BoundFeatures) || (r is Fail
                && final(self).stage_of() == Stage::Failed),
            old(self).stage_of() is SaslOutcome && e.name@ == "failure"@ && e.ns@ == SASL@ ==> r
                == Command::Fail(ClientError::Protocol(ProtocolError::NotAuthorized)),
            old(self).stage_of() is ScramFirst && e.name@ == "failure"@ && e.ns@ == SASL@ ==> r
                == Command::Fail(ClientError::Protocol(ProtocolError::NotAuthorized)),
            old(self).stage_of() == Stage::BoundFeatures ==> if has_child(e, "bind"@, BIND@) {
                final(self).stage_of() == Stage::BindReply && (r matches Command::Send(x) && x.name@
                    == "iq"@ && attr_value(x.attrs@, "id"@) == Some(old(self).bind_id_of()))
            } else {
                final(self).stage_of() == Stage::Failed && r == Command::Fail(
                    ClientError::Protocol(ProtocolError::BindError),
                )
            },
            old(self).stage_of() == Stage::BindReply ==> match bind_reply_jid(e, old(self).bind_id_of()) {
                Some(t) => match jid_parse(t) {
                    Ok(p) => if p.2 is Some && p.1 == old(self).domain_of() && (old(
                        self,
                    ).username_of().len() == 0 || p.0 == Some(old(self).username_of())) {
                        final(self).stage_of() == Stage::Done && (r matches Command::Finished(j)
                            && j.parts() == p)
                    } else {
                        final(self).stage_of() == Stage::Failed && r == Command::Fail(
                            ClientError::Protocol(ProtocolError::BindError),
                        )
                    },
                    Err(_) => final(self).stage_of() == Stage::Failed && r == Command::Fail(
                        ClientError::Protocol(ProtocolError::BindError),
                    ),
                },
                None => final(self).stage_of() == Stage::Failed && r == Command::Fail(
                    ClientError::Protocol(ProtocolError::BindError),
                ),
            },
            old(self).stage_of() == Stage::Done || old(self).stage_of() == Stage::Failed ==> r
                == Command::Fail(ClientError::InvalidState),
    {
        proof {
            reveal_strlit("challenge");
            reveal_strlit("failure");
            reveal_strlit("success");
            assert("challenge"@.len() == 9 && "failure"@.len() == 7 && "success"@.len() == 7);
            assert("success"@[0] != "failure"@[0]);
            assert("challenge"@ != "failure"@ && "success"@ != "failure"@ && "success"@ != "challenge"@);
        }
        match self.stage {
            Stage::PlainFeatures => {
                let f = StreamFeatures::from_element(&e);
                match on_plain_features(&f) {
                    Ok(()) => {
                        self.stage = Stage::Proceed;
                        Command::Send(Element::new("starttls", TLS))
                    },
                    Err(err) => self.fail(err),
                }
            },
            Stage::Proceed => match on_starttls_reply(&e) {
                Ok(()) => {
                    self.stage = Stage::TlsFeatures;
                    Command::StartTls
                },
                Err(err) => self.fail(err),
            },
            Stage::TlsFeatures => {
                let f = StreamFeatures::from_element(&e);
                let creds = SaslCredentials::with_password(self.username.clone(), self.password.clone());
                proof {
                    assert forall|o: Mechanism| #[trigger] mechanism_eligible(o, f.mechanisms@, creds, true)
                        == (usable_with_password(o) && offers_name(offered_mechanisms(e.children@), o)) by {
                        lemma_offered_views(f.mechanisms@, o);
                    }
                }
                let ghost offered = offered_mechanisms(e.children@);
                match on_tls_features(&f, &creds) {
                    Ok(m) => {
                        proof {
                            assert(mechanism_eligible(m, f.mechanisms@, creds, true));
                            assert(usable_with_password(m) && offers_name(offered, m));
                            assert forall|o: Mechanism| mechanism_rank(o) < mechanism_rank(m) implies !(
                            usable_with_password(o) && offers_name(offered, o)) by {
                                assert(!mechanism_eligible(o, f.mechanisms@, creds, true));
                            }
                            assert(best_for_password(offered, m));
                        }
                        self.initial_response(m)
                    },
                    Err(err) => {
                        proof {
                            assert forall|o: Mechanism| !(usable_with_password(o) && offers_name(
                                offered,
                                o,
                            )) by {
                                assert(!mechanism_eligible(o, f.mechanisms@, creds, true));
                            }
                        }
                        self.fail(err)
                    },
                }
            },
            Stage::ScramFirst(m) => {
                let data = match on_sasl_reply(&e) {
                    Ok(SaslReply::Challenge(d)) => d,
                    Ok(SaslReply::Success(_)) => {
                        return self.fail(ClientError::Sasl(SaslError::Malformed));
                    },
                    Err(err) => {
                        return self.fail(err);
                    },
                };
                let text = match utf8_text(data.as_slice()) {
                    Some(t) => t,
                    None => {
                        proof {
                            assert forall|t: Seq<char>| encode_utf8(t) != data@ by {
                                vstd::utf8::encode_utf8_valid_utf8(t);
                            }
                        }
                        return self.fail(ClientError::Parse);
                    },
                };
                proof {
                    assert forall|t: Seq<char>| encode_utf8(t) == data@ implies t == text@ by {
                        vstd::utf8::encode_utf8_decode_utf8(t);
                        vstd::utf8::encode_utf8_decode_utf8(text@);
                    }
                    reveal_strlit("n,,");
                    assert(vstd::utf8::is_ascii_chars("n,,"@));
                    vstd::utf8::is_ascii_chars_encode_utf8("n,,"@);
                }
                let first = match &self.scram {
                    Some(f) => f,
                    None => {
                        return self.fail(ClientError::InvalidState);
                    },
                };
                if first.binding.len() > usize::MAX / 2 {
                    return self.fail(ClientError::Sasl(SaslError::Malformed));
                }
                let password = Password::Plain(self.password.clone());
                let fin = if m == Mechanism::ScramSha256 {
                    client_final::<Sha256>(first, &password, text.as_str())
                } else {
                    client_final::<Sha1>(first, &password, text.as_str())
                };
                match fin {
                    Ok(f) => {
                        let bytes = f.message.as_str().as_bytes();
                        if bytes.len() > usize::MAX / 2 {
                            return self.fail(ClientError::Sasl(SaslError::Malformed));
                        }
                        let resp = response_element(bytes);
                        self.expected = f.server_signature;
                        self.stage = Stage::SaslOutcome(m);
                        Command::Send(resp)
                    },
                    Err(err) => self.fail(ClientError::Sasl(err)),
                }
            },
            Stage::SaslOutcome(m) => {
                let data = match on_sasl_reply(&e) {
                    Ok(SaslReply::Success(d)) => d,
                    Ok(SaslReply::Challenge(d)) => {
                        if m == Mechanism::ScramSha1 || m == Mechanism::ScramSha256 {
                            d
                        } else {
                            return self.fail(ClientError::Sasl(SaslError::Malformed));
                        }
                    },
                    Err(err) => {
                        return self.fail(err);
                    },
                };
                if m == Mechanism::ScramSha1 || m == Mechanism::ScramSha256 {
                    let text = match utf8_text(data.as_slice()) {
                        Some(t) => t,
                        None => {
                            proof {
                                assert forall|t: Seq<char>| encode_utf8(t) != data@ by {
                                    vstd::utf8::encode_utf8_valid_utf8(t);
                                }
                            }
                            return self.fail(ClientError::Parse);
                        },
                    };
                    proof {
                        assert forall|t: Seq<char>| encode_utf8(t) == data@ implies t == text@ by {
                            vstd::utf8::encode_utf8_decode_utf8(t);
                            vstd::utf8::encode_utf8_decode_utf8(text@);
                        }
                    }
                    if let Err(err) = verify_server_final(self.expected.as_slice(), text.as_str()) {
                        return self.fail(ClientError::Sasl(err));
                    }
                    proof {
                        assert(vstd::utf8::encode_utf8(text@) == sasl_payload_bytes(nodes_text(e.children@))->0);
                    }
                }
                self.stage = Stage::BoundFeatures;
                Command::RestartStream
            },
            Stage::BoundFeatures => {
                let f = StreamFeatures::from_element(&e);
                if f.bind {
                    let resource = match &self.resource {
                        Some(r) => Some(r.clone()),
                        None => None,
                    };
                    self.stage = Stage::BindReply;
                    Command::Send(bind_request(self.bind_id.clone(), resource))
                } else {
                    self.fail(ClientError::Protocol(ProtocolError::BindError))
                }
            },
            Stage::BindReply => match on_bind_reply(&e, self.bind_id.as_str()) {
                Ok(j) => {
                    let node_ok = if self.username.as_str().is_empty() {
                        true
                    } else {
                        match &j.node {
                            Some(n) => *n == self.username,
                            None => false,
                        }
                    };
                    if j.resource.is_some() && j.domain == self.domain && node_ok {
                        self.stage = Stage::Done;
                        Command::Finished(j)
                    } else {
                        self.fail(ClientError::Protocol(ProtocolError::BindError))
                    }
                },
                Err(err) => self.fail(err),
            },
            Stage::Done | Stage::Failed => Command::Fail(ClientError::InvalidState),
        }
    }
}

} // verus!
