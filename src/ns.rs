//! XML namespaces of the protocol.

use vstd::prelude::*;

verus! {

/// The namespace of client stanzas.
pub const JABBER_CLIENT: &'static str = "jabber:client";

/// The namespace of the stream element.
pub const STREAM: &'static str = "http://etherx.jabber.org/streams";

/// STARTTLS negotiation.
pub const TLS: &'static str = "urn:ietf:params:xml:ns:xmpp-tls";

/// SASL negotiation.
pub const SASL: &'static str = "urn:ietf:params:xml:ns:xmpp-sasl";

/// Resource binding.
pub const BIND: &'static str = "urn:ietf:params:xml:ns:xmpp-bind";

/// In-band bytestreams.
pub const IBB: &'static str = "http://jabber.org/protocol/ibb";

/// Explicit message encryption.
pub const EME: &'static str = "urn:xmpp:eme:0";

/// XMPP over WebSocket framing.
pub const WEBSOCKET: &'static str = "urn:ietf:params:xml:ns:xmpp-framing";

} // verus!
