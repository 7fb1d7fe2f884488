//! Core of an XMPP client.
//!
//! - `xml`: the XML stream codec (elements to text and back, stream framing),
//!   with its round-trip law in `xml_laws`;
//! - `scram`, `sasl`: the SCRAM engine and SASL mechanism selection;
//! - `negotiation`: STARTTLS, SASL and resource binding as a state machine;
//! - `connector`: the order in which SRV targets and addresses are tried;
//! - `client`: the connection state machine that a runtime polls;
//! - `jid`, `element`, `presence`, `ibb`, `eme`, `websocket`: the data types
//!   that cross the stream.

pub mod client;
pub mod connector;
pub mod element;
pub mod eme;
pub mod encoding;
pub mod error;
pub mod ibb;
pub mod jid;
pub mod negotiation;
pub mod ns;
pub mod presence;
pub mod sasl;
pub mod scram;
pub mod text;
pub mod websocket;
pub mod xml;
pub mod xml_laws;
