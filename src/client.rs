//! The client driver: a state machine that a runtime polls. The runtime
//! performs the actions it asks for (spawning a connect task, reading a
//! packet) and hands back what it observed.

use vstd::prelude::*;
use crate::element::{attr_value, Element};
use crate::jid::Jid;
use crate::ns::JABBER_CLIENT;
use crate::sasl::SaslError;

verus! {

/// How the server is found.
#[derive(Clone, Debug, PartialEq)]
pub enum ServerConfig {
    /// Look up the `_xmpp-client._tcp` SRV records of the JID's domain.
    UseSrv,
    /// Connect to this host and port.
    Manual {
        /// Server host name.
        host: String,
        /// Server port.
        port: u16,
    },
}

/// What a client connects with.
#[derive(Clone, Debug, PartialEq)]
pub struct Config {
    /// The JID of the account.
    pub jid: Jid,
    /// The password of the account.
    pub password: String,
    /// How the server is found.
    pub server: ServerConfig,
}

/// A violation of the stream protocol by the server.
#[derive(Clone, Copy, Debug, PartialEq, Eq, Structural)]
pub enum ProtocolError {
    /// A `<stream:stream>` arrived in the middle of a session.
    InvalidStreamStart,
    /// The server does not offer STARTTLS.
    NoTls,
    /// The server refused the STARTTLS request.
    TlsRefused,
    /// The server reported a SASL failure.
    NotAuthorized,
    /// The bind response is malformed or a refusal.
    BindError,
    /// The server's features are not what the negotiation needs.
    InvalidFeatures,
}

/// Why a connection ended or could not be made.
#[derive(Clone, Debug, PartialEq)]
pub enum ClientError {
    /// Name resolution failed.
    Dns,
    /// Reading, writing or connecting failed.
    Io,
    /// The TLS handshake or record layer failed.
    Tls,
    /// The server broke the protocol.
    Protocol(ProtocolError),
    /// The XML from the server is not well formed.
    Parse,
    /// Authentication failed on the client's side.
    Sasl(SaslError),
    /// A packet was to be sent while not connected.
    InvalidState,
    /// The peer closed the stream.
    Disconnected,
}

/// A unit of the XML stream.
#[derive(Debug, PartialEq)]
pub enum Packet {
    /// The opening `<stream:stream>`, with its attributes.
    StreamStart(Vec<(String, String)>),
    /// A top-level element.
    Stanza(Element),
    /// Text between top-level elements.
    Text(String),
    /// The closing `</stream:stream>`.
    StreamEnd,
}

/// What the client reports to its user.
#[derive(Debug, PartialEq)]
pub enum Event {
    /// The session is bound and ready.
    Online {
        /// The JID that the server bound.
        bound_jid: Jid,
        /// Whether an earlier session was resumed (never, so far).
        resumed: bool,
    },
    /// A stanza arrived.
    Stanza(Element),
    /// The connection ended.
    Disconnected(ClientError),
}

/// Where the client stands.
#[derive(Clone, Copy, Debug, PartialEq, Eq, Structural)]
pub enum Phase {
    /// No connection, and no attempt under way.
    Disconnected,
    /// A connect task is running.
    Connecting,
    /// A session is open.
    Connected,
}

/// What the runtime observed for the client since the last step.
#[derive(Debug, PartialEq)]
pub enum Observation {
    /// Nothing: the client is disconnected, so nothing was polled.
    Idle,
    /// The connect task has not finished.
    ConnectPending,
    /// The connect task finished: the bound JID, or why it failed.
    ConnectDone(Result<Jid, ClientError>),
    /// The outbound sink failed.
    SinkFailed(ClientError),
    /// No packet is available yet.
    ReadPending,
    /// A packet was read.
    Read(Packet),
    /// The transport ended.
    ReadEof,
    /// Reading failed.
    ReadFailed(ClientError),
}

/// What the runtime has to do after a step.
#[derive(Debug, PartialEq)]
pub enum Action {
    /// Nothing.
    Nothing,
    /// Start a connect task, now.
    SpawnConnect,
    /// Drop the session and its transport.
    DropSession,
}

/// The answer of one step to the runtime.
#[derive(Debug, PartialEq)]
pub enum Poll {
    /// Nothing to report: wait for the next wake-up.
    Pending,
    /// Step again at once, after doing the action.
    Again,
    /// Report this event; `None` ends the event stream.
    Ready(Option<Event>),
}

/// The outcome of one step: the action to perform, then what to answer.
#[derive(Debug, PartialEq)]
pub struct Step {
    pub action: Action,
    pub poll: Poll,
}

/// The smallest time between two connection attempts, in milliseconds.
pub const RECONNECT_INTERVAL_MS: u64 = 1000;

/// An XMPP client: configuration, phase and the reconnect policy.
pub struct Client {
    config: Config,
    phase: Phase,
    reconnect: bool,
    bound_jid: Option<Jid>,
    last_attempt_ms: Option<u64>,
}

impl Client {
    /// What the client connects with.
    pub closed spec fn config_of(&self) -> Config {
        self.config
    }

    /// The phase of the client.
    pub closed spec fn phase_of(&self) -> Phase {
        self.phase
    }

    /// Whether the client reconnects after a disconnection.
    pub closed spec fn reconnects(&self) -> bool {
        self.reconnect
    }

    /// The JID bound by the current session.
    pub closed spec fn bound(&self) -> Option<Jid> {
        self.bound_jid
    }

    /// When the last connection attempt started.
    pub closed spec fn last_attempt(&self) -> Option<u64> {
        self.last_attempt_ms
    }

    /// Whether the bound JID is there exactly when connected.
    pub closed spec fn wf(&self) -> bool {
        (self.phase == Phase::Connected) == (self.bound_jid is Some)
    }

    /// A client for `jid` and `password` that finds its server by SRV and
    /// starts connecting at `now_ms`.
    pub fn new(jid: Jid, password: String, now_ms: u64) -> (r: Client)
        ensures
            r.wf(),
            r.config_of() == (Config { jid, password, server: ServerConfig::UseSrv }),
            r.phase_of() == Phase::Connecting,
            !r.reconnects(),
            r.last_attempt() == Some(now_ms),
    {
        Client::new_with_config(Config { jid, password, server: ServerConfig::UseSrv }, now_ms)
    }

    /// A client that starts connecting at `now_ms`: the runtime spawns the
    /// first connect task at once.
    pub fn new_with_config(config: Config, now_ms: u64) -> (r: Client)
        ensures
            r.wf(),
            r.config_of() == config,
            r.phase_of() == Phase::Connecting,
            !r.reconnects(),
            r.last_attempt() == Some(now_ms),
    {
        Client {
            config,
            phase: Phase::Connecting,
            reconnect: false,
            bound_jid: None,
            last_attempt_ms: Some(now_ms),
        }
    }

    /// Sets whether to reconnect (`true`) or let the event stream end
    /// (`false`) when the connection ends.
    pub fn set_reconnect(&mut self, reconnect: bool) -> (r: &mut Client)
        ensures
            r.reconnects() == reconnect,
            r.phase_of() == old(self).phase_of(),
            r.bound() == old(self).bound(),
            r.last_attempt() == old(self).last_attempt(),
            r.config_of() == old(self).config_of(),
            old(self).wf() ==> r.wf(),
            *final(self) == *final(r),
    {
        self.reconnect = reconnect;
        self
    }

    /// What the client connects with.
    pub fn config(&self) -> (r: &Config)
        ensures
            *r == self.config_of(),
    {
        &self.config
    }

    /// The phase of the client.
    pub fn phase(&self) -> (r: Phase)
        ensures
            r == self.phase_of(),
    {
        self.phase
    }

    /// The JID that the server bound, while connected.
    pub fn bound_jid(&self) -> (r: Option<&Jid>)
        requires
            self.wf(),
        ensures
            (r is Some) == (self.phase_of() == Phase::Connected),
            r matches Some(j) ==> self.bound() == Some(*j),
    {
        match &self.bound_jid {
            Some(j) => Some(j),
            None => None,
        }
    }

    /// One step of the driver, at `now_ms`, given what the runtime observed.
    /// An `Online` event is reported exactly when a connect task succeeds, and
    /// a `Disconnected` event exactly when a connection or an attempt ends.
    pub fn step(&mut self, observation: Observation, now_ms: u64) -> (r: Step)
        requires
            old(self).wf(),
        ensures
            final(self).wf(),
            final(self).config_of() == old(self).config_of(),
            final(self).reconnects() == old(self).reconnects(),
            (r.poll matches Poll::Ready(Some(Event::Online { .. }))) <==> (old(self).phase_of()
                == Phase::Connecting && final(self).phase_of() == Phase::Connected),
            (r.poll matches Poll::Ready(Some(Event::Disconnected(_)))) <==> (old(self).phase_of()
                != Phase::Disconnected && final(self).phase_of() == Phase::Disconnected),
            r.poll matches Poll::Ready(Some(Event::Online { bound_jid, resumed })) ==> (!resumed
                && final(self).bound() == Some(bound_jid)),
            (r.action == Action::SpawnConnect) <==> (old(self).phase_of() == Phase::Disconnected
                && final(self).phase_of() == Phase::Connecting),
            r.action == Action::SpawnConnect ==> final(self).last_attempt() == Some(now_ms)
                && (old(self).last_attempt() matches Some(t) ==> t as int
                + RECONNECT_INTERVAL_MS <= now_ms),
            r.action != Action::SpawnConnect ==> final(self).last_attempt() == old(
                self,
            ).last_attempt(),
            old(self).phase_of() == Phase::Disconnected && !old(self).reconnects() ==> r
                == (Step { action: Action::Nothing, poll: Poll::Ready(None) }) && *final(self)
                == *old(self),
            (r.poll == Poll::Ready(None)) <==> (old(self).phase_of() == Phase::Disconnected
                && !old(self).reconnects()),
            old(self).phase_of() == Phase::Disconnected && old(self).reconnects() ==> if (match old(
                self,
            ).last_attempt() {
                Some(t) => t as int + RECONNECT_INTERVAL_MS <= now_ms,
                None => true,
            }) {
                r == (Step { action: Action::SpawnConnect, poll: Poll::Again })
                    && final(self).phase_of() == Phase::Connecting
            } else {
                r == (Step { action: Action::Nothing, poll: Poll::Pending }) && *final(self)
                    == *old(self)
            },
            old(self).phase_of() == Phase::Connected ==> match observation {
                Observation::Read(Packet::Stanza(e)) => r.poll == Poll::Ready(Some(Event::Stanza(e)))
                    && final(self).phase_of() == Phase::Connected,
                Observation::Read(Packet::Text(_)) => r.poll == Poll::Again
                    && final(self).phase_of() == Phase::Connected,
                Observation::Read(Packet::StreamStart(_)) => r.poll == Poll::Ready(
                    Some(Event::Disconnected(ClientError::Protocol(ProtocolError::InvalidStreamStart))),
                ),
                Observation::Read(Packet::StreamEnd) | Observation::ReadEof => r.poll == Poll::Ready(
                    Some(Event::Disconnected(ClientError::Disconnected)),
                ),
                Observation::ReadFailed(e) | Observation::SinkFailed(e) => r.poll == Poll::Ready(
                    Some(Event::Disconnected(e)),
                ),
                _ => r.poll == Poll::Pending && final(self).phase_of() == Phase::Connected,
            },
            old(self).phase_of() == Phase::Connecting ==> match observation {
                Observation::ConnectDone(Ok(j)) => r.poll == Poll::Ready(
                    Some(Event::Online { bound_jid: j, resumed: false }),
                ),
                Observation::ConnectDone(Err(e)) => r.poll == Poll::Ready(
                    Some(Event::Disconnected(e)),
                ),
                _ => r.poll == Poll::Pending && final(self).phase_of() == Phase::Connecting,
            },
    {
        match self.phase {
            Phase::Disconnected => {
                if !self.reconnect {
                    return Step { action: Action::Nothing, poll: Poll::Ready(None) };
                }
                let due = match self.last_attempt_ms {
                    Some(t) => t as u128 + RECONNECT_INTERVAL_MS as u128 <= now_ms as u128,
                    None => true,
                };
                if due {
                    self.phase = Phase::Connecting;
                    self.last_attempt_ms = Some(now_ms);
                    Step { action: Action::SpawnConnect, poll: Poll::Again }
                } else {
                    Step { action: Action::Nothing, poll: Poll::Pending }
                }
            },
            Phase::Connecting => match observation {
                Observation::ConnectDone(Ok(j)) => {
                    self.phase = Phase::Connected;
                    self.bound_jid = Some(j.duplicate());
                    Step {
                        action: Action::Nothing,
                        poll: Poll::Ready(Some(Event::Online { bound_jid: j, resumed: false })),
                    }
                },
                Observation::ConnectDone(Err(e)) => {
                    self.phase = Phase::Disconnected;
                    Step { action: Action::Nothing, poll: Poll::Ready(Some(Event::Disconnected(e))) }
                },
                _ => Step { action: Action::Nothing, poll: Poll::Pending },
            },
            Phase::Connected => {
                let ended = match observation {
                    Observation::Read(Packet::Stanza(e)) => {
                        return Step {
                            action: Action::Nothing,
                            poll: Poll::Ready(Some(Event::Stanza(e))),
                        };
                    },
                    Observation::Read(Packet::Text(_)) => {
                        return Step { action: Action::Nothing, poll: Poll::Again };
                    },
                    Observation::Read(Packet::StreamStart(_)) => ClientError::Protocol(
                        ProtocolError::InvalidStreamStart,
                    ),
                    Observation::Read(Packet::StreamEnd) | Observation::ReadEof => {
                        ClientError::Disconnected
                    },
                    Observation::ReadFailed(e) | Observation::SinkFailed(e) => e,
                    _ => {
                        return Step { action: Action::Nothing, poll: Poll::Pending };
                    },
                };
                self.phase = Phase::Disconnected;
                self.bound_jid = None;
                Step { action: Action::DropSession, poll: Poll::Ready(Some(Event::Disconnected(ended))) }
            },
        }
    }
}

} // verus!

verus! {

/// Whether `e` is a stanza of the client namespace: `<message/>`, `<presence/>` or `<iq/>`.
pub open spec fn is_client_stanza(e: Element) -> bool {
    e.ns@ == JABBER_CLIENT@ && (e.name@ == "message"@ || e.name@ == "presence"@ || e.name@
        == "iq"@)
}

/// Gives a stanza the identifier `fresh_id` when it has none.
pub fn add_stanza_id(stanza: Element, fresh_id: String) -> (r: Element)
    ensures
        r.name == stanza.name,
        r.ns == stanza.ns,
        r.children == stanza.children,
        if is_client_stanza(stanza) && attr_value(stanza.attrs@, "id"@) is None {
            r.attrs@ == stanza.attrs@.push((r.attrs@.last().0, fresh_id)) && r.attrs@.last().0@
                == "id"@
        } else {
            r.attrs == stanza.attrs
        },
{
    if (stanza.is("iq", JABBER_CLIENT) || stanza.is("message", JABBER_CLIENT) || stanza.is(
        "presence",
        JABBER_CLIENT,
    )) && stanza.attr("id").is_none() {
        stanza.with_attr("id", fresh_id)
    } else {
        stanza
    }
}

impl Client {
    /// Prepares a stanza for sending, with `fresh_id` as its identifier when it
    /// has none; refused unless connected.
    pub fn send_stanza(&self, stanza: Element, fresh_id: String) -> (r: Result<Packet, ClientError>)
        ensures
            self.phase_of() != Phase::Connected ==> r == Err::<Packet, ClientError>(
                ClientError::InvalidState,
            ),
            self.phase_of() == Phase::Connected ==> (r matches Ok(Packet::Stanza(e)) && e.name
                == stanza.name && e.ns == stanza.ns && e.children == stanza.children && if is_client_stanza(
                stanza,
            ) && attr_value(stanza.attrs@, "id"@) is None {
                e.attrs@ == stanza.attrs@.push((e.attrs@.last().0, fresh_id)) && e.attrs@.last().0@
                    == "id"@
            } else {
                e.attrs == stanza.attrs
            }),
    {
        match self.phase {
            Phase::Connected => Ok(Packet::Stanza(add_stanza_id(stanza, fresh_id))),
            _ => Err(ClientError::InvalidState),
        }
    }

    /// Prepares the closing `</stream:stream>`; refused unless connected.
    pub fn send_end(&self) -> (r: Result<Packet, ClientError>)
        ensures
            self.phase_of() != Phase::Connected ==> r == Err::<Packet, ClientError>(
                ClientError::InvalidState,
            ),
            self.phase_of() == Phase::Connected ==> r == Ok::<Packet, ClientError>(Packet::StreamEnd),
    {
        self.start_send(Packet::StreamEnd)
    }

    /// Whether the outbound sink is open: only while connected.
    pub fn sink_open(&self) -> (r: bool)
        ensures
            r == (self.phase_of() == Phase::Connected),
    {
        match self.phase {
            Phase::Connected => true,
            _ => false,
        }
    }

    /// Accepts a packet for the outbound sink; refused unless connected.
    pub fn start_send(&self, packet: Packet) -> (r: Result<Packet, ClientError>)
        ensures
            self.phase_of() != Phase::Connected ==> r == Err::<Packet, ClientError>(
                ClientError::InvalidState,
            ),
            self.phase_of() == Phase::Connected ==> r == Ok::<Packet, ClientError>(packet),
    {
        match self.phase {
            Phase::Connected => Ok(packet),
            _ => Err(ClientError::InvalidState),
        }
    }
}

} // verus!
