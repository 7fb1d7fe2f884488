//! SASL credentials, mechanism selection, and the ANONYMOUS mechanism.

use vstd::prelude::*;
use crate::text::same_text;

verus! {

/// A password, either in clear or already derived by PBKDF2.
#[derive(Clone, Debug, PartialEq)]
pub enum Password {
    /// The password itself.
    Plain(String),
    /// The output of PBKDF2 over the password, so that it need not be stored in clear.
    Pbkdf2 {
        /// Name of the hash function that was used (`SHA-1`, `SHA-256`).
        method: String,
        /// The salt that was used.
        salt: Vec<u8>,
        /// The iteration count that was used.
        iterations: usize,
        /// The derived key.
        data: Vec<u8>,
    },
}

/// What the client authenticates with.
#[derive(Clone, Debug, PartialEq)]
pub enum SaslSecret {
    /// No secret at all (anonymous login).
    Empty,
    /// A password.
    Password(Password),
}

/// Channel binding material taken from the TLS layer.
#[derive(Clone, Debug, PartialEq)]
pub enum ChannelBinding {
    /// The client does not support channel binding.
    Disabled,
    /// The client supports channel binding, but has nothing to bind to.
    Unsupported,
    /// The `tls-unique` value of the TLS session.
    TlsUnique(Vec<u8>),
}

/// What a SASL mechanism is built from.
#[derive(Clone, Debug, PartialEq)]
pub struct SaslCredentials {
    /// The user name, if any.
    pub username: Option<String>,
    /// The secret.
    pub secret: SaslSecret,
    /// The channel binding to use.
    pub channel_binding: ChannelBinding,
}

impl SaslCredentials {
    /// Credentials made of a user name and a password, without channel binding.
    pub fn with_password(username: String, password: String) -> (r: SaslCredentials)
        ensures
            r.username == Some(username),
            r.secret == SaslSecret::Password(Password::Plain(password)),
            r.channel_binding == ChannelBinding::Disabled,
    {
        SaslCredentials {
            username: Some(username),
            secret: SaslSecret::Password(Password::Plain(password)),
            channel_binding: ChannelBinding::Disabled,
        }
    }
}

/// The SASL mechanisms that this library can drive, strongest first.
#[derive(Clone, Copy, Debug, PartialEq, Eq, Structural)]
pub enum Mechanism {
    /// SCRAM over SHA-256, bound to the TLS channel.
    ScramSha256Plus,
    /// SCRAM over SHA-256.
    ScramSha256,
    /// SCRAM over SHA-1, bound to the TLS channel.
    ScramSha1Plus,
    /// SCRAM over SHA-1.
    ScramSha1,
    /// The password in clear, over TLS only.
    Plain,
    /// No credentials at all.
    Anonymous,
}

/// Why authentication could not go on.
#[derive(Clone, Debug, PartialEq)]
pub enum SaslError {
    /// None of the mechanisms that the server offers can be used.
    NoSupportedMechanism,
    /// The server's nonce does not start with the client's.
    BadNonce,
    /// The server's signature is not the expected one.
    BadServerSignature,
    /// A SCRAM message from the server is malformed.
    Malformed,
    /// The stored key could not be used with the server's parameters.
    Canceled,
}

/// The name of a mechanism on the wire.
pub open spec fn mechanism_name(m: Mechanism) -> Seq<char> {
    match m {
        Mechanism::ScramSha256Plus => "SCRAM-SHA-256-PLUS"@,
        Mechanism::ScramSha256 => "SCRAM-SHA-256"@,
        Mechanism::ScramSha1Plus => "SCRAM-SHA-1-PLUS"@,
        Mechanism::ScramSha1 => "SCRAM-SHA-1"@,
        Mechanism::Plain => "PLAIN"@,
        Mechanism::Anonymous => "ANONYMOUS"@,
    }
}

/// The place of a mechanism in the order of preference (0 is preferred).
pub open spec fn mechanism_rank(m: Mechanism) -> nat {
    match m {
        Mechanism::ScramSha256Plus => 0,
        Mechanism::ScramSha256 => 1,
        Mechanism::ScramSha1Plus => 2,
        Mechanism::ScramSha1 => 3,
        Mechanism::Plain => 4,
        Mechanism::Anonymous => 5,
    }
}

/// Whether the credentials allow the client to use `m`; `PLAIN` only over TLS,
/// the `-PLUS` variants only with `tls-unique` material.
pub open spec fn mechanism_usable(m: Mechanism, creds: SaslCredentials, tls: bool) -> bool {
    let has_password = creds.secret is Password;
    let has_binding = creds.channel_binding is TlsUnique;
    match m {
        Mechanism::ScramSha256Plus | Mechanism::ScramSha1Plus => has_password && has_binding,
        Mechanism::ScramSha256 | Mechanism::ScramSha1 => has_password,
        Mechanism::Plain => has_password && tls,
        Mechanism::Anonymous => true,
    }
}

/// Whether the server's list names `m`.
pub open spec fn mechanism_offered(m: Mechanism, offered: Seq<String>) -> bool {
    exists|i: int| 0 <= i < offered.len() && #[trigger] offered[i]@ == mechanism_name(m)
}

/// Whether `m` can be chosen.
pub open spec fn mechanism_eligible(
    m: Mechanism,
    offered: Seq<String>,
    creds: SaslCredentials,
    tls: bool,
) -> bool {
    mechanism_usable(m, creds, tls) && mechanism_offered(m, offered)
}

/// The mechanism of the given rank.
pub open spec fn mechanism_at(rank: nat) -> Mechanism {
    if rank == 0 {
        Mechanism::ScramSha256Plus
    } else if rank == 1 {
        Mechanism::ScramSha256
    } else if rank == 2 {
        Mechanism::ScramSha1Plus
    } else if rank == 3 {
        Mechanism::ScramSha1
    } else if rank == 4 {
        Mechanism::Plain
    } else {
        Mechanism::Anonymous
    }
}

fn mechanism_text(m: Mechanism) -> (r: &'static str)
    ensures
        r@ == mechanism_name(m),
{
    match m {
        Mechanism::ScramSha256Plus => "SCRAM-SHA-256-PLUS",
        Mechanism::ScramSha256 => "SCRAM-SHA-256",
        Mechanism::ScramSha1Plus => "SCRAM-SHA-1-PLUS",
        Mechanism::ScramSha1 => "SCRAM-SHA-1",
        Mechanism::Plain => "PLAIN",
        Mechanism::Anonymous => "ANONYMOUS",
    }
}

impl Mechanism {
    /// The name of this mechanism on the wire.
    pub fn name(&self) -> (r: &'static str)
        ensures
            r@ == mechanism_name(*self),
    {
        mechanism_text(*self)
    }
}

fn offers(offered: &Vec<String>, m: Mechanism) -> (r: bool)
    ensures
        r == mechanism_offered(m, offered@),
{
    let name = mechanism_text(m);
    let mut i: usize = 0;
    while i < offered.len()
        invariant
            i <= offered@.len(),
            name@ == mechanism_name(m),
            forall|j: int| 0 <= j < i ==> offered@[j]@ != mechanism_name(m),
        decreases offered@.len() - i,
    {
        if same_text(offered[i].as_str(), name) {
            return true;
        }
        i = i + 1;
    }
    false
}

fn usable(m: Mechanism, creds: &SaslCredentials, tls: bool) -> (r: bool)
    ensures
        r == mechanism_usable(m, *creds, tls),
{
    let has_password = match &creds.secret {
        SaslSecret::Password(_) => true,
        SaslSecret::Empty => false,
    };
    let has_binding = match &creds.channel_binding {
        ChannelBinding::TlsUnique(_) => true,
        _ => false,
    };
    match m {
        Mechanism::ScramSha256Plus | Mechanism::ScramSha1Plus => has_password && has_binding,
        Mechanism::ScramSha256 | Mechanism::ScramSha1 => has_password,
        Mechanism::Plain => has_password && tls,
        Mechanism::Anonymous => true,
    }
}

/// Picks, among the mechanisms that the server offers, the strongest one that
/// the credentials allow.
pub fn select_mechanism(offered: &Vec<String>, creds: &SaslCredentials, tls: bool) -> (r: Result<
    Mechanism,
    SaslError,
>)
    ensures
        r matches Ok(m) ==> mechanism_eligible(m, offered@, *creds, tls) && forall|o: Mechanism|
            mechanism_rank(o) < mechanism_rank(m) ==> !mechanism_eligible(o, offered@, *creds, tls),
        r is Err <==> forall|o: Mechanism| !mechanism_eligible(o, offered@, *creds, tls),
        r is Err ==> r == Err::<Mechanism, SaslError>(SaslError::NoSupportedMechanism),
{
    let order = [
        Mechanism::ScramSha256Plus,
        Mechanism::ScramSha256,
        Mechanism::ScramSha1Plus,
        Mechanism::ScramSha1,
        Mechanism::Plain,
        Mechanism::Anonymous,
    ];
    let mut k: usize = 0;
    while k < 6
        invariant
            k <= 6,
            forall|j: int| 0 <= j < 6 ==> order@[j] == mechanism_at(j as nat),
            forall|o: Mechanism|
                mechanism_rank(o) < k ==> !mechanism_eligible(o, offered@, *creds, tls),
        decreases 6 - k,
    {
        let m = order[k];
        if usable(m, creds, tls) && offers(offered, m) {
            proof {
                assert(mechanism_rank(m) == k);
                assert(mechanism_eligible(m, offered@, *creds, tls));
            }
            return Ok(m);
        }
        proof {
            assert(mechanism_rank(m) == k);
            assert forall|o: Mechanism| mechanism_rank(o) < k + 1 implies !mechanism_eligible(
                o,
                offered@,
                *creds,
                tls,
            ) by {
                if mechanism_rank(o) == k {
                    assert(o == m);
                }
            }
        }
        k = k + 1;
    }
    Err(SaslError::NoSupportedMechanism)
}

/// The SASL ANONYMOUS mechanism.
#[derive(Clone, Debug, PartialEq)]
pub struct Anonymous;

impl Anonymous {
    /// A mechanism for logging in anonymously.
    pub fn new() -> (r: Anonymous)
        ensures
            r == Anonymous,
    {
        Anonymous
    }

    /// The name of this mechanism on the wire.
    pub fn name(&self) -> (r: &'static str)
        ensures
            r@ == mechanism_name(Mechanism::Anonymous),
    {
        mechanism_text(Mechanism::Anonymous)
    }

    /// The mechanism, when the credentials hold no secret.
    pub fn from_credentials(credentials: SaslCredentials) -> (r: Result<Anonymous, String>)
        ensures
            r is Ok <==> credentials.secret is Empty,
            r is Err ==> r->Err_0@ == "the anonymous sasl mechanism requires no credentials"@,
    {
        if let SaslSecret::Empty = credentials.secret {
            Ok(Anonymous)
        } else {
            Err(String::from_str("the anonymous sasl mechanism requires no credentials"))
        }
    }
}

} // verus!
