//! The SCRAM engine: key derivation over a pluggable hash, and the
//! client side of the salted challenge-response exchange.

use vstd::prelude::*;
use vstd::utf8::encode_utf8;
use hmac::{Hmac, Mac};
use sha1::Digest;
use crate::encoding::{base64_bytes, base64_decode, base64_encode, base64_text};
use crate::sasl::{ChannelBinding, Password, SaslError};
use crate::text::{
    append_str, chars_of, decimal_value, find_char, find_char_in, nat_text, parse_decimal,
    push_char, same_bytes, same_text, text_of, uint_to_text,
};

verus! {

/// The SHA-1 digest of `data`.
pub uninterp spec fn sha1_digest(data: Seq<u8>) -> Seq<u8>;

/// The SHA-256 digest of `data`.
pub uninterp spec fn sha256_digest(data: Seq<u8>) -> Seq<u8>;

/// HMAC-SHA-1 of `data` under `key`.
pub uninterp spec fn hmac_sha1_tag(key: Seq<u8>, data: Seq<u8>) -> Seq<u8>;

/// HMAC-SHA-256 of `data` under `key`.
pub uninterp spec fn hmac_sha256_tag(key: Seq<u8>, data: Seq<u8>) -> Seq<u8>;

/// PBKDF2-HMAC-SHA-1 of `password` with `salt` and `iterations`, 20 bytes long.
pub uninterp spec fn pbkdf2_sha1_key(password: Seq<u8>, salt: Seq<u8>, iterations: nat) -> Seq<u8>;

/// PBKDF2-HMAC-SHA-256 of `password` with `salt` and `iterations`, 32 bytes long.
pub uninterp spec fn pbkdf2_sha256_key(password: Seq<u8>, salt: Seq<u8>, iterations: nat) -> Seq<
    u8,
>;

#[verifier::external_type_specification]
#[verifier::external_body]
pub struct ExInvalidKeyLength(hmac::crypto_mac::InvalidKeyLength);

/// The system's random source could not be read.
#[derive(Clone, Copy, Debug, PartialEq, Eq, Structural)]
pub struct RngError;

/// Relies on `sha1::Sha1::digest` (sha-1 0.8): the 20-byte digest.
#[verifier::external_body]
fn sha1_hash(data: &[u8]) -> (r: Vec<u8>)
    ensures
        r@ == sha1_digest(data@),
        r@.len() == 20,
{
    sha1::Sha1::digest(data).to_vec()
}

/// Relies on `sha2::Sha256::digest` (sha2 0.8): the 32-byte digest.
#[verifier::external_body]
fn sha256_hash(data: &[u8]) -> (r: Vec<u8>)
    ensures
        r@ == sha256_digest(data@),
        r@.len() == 32,
{
    sha2::Sha256::digest(data).to_vec()
}

/// Relies on `hmac::Hmac<Sha1>` (hmac 0.7): `new_varkey` accepts keys of any
/// length, hashing long ones, so it never fails; the tag is 20 bytes.
#[verifier::external_body]
fn hmac_sha1(key: &[u8], data: &[u8]) -> (r: Result<Vec<u8>, hmac::crypto_mac::InvalidKeyLength>)
    ensures
        r is Ok,
        r->Ok_0@ == hmac_sha1_tag(key@, data@),
        r->Ok_0@.len() == 20,
{
    let mut mac = Hmac::<sha1::Sha1>::new_varkey(key)?;
    mac.input(data);
    Ok(mac.result().code().to_vec())
}

/// Relies on `hmac::Hmac<Sha256>` (hmac 0.7): `new_varkey` accepts keys of
/// any length, so it never fails; the tag is 32 bytes.
#[verifier::external_body]
fn hmac_sha256(key: &[u8], data: &[u8]) -> (r: Result<
    Vec<u8>,
    hmac::crypto_mac::InvalidKeyLength,
>)
    ensures
        r is Ok,
        r->Ok_0@ == hmac_sha256_tag(key@, data@),
        r->Ok_0@.len() == 32,
{
    let mut mac = Hmac::<sha2::Sha256>::new_varkey(key)?;
    mac.input(data);
    Ok(mac.result().code().to_vec())
}

/// Relies on `pbkdf2::pbkdf2::<Hmac<Sha1>>` (pbkdf2 0.3): fills the 20-byte
/// output; it does not panic, whatever the iteration count.
#[verifier::external_body]
fn pbkdf2_sha1(password: &[u8], salt: &[u8], iterations: usize) -> (r: Vec<u8>)
    ensures
        r@ == pbkdf2_sha1_key(password@, salt@, iterations as nat),
        r@.len() == 20,
{
    let mut out = vec![0u8; 20];
    pbkdf2::pbkdf2::<Hmac<sha1::Sha1>>(password, salt, iterations, &mut out);
    out
}

/// Relies on `pbkdf2::pbkdf2::<Hmac<Sha256>>` (pbkdf2 0.3): fills the 32-byte
/// output; it does not panic, whatever the iteration count.
#[verifier::external_body]
fn pbkdf2_sha256(password: &[u8], salt: &[u8], iterations: usize) -> (r: Vec<u8>)
    ensures
        r@ == pbkdf2_sha256_key(password@, salt@, iterations as nat),
        r@.len() == 32,
{
    let mut out = vec![0u8; 32];
    pbkdf2::pbkdf2::<Hmac<sha2::Sha256>>(password, salt, iterations, &mut out);
    out
}

/// Relies on `getrandom::getrandom` (getrandom 0.1): on success every byte of
/// the buffer was written by the system's secure random source; the length is kept.
#[verifier::external_body]
fn fill_random(buf: &mut Vec<u8>) -> (r: Result<(), RngError>)
    ensures
        final(buf)@.len() == old(buf)@.len(),
{
    match getrandom::getrandom(buf.as_mut_slice()) {
        Ok(()) => Ok(()),
        Err(_) => Err(RngError),
    }
}

/// Generate a nonce for SCRAM authentication: 32 random bytes, in base64.
pub fn generate_nonce() -> (r: Result<String, RngError>)
    ensures
        r matches Ok(s) ==> exists|b: Seq<u8>| b.len() == 32 && s@ == base64_text(b),
        r matches Ok(s) ==> s@.len() == 44,
{
    let mut data: Vec<u8> = vec![0u8; 32];
    fill_random(&mut data)?;
    Ok(base64_encode(data.as_slice()))
}

/// Why a stored PBKDF2 key cannot serve for the parameters that the server asks for.
#[derive(Debug, PartialEq)]
pub enum DeriveError {
    /// The key was made with another hash function (the stored one, then this provider's).
    IncompatibleHashingMethod(String, String),
    /// The key was made with another salt.
    IncorrectSalt,
    /// The key was made with another iteration count (the stored one, then the asked one).
    IncompatibleIterationCount(usize, usize),
}

impl DeriveError {
    /// A sentence that describes the error.
    pub fn to_string(&self) -> (r: String)
        ensures
            match self {
                DeriveError::IncompatibleHashingMethod(one, two) => r@
                    == "incompatible hashing method, "@ + one@ + " is not "@ + two@,
                DeriveError::IncorrectSalt => r@ == "incorrect salt"@,
                DeriveError::IncompatibleIterationCount(one, two) => r@
                    == "incompatible iteration count, "@ + nat_text(*one as nat) + " is not "@
                    + nat_text(*two as nat),
            },
    {
        match self {
            DeriveError::IncompatibleHashingMethod(one, two) => {
                let mut r = String::from_str("incompatible hashing method, ");
                append_str(&mut r, one.as_str());
                append_str(&mut r, " is not ");
                append_str(&mut r, two.as_str());
                r
            },
            DeriveError::IncorrectSalt => String::from_str("incorrect salt"),
            DeriveError::IncompatibleIterationCount(one, two) => {
                let mut r = String::from_str("incompatible iteration count, ");
                let a = uint_to_text(*one as u64);
                let b = uint_to_text(*two as u64);
                append_str(&mut r, a.as_str());
                append_str(&mut r, " is not ");
                append_str(&mut r, b.as_str());
                r
            },
        }
    }
}

/// The bytes of a password given in clear.
pub open spec fn password_bytes(p: Seq<char>) -> Seq<u8> {
    encode_utf8(p)
}

/// The salted password that `derive` yields, if it yields one.
pub open spec fn derived_key<S: ScramProvider>(
    password: Password,
    salt: Seq<u8>,
    iterations: nat,
) -> Option<Seq<u8>> {
    match password {
        Password::Plain(p) => Some(S::stretch(password_bytes(p@), salt, iterations)),
        Password::Pbkdf2 { method, salt: my_salt, iterations: my_iterations, data } => {
            if method@ == S::hash_name() && my_salt@ == salt && my_iterations == iterations {
                Some(data@)
            } else {
                None
            }
        },
    }
}

/// A hash function that SCRAM can be run over.
pub trait ScramProvider: Sized {
    /// The name of the hash function, as a PBKDF2 key records it.
    spec fn hash_name() -> Seq<char>;

    /// The hash function.
    spec fn digest(data: Seq<u8>) -> Seq<u8>;

    /// HMAC over the hash function.
    spec fn tag(key: Seq<u8>, data: Seq<u8>) -> Seq<u8>;

    /// PBKDF2 over that HMAC, with an output as long as a digest.
    spec fn stretch(password: Seq<u8>, salt: Seq<u8>, iterations: nat) -> Seq<u8>;

    /// The length of a digest, in bytes.
    spec fn output_len() -> nat;

    /// A digest is at most 64 bytes long.
    proof fn lemma_output_len_bound()
        ensures
            Self::output_len() <= 64,
    ;

    /// The name of the hash function.
    fn name() -> (r: &'static str)
        ensures
            r@ == Self::hash_name(),
    ;

    /// Hashes `data`.
    fn hash(data: &[u8]) -> (r: Vec<u8>)
        ensures
            r@ == Self::digest(data@),
            r@.len() == Self::output_len(),
    ;

    /// HMAC of `data` under `key`.
    fn hmac(data: &[u8], key: &[u8]) -> (r: Result<Vec<u8>, hmac::crypto_mac::InvalidKeyLength>)
        ensures
            r matches Ok(v) && v@ == Self::tag(key@, data@) && v@.len() == Self::output_len(),
    ;

    /// The salted password: PBKDF2 of a password in clear, or a stored key when
    /// it was made with this hash, this salt and this iteration count.
    fn derive(password: &Password, salt: &[u8], iterations: usize) -> (r: Result<
        Vec<u8>,
        DeriveError,
    >)
        ensures
            match *password {
                Password::Plain(p) => r is Ok && r->Ok_0@ == Self::stretch(
                    password_bytes(p@),
                    salt@,
                    iterations as nat,
                ) && r->Ok_0@.len() == Self::output_len(),
                Password::Pbkdf2 { method, salt: my_salt, iterations: my_iterations, data } => {
                    if method@ != Self::hash_name() {
                        r matches Err(DeriveError::IncompatibleHashingMethod(a, b)) && a@
                            == method@ && b@ == Self::hash_name()
                    } else if my_salt@ != salt@ {
                        r == Err::<Vec<u8>, DeriveError>(DeriveError::IncorrectSalt)
                    } else if my_iterations != iterations {
                        r == Err::<Vec<u8>, DeriveError>(
                            DeriveError::IncompatibleIterationCount(my_iterations, iterations),
                        )
                    } else {
                        r is Ok && r->Ok_0@ == data@
                    }
                },
            },
    ;
}

/// Checks a stored key against the parameters that the server asks for.
fn derive_stored(
    password: &Password,
    salt: &[u8],
    iterations: usize,
    name: &str,
) -> (r: Result<Vec<u8>, DeriveError>)
    requires
        password is Pbkdf2,
    ensures
        match *password {
            Password::Plain(_) => true,
            Password::Pbkdf2 { method, salt: my_salt, iterations: my_iterations, data } => {
                if method@ != name@ {
                    r matches Err(DeriveError::IncompatibleHashingMethod(a, b)) && a@
                        == method@ && b@ == name@
                } else if my_salt@ != salt@ {
                    r == Err::<Vec<u8>, DeriveError>(DeriveError::IncorrectSalt)
                } else if my_iterations != iterations {
                    r == Err::<Vec<u8>, DeriveError>(
                        DeriveError::IncompatibleIterationCount(my_iterations, iterations),
                    )
                } else {
                    r is Ok && r->Ok_0@ == data@
                }
            },
        },
{
    match password {
        Password::Pbkdf2 { method, salt: my_salt, iterations: my_iterations, data } => {
            if !same_text(method.as_str(), name) {
                Err(DeriveError::IncompatibleHashingMethod(method.clone(), String::from_str(name)))
            } else if !same_bytes(my_salt.as_slice(), salt) {
                Err(DeriveError::IncorrectSalt)
            } else if *my_iterations != iterations {
                Err(DeriveError::IncompatibleIterationCount(*my_iterations, iterations))
            } else {
                Ok(data.clone())
            }
        },
        Password::Plain(_) => Err(DeriveError::IncorrectSalt),
    }
}

/// SCRAM over SHA-1 (`SCRAM-SHA-1` and `SCRAM-SHA-1-PLUS`).
pub struct Sha1;

impl ScramProvider for Sha1 {
    open spec fn hash_name() -> Seq<char> {
        "SHA-1"@
    }

    open spec fn digest(data: Seq<u8>) -> Seq<u8> {
        sha1_digest(data)
    }

    open spec fn tag(key: Seq<u8>, data: Seq<u8>) -> Seq<u8> {
        hmac_sha1_tag(key, data)
    }

    open spec fn stretch(password: Seq<u8>, salt: Seq<u8>, iterations: nat) -> Seq<u8> {
        pbkdf2_sha1_key(password, salt, iterations)
    }

    open spec fn output_len() -> nat {
        20
    }

    proof fn lemma_output_len_bound() {
    }

    fn name() -> (r: &'static str) {
        "SHA-1"
    }

    fn hash(data: &[u8]) -> (r: Vec<u8>) {
        sha1_hash(data)
    }

    fn hmac(data: &[u8], key: &[u8]) -> (r: Result<Vec<u8>, hmac::crypto_mac::InvalidKeyLength>) {
        hmac_sha1(key, data)
    }

    fn derive(password: &Password, salt: &[u8], iterations: usize) -> (r: Result<
        Vec<u8>,
        DeriveError,
    >) {
        match password {
            Password::Plain(plain) => Ok(pbkdf2_sha1(plain.as_str().as_bytes(), salt, iterations)),
            Password::Pbkdf2 { .. } => derive_stored(password, salt, iterations, "SHA-1"),
        }
    }
}

/// SCRAM over SHA-256 (`SCRAM-SHA-256` and `SCRAM-SHA-256-PLUS`).
pub struct Sha256;

impl ScramProvider for Sha256 {
    open spec fn hash_name() -> Seq<char> {
        "SHA-256"@
    }

    open spec fn digest(data: Seq<u8>) -> Seq<u8> {
        sha256_digest(data)
    }

    open spec fn tag(key: Seq<u8>, data: Seq<u8>) -> Seq<u8> {
        hmac_sha256_tag(key, data)
    }

    open spec fn stretch(password: Seq<u8>, salt: Seq<u8>, iterations: nat) -> Seq<u8> {
        pbkdf2_sha256_key(password, salt, iterations)
    }

    open spec fn output_len() -> nat {
        32
    }

    proof fn lemma_output_len_bound() {
    }

    fn name() -> (r: &'static str) {
        "SHA-256"
    }

    fn hash(data: &[u8]) -> (r: Vec<u8>) {
        sha256_hash(data)
    }

    fn hmac(data: &[u8], key: &[u8]) -> (r: Result<Vec<u8>, hmac::crypto_mac::InvalidKeyLength>) {
        hmac_sha256(key, data)
    }

    fn derive(password: &Password, salt: &[u8], iterations: usize) -> (r: Result<
        Vec<u8>,
        DeriveError,
    >) {
        match password {
            Password::Plain(plain) => Ok(
                pbkdf2_sha256(plain.as_str().as_bytes(), salt, iterations),
            ),
            Password::Pbkdf2 { .. } => derive_stored(password, salt, iterations, "SHA-256"),
        }
    }
}

} // verus!

verus! {

/// A user name with `,` written `=2C` and `=` written `=3D`.
pub open spec fn escaped_username(u: Seq<char>) -> Seq<char>
    decreases u.len(),
{
    if u.len() == 0 {
        Seq::empty()
    } else {
        escaped_username(u.drop_last()) + if u.last() == ',' {
            "=2C"@
        } else if u.last() == '=' {
            "=3D"@
        } else {
            seq![u.last()]
        }
    }
}

/// Escapes a user name for a SCRAM message.
pub fn escape_username(username: &str) -> (r: String)
    ensures
        r@ == escaped_username(username@),
{
    let cs = chars_of(username);
    let mut r = String::new();
    let mut i: usize = 0;
    while i < cs.len()
        invariant
            cs@ == username@,
            i <= cs@.len(),
            r@ == escaped_username(cs@.take(i as int)),
        decreases cs@.len() - i,
    {
        let c = cs[i];
        proof {
            assert(cs@.take(i + 1).drop_last() == cs@.take(i as int));
        }
        if c == ',' {
            append_str(&mut r, "=2C");
        } else if c == '=' {
            append_str(&mut r, "=3D");
        } else {
            push_char(&mut r, c);
        }
        i = i + 1;
    }
    proof {
        assert(cs@.take(cs@.len() as int) == cs@);
    }
    r
}

/// The GS2 header: `p=tls-unique` when the client has `tls-unique` material and
/// the server offers a `-PLUS` mechanism, `y` when the client could bind but
/// will not, `n` when it cannot bind.
pub open spec fn gs2_header_text(binding: ChannelBinding, server_plus: bool) -> Seq<char> {
    match binding {
        ChannelBinding::Disabled => "n,,"@,
        ChannelBinding::Unsupported => "y,,"@,
        ChannelBinding::TlsUnique(_) => if server_plus {
            "p=tls-unique,,"@
        } else {
            "y,,"@
        },
    }
}

/// The bytes that the `c=` attribute of the client's final message carries.
pub open spec fn binding_data(binding: ChannelBinding, server_plus: bool) -> Seq<u8> {
    let header = encode_utf8(gs2_header_text(binding, server_plus));
    match binding {
        ChannelBinding::TlsUnique(data) => if server_plus {
            header + data@
        } else {
            header
        },
        _ => header,
    }
}

/// `n={user},r={nonce}`.
pub open spec fn client_first_bare_text(username: Seq<char>, nonce: Seq<char>) -> Seq<char> {
    "n="@ + escaped_username(username) + ",r="@ + nonce
}

/// The client's state after its first message.
#[derive(Debug, PartialEq)]
pub struct ClientFirst {
    /// The GS2 header that was sent.
    pub gs2_header: String,
    /// The message without its GS2 header.
    pub bare: String,
    /// The nonce that the client chose.
    pub nonce: String,
    /// What the `c=` attribute of the final message will carry.
    pub binding: Vec<u8>,
}

impl ClientFirst {
    /// Starts an exchange for `username` with the client nonce `nonce`.
    pub fn new(username: &str, nonce: String, binding: &ChannelBinding, server_plus: bool) -> (r:
        ClientFirst)
        requires
            binding matches ChannelBinding::TlsUnique(d) ==> d@.len() <= usize::MAX / 4,
        ensures
            r.gs2_header@ == gs2_header_text(*binding, server_plus),
            r.bare@ == client_first_bare_text(username@, nonce@),
            r.nonce@ == nonce@,
            r.binding@ == binding_data(*binding, server_plus),
            r.binding@.len() <= usize::MAX / 2,
    {
        let header: &str = match binding {
            ChannelBinding::Disabled => "n,,",
            ChannelBinding::Unsupported => "y,,",
            ChannelBinding::TlsUnique(_) => if server_plus {
                "p=tls-unique,,"
            } else {
                "y,,"
            },
        };
        let mut data: Vec<u8> = vstd::slice::slice_to_vec(header.as_bytes());
        proof {
            reveal_strlit("n,,");
            reveal_strlit("y,,");
            reveal_strlit("p=tls-unique,,");
            assert(vstd::utf8::is_ascii_chars(header@));
            vstd::utf8::is_ascii_chars_encode_utf8(header@);
        }
        if let ChannelBinding::TlsUnique(d) = binding {
            if server_plus {
                data.extend_from_slice(d.as_slice());
            }
        }
        let mut bare = String::from_str("n=");
        let escaped = escape_username(username);
        append_str(&mut bare, escaped.as_str());
        append_str(&mut bare, ",r=");
        append_str(&mut bare, nonce.as_str());
        ClientFirst { gs2_header: String::from_str(header), bare, nonce, binding: data }
    }

    /// The first message: GS2 header, then the bare message.
    pub fn message(&self) -> (r: String)
        ensures
            r@ == self.gs2_header@ + self.bare@,
    {
        let mut r = self.gs2_header.clone();
        append_str(&mut r, self.bare.as_str());
        r
    }
}

} // verus!

verus! {

/// The nonce, salt and iteration count of the server's first message
/// `r={nonce},s={salt},i={iterations}[,{extensions}]`, as text.
pub open spec fn server_first_fields(m: Seq<char>) -> Option<(Seq<char>, Seq<char>, Seq<char>)> {
    let c1 = find_char(m, ',', 0);
    let c2 = find_char(m, ',', c1 + 1);
    let c3 = find_char(m, ',', c2 + 1);
    if c2 < m.len() && 2 <= c1 && c1 + 3 <= c2 && c2 + 3 <= c3 && m[0] == 'r' && m[1] == '='
        && m[c1 + 1] == 's' && m[c1 + 2] == '=' && m[c2 + 1] == 'i' && m[c2 + 2] == '=' {
        Some((m.subrange(2, c1), m.subrange(c1 + 3, c2), m.subrange(c2 + 3, c3)))
    } else {
        None
    }
}

/// XOR of two byte strings of the same length.
pub open spec fn xor_bytes(a: Seq<u8>, b: Seq<u8>) -> Seq<u8> {
    Seq::new(a.len(), |i: int| a[i] ^ b[i])
}

/// `ClientKey = HMAC(SaltedPassword, "Client Key")`.
pub open spec fn client_key<S: ScramProvider>(salted: Seq<u8>) -> Seq<u8> {
    S::tag(salted, encode_utf8("Client Key"@))
}

/// `ClientProof = ClientKey XOR HMAC(H(ClientKey), AuthMessage)`.
pub open spec fn client_proof<S: ScramProvider>(salted: Seq<u8>, auth: Seq<u8>) -> Seq<u8> {
    xor_bytes(client_key::<S>(salted), S::tag(S::digest(client_key::<S>(salted)), auth))
}

/// `ServerSignature = HMAC(HMAC(SaltedPassword, "Server Key"), AuthMessage)`.
pub open spec fn server_signature<S: ScramProvider>(salted: Seq<u8>, auth: Seq<u8>) -> Seq<u8> {
    S::tag(S::tag(salted, encode_utf8("Server Key"@)), auth)
}

/// `c={binding},r={nonce}`: the client's final message without its proof.
pub open spec fn final_without_proof(binding: Seq<u8>, nonce: Seq<char>) -> Seq<char> {
    "c="@ + base64_text(binding) + ",r="@ + nonce
}

/// `client-first-bare,server-first,client-final-without-proof`.
pub open spec fn auth_message_text(bare: Seq<char>, server_first: Seq<char>, without_proof: Seq<
    char,
>) -> Seq<char> {
    bare + ","@ + server_first + ","@ + without_proof
}

/// The client's final message, and the signature it then expects from the server.
#[derive(Debug, PartialEq)]
pub struct ClientFinal {
    /// `c=…,r=…,p=…`.
    pub message: String,
    /// The server signature that the server's final message must carry.
    pub server_signature: Vec<u8>,
}

fn xor(a: &[u8], b: &[u8]) -> (r: Vec<u8>)
    requires
        a@.len() == b@.len(),
    ensures
        r@ == xor_bytes(a@, b@),
{
    let mut r: Vec<u8> = Vec::new();
    let mut i: usize = 0;
    while i < a.len()
        invariant
            a@.len() == b@.len(),
            i <= a@.len(),
            r@ == xor_bytes(a@, b@).take(i as int),
        decreases a@.len() - i,
    {
        r.push(a[i] ^ b[i]);
        proof {
            assert(xor_bytes(a@, b@).take(i + 1) == xor_bytes(a@, b@).take(i as int).push(
                a@[i as int] ^ b@[i as int],
            ));
        }
        i = i + 1;
    }
    proof {
        assert(xor_bytes(a@, b@).take(a@.len() as int) == xor_bytes(a@, b@));
    }
    r
}

fn keys<S: ScramProvider>(salted: &[u8], auth: &[u8]) -> (r: (Vec<u8>, Vec<u8>))
    ensures
        r.0@ == client_proof::<S>(salted@, auth@),
        r.1@ == server_signature::<S>(salted@, auth@),
        r.0@.len() == S::output_len(),
{
    let client_key = match S::hmac("Client Key".as_bytes(), salted) {
        Ok(k) => k,
        Err(_) => Vec::new(),
    };
    let stored_key = S::hash(client_key.as_slice());
    let client_signature = match S::hmac(auth, stored_key.as_slice()) {
        Ok(k) => k,
        Err(_) => Vec::new(),
    };
    let proof = xor(client_key.as_slice(), client_signature.as_slice());
    let server_key = match S::hmac("Server Key".as_bytes(), salted) {
        Ok(k) => k,
        Err(_) => Vec::new(),
    };
    let signature = match S::hmac(auth, server_key.as_slice()) {
        Ok(k) => k,
        Err(_) => Vec::new(),
    };
    (proof, signature)
}

/// What answering the server's first message `server_first` gives, for a
/// client that sent `bare` with the nonce `client_nonce` and binds `binding`:
/// the final message and the server signature to expect, or why there are none.
pub open spec fn scram_final<S: ScramProvider>(
    client_nonce: Seq<char>,
    bare: Seq<char>,
    binding: Seq<u8>,
    password: Password,
    server_first: Seq<char>,
) -> Result<(Seq<char>, Seq<u8>), SaslError> {
    match server_first_fields(server_first) {
        None => Err(SaslError::Malformed),
        Some((nonce, salt, iterations)) => {
            if !client_nonce.is_prefix_of(nonce) {
                Err(SaslError::BadNonce)
            } else if base64_bytes(salt) is None || decimal_value(iterations) is None
                || decimal_value(iterations)->0 > usize::MAX {
                Err(SaslError::Malformed)
            } else {
                match derived_key::<S>(password, base64_bytes(salt)->0, decimal_value(iterations)->0) {
                    None => Err(SaslError::Canceled),
                    Some(salted) => {
                        let without_proof = final_without_proof(binding, nonce);
                        let auth = encode_utf8(auth_message_text(bare, server_first, without_proof));
                        Ok(
                            (
                                without_proof + ",p="@ + base64_text(client_proof::<S>(salted, auth)),
                                server_signature::<S>(salted, auth),
                            ),
                        )
                    },
                }
            }
        },
    }
}

/// Answers the server's first message: checks its nonce, derives the salted
/// password, and computes the proof and the expected server signature.
pub fn client_final<S: ScramProvider>(
    first: &ClientFirst,
    password: &Password,
    server_first: &str,
) -> (r: Result<ClientFinal, SaslError>)
    requires
        first.binding@.len() <= usize::MAX / 2,
    ensures
        match scram_final::<S>(first.nonce@, first.bare@, first.binding@, *password, server_first@) {
            Ok((m, sig)) => r matches Ok(f) && f.message@ == m && f.server_signature@ == sig,
            Err(e) => r == Err::<ClientFinal, SaslError>(e),
        },
{
    let m = chars_of(server_first);
    let c1 = find_char_in(&m, ',', 0);
    if c1 >= m.len() {
        return Err(SaslError::Malformed);
    }
    let c2 = find_char_in(&m, ',', c1 + 1);
    if c2 >= m.len() {
        return Err(SaslError::Malformed);
    }
    let c3 = find_char_in(&m, ',', c2 + 1);
    if !(2 <= c1 && c2 >= 3 && c1 <= c2 - 3 && c3 >= 3 && c2 <= c3 - 3 && m[0] == 'r' && m[1]
        == '=' && m[c1 + 1] == 's' && m[c1 + 2] == '=' && m[c2 + 1] == 'i' && m[c2 + 2] == '=') {
        return Err(SaslError::Malformed);
    }
    let nonce = text_of(&m, 2, c1);
    let salt_text = text_of(&m, c1 + 3, c2);
    assert(server_first_fields(server_first@) == Some((nonce@, salt_text@, m@.subrange(c2 + 3, c3 as int))));
    let ours = chars_of(first.nonce.as_str());
    let mut k: usize = 0;
    if ours.len() > c1 - 2 {
        return Err(SaslError::BadNonce);
    }
    while k < ours.len()
        invariant
            ours@ == first.nonce@,
            m@ == server_first@,
            2 <= c1 < m@.len(),
            ours@.len() <= c1 - 2,
            server_first_fields(server_first@) == Some((nonce@, salt_text@, m@.subrange(c2 + 3, c3 as int))),
            nonce@ == m@.subrange(2, c1 as int),
            ours@.len() <= nonce@.len(),
            k <= ours@.len(),
            forall|j: int| 0 <= j < k ==> ours@[j] == nonce@[j],
        decreases ours@.len() - k,
    {
        if ours[k] != m[k + 2] {
            return Err(SaslError::BadNonce);
        }
        k = k + 1;
    }
    let salt = match base64_decode(salt_text.as_str()) {
        Some(s) => s,
        None => {
            return Err(SaslError::Malformed);
        },
    };
    let iterations = match parse_decimal(&m, c2 + 3, c3, usize::MAX as u64) {
        Some(i) => i as usize,
        None => {
            return Err(SaslError::Malformed);
        },
    };
    let salted = match S::derive(password, salt.as_slice(), iterations) {
        Ok(k) => k,
        Err(_) => {
            return Err(SaslError::Canceled);
        },
    };
    let mut message = String::from_str("c=");
    let binding = base64_encode(first.binding.as_slice());
    append_str(&mut message, binding.as_str());
    append_str(&mut message, ",r=");
    append_str(&mut message, nonce.as_str());
    let mut auth = first.bare.clone();
    append_str(&mut auth, ",");
    append_str(&mut auth, server_first);
    append_str(&mut auth, ",");
    append_str(&mut auth, message.as_str());
    let (proof, signature) = keys::<S>(salted.as_slice(), auth.as_str().as_bytes());
    append_str(&mut message, ",p=");
    proof {
        S::lemma_output_len_bound();
    }
    let proof_text = base64_encode(proof.as_slice());
    append_str(&mut message, proof_text.as_str());
    Ok(ClientFinal { message, server_signature: signature })
}

/// The signature that the server's final message `v={base64}` carries, if it has that form.
pub open spec fn server_final_signature(m: Seq<char>) -> Option<Seq<u8>> {
    if m.len() >= 2 && m[0] == 'v' && m[1] == '=' {
        base64_bytes(m.subrange(2, m.len() as int))
    } else {
        None
    }
}

/// Compares two byte strings in time that depends on their length only.
pub fn constant_time_eq(a: &[u8], b: &[u8]) -> (r: bool)
    ensures
        r == (a@ == b@),
{
    if a.len() != b.len() {
        return false;
    }
    let mut acc: u8 = 0;
    let mut i: usize = 0;
    while i < a.len()
        invariant
            a@.len() == b@.len(),
            i <= a@.len(),
            (acc == 0) == (forall|j: int| 0 <= j < i ==> a@[j] == b@[j]),
        decreases a@.len() - i,
    {
        let x = a[i];
        let y = b[i];
        let next = acc | (x ^ y);
        assert((next == 0) == (acc == 0 && x == y)) by (bit_vector)
            requires
                next == acc | (x ^ y),
        ;
        proof {
            if next == 0 {
                assert forall|j: int| 0 <= j < i + 1 implies a@[j] == b@[j] by {
                    if j == i {
                        assert(x == y);
                    }
                }
            }
        }
        acc = next;
        i = i + 1;
    }
    proof {
        if acc == 0 {
            assert(a@ =~= b@);
        }
    }
    acc == 0
}

/// Checks the server's final message against the expected signature, in constant time.
pub fn verify_server_final(expected: &[u8], server_final: &str) -> (r: Result<(), SaslError>)
    ensures
        r is Ok <==> server_final_signature(server_final@) == Some(expected@),
        r is Err ==> r == Err::<(), SaslError>(SaslError::BadServerSignature),
        forall|b: Seq<u8>|
            server_final@ == "v="@ + base64_text(b) ==> (r is Ok <==> b == expected@),
{
    let m = chars_of(server_final);
    if m.len() < 2 || m[0] != 'v' || m[1] != '=' {
        proof {
            reveal_strlit("v=");
            assert forall|b: Seq<u8>| server_final@ != "v="@ + base64_text(b) by {
                if server_final@ == "v="@ + base64_text(b) {
                    assert(m@[0] == ("v="@ + base64_text(b))[0]);
                    assert(m@[1] == ("v="@ + base64_text(b))[1]);
                }
            }
        }
        return Err(SaslError::BadServerSignature);
    }
    let text = text_of(&m, 2, m.len());
    proof {
        reveal_strlit("v=");
        assert forall|b: Seq<u8>| server_final@ == "v="@ + base64_text(b) implies text@ == base64_text(
            b,
        ) by {
            assert(m@.subrange(2, m@.len() as int) =~= base64_text(b));
        }
    }
    match base64_decode(text.as_str()) {
        Some(sig) => {
            if constant_time_eq(sig.as_slice(), expected) {
                Ok(())
            } else {
                Err(SaslError::BadServerSignature)
            }
        },
        None => Err(SaslError::BadServerSignature),
    }
}

} // verus!

verus! {

/// A password held in clear and the PBKDF2 record made from it (same hash,
/// salt and iteration count) derive the same salted password, so a client
/// holding either sends the same proof and expects the same server signature.
pub proof fn lemma_plain_and_stored_agree<S: ScramProvider>(
    plain: String,
    stored: Password,
    salt: Seq<u8>,
    iterations: nat,
    auth: Seq<u8>,
)
    requires
        stored matches Password::Pbkdf2 { method, salt: s, iterations: i, data } && method@
            == S::hash_name() && s@ == salt && i as nat == iterations && data@ == S::stretch(
            password_bytes(plain@),
            salt,
            iterations,
        ),
    ensures
        derived_key::<S>(Password::Plain(plain), salt, iterations) is Some,
        derived_key::<S>(Password::Plain(plain), salt, iterations) == derived_key::<S>(
            stored,
            salt,
            iterations,
        ),
        client_proof::<S>(derived_key::<S>(Password::Plain(plain), salt, iterations)->0, auth)
            == client_proof::<S>(derived_key::<S>(stored, salt, iterations)->0, auth),
        server_signature::<S>(derived_key::<S>(Password::Plain(plain), salt, iterations)->0, auth)
            == server_signature::<S>(derived_key::<S>(stored, salt, iterations)->0, auth),
{
}

} // verus!
