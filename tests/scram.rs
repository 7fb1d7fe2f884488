use xmpp_core::sasl::{
    select_mechanism, Anonymous, ChannelBinding, Mechanism, Password, SaslCredentials, SaslError,
    SaslSecret,
};
use xmpp_core::scram::{
    client_final, constant_time_eq, escape_username, generate_nonce, verify_server_final,
    ClientFirst, DeriveError, ScramProvider, Sha1, Sha256,
};

const SERVER_FIRST: &str = "r=fyko+d2lbbFgONRv9qkxdawL3rfcNHYJY1ZVvWVs7j,s=QSXCR+Q6sek8bf92,i=4096";

fn rfc_first() -> ClientFirst {
    ClientFirst::new("user", String::from("fyko+d2lbbFgONRv9qkxdawL"), &ChannelBinding::Disabled, false)
}

#[test]
fn scram_sha1_rfc5802_proof() {
    let first = rfc_first();
    assert_eq!(first.message(), "n,,n=user,r=fyko+d2lbbFgONRv9qkxdawL");
    let password = Password::Plain(String::from("pencil"));
    let fin = client_final::<Sha1>(&first, &password, SERVER_FIRST).unwrap();
    assert_eq!(
        fin.message,
        "c=biws,r=fyko+d2lbbFgONRv9qkxdawL3rfcNHYJY1ZVvWVs7j,p=v0X8v3Bz2T0CJGbJQyF0X+HI4Ts="
    );
    assert_eq!(verify_server_final(&fin.server_signature, "v=rmF9pqV8S7suAoZWja4dJRkFsKQ="), Ok(()));
    assert_eq!(
        verify_server_final(&fin.server_signature, "v=AAAAAAAAAAAAAAAAAAAAAAAAAAA="),
        Err(SaslError::BadServerSignature)
    );
}

#[test]
fn scram_stored_key_gives_same_proof() {
    let salt = vec![65u8, 37, 194, 71, 228, 58, 177, 233, 60, 109, 255, 118];
    let derived = Sha1::derive(&Password::Plain(String::from("pencil")), &salt, 4096).unwrap();
    let stored = Password::Pbkdf2 {
        method: String::from("SHA-1"),
        salt: salt.clone(),
        iterations: 4096,
        data: derived.clone(),
    };
    let first = rfc_first();
    let a = client_final::<Sha1>(&first, &Password::Plain(String::from("pencil")), SERVER_FIRST).unwrap();
    let b = client_final::<Sha1>(&first, &stored, SERVER_FIRST).unwrap();
    assert_eq!(a.message, b.message);
    assert_eq!(a.server_signature, b.server_signature);
    assert_eq!(derived.len(), 20);
}

#[test]
fn scram_bad_nonce_and_malformed() {
    let first = rfc_first();
    let password = Password::Plain(String::from("pencil"));
    assert_eq!(
        client_final::<Sha1>(&first, &password, "r=other3rfcNHYJY1ZVvWVs7j,s=QSXCR+Q6sek8bf92,i=4096").unwrap_err(),
        SaslError::BadNonce
    );
    assert_eq!(client_final::<Sha1>(&first, &password, "r=abc").unwrap_err(), SaslError::Malformed);
    assert_eq!(
        client_final::<Sha1>(&first, &password, "r=fyko+d2lbbFgONRv9qkxdawLx,s=QSXCR+Q6sek8bf92,i=x").unwrap_err(),
        SaslError::Malformed
    );
}

#[test]
fn derive_errors() {
    let stored = Password::Pbkdf2 {
        method: String::from("SHA-1"),
        salt: vec![1, 2, 3],
        iterations: 10,
        data: vec![9; 20],
    };
    assert_eq!(
        Sha256::derive(&stored, &[1, 2, 3], 10),
        Err(DeriveError::IncompatibleHashingMethod(String::from("SHA-1"), String::from("SHA-256")))
    );
    assert_eq!(Sha1::derive(&stored, &[1, 2], 10), Err(DeriveError::IncorrectSalt));
    assert_eq!(Sha1::derive(&stored, &[1, 2, 3], 11), Err(DeriveError::IncompatibleIterationCount(10, 11)));
    assert_eq!(Sha1::derive(&stored, &[1, 2, 3], 10), Ok(vec![9; 20]));
    assert_eq!(DeriveError::IncorrectSalt.to_string(), "incorrect salt");
    assert_eq!(
        DeriveError::IncompatibleIterationCount(4096, 10).to_string(),
        "incompatible iteration count, 4096 is not 10"
    );
    assert_eq!(
        DeriveError::IncompatibleHashingMethod(String::from("SHA-1"), String::from("SHA-256")).to_string(),
        "incompatible hashing method, SHA-1 is not SHA-256"
    );
}

#[test]
fn hash_and_hmac_vectors() {
    assert_eq!(
        Sha1::hash(b"abc"),
        vec![169, 153, 62, 54, 71, 6, 129, 106, 186, 62, 37, 113, 120, 80, 194, 108, 156, 208, 216, 157]
    );
    assert_eq!(
        Sha256::hash(b"abc"),
        vec![
            186, 120, 22, 191, 143, 1, 207, 234, 65, 65, 64, 222, 93, 174, 34, 35, 176, 3, 97, 163, 150,
            23, 122, 156, 180, 16, 255, 97, 242, 0, 21, 173
        ]
    );
    assert_eq!(
        Sha256::derive(&Password::Plain(String::from("password")), b"salt", 1).unwrap(),
        vec![
            18, 15, 182, 207, 252, 248, 179, 44, 67, 231, 34, 82, 86, 196, 248, 55, 168, 101, 72, 201,
            44, 204, 53, 72, 8, 5, 152, 124, 183, 11, 225, 123
        ]
    );
    assert_eq!(Sha1::name(), "SHA-1");
    assert_eq!(Sha256::name(), "SHA-256");
    let tag = Sha256::hmac(b"what do ya want for nothing?", b"Jefe").unwrap();
    assert_eq!(tag[0], 0x5b);
    assert_eq!(tag[31], 0x43);
}

#[test]
fn nonce_is_base64_of_32_bytes() {
    let n = generate_nonce().unwrap();
    assert_eq!(n.len(), 44);
    assert!(n.ends_with('='));
    assert_ne!(n, generate_nonce().unwrap());
}

#[test]
fn username_escaping_and_binding_headers() {
    assert_eq!(escape_username("a,b=c"), "a=2Cb=3Dc");
    let plus = ClientFirst::new("u", String::from("n"), &ChannelBinding::TlsUnique(vec![1, 2]), true);
    assert_eq!(plus.gs2_header, "p=tls-unique,,");
    assert_eq!(plus.binding, vec![b'p', b'=', b't', b'l', b's', b'-', b'u', b'n', b'i', b'q', b'u', b'e', b',', b',', 1, 2]);
    let y = ClientFirst::new("u", String::from("n"), &ChannelBinding::TlsUnique(vec![1, 2]), false);
    assert_eq!(y.gs2_header, "y,,");
    assert!(constant_time_eq(&[1, 2, 3], &[1, 2, 3]));
    assert!(!constant_time_eq(&[1, 2, 3], &[1, 2, 4]));
    assert!(!constant_time_eq(&[1, 2], &[1, 2, 3]));
}

#[test]
fn mechanism_selection_order() {
    let creds = SaslCredentials::with_password(String::from("user"), String::from("pencil"));
    let offered = vec![String::from("PLAIN"), String::from("SCRAM-SHA-1"), String::from("SCRAM-SHA-256")];
    assert_eq!(select_mechanism(&offered, &creds, true), Ok(Mechanism::ScramSha256));
    let offered = vec![String::from("PLAIN")];
    assert_eq!(select_mechanism(&offered, &creds, true), Ok(Mechanism::Plain));
    assert_eq!(select_mechanism(&offered, &creds, false), Err(SaslError::NoSupportedMechanism));
    let offered = vec![String::from("SCRAM-SHA-1-PLUS"), String::from("SCRAM-SHA-1")];
    assert_eq!(select_mechanism(&offered, &creds, true), Ok(Mechanism::ScramSha1));
    let mut bound = creds.clone();
    bound.channel_binding = ChannelBinding::TlsUnique(vec![1]);
    assert_eq!(select_mechanism(&offered, &bound, true), Ok(Mechanism::ScramSha1Plus));
    let offered = vec![String::from("ANONYMOUS")];
    assert_eq!(select_mechanism(&offered, &creds, true), Ok(Mechanism::Anonymous));
    assert_eq!(Mechanism::ScramSha256Plus.name(), "SCRAM-SHA-256-PLUS");
}

#[test]
fn anonymous_mechanism() {
    let anon = Anonymous::new();
    assert_eq!(anon.name(), "ANONYMOUS");
    let none = SaslCredentials { username: None, secret: SaslSecret::Empty, channel_binding: ChannelBinding::Disabled };
    assert!(Anonymous::from_credentials(none).is_ok());
    let creds = SaslCredentials::with_password(String::from("u"), String::from("p"));
    assert_eq!(
        Anonymous::from_credentials(creds).unwrap_err(),
        "the anonymous sasl mechanism requires no credentials"
    );
}
