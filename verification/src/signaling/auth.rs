//! Proof of identity when an endpoint binds to a server.
//!
//! [`sign_identity`] builds an identity from a certificate and signs it with
//! the private key. [`verify_identity`] checks that the identity is recent,
//! takes the public key out of the certificate, and checks the signature.

use crate::clock;
use crate::number;
use crate::signaling;
use crate::signaling::{Base64Error, CertDerHash, Identity, Signature};
use crate::split;
use crate::text;
use crate::types;
use ring::rand::SystemRandom;
use ring::signature::{
    EcdsaKeyPair, KeyPair, UnparsedPublicKey, ECDSA_P256_SHA256_FIXED,
    ECDSA_P256_SHA256_FIXED_SIGNING,
};
use vstd::prelude::*;
use vstd::string::*;
use vstd::utf8;

verus! {

/// Largest difference in seconds between the system time and the time of an
/// identity that is accepted.
pub const MAX_TIMESTAMP_OFFSET: u64 = 30;

/// Longest input of SHA-256, in bytes, and one more.
pub const HASH_INPUT_LIMIT: u64 = 0x2000_0000_0000_0000;

/// A private key and the certificate that belongs to it.
#[derive(Debug, Clone)]
pub struct KeyCert {
    /// The private key in PKCS#8 format.
    pub key_der: Vec<u8>,
    /// The certificate in DER format.
    pub cert_der: Vec<u8>,
}

// *** Outside functions

/// The SHA-256 digest of bytes.
pub uninterp spec fn sha256(data: Seq<u8>) -> Seq<u8>;

/// `ring::digest::digest` with SHA-256 gives the digest, which has thirty-two
/// bytes.
#[verifier::external_body]
fn digest_sha256(data: &[u8]) -> (r: Vec<u8>)
    requires
        data@.len() < HASH_INPUT_LIMIT,
    ensures
        r@ == sha256(data@),
        r@.len() == 32,
{
    ring::digest::digest(&ring::digest::SHA256, data).as_ref().to_vec()
}

/// The public key of the subject of a certificate, or the message of the parser
/// where the bytes are no certificate.
pub uninterp spec fn x509_key(der: Seq<u8>) -> Result<Seq<u8>, Seq<char>>;

/// `x509_parser::parse_x509_certificate` reads a certificate; its subject's
/// public key is what is taken out of it.
#[verifier::external_body]
fn certificate_key(der: &[u8]) -> (r: Result<Vec<u8>, String>)
    ensures
        match r {
            Ok(k) => x509_key(der@) is Ok && x509_key(der@)->Ok_0 == k@,
            Err(e) => x509_key(der@) is Err && x509_key(der@)->Err_0 == e@,
        },
{
    match x509_parser::parse_x509_certificate(der) {
        Ok((_, parsed)) => Ok(parsed.tbs_certificate.subject_pki.subject_public_key.data.to_vec()),
        Err(err) => Err(format!("{}", err)),
    }
}

/// Whether a signature of a message is valid for a public key, by ECDSA with
/// P-256 and SHA-256 in the fixed-length form.
pub uninterp spec fn ecdsa_valid(public_key: Seq<u8>, message: Seq<u8>, sig: Seq<u8>) -> bool;

/// The public key that a private key in PKCS#8 format holds.
pub uninterp spec fn pkcs8_public_key(pkcs8: Seq<u8>) -> Seq<u8>;

/// `UnparsedPublicKey::verify` of `ring` tells whether the signature is valid.
#[verifier::external_body]
fn ecdsa_verify(public_key: &[u8], message: &[u8], sig: &[u8]) -> (r: bool)
    requires
        message@.len() < HASH_INPUT_LIMIT,
    ensures
        r == ecdsa_valid(public_key@, message@, sig@),
{
    UnparsedPublicKey::new(&ECDSA_P256_SHA256_FIXED, public_key).verify(message, sig).is_ok()
}

/// Why nothing was signed.
#[derive(Debug, Clone, PartialEq, Eq)]
pub enum SignFailure {
    /// The key was not accepted.
    Key(String),
    /// The signing failed.
    Sign(String),
}

/// `EcdsaKeyPair::from_pkcs8` of `ring` loads the key, which holds its public
/// key, and `EcdsaKeyPair::sign` makes a signature that is valid for it. Which
/// keys are accepted, and which signature comes out, is not said: both go
/// through a random number.
#[verifier::external_body]
fn ecdsa_sign(pkcs8: &[u8], message: &[u8]) -> (r: Result<Vec<u8>, SignFailure>)
    requires
        message@.len() < HASH_INPUT_LIMIT,
    ensures
        match r {
            Ok(sig) => ecdsa_valid(pkcs8_public_key(pkcs8@), message@, sig@),
            Err(_) => true,
        },
{
    let rng = SystemRandom::new();
    match EcdsaKeyPair::from_pkcs8(&ECDSA_P256_SHA256_FIXED_SIGNING, pkcs8, &rng) {
        Err(err) => Err(SignFailure::Key(format!("{}", err))),
        Ok(key) => match key.sign(&rng, message) {
            Err(err) => Err(SignFailure::Sign(format!("{}", err))),
            Ok(sig) => Ok(sig.as_ref().to_vec()),
        },
    }
}

/// `EcdsaKeyPair::from_pkcs8` of `ring` loads the key, and `KeyPair::public_key`
/// gives its public key. Which keys are accepted is not said: the loading goes
/// through a random number.
#[verifier::external_body]
fn private_key_public(pkcs8: &[u8]) -> (r: Result<Vec<u8>, String>)
    ensures
        match r {
            Ok(k) => k@ == pkcs8_public_key(pkcs8@),
            Err(_) => true,
        },
{
    match EcdsaKeyPair::from_pkcs8(&ECDSA_P256_SHA256_FIXED_SIGNING, pkcs8, &SystemRandom::new()) {
        Err(err) => Err(format!("{}", err)),
        Ok(key) => Ok(key.public_key().as_ref().to_vec()),
    }
}

// *** Hashes

/// Bytes in upper-case hexadecimal, one text for each.
pub open spec fn hex_parts(bytes: Seq<u8>) -> Seq<Seq<char>> {
    Seq::new(bytes.len(), |i: int| number::hex_byte(bytes[i]))
}

/// Bytes in upper-case hexadecimal, separated by colons.
pub open spec fn colon_hex(bytes: Seq<u8>) -> Seq<char> {
    split::join(hex_parts(bytes), ':')
}

/// Writes bytes in upper-case hexadecimal, separated by colons.
pub fn colon_hex_text(bytes: &[u8]) -> (r: String)
    ensures
        r@ == colon_hex(bytes@),
{
    let mut parts: Vec<String> = Vec::new();
    for i in 0..bytes.len()
        invariant
            parts@.len() == i,
            forall|j: int| 0 <= j < i ==> (#[trigger] parts@[j])@ == number::hex_byte(bytes@[j]),
    {
        parts.push(number::hex_text(bytes[i]));
    }
    assert(split::texts(parts@) =~= hex_parts(bytes@));
    split::join_texts(&parts, ':')
}

/// The hash of a certificate: its SHA-256 digest in colon-separated upper-case
/// hexadecimal.
pub fn hash_der(der: &[u8]) -> (r: CertDerHash)
    requires
        der@.len() < HASH_INPUT_LIMIT,
    ensures
        r@ == colon_hex(sha256(der@)),
{
    colon_hex_text(&digest_sha256(der))
}

impl KeyCert {
    /// The hash of the certificate.
    pub fn cert_der_hash(&self) -> (r: CertDerHash)
        requires
            self.cert_der@.len() < HASH_INPUT_LIMIT,
        ensures
            r@ == colon_hex(sha256(self.cert_der@)),
    {
        hash_der(&self.cert_der)
    }
}

proof fn lemma_hex_char(d: int)
    requires
        0 <= d < 16,
    ensures
        number::hex_digit(d) != ':',
        number::hex_digit(d) != ',',
{
}

proof fn lemma_colon_hex_shape(bytes: Seq<u8>)
    requires
        bytes.len() > 0,
    ensures
        colon_hex(bytes).len() >= 2,
        colon_hex(bytes).last() != ':',
        text::find(colon_hex(bytes), "::"@) is None,
        !colon_hex(bytes).contains(','),
    decreases bytes.len(),
{
    reveal_strlit("::");
    let b = bytes.last();
    lemma_hex_char(b as int / 16);
    lemma_hex_char(b as int % 16);
    let s = colon_hex(bytes);
    let short = bytes.drop_last();
    assert(hex_parts(bytes).drop_last() =~= hex_parts(short));
    if bytes.len() == 1 {
        assert(s =~= number::hex_byte(b));
    } else {
        lemma_colon_hex_shape(short);
        let t = colon_hex(short);
        assert(s =~= t.push(':') + number::hex_byte(b));
        text::lemma_find_from(t, "::"@, 0);
        assert forall|i: int| 0 <= i < s.len() implies s[i] != ',' by {
            if i < t.len() {
                assert(t.contains(t[i]));
            }
        }
    }
    text::lemma_find_from(s, "::"@, 0);
    assert forall|j: int| 0 <= j implies !text::occurs_at(s, "::"@, j) by {
        if text::occurs_at(s, "::"@, j) {
            let w = s.subrange(j, j + 2);
            assert(w[0] == ':' && w[1] == ':');
            assert(s[j] == ':' && s[j + 1] == ':');
            if bytes.len() > 1 {
                let t = colon_hex(short);
                if j + 2 <= t.len() {
                    assert(t.subrange(j, j + 2) =~= w);
                    assert(text::occurs_at(t, "::"@, j));
                }
            }
        }
    }
}

/// The hash of a certificate is an id of its own, and with a name in front it
/// makes an id that can be taken apart again. Neither holds a comma as long as
/// the name does not, so a trust list can hold them.
pub proof fn lemma_hash_is_id(digest: Seq<u8>, name: Seq<char>)
    requires
        digest.len() > 0,
        name.len() > 0,
        text::find(name, "::"@) is None,
        name.last() != ':',
        !name.contains(','),
    ensures
        types::hash_of(types::id_of(None, colon_hex(digest))) == colon_hex(digest),
        types::hash_of(types::id_of(Some(name), colon_hex(digest))) == colon_hex(digest),
        types::name_of(types::id_of(Some(name), colon_hex(digest))) == Some(name),
        !types::id_of(Some(name), colon_hex(digest)).contains(','),
{
    lemma_colon_hex_shape(digest);
    types::lemma_id_hash_only(colon_hex(digest));
    types::lemma_id_parts(name, colon_hex(digest));
    reveal_strlit("::");
    let hash = colon_hex(digest);
    let id = types::id_of(Some(name), hash);
    assert forall|i: int| 0 <= i < id.len() implies id[i] != ',' by {
        if i < name.len() {
            assert(name.contains(name[i]));
        } else if i >= name.len() + 2 {
            assert(hash.contains(hash[i - name.len() - 2]));
        }
    }
}

// *** Errors

/// Why an identity was not signed or not accepted.
#[derive(Debug, Clone, PartialEq, Eq)]
pub enum AuthError {
    /// The system clock is wrong.
    Clock,
    /// The identity is too old or too new.
    Timestamp { timestamp: u64, now: u64 },
    /// The signature is not in base64.
    Signature(Base64Error),
    /// The certificate cannot be read.
    Cert(String),
    /// The identity is too long to be hashed.
    TooLong,
    /// The signature is not valid.
    Verification,
    /// The private key was not accepted.
    Key(String),
    /// Signing failed.
    Sign(String),
}

/// What an error says.
pub enum AuthErrorView {
    /// The system clock is wrong.
    Clock,
    /// The identity is too old or too new.
    Timestamp { timestamp: nat, now: nat },
    /// The signature is not in base64.
    Signature(Base64Error),
    /// The certificate cannot be read.
    Cert(Seq<char>),
    /// The identity is too long to be hashed.
    TooLong,
    /// The signature is not valid.
    Verification,
    /// The private key was not accepted.
    Key(Seq<char>),
    /// Signing failed.
    Sign(Seq<char>),
}

impl View for AuthError {
    type V = AuthErrorView;

    open spec fn view(&self) -> AuthErrorView {
        match self {
            AuthError::Clock => AuthErrorView::Clock,
            AuthError::Timestamp { timestamp, now } => AuthErrorView::Timestamp {
                timestamp: *timestamp as nat,
                now: *now as nat,
            },
            AuthError::Signature(e) => AuthErrorView::Signature(*e),
            AuthError::Cert(s) => AuthErrorView::Cert(s@),
            AuthError::TooLong => AuthErrorView::TooLong,
            AuthError::Verification => AuthErrorView::Verification,
            AuthError::Key(s) => AuthErrorView::Key(s@),
            AuthError::Sign(s) => AuthErrorView::Sign(s@),
        }
    }
}

impl AuthErrorView {
    /// The message of the error.
    pub open spec fn text(self) -> Seq<char> {
        match self {
            AuthErrorView::Clock => "system clock before unix epoch"@,
            AuthErrorView::Timestamp { timestamp, now } => "Identity timestamp "@ + number::decimal(
                timestamp,
            ) + " outside max allowed "@ + number::decimal(MAX_TIMESTAMP_OFFSET as nat)
                + "s offset (now="@ + number::decimal(now) + ")"@,
            AuthErrorView::Signature(e) => "Signature base64: "@ + e.text(),
            AuthErrorView::Cert(s) => "Parsing identity cert: "@ + s,
            AuthErrorView::TooLong => "Identity too long"@,
            AuthErrorView::Verification => "Identity signature verification failed"@,
            AuthErrorView::Key(s) => "Loading signing key: "@ + s,
            AuthErrorView::Sign(s) => "Signing identity: "@ + s,
        }
    }
}

impl AuthError {
    /// The message of the error.
    pub fn message(&self) -> (r: String)
        ensures
            r@ == self@.text(),
    {
        match self {
            AuthError::Clock => "system clock before unix epoch".to_owned(),
            AuthError::Timestamp { timestamp, now } => {
                let mut r = "Identity timestamp ".to_owned();
                r.append(number::decimal_text(*timestamp).as_str());
                r.append(" outside max allowed ");
                r.append(number::decimal_text(MAX_TIMESTAMP_OFFSET).as_str());
                r.append("s offset (now=");
                r.append(number::decimal_text(*now).as_str());
                r.append(")");
                r
            },
            AuthError::Signature(e) => text::concat("Signature base64: ", e.message().as_str()),
            AuthError::Cert(s) => text::concat("Parsing identity cert: ", s.as_str()),
            AuthError::TooLong => "Identity too long".to_owned(),
            AuthError::Verification => "Identity signature verification failed".to_owned(),
            AuthError::Key(s) => text::concat("Loading signing key: ", s.as_str()),
            AuthError::Sign(s) => text::concat("Signing identity: ", s.as_str()),
        }
    }
}

// *** Signing and verifying

/// Whether two times are at most the accepted offset apart.
pub open spec fn recent(timestamp: u64, now: u64) -> bool {
    -MAX_TIMESTAMP_OFFSET <= now - timestamp <= MAX_TIMESTAMP_OFFSET
}

/// What speaks against an identity, the first objection if there are several:
/// its time, then its signature's encoding, then its certificate, then its
/// length, then the signature.
pub open spec fn objection(
    timestamp: u64,
    now: u64,
    sig: Result<Seq<u8>, Base64Error>,
    key: Result<Seq<u8>, Seq<char>>,
    long: bool,
    valid: bool,
) -> Option<AuthErrorView> {
    if !recent(timestamp, now) {
        Some(AuthErrorView::Timestamp { timestamp: timestamp as nat, now: now as nat })
    } else {
        match (sig, key) {
            (Err(e), _) => Some(AuthErrorView::Signature(e)),
            (_, Err(e)) => Some(AuthErrorView::Cert(e)),
            _ => if long {
                Some(AuthErrorView::TooLong)
            } else if !valid {
                Some(AuthErrorView::Verification)
            } else {
                None
            },
        }
    }
}

/// The contents of a result with bytes.
pub open spec fn bytes_result<E>(r: Result<Vec<u8>, E>) -> Result<Seq<u8>, E> {
    match r {
        Ok(v) => Ok(v@),
        Err(e) => Err(e),
    }
}

/// The contents of a result with bytes or a message.
pub open spec fn key_result(r: Result<Vec<u8>, String>) -> Result<Seq<u8>, Seq<char>> {
    match r {
        Ok(v) => Ok(v@),
        Err(e) => Err(e@),
    }
}

/// Judges an identity by what is known of it.
pub fn judge(
    timestamp: u64,
    now: u64,
    sig: &Result<Vec<u8>, Base64Error>,
    key: &Result<Vec<u8>, String>,
    long: bool,
    valid: bool,
) -> (r: Result<(), AuthError>)
    ensures
        match r {
            Ok(_) => objection(timestamp, now, bytes_result(*sig), key_result(*key), long, valid) is None,
            Err(e) => objection(timestamp, now, bytes_result(*sig), key_result(*key), long, valid)
                == Some(e@),
        },
{
    let offset: u64 = if now >= timestamp {
        now - timestamp
    } else {
        timestamp - now
    };
    if offset > MAX_TIMESTAMP_OFFSET {
        return Err(AuthError::Timestamp { timestamp, now });
    }
    match sig {
        Err(e) => {
            return Err(AuthError::Signature(*e));
        },
        Ok(_) => {},
    }
    match key {
        Err(e) => {
            return Err(AuthError::Cert(e.clone()));
        },
        Ok(_) => {},
    }
    if long {
        return Err(AuthError::TooLong);
    }
    if !valid {
        return Err(AuthError::Verification);
    }
    Ok(())
}

/// The bytes that are signed for an identity.
pub open spec fn signed_bytes(timestamp: u64, cert: Seq<u8>) -> Seq<u8> {
    utf8::encode_utf8(signaling::identity_text(timestamp, signaling::b64_encoded(cert)))
}

/// Whether an identity or its certificate is too long to be hashed.
pub open spec fn long_identity(timestamp: u64, cert: Seq<u8>) -> bool {
    signed_bytes(timestamp, cert).len() >= HASH_INPUT_LIMIT || cert.len() >= HASH_INPUT_LIMIT
}

/// Whether a signature is valid for the public key of a certificate.
pub open spec fn vouched_parts(timestamp: u64, cert: Seq<u8>, sig: Seq<char>) -> bool {
    ecdsa_valid(
        x509_key(cert)->Ok_0,
        signed_bytes(timestamp, cert),
        signaling::b64_decoded(sig)->Ok_0,
    )
}

/// Whether the identity or its certificate is too long to be hashed.
pub open spec fn too_long(id: Identity) -> bool {
    long_identity(id.timestamp, id.cert@)
}

/// Whether the signature is valid for the public key of the certificate.
pub open spec fn vouched(id: Identity, sig: Signature) -> bool {
    vouched_parts(id.timestamp, id.cert@, sig.0@)
}

/// What speaks against an identity with its signature at a time.
pub open spec fn identity_objection(id: Identity, sig: Signature, now: u64) -> Option<
    AuthErrorView,
> {
    objection(
        id.timestamp,
        now,
        signaling::b64_decoded(sig.0@),
        x509_key(id.cert@),
        too_long(id),
        vouched(id, sig),
    )
}

/// Verifies at the time `now` that the signature was made over the identity with
/// the private key of its certificate, and that the identity is recent. Returns
/// the hash of the certificate.
pub fn verify_identity_at(id: &Identity, sig: &Signature, now: u64) -> (r: Result<
    CertDerHash,
    AuthError,
>)
    ensures
        match r {
            Ok(hash) => {
                &&& identity_objection(*id, *sig, now) is None
                &&& hash@ == colon_hex(sha256(id.cert@))
            },
            Err(e) => identity_objection(*id, *sig, now) == Some(e@),
        },
{
    let sig_bytes = sig.to_bytes();
    let key = certificate_key(&id.cert);
    let message = id.to_bytes();
    let limit: u64 = HASH_INPUT_LIMIT;
    let long = message.len() as u64 >= limit || id.cert.len() as u64 >= limit;
    let valid = match (&sig_bytes, &key) {
        (Ok(s), Ok(k)) => !long && ecdsa_verify(k, &message, s),
        _ => false,
    };
    match judge(id.timestamp, now, &sig_bytes, &key, long, valid) {
        Ok(_) => Ok(hash_der(&id.cert)),
        Err(e) => Err(e),
    }
}

/// Verifies an identity at the present time.
pub fn verify_identity(id: &Identity, sig: &Signature) -> (r: Result<CertDerHash, AuthError>)
    ensures
        match r {
            Ok(hash) => {
                &&& hash@ == colon_hex(sha256(id.cert@))
                &&& exists|now: u64| #[trigger] identity_objection(*id, *sig, now) is None
            },
            Err(e) => e is Clock || exists|now: u64|
                #[trigger] identity_objection(*id, *sig, now) == Some(e@),
        },
{
    match clock::unix_seconds() {
        None => Err(AuthError::Clock),
        Some(now) => {
            let r = verify_identity_at(id, sig, now);
            assert(identity_objection(*id, *sig, now) is None || identity_objection(*id, *sig, now)
                is Some);
            r
        },
    }
}

fn same_bytes(a: &[u8], b: &[u8]) -> (r: bool)
    ensures
        r == (a@ == b@),
{
    if a.len() != b.len() {
        return false;
    }
    for i in 0..a.len()
        invariant
            a@.len() == b@.len(),
            forall|j: int| 0 <= j < i ==> a@[j] == b@[j],
    {
        if a[i] != b[i] {
            return false;
        }
    }
    assert(a@ =~= b@);
    true
}

/// Whether a certificate is that of a private key, given the public key of
/// each. Bytes that are no certificate are that of no key.
pub fn same_key(cert_key: &Result<Vec<u8>, String>, own_key: &Result<Vec<u8>, String>) -> (r:
    Result<bool, AuthError>)
    ensures
        match (cert_key, own_key) {
            (Err(_), _) => r == Ok::<bool, AuthError>(false),
            (Ok(_), Err(e)) => r == Err::<bool, AuthError>(AuthError::Key(*e)),
            (Ok(a), Ok(b)) => r == Ok::<bool, AuthError>(a@ == b@),
        },
{
    match (cert_key, own_key) {
        (Err(_), _) => Ok(false),
        (Ok(_), Err(e)) => Err(AuthError::Key(e.clone())),
        (Ok(a), Ok(b)) => Ok(same_bytes(a, b)),
    }
}

impl KeyCert {
    /// Whether the certificate is that of the private key, so that what the key
    /// signs is accepted. The private key may not be accepted; it is not needed
    /// where there is no certificate.
    pub fn is_pair(&self) -> (r: Result<bool, AuthError>)
        ensures
            match r {
                Ok(pair) => pair == (x509_key(self.cert_der@) == Ok::<Seq<u8>, Seq<char>>(
                    pkcs8_public_key(self.key_der@),
                )),
                Err(e) => e is Key && x509_key(self.cert_der@) is Ok,
            },
            x509_key(self.cert_der@) is Err ==> r == Ok::<bool, AuthError>(false),
    {
        let cert_key = certificate_key(&self.cert_der);
        let own_key = private_key_public(&self.key_der);
        same_key(&cert_key, &own_key)
    }
}

/// Builds an identity for a certificate at the time `now` and signs it. What it
/// signs is accepted as long as it is recent, where the certificate is that of
/// the private key.
pub fn sign_identity_at(key_cert: &KeyCert, now: u64) -> (r: Result<
    (Identity, Signature),
    AuthError,
>)
    ensures
        match r {
            Ok((id, sig)) => {
                &&& id.timestamp == now
                &&& id.cert@ == key_cert.cert_der@
                &&& !too_long(id)
                &&& signaling::b64_decoded(sig.0@) is Ok
                &&& ecdsa_valid(
                    pkcs8_public_key(key_cert.key_der@),
                    utf8::encode_utf8(id.text()),
                    signaling::b64_decoded(sig.0@)->Ok_0,
                )
                &&& x509_key(id.cert@) == Ok::<Seq<u8>, Seq<char>>(
                    pkcs8_public_key(key_cert.key_der@),
                ) ==> forall|later: u64|
                    recent(now, later) ==> #[trigger] identity_objection(id, sig, later) is None
            },
            Err(e) => e is Key || e is Sign || e is TooLong,
        },
        long_identity(now, key_cert.cert_der@) <==> r matches Err(AuthError::TooLong),
{
    let id = Identity::from_cert_der(now, &key_cert.cert_der);
    let message = id.to_bytes();
    let limit: u64 = HASH_INPUT_LIMIT;
    if message.len() as u64 >= limit || id.cert.len() as u64 >= limit {
        return Err(AuthError::TooLong);
    }
    let signed = ecdsa_sign(&key_cert.key_der, &message);
    signed_identity(id, signed)
}

/// An identity with its signature, given what came of signing its bytes.
pub fn signed_identity(id: Identity, signed: Result<Vec<u8>, SignFailure>) -> (r: Result<
    (Identity, Signature),
    AuthError,
>)
    ensures
        match signed {
            Ok(bytes) => r matches Ok((i, s)) && i == id && s.0@ == signaling::b64_encoded(bytes@)
                && signaling::b64_decoded(s.0@) == Ok::<Seq<u8>, Base64Error>(bytes@),
            Err(SignFailure::Key(e)) => r == Err::<(Identity, Signature), AuthError>(
                AuthError::Key(e),
            ),
            Err(SignFailure::Sign(e)) => r == Err::<(Identity, Signature), AuthError>(
                AuthError::Sign(e),
            ),
        },
{
    match signed {
        Err(SignFailure::Key(e)) => Err(AuthError::Key(e)),
        Err(SignFailure::Sign(e)) => Err(AuthError::Sign(e)),
        Ok(bytes) => Ok((id, Signature::from_bytes(&bytes))),
    }
}

/// Builds an identity for a certificate at the present time and signs it.
pub fn sign_identity(key_cert: &KeyCert) -> (r: Result<(Identity, Signature), AuthError>)
    ensures
        match r {
            Ok((id, sig)) => {
                &&& id.cert@ == key_cert.cert_der@
                &&& signaling::b64_decoded(sig.0@) is Ok
                &&& ecdsa_valid(
                    pkcs8_public_key(key_cert.key_der@),
                    utf8::encode_utf8(id.text()),
                    signaling::b64_decoded(sig.0@)->Ok_0,
                )
                &&& x509_key(id.cert@) == Ok::<Seq<u8>, Seq<char>>(
                    pkcs8_public_key(key_cert.key_der@),
                ) ==> forall|later: u64|
                    recent(id.timestamp, later) ==> #[trigger] identity_objection(id, sig, later)
                        is None
            },
            Err(e) => e is Clock || e is Key || e is Sign || (e is TooLong && exists|now: u64|
                #[trigger] long_identity(now, key_cert.cert_der@)),
        },
        key_cert.cert_der@.len() >= HASH_INPUT_LIMIT ==> r is Err && (r->Err_0 is Clock || r->Err_0
            is TooLong),
{
    match clock::unix_seconds() {
        None => Err(AuthError::Clock),
        Some(now) => sign_identity_at(key_cert, now),
    }
}

} // verus!
