//! Signaling: the messages by which endpoints find each other through a server,
//! the headers by which they bind to it, and the rules of server and client.
//!
//! The server and the clients treat session descriptions and candidates as raw
//! texts. A typical session looks like this:
//!
//! ```text
//! endpoint      signal server      endpoint
//! | ---WS upgrade---> |                   |
//! |                   | <----Connect----- |
//! | <----Connect----- |                   |
//! | -----Connect----> |                   |
//! |                   | -----Connect----> |
//! |                   |                   |
//! | -----Candidate--> | <---Candidate---- |
//! | <----Candidate--- | ----Candidate---> |
//! ```

use crate::number;
use crate::number::NumberError;
use crate::split;
use crate::text;
use base64::engine::general_purpose::STANDARD;
use base64::Engine;
use vstd::prelude::*;
use vstd::string::*;
use vstd::utf8;

pub mod auth;
pub mod client;
pub mod key_store;
pub mod promises;
pub mod routing;
pub mod server;
pub mod wording;

verus! {

/// A session description, treated as a black box.
pub type SDP = String;

/// A candidate, treated as a black box too.
pub type ICECandidate = String;

/// Id of an endpoint, of the same shape as a server id.
pub type EndpointId = String;

/// Certificate in DER format hashed by SHA-256 and printed in hexadecimal.
pub type CertDerHash = String;

/// Header with the id of an endpoint.
pub const BIND_HEADER_ID: &'static str = "X-Collab-Endpoint-Id";

/// Header with the identity of an endpoint.
pub const BIND_HEADER_IDENTITY: &'static str = "X-Collab-Identity";

/// Header with the signature over the identity.
pub const BIND_HEADER_SIGNATURE: &'static str = "X-Collab-Signature";

/// Header with the trust list of an endpoint.
pub const BIND_HEADER_TRUSTED: &'static str = "X-Collab-Trusted";

// *** Trust lists

/// An id that cannot stand in a trust list.
#[derive(Debug, Clone, PartialEq, Eq)]
pub struct CommaInId(pub EndpointId);

impl CommaInId {
    /// The message of the error.
    pub fn message(&self) -> (r: String)
        ensures
            r@ == "endpoint id "@ + text::debug_quoted(self.0@)
                + " contains a comma; cannot encode in header"@,
    {
        text::concat3(
            "endpoint id ",
            text::quoted(self.0.as_str()).as_str(),
            " contains a comma; cannot encode in header",
        )
    }
}

/// The first id with a comma.
pub open spec fn first_with_comma(ids: Seq<Seq<char>>) -> Option<Seq<char>>
    decreases ids.len(),
{
    if ids.len() == 0 {
        None
    } else {
        match first_with_comma(ids.drop_last()) {
            Some(id) => Some(id),
            None => if ids.last().contains(',') {
                Some(ids.last())
            } else {
                None
            },
        }
    }
}

/// The trust list that a header value stands for.
pub open spec fn trusted_of(value: Seq<char>) -> Seq<Seq<char>> {
    if value.len() == 0 {
        Seq::empty()
    } else {
        split::split(value, ',')
    }
}

/// Encodes a trust list as a comma-separated text for a header. An id with a
/// comma is rejected.
pub fn encode_trusted_header(trusted: &[EndpointId]) -> (r: Result<String, CommaInId>)
    ensures
        match r {
            Ok(s) => {
                &&& first_with_comma(split::texts(trusted@)) is None
                &&& s@ == split::join(split::texts(trusted@), ',')
            },
            Err(e) => first_with_comma(split::texts(trusted@)) == Some(e.0@),
        },
{
    let ghost all = split::texts(trusted@);
    assert(all.take(0) =~= Seq::<Seq<char>>::empty());
    for i in 0..trusted.len()
        invariant
            all == split::texts(trusted@),
            first_with_comma(all.take(i as int)) is None,
    {
        assert(all.take(i + 1).drop_last() =~= all.take(i as int));
        if text::has_char(trusted[i].as_str(), ',') {
            proof {
                lemma_first_comma_stays(all, i + 1);
            }
            return Err(CommaInId(trusted[i].clone()));
        }
    }
    assert(all.take(all.len() as int) =~= all);
    Ok(split::join_texts(trusted, ','))
}

proof fn lemma_first_comma_stays(ids: Seq<Seq<char>>, i: int)
    requires
        0 <= i <= ids.len(),
        first_with_comma(ids.take(i)) is Some,
    ensures
        first_with_comma(ids) == first_with_comma(ids.take(i)),
    decreases ids.len() - i,
{
    if i == ids.len() {
        assert(ids.take(i) =~= ids);
    } else {
        assert(ids.take(i + 1).drop_last() =~= ids.take(i));
        lemma_first_comma_stays(ids, i + 1);
    }
}

proof fn lemma_no_comma(ids: Seq<Seq<char>>)
    requires
        first_with_comma(ids) is None,
    ensures
        forall|i: int| 0 <= i < ids.len() ==> !(#[trigger] ids[i]).contains(','),
    decreases ids.len(),
{
    if ids.len() > 0 {
        let short = ids.drop_last();
        lemma_no_comma(short);
        assert forall|i: int| 0 <= i < ids.len() implies !(#[trigger] ids[i]).contains(',') by {
            if i < short.len() {
                assert(short[i] == ids[i]);
            }
        }
    }
}

/// Inverse of [`encode_trusted_header`]. An empty value decodes to an empty list
/// rather than to a list with one empty text. Every value can be decoded.
pub fn decode_trusted_header(value: &str) -> (r: Result<Vec<EndpointId>, CommaInId>)
    ensures
        r matches Ok(ids) && split::texts(ids@) == trusted_of(value@),
{
    if value.unicode_len() == 0 {
        let ids: Vec<EndpointId> = Vec::new();
        assert(split::texts(ids@) =~= Seq::<Seq<char>>::empty());
        return Ok(ids);
    }
    Ok(split::split_text(value, ','))
}

/// Decoding undoes encoding, but for the list of one empty id, which is encoded
/// as the empty list is.
pub proof fn lemma_trusted_round_trip(ids: Seq<Seq<char>>)
    requires
        first_with_comma(ids) is None,
        ids != seq![Seq::<char>::empty()],
    ensures
        trusted_of(split::join(ids, ',')) == ids,
{
    if ids.len() == 0 {
        assert(ids =~= Seq::<Seq<char>>::empty());
    } else {
        lemma_no_comma(ids);
        split::lemma_split_join(ids, ',');
        if ids.len() == 1 && ids[0].len() == 0 {
            assert(ids[0] =~= Seq::<char>::empty());
            assert(ids =~= seq![Seq::<char>::empty()]);
        }
        split::lemma_join_nonempty(ids, ',');
    }
}

/// What was decoded can be encoded again, and gives the value back.
pub proof fn lemma_trusted_value_round_trip(value: Seq<char>)
    ensures
        first_with_comma(trusted_of(value)) is None,
        split::join(trusted_of(value), ',') == value,
{
    if value.len() == 0 {
        assert(value =~= Seq::<char>::empty());
    } else {
        split::lemma_join_split(value, ',');
        split::lemma_split_parts(value, ',');
        lemma_comma_free(trusted_of(value));
    }
}

proof fn lemma_comma_free(ids: Seq<Seq<char>>)
    requires
        forall|i: int| 0 <= i < ids.len() ==> !(#[trigger] ids[i]).contains(','),
    ensures
        first_with_comma(ids) is None,
    decreases ids.len(),
{
    if ids.len() > 0 {
        let short = ids.drop_last();
        assert forall|i: int| 0 <= i < short.len() implies !(#[trigger] short[i]).contains(
            ',',
        ) by {
            assert(short[i] == ids[i]);
        }
        lemma_comma_free(short);
        assert(ids[ids.len() - 1] == ids.last());
    }
}

// *** Base64

/// Why a text is not the base64 form of bytes.
#[derive(Debug, Clone, Copy, PartialEq, Eq, Structural)]
pub enum Base64Error {
    /// A byte that is no symbol, with its offset.
    InvalidByte(usize, u8),
    /// The length of the input.
    InvalidLength(usize),
    /// A last symbol with bits that are not used, with its offset.
    InvalidLastSymbol(usize, u8),
    /// Missing or wrong padding.
    InvalidPadding,
}

impl Base64Error {
    /// The message of the error.
    pub open spec fn text(self) -> Seq<char> {
        match self {
            Base64Error::InvalidByte(index, byte) => "Invalid symbol "@ + number::decimal(
                byte as nat,
            ) + ", offset "@ + number::decimal(index as nat) + "."@,
            Base64Error::InvalidLength(len) => "Invalid input length: "@ + number::decimal(
                len as nat,
            ),
            Base64Error::InvalidLastSymbol(index, byte) => "Invalid last symbol "@
                + number::decimal(byte as nat) + ", offset "@ + number::decimal(index as nat)
                + "."@,
            Base64Error::InvalidPadding => "Invalid padding"@,
        }
    }

    /// The message of the error.
    pub fn message(self) -> (r: String)
        ensures
            r@ == self.text(),
    {
        match self {
            Base64Error::InvalidByte(index, byte) => {
                let mut r = "Invalid symbol ".to_owned();
                r.append(number::decimal_text(byte as u64).as_str());
                r.append(", offset ");
                r.append(number::decimal_text(index as u64).as_str());
                r.append(".");
                r
            },
            Base64Error::InvalidLength(len) => text::concat(
                "Invalid input length: ",
                number::decimal_text(len as u64).as_str(),
            ),
            Base64Error::InvalidLastSymbol(index, byte) => {
                let mut r = "Invalid last symbol ".to_owned();
                r.append(number::decimal_text(byte as u64).as_str());
                r.append(", offset ");
                r.append(number::decimal_text(index as u64).as_str());
                r.append(".");
                r
            },
            Base64Error::InvalidPadding => "Invalid padding".to_owned(),
        }
    }
}

/// The base64 form of bytes, with the standard alphabet and padding.
pub uninterp spec fn b64_encoded(bytes: Seq<u8>) -> Seq<char>;

/// The bytes whose base64 form a text is, or why there are none.
pub uninterp spec fn b64_decoded(s: Seq<char>) -> Result<Seq<u8>, Base64Error>;

/// `Engine::encode` of the standard engine of `base64` gives the base64 form,
/// which decodes to the bytes.
#[verifier::external_body]
fn b64_encode(bytes: &[u8]) -> (r: String)
    ensures
        r@ == b64_encoded(bytes@),
        b64_decoded(r@) is Ok && b64_decoded(r@)->Ok_0 == bytes@,
{
    STANDARD.encode(bytes)
}

/// `Engine::decode` of the standard engine of `base64` accepts canonical forms
/// only: what it decodes encodes to the same text again.
#[verifier::external_body]
fn b64_decode(s: &str) -> (r: Result<Vec<u8>, Base64Error>)
    ensures
        match r {
            Ok(v) => b64_decoded(s@) is Ok && b64_decoded(s@)->Ok_0 == v@ && b64_encoded(v@) == s@,
            Err(e) => b64_decoded(s@) is Err && b64_decoded(s@)->Err_0 == e,
        },
{
    match STANDARD.decode(s) {
        Ok(bytes) => Ok(bytes),
        Err(base64::DecodeError::InvalidByte(i, b)) => Err(Base64Error::InvalidByte(i, b)),
        Err(base64::DecodeError::InvalidLength(n)) => Err(Base64Error::InvalidLength(n)),
        Err(base64::DecodeError::InvalidLastSymbol(i, b)) => Err(Base64Error::InvalidLastSymbol(i, b)),
        Err(base64::DecodeError::InvalidPadding) => Err(Base64Error::InvalidPadding),
    }
}

// *** Identities

/// What an endpoint shows when it binds: its certificate and the time. The
/// server checks that the time is recent, and checks the signature that comes
/// with it against the public key of the certificate.
#[derive(Debug, Clone, PartialEq, Eq)]
pub struct Identity {
    /// Seconds since the Unix epoch at creation.
    pub timestamp: u64,
    /// X.509 certificate in DER format.
    pub cert: Vec<u8>,
}

/// Signature over the bytes of an identity, made with the private key that
/// belongs to its certificate, in base64.
#[derive(Debug, Clone, PartialEq, Eq)]
pub struct Signature(pub String);

/// Why a header holds no identity.
#[derive(Debug, Clone, Copy, PartialEq, Eq, Structural)]
pub enum IdentityError {
    /// There is no colon.
    MissingSeparator,
    /// What precedes the colon is no time.
    Timestamp(NumberError),
    /// What follows the colon is not in base64.
    Cert(Base64Error),
}

impl IdentityError {
    /// The message of the error.
    pub open spec fn text(self) -> Seq<char> {
        match self {
            IdentityError::MissingSeparator => "Identity missing ':' separator"@,
            IdentityError::Timestamp(e) => e.text(),
            IdentityError::Cert(e) => "cert base64: "@ + e.text(),
        }
    }

    /// The message of the error.
    pub fn message(self) -> (r: String)
        ensures
            r@ == self.text(),
    {
        match self {
            IdentityError::MissingSeparator => "Identity missing ':' separator".to_owned(),
            IdentityError::Timestamp(e) => e.message(),
            IdentityError::Cert(e) => text::concat("cert base64: ", e.message().as_str()),
        }
    }

    /// The message of the error where the identity is a part of a larger value.
    pub fn field_message(self) -> (r: String)
        ensures
            r@ == match self {
                IdentityError::MissingSeparator => "Identity missing ':' separator"@,
                IdentityError::Timestamp(e) => "Failed to parse identity timestamp: "@ + e.text(),
                IdentityError::Cert(e) => "Failed to parse cert: "@ + e.text(),
            },
    {
        match self {
            IdentityError::MissingSeparator => "Identity missing ':' separator".to_owned(),
            IdentityError::Timestamp(e) => text::concat(
                "Failed to parse identity timestamp: ",
                e.message().as_str(),
            ),
            IdentityError::Cert(e) => text::concat(
                "Failed to parse cert: ",
                e.message().as_str(),
            ),
        }
    }
}

/// The textual form of an identity: time, colon, and the encoded certificate.
pub open spec fn identity_text(timestamp: u64, encoded: Seq<char>) -> Seq<char> {
    number::decimal(timestamp as nat) + ":"@ + encoded
}

/// The identity that a text stands for, given the bytes that the part behind the
/// colon decodes to.
pub open spec fn identity_of(
    s: Seq<char>,
    decode: spec_fn(Seq<char>) -> Result<Seq<u8>, Base64Error>,
) -> Result<(nat, Seq<u8>), IdentityError> {
    match text::split_once(s, ':') {
        None => Err(IdentityError::MissingSeparator),
        Some((ts, cert)) => match number::parse_unsigned(ts, u64::MAX as nat) {
            Err(e) => Err(IdentityError::Timestamp(e)),
            Ok(timestamp) => match decode(cert) {
                Err(e) => Err(IdentityError::Cert(e)),
                Ok(cert) => Ok((timestamp, cert)),
            },
        },
    }
}

impl Identity {
    /// Builds an identity from a certificate and a time.
    pub fn from_cert_der(timestamp: u64, cert_der: &[u8]) -> (r: Self)
        ensures
            r.timestamp == timestamp,
            r.cert@ == cert_der@,
    {
        Identity { timestamp, cert: vstd::slice::slice_to_vec(cert_der) }
    }

    /// The textual form of the identity.
    pub open spec fn text(&self) -> Seq<char> {
        identity_text(self.timestamp, b64_encoded(self.cert@))
    }

    /// Writes the identity. Reading the text gives the identity back.
    pub fn to_text(&self) -> (r: String)
        ensures
            r@ == self.text(),
            identity_of(r@, |t: Seq<char>| b64_decoded(t)) == Ok::<(nat, Seq<u8>), IdentityError>(
                (self.timestamp as nat, self.cert@),
            ),
    {
        let encoded = b64_encode(&self.cert);
        proof {
            lemma_identity_round_trip(
                self.timestamp,
                self.cert@,
                encoded@,
                |t: Seq<char>| b64_decoded(t),
            );
        }
        text::concat3(number::decimal_text(self.timestamp).as_str(), ":", encoded.as_str())
    }

    /// The bytes that are signed: `<timestamp>:<cert>`. They hold the identity:
    /// no other one is signed as the same bytes.
    pub fn to_bytes(&self) -> (r: Vec<u8>)
        ensures
            r@ == utf8::encode_utf8(self.text()),
            identity_of(utf8::decode_utf8(r@), |t: Seq<char>| b64_decoded(t)) == Ok::<
                (nat, Seq<u8>),
                IdentityError,
            >((self.timestamp as nat, self.cert@)),
    {
        proof {
            utf8::encode_utf8_decode_utf8(self.text());
        }
        self.to_text().as_str().as_bytes_vec()
    }
}

/// Reads the time and the base64 form of the certificate out of a header.
pub fn split_identity_header(s: &str) -> (r: Result<(u64, String), IdentityError>)
    ensures
        match text::split_once(s@, ':') {
            None => r == Err::<(u64, String), IdentityError>(IdentityError::MissingSeparator),
            Some((ts, cert)) => match number::parse_unsigned(ts, u64::MAX as nat) {
                Err(e) => r == Err::<(u64, String), IdentityError>(IdentityError::Timestamp(e)),
                Ok(t) => r matches Ok(p) && p.0 == t && p.1@ == cert,
            },
        },
{
    match text::split_once_chars(&text::to_chars(s), ':') {
        None => Err(IdentityError::MissingSeparator),
        Some((ts, cert)) => match number::read_unsigned(&ts, u64::MAX) {
            Err(e) => Err(IdentityError::Timestamp(e)),
            Ok(t) => Ok((t, text::from_chars(&cert))),
        },
    }
}

/// Reads an identity out of a header.
pub fn parse_identity_header(s: &str) -> (r: Result<Identity, IdentityError>)
    ensures
        match r {
            Ok(id) => identity_of(s@, |t: Seq<char>| b64_decoded(t)) == Ok::<
                (nat, Seq<u8>),
                IdentityError,
            >((id.timestamp as nat, id.cert@)),
            Err(e) => identity_of(s@, |t: Seq<char>| b64_decoded(t)) == Err::<
                (nat, Seq<u8>),
                IdentityError,
            >(e),
        },
{
    match split_identity_header(s) {
        Err(e) => Err(e),
        Ok((timestamp, cert_b64)) => match b64_decode(cert_b64.as_str()) {
            Err(e) => Err(IdentityError::Cert(e)),
            Ok(cert) => Ok(Identity { timestamp, cert }),
        },
    }
}

/// Reading the textual form of an identity gives the identity back, whatever the
/// encoding of the certificate, as long as it can be decoded.
pub proof fn lemma_identity_round_trip(
    timestamp: u64,
    cert: Seq<u8>,
    encoded: Seq<char>,
    decode: spec_fn(Seq<char>) -> Result<Seq<u8>, Base64Error>,
)
    requires
        decode(encoded) == Ok::<Seq<u8>, Base64Error>(cert),
    ensures
        identity_of(identity_text(timestamp, encoded), decode) == Ok::<
            (nat, Seq<u8>),
            IdentityError,
        >((timestamp as nat, cert)),
{
    reveal_strlit(":");
    let head = number::decimal(timestamp as nat);
    let s = identity_text(timestamp, encoded);
    assert(s =~= head.push(':') + encoded);
    number::lemma_decimal_digits(timestamp as nat);
    assert(!head.contains(':'));
    text::lemma_find_char_after(head, ':', encoded);
    assert(s.take(head.len() as int) =~= head);
    assert(s.skip(head.len() as int + 1) =~= encoded);
    number::lemma_parse_decimal(timestamp as nat, u64::MAX as nat);
}

/// Different identities are signed as different bytes: whoever changes the time
/// or the certificate changes what was signed.
pub proof fn lemma_identity_bytes_differ(
    t1: u64,
    cert1: Seq<u8>,
    encoded1: Seq<char>,
    t2: u64,
    cert2: Seq<u8>,
    encoded2: Seq<char>,
    decode: spec_fn(Seq<char>) -> Result<Seq<u8>, Base64Error>,
)
    requires
        decode(encoded1) == Ok::<Seq<u8>, Base64Error>(cert1),
        decode(encoded2) == Ok::<Seq<u8>, Base64Error>(cert2),
        t1 != t2 || cert1 != cert2,
    ensures
        utf8::encode_utf8(identity_text(t1, encoded1)) != utf8::encode_utf8(
            identity_text(t2, encoded2),
        ),
{
    lemma_identity_round_trip(t1, cert1, encoded1, decode);
    lemma_identity_round_trip(t2, cert2, encoded2, decode);
    utf8::encode_utf8_decode_utf8(identity_text(t1, encoded1));
    utf8::encode_utf8_decode_utf8(identity_text(t2, encoded2));
}

impl Signature {
    /// Builds a signature from its bytes.
    pub fn from_bytes(bytes: &[u8]) -> (r: Self)
        ensures
            r.0@ == b64_encoded(bytes@),
            b64_decoded(r.0@) == Ok::<Seq<u8>, Base64Error>(bytes@),
    {
        Signature(b64_encode(bytes))
    }

    /// Decodes the signature to its bytes.
    pub fn to_bytes(&self) -> (r: Result<Vec<u8>, Base64Error>)
        ensures
            match r {
                Ok(v) => b64_decoded(self.0@) == Ok::<Seq<u8>, Base64Error>(v@) && b64_encoded(v@)
                    == self.0@,
                Err(e) => b64_decoded(self.0@) == Err::<Seq<u8>, Base64Error>(e),
            },
    {
        b64_decode(self.0.as_str())
    }
}

// *** Errors

/// What a signaling call gives.
pub type SignalingResult<T> = Result<T, SignalingError>;

/// Why signaling failed.
#[derive(Debug, PartialEq, Eq)]
pub enum SignalingError {
    /// The connection to the server broke.
    ConnectionBroke,
    /// Another error, with its description.
    OtherError(String),
}

impl Clone for SignalingError {
    fn clone(&self) -> (r: Self)
        ensures
            r == *self,
    {
        match self {
            SignalingError::ConnectionBroke => SignalingError::ConnectionBroke,
            SignalingError::OtherError(s) => SignalingError::OtherError(s.clone()),
        }
    }
}

impl SignalingError {
    /// The message of the error.
    pub open spec fn text(self) -> Seq<char> {
        match self {
            SignalingError::ConnectionBroke => "Connection broke"@,
            SignalingError::OtherError(s) => "Error: "@ + s@,
        }
    }

    /// The message of the error.
    pub fn message(&self) -> (r: String)
        ensures
            r@ == self.text(),
    {
        match self {
            SignalingError::ConnectionBroke => "Connection broke".to_owned(),
            SignalingError::OtherError(s) => text::concat("Error: ", s.as_str()),
        }
    }

    /// The error that a failure of the socket means.
    pub fn from_socket(failure: SocketFailure) -> (r: Self)
        ensures
            match failure {
                SocketFailure::Other(s) => r matches SignalingError::OtherError(t) && t@
                    == "Websocket error: "@ + s@,
                _ => r is ConnectionBroke,
            },
    {
        match failure {
            SocketFailure::ConnectionClosed => SignalingError::ConnectionBroke,
            SocketFailure::AlreadyClosed => SignalingError::ConnectionBroke,
            SocketFailure::Other(s) => SignalingError::OtherError(
                text::concat("Websocket error: ", s.as_str()),
            ),
        }
    }
}

/// How a web socket failed.
#[derive(Debug, Clone, PartialEq, Eq)]
pub enum SocketFailure {
    /// The connection was closed.
    ConnectionClosed,
    /// The connection had been closed before.
    AlreadyClosed,
    /// Anything else, with its description.
    Other(String),
}

// *** Messages

/// What server and clients exchange.
#[derive(Debug)]
pub enum SignalingMsg {
    /// Notice that the connection is established, made by the client.
    Bound { id: EndpointId, trusted: Vec<EndpointId> },
    /// Connect request. `initiator` tells whether the sender started it. The
    /// receiver later checks that the hash in `sender` belongs to the
    /// certificate that it is shown.
    Connect { sender: EndpointId, receiver: EndpointId, initiator: bool },
    /// A session description.
    SDP { sender: EndpointId, receiver: EndpointId, sdp: SDP },
    /// A candidate.
    Candidate { sender: EndpointId, receiver: EndpointId, candidate: ICECandidate },
    /// Replaces the sender's trust list on the server, which replies with
    /// `Trusted`.
    Trust { sender: EndpointId, trusted: Vec<EndpointId> },
    /// Confirms the trust list that the server holds now.
    Trusted { id: EndpointId, trusted: Vec<EndpointId> },
    /// There is no such endpoint.
    IdNotFound { id: EndpointId, reason: String },
    /// The receiver does not trust the sender.
    Rejected { id: EndpointId, reason: String },
    /// Keeps the connection alive.
    Ping,
    /// Reply to a ping; it means nothing.
    Pong,
    /// The server gives up on an inactive client.
    Terminate { reason: String },
}

/// What a message says.
pub enum MsgView {
    /// The connection is established.
    Bound { id: Seq<char>, trusted: Seq<Seq<char>> },
    /// Connect request.
    Connect { sender: Seq<char>, receiver: Seq<char>, initiator: bool },
    /// A session description.
    SDP { sender: Seq<char>, receiver: Seq<char>, sdp: Seq<char> },
    /// A candidate.
    Candidate { sender: Seq<char>, receiver: Seq<char>, candidate: Seq<char> },
    /// Replaces the trust list.
    Trust { sender: Seq<char>, trusted: Seq<Seq<char>> },
    /// Confirms the trust list.
    Trusted { id: Seq<char>, trusted: Seq<Seq<char>> },
    /// There is no such endpoint.
    IdNotFound { id: Seq<char>, reason: Seq<char> },
    /// The receiver does not trust the sender.
    Rejected { id: Seq<char>, reason: Seq<char> },
    /// Keeps the connection alive.
    Ping,
    /// Reply to a ping.
    Pong,
    /// The server gives up.
    Terminate { reason: Seq<char> },
}

impl View for SignalingMsg {
    type V = MsgView;

    open spec fn view(&self) -> MsgView {
        match self {
            SignalingMsg::Bound { id, trusted } => MsgView::Bound {
                id: id@,
                trusted: split::texts(trusted@),
            },
            SignalingMsg::Connect { sender, receiver, initiator } => MsgView::Connect {
                sender: sender@,
                receiver: receiver@,
                initiator: *initiator,
            },
            SignalingMsg::SDP { sender, receiver, sdp } => MsgView::SDP {
                sender: sender@,
                receiver: receiver@,
                sdp: sdp@,
            },
            SignalingMsg::Candidate { sender, receiver, candidate } => MsgView::Candidate {
                sender: sender@,
                receiver: receiver@,
                candidate: candidate@,
            },
            SignalingMsg::Trust { sender, trusted } => MsgView::Trust {
                sender: sender@,
                trusted: split::texts(trusted@),
            },
            SignalingMsg::Trusted { id, trusted } => MsgView::Trusted {
                id: id@,
                trusted: split::texts(trusted@),
            },
            SignalingMsg::IdNotFound { id, reason } => MsgView::IdNotFound {
                id: id@,
                reason: reason@,
            },
            SignalingMsg::Rejected { id, reason } => MsgView::Rejected { id: id@, reason: reason@ },
            SignalingMsg::Ping => MsgView::Ping,
            SignalingMsg::Pong => MsgView::Pong,
            SignalingMsg::Terminate { reason } => MsgView::Terminate { reason: reason@ },
        }
    }
}

/// A copy of a list of texts.
pub fn clone_texts(v: &[String]) -> (r: Vec<String>)
    ensures
        r@ == v@,
{
    let mut r: Vec<String> = Vec::new();
    for i in 0..v.len()
        invariant
            r@ == v@.take(i as int),
    {
        r.push(v[i].clone());
    }
    assert(r@ =~= v@);
    r
}

impl Clone for SignalingMsg {
    fn clone(&self) -> (r: Self)
        ensures
            r@ == self@,
    {
        match self {
            SignalingMsg::Bound { id, trusted } => SignalingMsg::Bound {
                id: id.clone(),
                trusted: clone_texts(trusted),
            },
            SignalingMsg::Connect { sender, receiver, initiator } => SignalingMsg::Connect {
                sender: sender.clone(),
                receiver: receiver.clone(),
                initiator: *initiator,
            },
            SignalingMsg::SDP { sender, receiver, sdp } => SignalingMsg::SDP {
                sender: sender.clone(),
                receiver: receiver.clone(),
                sdp: sdp.clone(),
            },
            SignalingMsg::Candidate { sender, receiver, candidate } => SignalingMsg::Candidate {
                sender: sender.clone(),
                receiver: receiver.clone(),
                candidate: candidate.clone(),
            },
            SignalingMsg::Trust { sender, trusted } => SignalingMsg::Trust {
                sender: sender.clone(),
                trusted: clone_texts(trusted),
            },
            SignalingMsg::Trusted { id, trusted } => SignalingMsg::Trusted {
                id: id.clone(),
                trusted: clone_texts(trusted),
            },
            SignalingMsg::IdNotFound { id, reason } => SignalingMsg::IdNotFound {
                id: id.clone(),
                reason: reason.clone(),
            },
            SignalingMsg::Rejected { id, reason } => SignalingMsg::Rejected {
                id: id.clone(),
                reason: reason.clone(),
            },
            SignalingMsg::Ping => SignalingMsg::Ping,
            SignalingMsg::Pong => SignalingMsg::Pong,
            SignalingMsg::Terminate { reason } => SignalingMsg::Terminate {
                reason: reason.clone(),
            },
        }
    }
}

impl MsgView {
    /// Sender and receiver of a message from endpoint to endpoint.
    pub open spec fn route(self) -> Option<(Seq<char>, Seq<char>)> {
        match self {
            MsgView::Connect { sender, receiver, .. } => Some((sender, receiver)),
            MsgView::SDP { sender, receiver, .. } => Some((sender, receiver)),
            MsgView::Candidate { sender, receiver, .. } => Some((sender, receiver)),
            _ => None,
        }
    }
}

impl SignalingMsg {
    /// Sender and receiver of a message from endpoint to endpoint.
    pub fn route(&self) -> (r: Option<(EndpointId, EndpointId)>)
        ensures
            match r {
                Some((s, t)) => self@.route() == Some((s@, t@)),
                None => self@.route() is None,
            },
    {
        match self {
            SignalingMsg::Connect { sender, receiver, .. } => Some(
                (sender.clone(), receiver.clone()),
            ),
            SignalingMsg::SDP { sender, receiver, .. } => Some((sender.clone(), receiver.clone())),
            SignalingMsg::Candidate { sender, receiver, .. } => Some(
                (sender.clone(), receiver.clone()),
            ),
            _ => None,
        }
    }
}

// *** Messages written out

/// Texts in quotes, separated by a comma and a space.
pub open spec fn quoted_items(v: Seq<Seq<char>>) -> Seq<char>
    decreases v.len(),
{
    if v.len() == 0 {
        Seq::empty()
    } else if v.len() == 1 {
        text::debug_quoted(v[0])
    } else {
        quoted_items(v.drop_last()) + ", "@ + text::debug_quoted(v.last())
    }
}

fn quoted_items_text(v: &[String]) -> (r: String)
    ensures
        r@ == quoted_items(split::texts(v@)),
{
    let mut r = String::new();
    let ghost all = split::texts(v@);
    for i in 0..v.len()
        invariant
            all == split::texts(v@),
            r@ == quoted_items(all.take(i as int)),
    {
        let ghost upto = all.take(i + 1);
        assert(upto.drop_last() =~= all.take(i as int));
        if i > 0 {
            r.append(", ");
        } else {
            assert(r@ + text::debug_quoted(upto[0]) =~= text::debug_quoted(upto[0]));
        }
        r.append(text::quoted(v[i].as_str()).as_str());
    }
    assert(all.take(all.len() as int) =~= all);
    r
}

/// A variant with two fields.
pub open spec fn two_fields(
    head: Seq<char>,
    first: Seq<char>,
    middle: Seq<char>,
    second: Seq<char>,
) -> Seq<char> {
    head + first + middle + second + " }"@
}

fn two_fields_text(head: &str, first: &str, middle: &str, second: &str) -> (r: String)
    ensures
        r@ == two_fields(head@, first@, middle@, second@),
{
    let mut r = text::concat3(head, first, middle);
    r.append(second);
    r.append(" }");
    r
}

/// A variant with sender, receiver and one more field.
pub open spec fn routed_fields(
    head: Seq<char>,
    sender: Seq<char>,
    receiver: Seq<char>,
    field: Seq<char>,
    value: Seq<char>,
) -> Seq<char> {
    head + text::debug_quoted(sender) + ", receiver: "@ + text::debug_quoted(receiver) + field
        + value + " }"@
}

fn routed_fields_text(
    head: &str,
    sender: &str,
    receiver: &str,
    field: &str,
    value: &str,
) -> (r: String)
    ensures
        r@ == routed_fields(head@, sender@, receiver@, field@, value@),
{
    let mut r = text::concat3(head, text::quoted(sender).as_str(), ", receiver: ");
    r.append(text::quoted(receiver).as_str());
    r.append(field);
    r.append(value);
    r.append(" }");
    r
}

impl MsgView {
    /// The message written out with its fields.
    pub open spec fn text(self) -> Seq<char> {
        match self {
            MsgView::Bound { id, trusted } => two_fields(
                "Bound { id: "@,
                text::debug_quoted(id),
                ", trusted: ["@,
                quoted_items(trusted) + "]"@,
            ),
            MsgView::Connect { sender, receiver, initiator } => routed_fields(
                "Connect { sender: "@,
                sender,
                receiver,
                ", initiator: "@,
                if initiator {
                    "true"@
                } else {
                    "false"@
                },
            ),
            MsgView::SDP { sender, receiver, sdp } => routed_fields(
                "SDP { sender: "@,
                sender,
                receiver,
                ", sdp: "@,
                text::debug_quoted(sdp),
            ),
            MsgView::Candidate { sender, receiver, candidate } => routed_fields(
                "Candidate { sender: "@,
                sender,
                receiver,
                ", candidate: "@,
                text::debug_quoted(candidate),
            ),
            MsgView::Trust { sender, trusted } => two_fields(
                "Trust { sender: "@,
                text::debug_quoted(sender),
                ", trusted: ["@,
                quoted_items(trusted) + "]"@,
            ),
            MsgView::Trusted { id, trusted } => two_fields(
                "Trusted { id: "@,
                text::debug_quoted(id),
                ", trusted: ["@,
                quoted_items(trusted) + "]"@,
            ),
            MsgView::IdNotFound { id, reason } => two_fields(
                "IdNotFound { id: "@,
                text::debug_quoted(id),
                ", reason: "@,
                text::debug_quoted(reason),
            ),
            MsgView::Rejected { id, reason } => two_fields(
                "Rejected { id: "@,
                text::debug_quoted(id),
                ", reason: "@,
                text::debug_quoted(reason),
            ),
            MsgView::Ping => "Ping"@,
            MsgView::Pong => "Pong"@,
            MsgView::Terminate { reason } => "Terminate { reason: "@ + text::debug_quoted(reason)
                + " }"@,
        }
    }
}

fn id_and_list(head: &str, id: &str, list: &[String]) -> (r: String)
    ensures
        r@ == two_fields(
            head@,
            text::debug_quoted(id@),
            ", trusted: ["@,
            quoted_items(split::texts(list@)) + "]"@,
        ),
{
    let items = text::concat(quoted_items_text(list).as_str(), "]");
    two_fields_text(head, text::quoted(id).as_str(), ", trusted: [", items.as_str())
}

fn id_and_reason(head: &str, id: &str, reason: &str) -> (r: String)
    ensures
        r@ == two_fields(
            head@,
            text::debug_quoted(id@),
            ", reason: "@,
            text::debug_quoted(reason@),
        ),
{
    two_fields_text(head, text::quoted(id).as_str(), ", reason: ", text::quoted(reason).as_str())
}

impl SignalingMsg {
    /// Writes the message out with its fields.
    pub fn to_text(&self) -> (r: String)
        ensures
            r@ == self@.text(),
    {
        match self {
            SignalingMsg::Bound { id, trusted } => id_and_list(
                "Bound { id: ",
                id.as_str(),
                trusted,
            ),
            SignalingMsg::Connect { sender, receiver, initiator } => routed_fields_text(
                "Connect { sender: ",
                sender.as_str(),
                receiver.as_str(),
                ", initiator: ",
                if *initiator {
                    "true"
                } else {
                    "false"
                },
            ),
            SignalingMsg::SDP { sender, receiver, sdp } => routed_fields_text(
                "SDP { sender: ",
                sender.as_str(),
                receiver.as_str(),
                ", sdp: ",
                text::quoted(sdp.as_str()).as_str(),
            ),
            SignalingMsg::Candidate { sender, receiver, candidate } => routed_fields_text(
                "Candidate { sender: ",
                sender.as_str(),
                receiver.as_str(),
                ", candidate: ",
                text::quoted(candidate.as_str()).as_str(),
            ),
            SignalingMsg::Trust { sender, trusted } => id_and_list(
                "Trust { sender: ",
                sender.as_str(),
                trusted,
            ),
            SignalingMsg::Trusted { id, trusted } => id_and_list(
                "Trusted { id: ",
                id.as_str(),
                trusted,
            ),
            SignalingMsg::IdNotFound { id, reason } => id_and_reason(
                "IdNotFound { id: ",
                id.as_str(),
                reason.as_str(),
            ),
            SignalingMsg::Rejected { id, reason } => id_and_reason(
                "Rejected { id: ",
                id.as_str(),
                reason.as_str(),
            ),
            SignalingMsg::Ping => "Ping".to_owned(),
            SignalingMsg::Pong => "Pong".to_owned(),
            SignalingMsg::Terminate { reason } => text::concat3(
                "Terminate { reason: ",
                text::quoted(reason.as_str()).as_str(),
                " }",
            ),
        }
    }
}

/// Notice that no more connections are accepted, with the reason.
#[derive(Debug, PartialEq, Eq)]
pub struct AcceptStopped(pub String);

impl Clone for AcceptStopped {
    fn clone(&self) -> (r: Self)
        ensures
            r == *self,
    {
        AcceptStopped(self.0.clone())
    }
}

/// What comes out of a signaling channel: a message, or the notice that the
/// connection stopped.
#[derive(Debug)]
pub struct SignalingMessage {
    /// The server that it comes from.
    pub signaling_addr: String,
    /// The message.
    pub msg: Result<SignalingMsg, AcceptStopped>,
}

} // verus!
