//! The signaling client: how it binds to a server, what it makes of messages,
//! and when it stops.

use crate::clock;
use crate::signaling;
use crate::signaling::auth;
use crate::signaling::auth::{AuthError, AuthErrorView, KeyCert};
use crate::signaling::server;
use crate::signaling::server::BindHeaders;
use crate::signaling::{
    AcceptStopped, CommaInId, EndpointId, ICECandidate, Identity, MsgView, Signature,
    SignalingMessage, SignalingMsg, SDP,
};
use crate::split;
use crate::text;
use crate::types;
use vstd::hash_map::StringHashMap;
use vstd::prelude::*;
use vstd::string::*;

verus! {

/// Seconds between pings, below the time after which the server gives up on a
/// client.
pub const PING_INTERVAL_SECS: u64 = 540;

// *** Binding

/// What a client sends in the headers when it binds.
#[derive(Debug)]
pub struct BindPlan {
    /// The id.
    pub id: EndpointId,
    /// The identity.
    pub identity: String,
    /// The signature.
    pub signature: String,
    /// The trust list.
    pub trusted: String,
}

impl BindPlan {
    /// The headers that the server gets.
    pub open spec fn headers(self) -> BindHeaders {
        BindHeaders {
            id: Some(self.id),
            identity: Some(self.identity),
            signature: Some(self.signature),
            trusted: Some(self.trusted),
        }
    }
}

/// Why a client cannot bind.
#[derive(Debug)]
pub enum ClientBindError {
    /// The id is not that of the client's certificate.
    Hash { id_hash: String, cert_hash: String },
    /// The identity could not be signed.
    Auth(AuthError),
    /// The trust list cannot be sent.
    Trusted(CommaInId),
}

/// What an error says.
pub enum ClientBindErrorView {
    /// The id is not that of the client's certificate.
    Hash { id_hash: Seq<char>, cert_hash: Seq<char> },
    /// The identity could not be signed.
    Auth(AuthErrorView),
    /// The trust list cannot be sent.
    Trusted(Seq<char>),
}

impl View for ClientBindError {
    type V = ClientBindErrorView;

    open spec fn view(&self) -> ClientBindErrorView {
        match self {
            ClientBindError::Hash { id_hash, cert_hash } => ClientBindErrorView::Hash {
                id_hash: id_hash@,
                cert_hash: cert_hash@,
            },
            ClientBindError::Auth(e) => ClientBindErrorView::Auth(e@),
            ClientBindError::Trusted(e) => ClientBindErrorView::Trusted(e.0@),
        }
    }
}

impl ClientBindError {
    /// The message of the error.
    pub fn message(&self) -> (r: String)
        ensures
            r@ == match self@ {
                ClientBindErrorView::Hash { id_hash, cert_hash } => "Endpoint id hash "@ + id_hash
                    + " doesn't match our cert hash "@ + cert_hash,
                ClientBindErrorView::Auth(e) => e.text(),
                ClientBindErrorView::Trusted(id) => "endpoint id "@ + text::debug_quoted(id)
                    + " contains a comma; cannot encode in header"@,
            },
    {
        match self {
            ClientBindError::Hash { id_hash, cert_hash } => {
                let mut r = text::concat3(
                    "Endpoint id hash ",
                    id_hash.as_str(),
                    " doesn't match our cert hash ",
                );
                r.append(cert_hash.as_str());
                r
            },
            ClientBindError::Auth(e) => e.message(),
            ClientBindError::Trusted(e) => e.message(),
        }
    }
}

/// What a plan to bind promises: it names the id and the trust list, and the
/// server accepts it as long as it is recent, where the certificate is that of
/// the private key. A trust list of one empty id arrives as an empty one.
pub open spec fn plan_holds(
    plan: BindPlan,
    id: Seq<char>,
    key_cert: KeyCert,
    trusted: Seq<Seq<char>>,
    now: u64,
) -> bool {
    &&& plan.id@ == id
    &&& plan.trusted@ == split::join(trusted, ',')
    &&& auth::x509_key(key_cert.cert_der@) == Ok::<Seq<u8>, Seq<char>>(
        auth::pkcs8_public_key(key_cert.key_der@),
    ) && trusted != seq![Seq::<char>::empty()] ==> forall|later: u64|
        auth::recent(now, later) ==> #[trigger] server::headers_verdict(plan.headers(), later)
            == Ok::<(Seq<char>, Seq<Seq<char>>), server::BindErrorView>((id, trusted))
}

/// Whether an id is that of a certificate.
pub open spec fn id_matches(id: Seq<char>, key_cert: KeyCert) -> bool {
    types::hash_of(id) == auth::colon_hex(auth::sha256(key_cert.cert_der@))
}

/// Checks that an id is that of a certificate.
fn check_own_id(id: &EndpointId, key_cert: &KeyCert) -> (r: Result<(), ClientBindError>)
    requires
        key_cert.cert_der@.len() < auth::HASH_INPUT_LIMIT,
    ensures
        match r {
            Ok(_) => id_matches(id@, *key_cert),
            Err(e) => !id_matches(id@, *key_cert) && is_hash_error(e, id@, *key_cert),
        },
{
    let cert_hash = key_cert.cert_der_hash();
    let id_hash = types::id_hash(id.as_str());
    if text::same(id_hash, cert_hash.as_str()) {
        Ok(())
    } else {
        Err(ClientBindError::Hash { id_hash: id_hash.to_owned(), cert_hash })
    }
}

/// Whether an error names the hash of an id and that of a certificate.
pub open spec fn is_hash_error(e: ClientBindError, id: Seq<char>, key_cert: KeyCert) -> bool {
    e@ == (ClientBindErrorView::Hash {
        id_hash: types::hash_of(id),
        cert_hash: auth::colon_hex(auth::sha256(key_cert.cert_der@)),
    })
}

/// The plan to bind, given what came of signing the identity: the id, the
/// identity with its signature, and the encoded trust list.
pub fn bind_plan(
    id: &EndpointId,
    signed: Result<(Identity, Signature), AuthError>,
    trusted: &[EndpointId],
) -> (r: Result<BindPlan, ClientBindError>)
    ensures
        match signed {
            Err(e) => r == Err::<BindPlan, ClientBindError>(ClientBindError::Auth(e)),
            Ok((i, s)) => match signaling::first_with_comma(split::texts(trusted@)) {
                Some(bad) => r matches Err(ClientBindError::Trusted(e)) && e.0@ == bad,
                None => {
                    &&& r matches Ok(plan)
                    &&& plan.id@ == id@
                    &&& plan.identity@ == i.text()
                    &&& plan.signature@ == s.0@
                    &&& plan.trusted@ == split::join(split::texts(trusted@), ',')
                    &&& server::header_identity(plan.headers().identity) == Some(
                        Ok::<(nat, Seq<u8>), signaling::IdentityError>((i.timestamp as nat, i.cert@)),
                    )
                },
            },
        },
{
    match signed {
        Err(e) => Err(ClientBindError::Auth(e)),
        Ok((identity, signature)) => match signaling::encode_trusted_header(trusted) {
            Err(e) => Err(ClientBindError::Trusted(e)),
            Ok(header) => Ok(
                BindPlan {
                    id: id.clone(),
                    identity: identity.to_text(),
                    signature: signature.0,
                    trusted: header,
                },
            ),
        },
    }
}

/// Prepares to bind at the time `now`: checks that the id is that of the
/// certificate, signs an identity and encodes the trust list.
pub fn prepare_bind_at(id: &EndpointId, key_cert: &KeyCert, trusted: &[EndpointId], now: u64) -> (r:
    Result<BindPlan, ClientBindError>)
    requires
        key_cert.cert_der@.len() < auth::HASH_INPUT_LIMIT,
    ensures
        match r {
            Ok(plan) => {
                &&& id_matches(id@, *key_cert)
                &&& !auth::long_identity(now, key_cert.cert_der@)
                &&& signaling::first_with_comma(split::texts(trusted@)) is None
                &&& plan_holds(plan, id@, *key_cert, split::texts(trusted@), now)
            },
            Err(ClientBindError::Hash { .. }) => !id_matches(id@, *key_cert) && is_hash_error(
                r->Err_0,
                id@,
                *key_cert,
            ),
            Err(ClientBindError::Auth(e)) => {
                &&& id_matches(id@, *key_cert)
                &&& e is Key || e is Sign || e is TooLong
                &&& e is TooLong <==> auth::long_identity(now, key_cert.cert_der@)
            },
            Err(ClientBindError::Trusted(e)) => {
                &&& id_matches(id@, *key_cert)
                &&& !auth::long_identity(now, key_cert.cert_der@)
                &&& signaling::first_with_comma(split::texts(trusted@)) == Some(e.0@)
            },
        },
{
    match check_own_id(id, key_cert) {
        Err(e) => {
            return Err(e);
        },
        Ok(_) => {},
    }
    let signed = auth::sign_identity_at(key_cert, now);
    let ghost came = signed;
    let r = bind_plan(id, signed, trusted);
    proof {
        if r is Ok {
            let (identity, signature) = came->Ok_0;
            let ids = split::texts(trusted@);
            if ids != seq![Seq::<char>::empty()] {
                signaling::lemma_trusted_round_trip(ids);
            }
            let h = r->Ok_0.headers();
            if auth::x509_key(key_cert.cert_der@) == Ok::<Seq<u8>, Seq<char>>(
                auth::pkcs8_public_key(key_cert.key_der@),
            ) && ids != seq![Seq::<char>::empty()] {
                assert forall|later: u64|
                    auth::recent(now, later) implies #[trigger] server::headers_verdict(h, later)
                    == Ok::<(Seq<char>, Seq<Seq<char>>), server::BindErrorView>((id@, ids)) by {
                    assert(auth::identity_objection(identity, signature, later) is None);
                }
            }
        }
    }
    r
}

/// Prepares to bind at the present time.
pub fn prepare_bind(id: &EndpointId, key_cert: &KeyCert, trusted: &[EndpointId]) -> (r: Result<
    BindPlan,
    ClientBindError,
>)
    requires
        key_cert.cert_der@.len() < auth::HASH_INPUT_LIMIT,
    ensures
        match r {
            Ok(plan) => {
                &&& id_matches(id@, *key_cert)
                &&& signaling::first_with_comma(split::texts(trusted@)) is None
                &&& exists|now: u64|
                    #[trigger] plan_holds(plan, id@, *key_cert, split::texts(trusted@), now)
            },
            Err(ClientBindError::Hash { .. }) => !id_matches(id@, *key_cert) && is_hash_error(
                r->Err_0,
                id@,
                *key_cert,
            ),
            Err(ClientBindError::Auth(e)) => {
                &&& id_matches(id@, *key_cert)
                &&& e is Clock || e is Key || e is Sign || (e is TooLong && exists|now: u64|
                    #[trigger] auth::long_identity(now, key_cert.cert_der@))
            },
            Err(ClientBindError::Trusted(e)) => id_matches(id@, *key_cert)
                && signaling::first_with_comma(split::texts(trusted@)) == Some(e.0@),
        },
{
    match clock::unix_seconds() {
        Some(now) => prepare_bind_at(id, key_cert, trusted, now),
        None => match check_own_id(id, key_cert) {
            Err(e) => Err(e),
            Ok(_) => bind_plan(id, Err(AuthError::Clock), trusted),
        },
    }
}

/// A header with its value.
pub open spec fn is_header(h: (String, String), name: Seq<char>, value: Seq<char>) -> bool {
    h.0@ == name && h.1@ == value
}

fn header(name: &str, value: &str) -> (r: (String, String))
    ensures
        is_header(r, name@, value@),
{
    (name.to_owned(), value.to_owned())
}

/// Whether a character may stand in the value of a header: all but the control
/// characters of ASCII, and of these the tab.
pub open spec fn header_char(c: char) -> bool {
    c == '\t' || (c as u32 >= 32 && c as u32 != 127)
}

/// Whether a text can be the value of a header.
pub open spec fn header_value(s: Seq<char>) -> bool {
    forall|i: int| 0 <= i < s.len() ==> header_char(#[trigger] s[i])
}

/// Whether every value of a plan to bind can stand in a header.
pub open spec fn plan_sendable(plan: BindPlan) -> bool {
    &&& header_value(plan.id@)
    &&& header_value(plan.identity@)
    &&& header_value(plan.signature@)
    &&& header_value(plan.trusted@)
}

/// Tells whether a text can be the value of a header.
pub fn is_header_value(s: &str) -> (r: bool)
    ensures
        r == header_value(s@),
{
    let chars = text::to_chars(s);
    for i in 0..chars.len()
        invariant
            chars@ == s@,
            forall|j: int| 0 <= j < i ==> header_char(#[trigger] s@[j]),
    {
        let c: char = chars[i];
        if !(c == '\t' || (c as u32 >= 32 && c as u32 != 127)) {
            assert(!header_char(s@[i as int]));
            return false;
        }
    }
    true
}

/// Whether headers are those of a web socket upgrade with a host and a key,
/// followed by those of a plan to bind.
pub open spec fn asks_to_bind(
    headers: Seq<(String, String)>,
    plan: BindPlan,
    host: Seq<char>,
    websocket_key: Seq<char>,
) -> bool {
    &&& headers.len() == 9
    &&& is_header(headers[0], "Host"@, host)
    &&& is_header(headers[1], "Connection"@, "Upgrade"@)
    &&& is_header(headers[2], "Upgrade"@, "websocket"@)
    &&& is_header(headers[3], "Sec-WebSocket-Version"@, "13"@)
    &&& is_header(headers[4], "Sec-WebSocket-Key"@, websocket_key)
    &&& is_header(headers[5], signaling::BIND_HEADER_ID@, plan.id@)
    &&& is_header(headers[6], signaling::BIND_HEADER_IDENTITY@, plan.identity@)
    &&& is_header(headers[7], signaling::BIND_HEADER_SIGNATURE@, plan.signature@)
    &&& is_header(headers[8], signaling::BIND_HEADER_TRUSTED@, plan.trusted@)
}

/// What the URI parser of `http` makes of an address: nothing where it is no
/// URI, else the authority, if it has one.
pub uninterp spec fn uri_authority(addr: Seq<char>) -> Option<Option<Seq<char>>>;

/// `str::parse` into the `Uri` of `http`, as `tokio_tungstenite` exports it, then
/// `Uri::authority`: both depend on the address alone.
#[verifier::external_body]
fn parse_authority(addr: &str) -> (r: Option<Option<String>>)
    ensures
        authority_view(r) == uri_authority(addr@),
{
    match addr.parse::<tokio_tungstenite::tungstenite::http::Uri>() {
        Ok(uri) => Some(uri.authority().map(|a| a.as_str().to_string())),
        Err(_) => None,
    }
}

/// The content of a parsed authority.
pub open spec fn authority_view(a: Option<Option<String>>) -> Option<Option<Seq<char>>> {
    match a {
        Some(h) => Some(server::header_view(h)),
        None => None,
    }
}

/// Length of the key of a web socket handshake: sixteen bytes in base64.
pub const WEBSOCKET_KEY_LEN: usize = 24;

/// `generate_key` of `tungstenite` makes the key of a web socket handshake: the
/// base64 text of sixteen bytes, whose characters all may stand in a header.
/// Which one is left to chance.
#[verifier::external_body]
fn random_key() -> (r: String)
    ensures
        r@.len() == WEBSOCKET_KEY_LEN,
        header_value(r@),
{
    tokio_tungstenite::tungstenite::handshake::client::generate_key()
}

/// Why there is no request to bind.
#[derive(Debug, Clone, Copy, PartialEq, Eq, Structural)]
pub enum RequestError {
    /// The address is no URI.
    InvalidAddr,
    /// The address has no host.
    MissingHost,
    /// A value cannot stand in a header.
    InvalidValue,
}

impl RequestError {
    /// The message of the error.
    pub fn message(&self) -> (r: String)
        ensures
            r@ == match self {
                RequestError::InvalidAddr => "invalid signaling addr"@,
                RequestError::MissingHost => "signaling addr missing host"@,
                RequestError::InvalidValue => "building upgrade request"@,
            },
    {
        match self {
            RequestError::InvalidAddr => "invalid signaling addr".to_owned(),
            RequestError::MissingHost => "signaling addr missing host".to_owned(),
            RequestError::InvalidValue => "building upgrade request".to_owned(),
        }
    }
}

/// The headers of the request by which a client binds to the server at an
/// address, with a key left to chance.
pub fn build_bind_request(addr: &str, plan: &BindPlan) -> (r: Result<
    Vec<(String, String)>,
    RequestError,
>)
    ensures
        match r {
            Ok(headers) => {
                &&& uri_authority(addr@) matches Some(Some(host))
                &&& header_value(host)
                &&& plan_sendable(*plan)
                &&& exists|key: Seq<char>|
                    key.len() == WEBSOCKET_KEY_LEN && #[trigger] asks_to_bind(
                        headers@,
                        *plan,
                        host,
                        key,
                    )
            },
            Err(RequestError::InvalidAddr) => uri_authority(addr@) is None,
            Err(RequestError::MissingHost) => uri_authority(addr@) == Some(None::<Seq<char>>),
            Err(RequestError::InvalidValue) => uri_authority(addr@) matches Some(Some(host)) && !(
            header_value(host) && plan_sendable(*plan)),
        },
{
    let authority = parse_authority(addr);
    let key = random_key();
    let r = bind_request_to(authority, plan, key.as_str());
    proof {
        if r is Ok {
            assert(asks_to_bind(r->Ok_0@, *plan, uri_authority(addr@)->0->0, key@));
        }
    }
    r
}

/// The headers of the request by which a client binds, given what came of
/// parsing the address.
pub fn bind_request_to(
    authority: Option<Option<String>>,
    plan: &BindPlan,
    websocket_key: &str,
) -> (r: Result<Vec<(String, String)>, RequestError>)
    ensures
        match authority {
            None => r == Err::<Vec<(String, String)>, RequestError>(RequestError::InvalidAddr),
            Some(None) => r == Err::<Vec<(String, String)>, RequestError>(
                RequestError::MissingHost,
            ),
            Some(Some(host)) => if header_value(host@) && header_value(websocket_key@)
                && plan_sendable(*plan) {
                r matches Ok(headers) && asks_to_bind(headers@, *plan, host@, websocket_key@)
            } else {
                r == Err::<Vec<(String, String)>, RequestError>(RequestError::InvalidValue)
            },
        },
{
    match authority {
        None => Err(RequestError::InvalidAddr),
        Some(None) => Err(RequestError::MissingHost),
        Some(Some(host)) => {
            let sendable = is_header_value(host.as_str()) && is_header_value(websocket_key)
                && is_header_value(plan.id.as_str()) && is_header_value(plan.identity.as_str())
                && is_header_value(plan.signature.as_str()) && is_header_value(
                plan.trusted.as_str(),
            );
            if sendable {
                Ok(bind_headers(plan, host.as_str(), websocket_key))
            } else {
                Err(RequestError::InvalidValue)
            }
        },
    }
}

fn bind_headers(plan: &BindPlan, host: &str, websocket_key: &str) -> (r: Vec<(String, String)>)
    ensures
        asks_to_bind(r@, *plan, host@, websocket_key@),
{
    let mut r: Vec<(String, String)> = Vec::new();
    r.push(header("Host", host));
    r.push(header("Connection", "Upgrade"));
    r.push(header("Upgrade", "websocket"));
    r.push(header("Sec-WebSocket-Version", "13"));
    r.push(header("Sec-WebSocket-Key", websocket_key));
    r.push(header(signaling::BIND_HEADER_ID, plan.id.as_str()));
    r.push(header(signaling::BIND_HEADER_IDENTITY, plan.identity.as_str()));
    r.push(header(signaling::BIND_HEADER_SIGNATURE, plan.signature.as_str()));
    r.push(header(signaling::BIND_HEADER_TRUSTED, plan.trusted.as_str()));
    r
}

/// The notice that a client is bound.
pub fn bound_notice(addr: &str, id: &EndpointId, trusted: &[EndpointId]) -> (r: SignalingMessage)
    ensures
        r.signaling_addr@ == addr@,
        r.msg matches Ok(m) && m@ == (MsgView::Bound {
            id: id@,
            trusted: split::texts(trusted@),
        }),
{
    SignalingMessage {
        signaling_addr: addr.to_owned(),
        msg: Ok(
            SignalingMsg::Bound { id: id.clone(), trusted: signaling::clone_texts(trusted) },
        ),
    }
}

// *** Socks

/// One end of an exchange with a peer through the server.
#[derive(Debug)]
pub struct Sock {
    my_id: EndpointId,
    peer_id: EndpointId,
}

/// Makes messages with candidates without holding on to a sock.
#[derive(Debug)]
pub struct CandidateSender {
    my_id: EndpointId,
    peer_id: EndpointId,
}

impl Sock {
    /// The endpoint of this side.
    pub closed spec fn me(&self) -> Seq<char> {
        self.my_id@
    }

    /// The endpoint of the other side.
    pub closed spec fn peer(&self) -> Seq<char> {
        self.peer_id@
    }

    /// A sock between two endpoints.
    pub fn new(my_id: EndpointId, peer_id: EndpointId) -> (r: Sock)
        ensures
            r.me() == my_id@,
            r.peer() == peer_id@,
    {
        Sock { my_id, peer_id }
    }

    /// The message that brings a session description to the peer.
    pub fn send_sdp(&self, sdp: SDP) -> (r: SignalingMsg)
        ensures
            r@ == (MsgView::SDP { sender: self.me(), receiver: self.peer(), sdp: sdp@ }),
    {
        SignalingMsg::SDP { sender: self.my_id.clone(), receiver: self.peer_id.clone(), sdp }
    }

    /// The message that brings a candidate to the peer.
    pub fn send_candidate(&self, candidate: ICECandidate) -> (r: SignalingMsg)
        ensures
            r@ == (MsgView::Candidate {
                sender: self.me(),
                receiver: self.peer(),
                candidate: candidate@,
            }),
    {
        SignalingMsg::Candidate {
            sender: self.my_id.clone(),
            receiver: self.peer_id.clone(),
            candidate,
        }
    }

    /// The id of the peer.
    pub fn id(&self) -> (r: &str)
        ensures
            r@ == self.peer(),
    {
        self.peer_id.as_str()
    }

    /// The hash of the peer's certificate, which is a part of its id.
    pub fn cert_hash(&self) -> (r: &str)
        ensures
            r@ == types::hash_of(self.peer()),
    {
        types::id_hash(self.peer_id.as_str())
    }

    /// A sender of candidates for this sock.
    pub fn candidate_sender(&self) -> (r: CandidateSender)
        ensures
            r.me() == self.me(),
            r.peer() == self.peer(),
    {
        CandidateSender { my_id: self.my_id.clone(), peer_id: self.peer_id.clone() }
    }
}

impl CandidateSender {
    /// The endpoint of this side.
    pub closed spec fn me(&self) -> Seq<char> {
        self.my_id@
    }

    /// The endpoint of the other side.
    pub closed spec fn peer(&self) -> Seq<char> {
        self.peer_id@
    }

    /// The message that brings a candidate to the peer.
    pub fn send_candidate(&self, candidate: ICECandidate) -> (r: SignalingMsg)
        ensures
            r@ == (MsgView::Candidate {
                sender: self.me(),
                receiver: self.peer(),
                candidate: candidate@,
            }),
    {
        SignalingMsg::Candidate {
            sender: self.my_id.clone(),
            receiver: self.peer_id.clone(),
            candidate,
        }
    }
}

// *** The client at work

/// What arrives from the server.
#[derive(Debug)]
pub enum Frame {
    /// A message.
    Msg(SignalingMsg),
    /// A text that is no message, with the description of the error.
    Unreadable(String),
    /// The server closes the connection.
    Close,
    /// Anything else.
    Other,
}

/// What happens to a client.
pub enum ClientEvent {
    /// It is time for a ping.
    PingDue,
    /// A ping could not be sent.
    PingFailed(String),
    /// Something arrived.
    Received(Frame),
    /// The socket failed.
    SocketError(String),
    /// The stream ended.
    StreamClosed,
    /// A message is to be sent.
    Send(SignalingMsg),
    /// A message could not be sent.
    SendFailed(String),
    /// A sock for a peer is wanted; its channels have the given number.
    CreateSock { peer: EndpointId, channel: u64 },
    /// A sock is no longer wanted.
    RemoveSock { peer: EndpointId },
    /// Nobody can give commands any more.
    CommandsClosed,
    /// Nobody can send messages any more.
    OutgoingClosed,
    /// The client is told to stop.
    Shutdown,
}

/// What is handed to a sock.
#[derive(Debug)]
pub enum Payload {
    /// A session description.
    SDP(SDP),
    /// A candidate.
    Candidate(ICECandidate),
}

/// What a client does.
pub enum ClientAction {
    /// Nothing.
    Quiet,
    /// Sends a message to the server.
    Send(SignalingMsg),
    /// Hands a message to whoever runs the client.
    Report(SignalingMessage),
    /// Hands a payload to the channels of a sock.
    Deliver { channel: u64, payload: Payload },
    /// Hands out a sock.
    Ready(Sock),
    /// Stops, and hands the reason to whoever runs the client.
    Stop(SignalingMessage),
}

/// What is handed to a sock.
pub enum PayloadView {
    /// A session description.
    SDP(Seq<char>),
    /// A candidate.
    Candidate(Seq<char>),
}

/// What a client does.
pub enum ClientActionView {
    /// Nothing.
    Quiet,
    /// Sends a message to the server.
    Send(MsgView),
    /// Hands on a message from the server at an address.
    Report { addr: Seq<char>, msg: MsgView },
    /// Hands a payload to the channels of a sock.
    Deliver { channel: u64, payload: PayloadView },
    /// Hands out a sock.
    Ready { me: Seq<char>, peer: Seq<char> },
    /// Stops for a reason.
    Stop { addr: Seq<char>, reason: Seq<char> },
}

impl View for Payload {
    type V = PayloadView;

    open spec fn view(&self) -> PayloadView {
        match self {
            Payload::SDP(s) => PayloadView::SDP(s@),
            Payload::Candidate(s) => PayloadView::Candidate(s@),
        }
    }
}

impl ClientAction {
    /// Whether the action is the one described.
    pub open spec fn is_like(&self, v: ClientActionView) -> bool {
        match (self, v) {
            (ClientAction::Quiet, ClientActionView::Quiet) => true,
            (ClientAction::Send(m), ClientActionView::Send(n)) => m@ == n,
            (ClientAction::Report(m), ClientActionView::Report { addr, msg }) => {
                &&& m.signaling_addr@ == addr
                &&& m.msg matches Ok(n) && n@ == msg
            },
            (
                ClientAction::Deliver { channel, payload },
                ClientActionView::Deliver { channel: c, payload: p },
            ) => *channel == c && payload@ == p,
            (ClientAction::Ready(s), ClientActionView::Ready { me, peer }) => s.me() == me
                && s.peer() == peer,
            (ClientAction::Stop(m), ClientActionView::Stop { addr, reason }) => {
                &&& m.signaling_addr@ == addr
                &&& m.msg matches Err(e) && e.0@ == reason
            },
            _ => false,
        }
    }
}

/// A client that is bound to a server.
pub struct SignalingClient {
    id: EndpointId,
    addr: String,
    socks: StringHashMap<u64>,
}

/// What a client knows.
#[verifier::ext_equal]
pub struct ClientView {
    /// Its id.
    pub id: Seq<char>,
    /// The address of the server.
    pub addr: Seq<char>,
    /// The channels of its socks, by peer.
    pub socks: Map<Seq<char>, u64>,
}

impl View for SignalingClient {
    type V = ClientView;

    closed spec fn view(&self) -> ClientView {
        ClientView { id: self.id@, addr: self.addr@, socks: self.socks@ }
    }
}

impl ClientView {
    /// The client once it stops for a reason: it has no socks any more.
    pub open spec fn stopped(self, reason: Seq<char>) -> (ClientView, ClientActionView) {
        (
            ClientView { socks: Map::empty(), ..self },
            ClientActionView::Stop { addr: self.addr, reason },
        )
    }

    /// Hands a payload from a peer to its sock; where there is none it is
    /// dropped.
    pub open spec fn delivered(self, peer: Seq<char>, payload: PayloadView) -> ClientActionView {
        if self.socks.contains_key(peer) {
            ClientActionView::Deliver { channel: self.socks[peer], payload }
        } else {
            ClientActionView::Quiet
        }
    }

    /// What the client makes of a message from the server.
    pub open spec fn incoming(self, msg: MsgView) -> ClientActionView {
        match msg {
            MsgView::Trusted { .. } => ClientActionView::Report { addr: self.addr, msg },
            MsgView::Connect { .. } => ClientActionView::Report { addr: self.addr, msg },
            MsgView::IdNotFound { .. } => ClientActionView::Report { addr: self.addr, msg },
            MsgView::Rejected { .. } => ClientActionView::Report { addr: self.addr, msg },
            MsgView::SDP { sender, sdp, .. } => self.delivered(sender, PayloadView::SDP(sdp)),
            MsgView::Candidate { sender, candidate, .. } => self.delivered(
                sender,
                PayloadView::Candidate(candidate),
            ),
            _ => ClientActionView::Quiet,
        }
    }

    /// What the client does about an event.
    pub open spec fn after(self, event: ClientEvent) -> (ClientView, ClientActionView) {
        match event {
            ClientEvent::PingDue => (self, ClientActionView::Send(MsgView::Ping)),
            ClientEvent::PingFailed(e) => self.stopped("Failed to send ping: "@ + e@),
            ClientEvent::Received(Frame::Msg(m)) => (self, self.incoming(m@)),
            ClientEvent::Received(Frame::Unreadable(e)) => self.stopped("Parse error: "@ + e@),
            ClientEvent::Received(Frame::Close) => self.stopped(
                "Signaling server closed connection"@,
            ),
            ClientEvent::Received(Frame::Other) => (self, ClientActionView::Quiet),
            ClientEvent::SocketError(e) => self.stopped("Websocket error: "@ + e@),
            ClientEvent::StreamClosed => self.stopped("Websocket stream closed"@),
            ClientEvent::Send(m) => (self, ClientActionView::Send(m@)),
            ClientEvent::SendFailed(e) => self.stopped("Send error: "@ + e@),
            ClientEvent::CreateSock { peer, channel } => (
                ClientView { socks: self.socks.insert(peer@, channel), ..self },
                ClientActionView::Ready { me: self.id, peer: peer@ },
            ),
            ClientEvent::RemoveSock { peer } => (
                ClientView { socks: self.socks.remove(peer@), ..self },
                ClientActionView::Quiet,
            ),
            ClientEvent::CommandsClosed => self.stopped("Command channel closed"@),
            ClientEvent::OutgoingClosed => self.stopped("Outgoing message channel closed"@),
            ClientEvent::Shutdown => self.stopped(""@),
        }
    }
}

impl SignalingClient {
    /// A client without socks.
    pub fn new(id: EndpointId, addr: String) -> (r: SignalingClient)
        ensures
            r@ == (ClientView { id: id@, addr: addr@, socks: Map::empty() }),
    {
        SignalingClient { id, addr, socks: StringHashMap::new() }
    }

    fn stop(&mut self, reason: String) -> (r: ClientAction)
        ensures
            final(self)@ == old(self)@.stopped(reason@).0,
            r.is_like(old(self)@.stopped(reason@).1),
    {
        self.socks.clear();
        ClientAction::Stop(
            SignalingMessage { signaling_addr: self.addr.clone(), msg: Err(AcceptStopped(reason)) },
        )
    }

    fn deliver(&self, peer: &EndpointId, payload: Payload) -> (r: ClientAction)
        ensures
            r.is_like(self@.delivered(peer@, payload@)),
    {
        match self.socks.get(peer.as_str()) {
            Some(channel) => ClientAction::Deliver { channel: *channel, payload },
            None => ClientAction::Quiet,
        }
    }

    /// Decides where a message from the server goes: to whoever runs the
    /// client, or to the sock for its sender.
    pub fn handle_incoming_message(&self, msg: SignalingMsg) -> (r: ClientAction)
        ensures
            r.is_like(self@.incoming(msg@)),
    {
        let report = match &msg {
            SignalingMsg::Trusted { .. } => true,
            SignalingMsg::Connect { .. } => true,
            SignalingMsg::IdNotFound { .. } => true,
            SignalingMsg::Rejected { .. } => true,
            _ => false,
        };
        if report {
            return ClientAction::Report(
                SignalingMessage { signaling_addr: self.addr.clone(), msg: Ok(msg) },
            );
        }
        match msg {
            SignalingMsg::SDP { sender, sdp, .. } => self.deliver(&sender, Payload::SDP(sdp)),
            SignalingMsg::Candidate { sender, candidate, .. } => self.deliver(
                &sender,
                Payload::Candidate(candidate),
            ),
            _ => ClientAction::Quiet,
        }
    }

    /// Decides what to do about an event.
    pub fn step(&mut self, event: ClientEvent) -> (r: ClientAction)
        ensures
            final(self)@ == old(self)@.after(event).0,
            r.is_like(old(self)@.after(event).1),
    {
        match event {
            ClientEvent::PingDue => ClientAction::Send(SignalingMsg::Ping),
            ClientEvent::PingFailed(e) => self.stop(
                text::concat("Failed to send ping: ", e.as_str()),
            ),
            ClientEvent::Received(Frame::Msg(m)) => self.handle_incoming_message(m),
            ClientEvent::Received(Frame::Unreadable(e)) => self.stop(
                text::concat("Parse error: ", e.as_str()),
            ),
            ClientEvent::Received(Frame::Close) => self.stop(
                "Signaling server closed connection".to_owned(),
            ),
            ClientEvent::Received(Frame::Other) => ClientAction::Quiet,
            ClientEvent::SocketError(e) => self.stop(
                text::concat("Websocket error: ", e.as_str()),
            ),
            ClientEvent::StreamClosed => self.stop("Websocket stream closed".to_owned()),
            ClientEvent::Send(m) => ClientAction::Send(m),
            ClientEvent::SendFailed(e) => self.stop(text::concat("Send error: ", e.as_str())),
            ClientEvent::CreateSock { peer, channel } => {
                self.socks.insert(peer.clone(), channel);
                ClientAction::Ready(Sock::new(self.id.clone(), peer))
            },
            ClientEvent::RemoveSock { peer } => {
                self.socks.remove(peer.as_str());
                ClientAction::Quiet
            },
            ClientEvent::CommandsClosed => self.stop("Command channel closed".to_owned()),
            ClientEvent::OutgoingClosed => self.stop("Outgoing message channel closed".to_owned()),
            ClientEvent::Shutdown => self.stop("".to_owned()),
        }
    }
}

/// What a peer sends through a sock reaches the sock made last for that peer, and
/// nothing else does: what others send goes where it went before.
pub proof fn lemma_sock_gets_payload(
    c: ClientView,
    peer: EndpointId,
    channel: u64,
    sender: Seq<char>,
    receiver: Seq<char>,
    content: Seq<char>,
)
    ensures
        ({
            let ready = c.after(ClientEvent::CreateSock { peer, channel }).0;
            let sdp = MsgView::SDP { sender, receiver, sdp: content };
            let candidate = MsgView::Candidate { sender, receiver, candidate: content };
            if sender == peer@ {
                &&& ready.incoming(sdp) == (ClientActionView::Deliver {
                    channel,
                    payload: PayloadView::SDP(content),
                })
                &&& ready.incoming(candidate) == (ClientActionView::Deliver {
                    channel,
                    payload: PayloadView::Candidate(content),
                })
            } else {
                &&& ready.incoming(sdp) == c.incoming(sdp)
                &&& ready.incoming(candidate) == c.incoming(candidate)
            }
        }),
{
}

/// A client that stopped delivers nothing to socks any more.
pub proof fn lemma_stopped_delivers_nothing(c: ClientView, reason: Seq<char>, msg: MsgView)
    ensures
        !(c.stopped(reason).0.incoming(msg) is Deliver),
{
}

/// A client that pings on time is not given up for inactivity.
pub proof fn lemma_ping_keeps_alive(elapsed_nanos: nat, now: nat, last_ping: nat)
    requires
        last_ping <= now <= last_ping + PING_INTERVAL_SECS,
        elapsed_nanos <= server::MAX_CONNECTION_LIFETIME_SECS * 1_000_000_000,
    ensures
        server::close_reason(elapsed_nanos, now, last_ping) is None,
{
}

// *** Channels

/// The clients, one for each server address.
pub struct SignalingChannel {
    clients: StringHashMap<u64>,
}

impl View for SignalingChannel {
    type V = Map<Seq<char>, u64>;

    closed spec fn view(&self) -> Map<Seq<char>, u64> {
        self.clients@
    }
}

/// Why a client cannot be used.
#[derive(Debug, PartialEq, Eq)]
pub enum ClientGone {
    /// The client for an address takes no commands any more.
    Closed(String),
    /// The client for an address went away before it answered.
    Dropped(String),
    /// The client of a sock takes no messages any more.
    SockClosed,
    /// No session description will come through a sock any more.
    SdpClosed,
}

impl ClientGone {
    /// The message of the error.
    pub fn message(&self) -> (r: String)
        ensures
            r@ == match self {
                ClientGone::Closed(addr) => "Signaling client "@ + addr@ + " channel closed"@,
                ClientGone::Dropped(addr) => "Signaling client "@ + addr@
                    + " dropped before reply"@,
                ClientGone::SockClosed => "Signaling channel closed"@,
                ClientGone::SdpClosed => "SDP channel closed"@,
            },
    {
        match self {
            ClientGone::Closed(addr) => text::concat3(
                "Signaling client ",
                addr.as_str(),
                " channel closed",
            ),
            ClientGone::Dropped(addr) => text::concat3(
                "Signaling client ",
                addr.as_str(),
                " dropped before reply",
            ),
            ClientGone::SockClosed => "Signaling channel closed".to_owned(),
            ClientGone::SdpClosed => "SDP channel closed".to_owned(),
        }
    }
}

/// There is no client for an address.
#[derive(Debug, PartialEq, Eq)]
pub struct NoClient(pub String);

impl NoClient {
    /// The message of the error.
    pub fn message(&self) -> (r: String)
        ensures
            r@ == "No signaling client for address "@ + self.0@,
    {
        text::concat("No signaling client for address ", self.0.as_str())
    }
}

impl SignalingChannel {
    /// No clients.
    pub fn new() -> (r: SignalingChannel)
        ensures
            r@ == Map::<Seq<char>, u64>::empty(),
    {
        SignalingChannel { clients: StringHashMap::new() }
    }

    /// Whether a client has to be made to bind to an address: there is at most
    /// one for each.
    pub fn needs_client(&self, addr: &str) -> (r: bool)
        ensures
            r == !self@.contains_key(addr@),
    {
        !self.clients.contains_key(addr)
    }

    /// Adds the client for an address.
    pub fn add_client(&mut self, addr: String, client: u64)
        ensures
            final(self)@ == old(self)@.insert(addr@, client),
    {
        self.clients.insert(addr, client);
    }

    /// The client for an address.
    pub fn client_for(&self, addr: &str) -> (r: Result<u64, NoClient>)
        ensures
            match r {
                Ok(client) => self@.contains_key(addr@) && self@[addr@] == client,
                Err(e) => !self@.contains_key(addr@) && e.0@ == addr@,
            },
    {
        match self.clients.get(addr) {
            Some(client) => Ok(*client),
            None => Err(NoClient(addr.to_owned())),
        }
    }

    /// Removes the client for an address, and returns it.
    pub fn remove(&mut self, addr: &str) -> (r: Option<u64>)
        ensures
            final(self)@ == old(self)@.remove(addr@),
            match r {
                Some(client) => old(self)@.contains_key(addr@) && old(self)@[addr@] == client,
                None => !old(self)@.contains_key(addr@),
            },
    {
        let client = match self.clients.get(addr) {
            Some(client) => Some(*client),
            None => None,
        };
        self.clients.remove(addr);
        client
    }
}

/// A channel for a mode in which signaling is never used: everything fails.
pub struct NoopSignalingChannel;

impl NoopSignalingChannel {
    /// Never binds.
    pub fn bind(
        &mut self,
        _addr: String,
        _id: EndpointId,
        _key_cert: &KeyCert,
        _trusted: Vec<EndpointId>,
    ) -> (r: Result<(), String>)
        ensures
            r matches Err(e) && e@ == "Envoy mode shouldn\u{2019}t use signaling"@,
    {
        Err("Envoy mode shouldn\u{2019}t use signaling".to_owned())
    }

    /// Never sends.
    pub fn send(&self, _signaling_addr: &str, _msg: SignalingMsg) -> (r: Result<(), String>)
        ensures
            r matches Err(e) && e@ == "envoy mode: signaling unused"@,
    {
        Err("envoy mode: signaling unused".to_owned())
    }

    /// Never makes a sock.
    pub fn create_sock(&self, _signaling_addr: &str, _peer_id: EndpointId) -> (r: Result<
        Sock,
        String,
    >)
        ensures
            r matches Err(e) && e@ == "Envoy mode shouldn\u{2019}t use signaling"@,
    {
        Err("Envoy mode shouldn\u{2019}t use signaling".to_owned())
    }

    /// There is nothing to remove.
    pub fn remove(&mut self, _signaling_addr: &str)
        ensures
            *final(self) == *old(self),
    {
    }
}

} // verus!
