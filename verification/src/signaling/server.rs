//! The signaling server. It keeps a map from endpoint ids to the channels that
//! lead to them; serving requests mostly means adding entries to the map and
//! relaying messages to the endpoint with the target id.
//!
//! A client that binds to an id has to prove that it owns the key of the
//! certificate whose hash is a part of the id. This keeps one endpoint from
//! passing itself off as another; endpoints check each other's certificates
//! again when they connect.

use crate::clock;
use crate::number;
use crate::signaling;
use crate::signaling::auth;
use crate::signaling::auth::{AuthError, AuthErrorView};
use crate::signaling::{
    EndpointId, Identity, IdentityError, MsgView, SignalingMsg, Signature, BIND_HEADER_ID,
    BIND_HEADER_IDENTITY, BIND_HEADER_SIGNATURE, BIND_HEADER_TRUSTED,
};
use crate::split;
use crate::text;
use crate::types;
use vstd::hash_map::StringHashMap;
use vstd::hash_set::StringHashSet;
use vstd::prelude::*;
use vstd::string::*;

verus! {

/// Longest life of a connection in seconds. After this the client has to bind
/// again, which forces a new proof of identity.
pub const MAX_CONNECTION_LIFETIME_SECS: u64 = 43200;

/// After how many seconds without a ping a connection is given up.
pub const INACTIVE_TIMEOUT_SECS: u64 = 600;

// *** Endpoints

/// What the server knows of an endpoint.
pub struct EndpointInfo {
    /// Number of the channel that leads to the endpoint.
    pub channel: u64,
    /// The endpoints that may send to this one.
    pub trusted: StringHashSet,
}

/// What the server knows of an endpoint.
pub struct EndpointView {
    /// Number of the channel that leads to the endpoint.
    pub channel: u64,
    /// The endpoints that may send to this one.
    pub trusted: Set<Seq<char>>,
}

impl View for EndpointInfo {
    type V = EndpointView;

    open spec fn view(&self) -> EndpointView {
        EndpointView { channel: self.channel, trusted: self.trusted@ }
    }
}

/// The signaling server.
pub struct Server {
    endpoint_map: StringHashMap<EndpointInfo>,
}

impl View for Server {
    type V = Map<Seq<char>, EndpointView>;

    closed spec fn view(&self) -> Map<Seq<char>, EndpointView> {
        self.endpoint_map@.map_values(|info: EndpointInfo| info@)
    }
}

/// The ids in a list, as a set.
pub open spec fn id_set(ids: Seq<Seq<char>>) -> Set<Seq<char>> {
    ids.to_set()
}

/// Makes a set of the ids in a list.
pub fn collect(ids: &[EndpointId]) -> (r: StringHashSet)
    ensures
        r@ == id_set(split::texts(ids@)),
{
    let mut r = StringHashSet::new();
    let ghost all = split::texts(ids@);
    assert(all.take(0).to_set() =~= Set::<Seq<char>>::empty());
    for i in 0..ids.len()
        invariant
            all == split::texts(ids@),
            r@ == all.take(i as int).to_set(),
    {
        let ghost before = r@;
        r.insert(ids[i].clone());
        proof {
            let next = all.take(i + 1);
            assert(next.to_set() =~= before.insert(all[i as int])) by {
                assert forall|x: Seq<char>| next.contains(x) implies before.insert(
                    all[i as int],
                ).contains(x) by {
                    let j = choose|j: int| 0 <= j < next.len() && next[j] == x;
                    if j < i {
                        assert(all.take(i as int)[j] == x);
                    }
                }
                assert forall|x: Seq<char>| before.insert(all[i as int]).contains(x) implies next.contains(
                    x,
                ) by {
                    if x == all[i as int] {
                        assert(next[i as int] == x);
                    } else {
                        let j = choose|j: int|
                            0 <= j < all.take(i as int).len() && all.take(i as int)[j] == x;
                        assert(next[j] == x);
                    }
                }
            }
        }
    }
    assert(all.take(all.len() as int) =~= all);
    r
}

impl Server {
    /// A server without endpoints.
    pub fn new() -> (r: Server)
        ensures
            r@ == Map::<Seq<char>, EndpointView>::empty(),
    {
        let r = Server { endpoint_map: StringHashMap::new() };
        assert(r@ =~= Map::<Seq<char>, EndpointView>::empty());
        r
    }

    /// Registers an endpoint. An earlier entry is replaced: the client has
    /// proved that it is the same one.
    pub fn bind(&mut self, id: EndpointId, channel: u64, trusted: &[EndpointId])
        ensures
            final(self)@ == old(self)@.insert(
                id@,
                EndpointView { channel, trusted: id_set(split::texts(trusted@)) },
            ),
    {
        let info = EndpointInfo { channel, trusted: collect(trusted) };
        let ghost (gid, ginfo) = (id@, info@);
        self.endpoint_map.insert(id, info);
        assert(self@ =~= old(self)@.insert(gid, ginfo));
    }

    /// Replaces the trust list of an endpoint. Nothing happens where the id is
    /// not bound.
    pub fn update_trust(&mut self, id: &EndpointId, trusted: &[EndpointId])
        ensures
            final(self)@ == if old(self)@.contains_key(id@) {
                old(self)@.insert(
                    id@,
                    EndpointView {
                        channel: old(self)@[id@].channel,
                        trusted: id_set(split::texts(trusted@)),
                    },
                )
            } else {
                old(self)@
            },
    {
        let channel: u64 = match self.endpoint_map.get(id.as_str()) {
            Some(info) => info.channel,
            None => {
                return;
            },
        };
        self.bind(id.clone(), channel, trusted);
    }

    /// Removes the entry of an endpoint.
    pub fn remove_endpoint(&mut self, id: &EndpointId)
        ensures
            final(self)@ == old(self)@.remove(id@),
    {
        self.endpoint_map.remove(id.as_str());
        assert(self@ =~= old(self)@.remove(id@));
    }

    /// What is known of an endpoint.
    pub fn get_endpoint_info(&self, id: &EndpointId) -> (r: Option<&EndpointInfo>)
        ensures
            match r {
                Some(info) => self@.contains_key(id@) && self@[id@] == info@,
                None => !self@.contains_key(id@),
            },
    {
        self.endpoint_map.get(id.as_str())
    }
}

// *** Binding

/// The values of the headers by which a client binds, as far as they are there
/// and are texts.
pub struct BindHeaders {
    /// The id.
    pub id: Option<String>,
    /// The identity.
    pub identity: Option<String>,
    /// The signature.
    pub signature: Option<String>,
    /// The trust list.
    pub trusted: Option<String>,
}

/// Why a client may not bind.
#[derive(Debug, Clone, PartialEq, Eq)]
pub enum BindError {
    /// A header is missing.
    Missing(String),
    /// The identity cannot be read.
    Identity(IdentityError),
    /// The identity was not accepted.
    Verify(AuthError),
    /// The id is not that of the certificate.
    Hash { id_hash: String, cert_hash: String },
}

/// What an error says.
pub enum BindErrorView {
    /// A header is missing.
    Missing(Seq<char>),
    /// The identity cannot be read.
    Identity(IdentityError),
    /// The identity was not accepted.
    Verify(AuthErrorView),
    /// The id is not that of the certificate.
    Hash { id_hash: Seq<char>, cert_hash: Seq<char> },
}

impl View for BindError {
    type V = BindErrorView;

    open spec fn view(&self) -> BindErrorView {
        match self {
            BindError::Missing(name) => BindErrorView::Missing(name@),
            BindError::Identity(e) => BindErrorView::Identity(*e),
            BindError::Verify(e) => BindErrorView::Verify(e@),
            BindError::Hash { id_hash, cert_hash } => BindErrorView::Hash {
                id_hash: id_hash@,
                cert_hash: cert_hash@,
            },
        }
    }
}

impl BindErrorView {
    /// The message of the error.
    pub open spec fn text(self) -> Seq<char> {
        match self {
            BindErrorView::Missing(name) => "missing "@ + name,
            BindErrorView::Identity(e) => BIND_HEADER_IDENTITY@ + ": "@ + e.text(),
            BindErrorView::Verify(e) => "identity verify: "@ + e.text(),
            BindErrorView::Hash { id_hash, cert_hash } => "bind id hash "@ + id_hash
                + " != cert hash "@ + cert_hash,
        }
    }
}

impl BindError {
    /// The message of the error.
    pub fn message(&self) -> (r: String)
        ensures
            r@ == self@.text(),
    {
        match self {
            BindError::Missing(name) => text::concat("missing ", name.as_str()),
            BindError::Identity(e) => text::concat3(
                BIND_HEADER_IDENTITY,
                ": ",
                e.message().as_str(),
            ),
            BindError::Verify(e) => text::concat("identity verify: ", e.message().as_str()),
            BindError::Hash { id_hash, cert_hash } => {
                let mut r = text::concat3("bind id hash ", id_hash.as_str(), " != cert hash ");
                r.append(cert_hash.as_str());
                r
            },
        }
    }
}

/// The content of an optional header.
pub open spec fn header_view(h: Option<String>) -> Option<Seq<char>> {
    match h {
        Some(s) => Some(s@),
        None => None,
    }
}

/// Takes a header, or names it as missing.
pub fn header_str(header: &Option<String>, name: &str) -> (r: Result<String, BindError>)
    ensures
        match r {
            Ok(s) => header_view(*header) == Some(s@),
            Err(e) => header is None && e@ == BindErrorView::Missing(name@),
        },
{
    match header {
        Some(s) => Ok(s.clone()),
        None => Err(BindError::Missing(name.to_owned())),
    }
}

/// Whether a client may bind, given what its headers hold, what its identity
/// reads as, and what was found out about it: the id and the trust list, or the
/// first objection.
pub open spec fn bind_verdict(
    id: Option<Seq<char>>,
    identity: Option<Result<(nat, Seq<u8>), IdentityError>>,
    signature: Option<Seq<char>>,
    trusted: Option<Seq<char>>,
    verified: Result<Seq<char>, AuthErrorView>,
) -> Result<(Seq<char>, Seq<Seq<char>>), BindErrorView> {
    if id is None {
        Err(BindErrorView::Missing(BIND_HEADER_ID@))
    } else if identity is None {
        Err(BindErrorView::Missing(BIND_HEADER_IDENTITY@))
    } else if identity->0 is Err {
        Err(BindErrorView::Identity(identity->0->Err_0))
    } else if signature is None {
        Err(BindErrorView::Missing(BIND_HEADER_SIGNATURE@))
    } else if trusted is None {
        Err(BindErrorView::Missing(BIND_HEADER_TRUSTED@))
    } else {
        match verified {
            Err(e) => Err(BindErrorView::Verify(e)),
            Ok(cert_hash) => if types::hash_of(id->0) != cert_hash {
                Err(BindErrorView::Hash { id_hash: types::hash_of(id->0), cert_hash })
            } else {
                Ok((id->0, signaling::trusted_of(trusted->0)))
            },
        }
    }
}

/// What a header's identity reads as.
pub open spec fn header_identity(h: Option<String>) -> Option<
    Result<(nat, Seq<u8>), IdentityError>,
> {
    match h {
        Some(s) => Some(
            signaling::identity_of(s@, |t: Seq<char>| signaling::b64_decoded(t)),
        ),
        None => None,
    }
}

/// What is found out about the identity of the headers at a time.
pub open spec fn header_verified(h: BindHeaders, now: u64) -> Result<Seq<char>, AuthErrorView> {
    let (timestamp, cert) = header_identity(h.identity)->0->Ok_0;
    let objection = auth::objection(
        timestamp as u64,
        now,
        signaling::b64_decoded(h.signature->0@),
        auth::x509_key(cert),
        auth::long_identity(timestamp as u64, cert),
        auth::vouched_parts(timestamp as u64, cert, h.signature->0@),
    );
    match objection {
        Some(e) => Err(e),
        None => Ok(auth::colon_hex(auth::sha256(cert))),
    }
}

/// Whether a client with these headers may bind at a time.
pub open spec fn headers_verdict(h: BindHeaders, now: u64) -> Result<
    (Seq<char>, Seq<Seq<char>>),
    BindErrorView,
> {
    bind_verdict(
        header_view(h.id),
        header_identity(h.identity),
        header_view(h.signature),
        header_view(h.trusted),
        header_verified(h, now),
    )
}

/// Compares the id of a client with the hash of its certificate.
pub fn check_hash(id: &str, cert_hash: &str) -> (r: Result<(), BindError>)
    ensures
        match r {
            Ok(_) => types::hash_of(id@) == cert_hash@,
            Err(e) => types::hash_of(id@) != cert_hash@ && e@ == (BindErrorView::Hash {
                id_hash: types::hash_of(id@),
                cert_hash: cert_hash@,
            }),
        },
{
    let id_hash = types::id_hash(id);
    if text::same(id_hash, cert_hash) {
        Ok(())
    } else {
        Err(BindError::Hash { id_hash: id_hash.to_owned(), cert_hash: cert_hash.to_owned() })
    }
}

/// What is wrong with the headers themselves, whatever the time is.
pub open spec fn headers_error(h: BindHeaders) -> Option<BindErrorView> {
    match bind_verdict(
        header_view(h.id),
        header_identity(h.identity),
        header_view(h.signature),
        header_view(h.trusted),
        Err(AuthErrorView::Clock),
    ) {
        Err(BindErrorView::Verify(_)) => None,
        Err(e) => Some(e),
        Ok(_) => None,
    }
}

/// What a client wants to bind as, read out of its headers.
struct BindRequest {
    id: EndpointId,
    identity: Identity,
    signature: Signature,
    trusted: Vec<EndpointId>,
}

fn read_headers(headers: &BindHeaders) -> (r: Result<BindRequest, BindError>)
    ensures
        match r {
            Ok(q) => {
                &&& headers_error(*headers) is None
                &&& header_view(headers.id) == Some(q.id@)
                &&& header_identity(headers.identity) == Some(
                    Ok::<(nat, Seq<u8>), IdentityError>(
                        (q.identity.timestamp as nat, q.identity.cert@),
                    ),
                )
                &&& header_view(headers.signature) == Some(q.signature.0@)
                &&& headers.trusted is Some
                &&& split::texts(q.trusted@) == signaling::trusted_of(headers.trusted->0@)
            },
            Err(e) => headers_error(*headers) == Some(e@),
        },
{
    let id = match header_str(&headers.id, BIND_HEADER_ID) {
        Ok(s) => s,
        Err(e) => {
            return Err(e);
        },
    };
    let identity_text = match header_str(&headers.identity, BIND_HEADER_IDENTITY) {
        Ok(s) => s,
        Err(e) => {
            return Err(e);
        },
    };
    let identity = match signaling::parse_identity_header(identity_text.as_str()) {
        Ok(i) => i,
        Err(e) => {
            return Err(BindError::Identity(e));
        },
    };
    let signature = match header_str(&headers.signature, BIND_HEADER_SIGNATURE) {
        Ok(s) => Signature(s),
        Err(e) => {
            return Err(e);
        },
    };
    let trusted_text = match header_str(&headers.trusted, BIND_HEADER_TRUSTED) {
        Ok(s) => s,
        Err(e) => {
            return Err(e);
        },
    };
    let trusted = match signaling::decode_trusted_header(trusted_text.as_str()) {
        Ok(t) => t,
        Err(_) => Vec::new(),
    };
    Ok(BindRequest { id, identity, signature, trusted })
}

fn decide_bind(request: BindRequest, now: u64) -> (r: Result<
    (EndpointId, Vec<EndpointId>),
    BindError,
>)
    ensures
        match r {
            Ok((id, trusted)) => {
                &&& id == request.id
                &&& trusted == request.trusted
                &&& auth::identity_objection(request.identity, request.signature, now) is None
                &&& types::hash_of(id@) == auth::colon_hex(auth::sha256(request.identity.cert@))
            },
            Err(e) => match auth::identity_objection(request.identity, request.signature, now) {
                Some(o) => e@ == BindErrorView::Verify(o),
                None => {
                    let cert_hash = auth::colon_hex(auth::sha256(request.identity.cert@));
                    &&& types::hash_of(request.id@) != cert_hash
                    &&& e@ == (BindErrorView::Hash {
                        id_hash: types::hash_of(request.id@),
                        cert_hash,
                    })
                },
            },
        },
{
    match auth::verify_identity_at(&request.identity, &request.signature, now) {
        Err(e) => Err(BindError::Verify(e)),
        Ok(cert_hash) => match check_hash(request.id.as_str(), cert_hash.as_str()) {
            Err(e) => Err(e),
            Ok(_) => Ok((request.id, request.trusted)),
        },
    }
}

/// Validates the headers by which a client binds at the time `now`. Returns its
/// id and its trust list.
pub fn validate_bind_at(headers: &BindHeaders, now: u64) -> (r: Result<
    (EndpointId, Vec<EndpointId>),
    BindError,
>)
    ensures
        match r {
            Ok((id, trusted)) => headers_verdict(*headers, now) == Ok::<
                (Seq<char>, Seq<Seq<char>>),
                BindErrorView,
            >((id@, split::texts(trusted@))),
            Err(e) => headers_verdict(*headers, now) == Err::<
                (Seq<char>, Seq<Seq<char>>),
                BindErrorView,
            >(e@),
        },
{
    match read_headers(headers) {
        Err(e) => Err(e),
        Ok(request) => decide_bind(request, now),
    }
}

/// Validates the headers by which a client binds at the present time.
pub fn validate_bind(headers: &BindHeaders) -> (r: Result<
    (EndpointId, Vec<EndpointId>),
    BindError,
>)
    ensures
        match r {
            Ok((id, trusted)) => exists|now: u64|
                #[trigger] headers_verdict(*headers, now) == Ok::<
                    (Seq<char>, Seq<Seq<char>>),
                    BindErrorView,
                >((id@, split::texts(trusted@))),
            Err(e) => {
                ||| headers_error(*headers) is None && e@ == BindErrorView::Verify(
                    AuthErrorView::Clock,
                )
                ||| exists|now: u64|
                    #[trigger] headers_verdict(*headers, now) == Err::<
                        (Seq<char>, Seq<Seq<char>>),
                        BindErrorView,
                    >(e@)
            },
        },
        headers_error(*headers) matches Some(e) ==> (r matches Err(f) && f@ == e),
{
    match read_headers(headers) {
        Err(e) => {
            assert(headers_verdict(*headers, 0) is Err);
            Err(e)
        },
        Ok(request) => match clock::unix_seconds() {
            None => Err(BindError::Verify(AuthError::Clock)),
            Some(now) => {
                assert(headers_verdict(*headers, now) is Ok || headers_verdict(*headers, now)
                    is Err);
                decide_bind(request, now)
            },
        },
    }
}

/// Nobody binds to an id whose hash is not that of the certificate shown.
pub proof fn lemma_bound_id_is_certified(
    id: Option<Seq<char>>,
    identity: Option<Result<(nat, Seq<u8>), IdentityError>>,
    signature: Option<Seq<char>>,
    trusted: Option<Seq<char>>,
    verified: Result<Seq<char>, AuthErrorView>,
)
    ensures
        bind_verdict(id, identity, signature, trusted, verified) matches Ok(bound) ==> {
            &&& verified is Ok
            &&& types::hash_of(bound.0) == verified->Ok_0
            &&& id == Some(bound.0)
        },
{
}

// *** Messages

/// What arrives from a client.
#[derive(Debug)]
pub enum Incoming {
    /// A message.
    Msg(SignalingMsg),
    /// A frame that holds no text.
    NotText,
    /// The socket failed, or its text was no message; with the description.
    Broken(String),
}

/// What the server does about what arrived.
#[derive(Debug)]
pub enum Response {
    /// Nothing.
    Quiet,
    /// Sends a message back.
    Reply(SignalingMsg),
    /// Sends the message on to an endpoint.
    Forward { channel: u64, msg: SignalingMsg },
    /// Notes that the client is alive.
    Alive,
    /// Sends a close frame for unsupported input, with the reason, and goes on.
    Unsupported(String),
    /// Sends a close frame for unsupported input, with the reason, and stops
    /// serving the connection with the error.
    Refuse { reason: String, error: String },
    /// Stops serving the connection with the error.
    Stop(String),
}

/// What the server does about what arrived.
pub enum ResponseView {
    /// Nothing.
    Quiet,
    /// Sends a message back.
    Reply(MsgView),
    /// Sends the message on to an endpoint.
    Forward { channel: u64, msg: MsgView },
    /// Notes that the client is alive.
    Alive,
    /// Closes for unsupported input and goes on.
    Unsupported(Seq<char>),
    /// Closes for unsupported input and stops.
    Refuse { reason: Seq<char>, error: Seq<char> },
    /// Stops.
    Stop(Seq<char>),
}

impl View for Response {
    type V = ResponseView;

    open spec fn view(&self) -> ResponseView {
        match self {
            Response::Quiet => ResponseView::Quiet,
            Response::Reply(m) => ResponseView::Reply(m@),
            Response::Forward { channel, msg } => ResponseView::Forward {
                channel: *channel,
                msg: msg@,
            },
            Response::Alive => ResponseView::Alive,
            Response::Unsupported(s) => ResponseView::Unsupported(s@),
            Response::Refuse { reason, error } => ResponseView::Refuse {
                reason: reason@,
                error: error@,
            },
            Response::Stop(s) => ResponseView::Stop(s@),
        }
    }
}

impl Response {
    /// Whether the connection is no longer served.
    pub fn is_final(&self) -> (r: bool)
        ensures
            r == (self@ is Refuse || self@ is Stop),
    {
        match self {
            Response::Refuse { .. } => true,
            Response::Stop(_) => true,
            _ => false,
        }
    }
}

/// Whether a client uses the id that is on record for it.
pub open spec fn own_id(provided: Seq<char>, recorded: Option<Seq<char>>) -> bool {
    match recorded {
        Some(id) => id == provided,
        None => true,
    }
}

/// What the server does about a client that uses another id.
pub open spec fn refusal() -> ResponseView {
    ResponseView::Refuse {
        reason: "You are using a endpoint id different from the one recorded"@,
        error: "Endpoint tries to use a different endpoint as previously used"@,
    }
}

/// Checks that a client uses the id that is on record for it.
pub fn check_id(provided_id: &EndpointId, recorded_id: &Option<EndpointId>) -> (r: Result<
    (),
    Response,
>)
    ensures
        match r {
            Ok(_) => own_id(provided_id@, header_view(*recorded_id)),
            Err(e) => !own_id(provided_id@, header_view(*recorded_id)) && e@ == refusal(),
        },
{
    match recorded_id {
        Some(id) => if *id != *provided_id {
            Err(
                Response::Refuse {
                    reason: "You are using a endpoint id different from the one recorded".to_owned(),
                    error: "Endpoint tries to use a different endpoint as previously used".to_owned(),
                },
            )
        } else {
            Ok(())
        },
        None => Ok(()),
    }
}

/// What the server does about a message from endpoint to endpoint: it goes to
/// the receiver where that is bound and trusts the sender.
pub open spec fn relayed(
    endpoints: Map<Seq<char>, EndpointView>,
    sender: Seq<char>,
    receiver: Seq<char>,
    msg: MsgView,
) -> ResponseView {
    if !endpoints.contains_key(receiver) {
        ResponseView::Reply(
            MsgView::IdNotFound {
                id: sender,
                reason: "No endpoint found for id: "@ + receiver,
            },
        )
    } else if !endpoints[receiver].trusted.contains(sender) {
        ResponseView::Reply(
            MsgView::Rejected {
                id: sender,
                reason: "Sender not in "@ + receiver + "\u{2019}s trust list"@,
            },
        )
    } else {
        ResponseView::Forward { channel: endpoints[receiver].channel, msg }
    }
}

/// What the server does about a message of a client with the recorded id.
pub open spec fn response_to(
    endpoints: Map<Seq<char>, EndpointView>,
    recorded: Option<Seq<char>>,
    msg: MsgView,
) -> ResponseView {
    match msg {
        MsgView::Trust { sender, trusted } => if own_id(sender, recorded) {
            ResponseView::Reply(MsgView::Trusted { id: sender, trusted })
        } else {
            refusal()
        },
        MsgView::Ping => ResponseView::Alive,
        MsgView::Pong => ResponseView::Quiet,
        _ => match msg.route() {
            Some((sender, receiver)) => if own_id(sender, recorded) {
                relayed(endpoints, sender, receiver, msg)
            } else {
                refusal()
            },
            None => ResponseView::Unsupported(
                "Send Connect, SDP, Candidate, Trust, or Ping only"@,
            ),
        },
    }
}

/// The endpoints after a message of a client with the recorded id: a trust list
/// is replaced, everything else stays.
pub open spec fn endpoints_after(
    endpoints: Map<Seq<char>, EndpointView>,
    recorded: Option<Seq<char>>,
    msg: MsgView,
) -> Map<Seq<char>, EndpointView> {
    match msg {
        MsgView::Trust { sender, trusted } => if own_id(sender, recorded) && endpoints.contains_key(
            sender,
        ) {
            endpoints.insert(
                sender,
                EndpointView { channel: endpoints[sender].channel, trusted: id_set(trusted) },
            )
        } else {
            endpoints
        },
        _ => endpoints,
    }
}

impl Server {
    fn relay(&self, sender: EndpointId, receiver: EndpointId, msg: SignalingMsg) -> (r: Response)
        ensures
            r@ == relayed(self@, sender@, receiver@, msg@),
    {
        match self.get_endpoint_info(&receiver) {
            None => Response::Reply(
                SignalingMsg::IdNotFound {
                    id: sender,
                    reason: text::concat("No endpoint found for id: ", receiver.as_str()),
                },
            ),
            Some(info) => if !info.trusted.contains(sender.as_str()) {
                Response::Reply(
                    SignalingMsg::Rejected {
                        id: sender,
                        reason: text::concat3(
                            "Sender not in ",
                            receiver.as_str(),
                            "\u{2019}s trust list",
                        ),
                    },
                )
            } else {
                Response::Forward { channel: info.channel, msg }
            },
        }
    }

    /// Handles what arrived from the client whose id is on record.
    pub fn handle_message(&mut self, incoming: Incoming, recorded_id: &Option<EndpointId>) -> (r:
        Response)
        ensures
            match incoming {
                Incoming::Msg(msg) => {
                    &&& r@ == response_to(old(self)@, header_view(*recorded_id), msg@)
                    &&& final(self)@ == endpoints_after(
                        old(self)@,
                        header_view(*recorded_id),
                        msg@,
                    )
                },
                Incoming::NotText => r@ == ResponseView::Unsupported(
                    "We only support text message"@,
                ) && final(self)@ == old(self)@,
                Incoming::Broken(e) => r@ == ResponseView::Stop(e@) && final(self)@ == old(self)@,
            },
    {
        let msg = match incoming {
            Incoming::Broken(e) => {
                return Response::Stop(e);
            },
            Incoming::NotText => {
                return Response::Unsupported("We only support text message".to_owned());
            },
            Incoming::Msg(msg) => msg,
        };
        match msg {
            SignalingMsg::Trust { sender, trusted } => match check_id(&sender, recorded_id) {
                Err(refused) => refused,
                Ok(_) => {
                    self.update_trust(&sender, &trusted);
                    Response::Reply(SignalingMsg::Trusted { id: sender, trusted })
                },
            },
            SignalingMsg::Ping => Response::Alive,
            SignalingMsg::Pong => Response::Quiet,
            msg => match msg.route() {
                Some((sender, receiver)) => match check_id(&sender, recorded_id) {
                    Err(refused) => refused,
                    Ok(_) => self.relay(sender, receiver, msg),
                },
                None => Response::Unsupported(
                    "Send Connect, SDP, Candidate, Trust, or Ping only".to_owned(),
                ),
            },
        }
    }
}

/// What is sent on goes, unchanged, to a bound endpoint that trusts its sender;
/// and the sender is the client itself.
pub proof fn lemma_forward_is_trusted(
    endpoints: Map<Seq<char>, EndpointView>,
    recorded: Option<Seq<char>>,
    msg: MsgView,
)
    ensures
        response_to(endpoints, recorded, msg) matches ResponseView::Forward { channel, msg: sent }
            ==> {
            let (sender, receiver) = msg.route()->0;
            &&& msg.route() is Some
            &&& own_id(sender, recorded)
            &&& endpoints.contains_key(receiver)
            &&& endpoints[receiver].trusted.contains(sender)
            &&& channel == endpoints[receiver].channel
            &&& sent == msg
        },
{
}

/// A message that does not reach its receiver is answered: to its sender it is
/// said that the receiver is not there, or does not trust it.
pub proof fn lemma_refused_is_answered(
    endpoints: Map<Seq<char>, EndpointView>,
    recorded: Option<Seq<char>>,
    msg: MsgView,
)
    requires
        msg.route() matches Some(route) && own_id(route.0, recorded),
    ensures
        ({
            let (sender, receiver) = msg.route()->0;
            let r = response_to(endpoints, recorded, msg);
            &&& !endpoints.contains_key(receiver) ==> (r matches ResponseView::Reply(
                MsgView::IdNotFound { id, .. },
            ) && id == sender)
            &&& endpoints.contains_key(receiver) && !endpoints[receiver].trusted.contains(sender)
                ==> (r matches ResponseView::Reply(MsgView::Rejected { id, .. }) && id == sender)
            &&& endpoints.contains_key(receiver) && endpoints[receiver].trusted.contains(sender)
                ==> r is Forward
        }),
{
}

/// A new trust list replaces the old one and decides at once: whoever is not on
/// it no longer reaches the endpoint. Other endpoints keep theirs.
pub proof fn lemma_trust_overrides(
    endpoints: Map<Seq<char>, EndpointView>,
    id: Seq<char>,
    trusted: Seq<Seq<char>>,
    other: Seq<char>,
    msg: MsgView,
)
    requires
        endpoints.contains_key(id),
        msg.route() == Some((other, id)),
    ensures
        ({
            let after = endpoints_after(endpoints, Some(id), MsgView::Trust { sender: id, trusted });
            &&& response_to(after, Some(other), msg) is Forward <==> trusted.contains(other)
            &&& after.remove(id) == endpoints.remove(id)
        }),
{
    let after = endpoints_after(endpoints, Some(id), MsgView::Trust { sender: id, trusted });
    assert(after.remove(id) =~= endpoints.remove(id));
}

// *** Connections

/// A client that is being served.
pub struct Connection {
    endpoint_id: Option<EndpointId>,
    last_ping: u64,
}

impl Connection {
    /// The id that is on record for the client.
    pub closed spec fn recorded(&self) -> Option<Seq<char>> {
        header_view(self.endpoint_id)
    }

    /// When the client was last heard of.
    pub closed spec fn heard(&self) -> u64 {
        self.last_ping
    }

    /// Takes a client that may bind into the table, at the time `now`. Messages
    /// for it go to the channel with the given number.
    pub fn open(
        server: &mut Server,
        id: EndpointId,
        trusted: &[EndpointId],
        channel: u64,
        now: u64,
    ) -> (r: Connection)
        ensures
            r.recorded() == Some(id@),
            r.heard() == now,
            final(server)@ == old(server)@.insert(
                id@,
                EndpointView { channel, trusted: id_set(split::texts(trusted@)) },
            ),
    {
        server.bind(id.clone(), channel, trusted);
        Connection { endpoint_id: Some(id), last_ping: now }
    }

    /// Handles what arrived from the client at the time `now`.
    pub fn handle(&mut self, server: &mut Server, incoming: Incoming, now: u64) -> (r: Response)
        ensures
            final(self).recorded() == old(self).recorded(),
            final(self).heard() == if r@ is Alive {
                now
            } else {
                old(self).heard()
            },
            match incoming {
                Incoming::Msg(msg) => {
                    &&& r@ == response_to(old(server)@, old(self).recorded(), msg@)
                    &&& final(server)@ == endpoints_after(
                        old(server)@,
                        old(self).recorded(),
                        msg@,
                    )
                },
                Incoming::NotText => r@ == ResponseView::Unsupported(
                    "We only support text message"@,
                ) && final(server)@ == old(server)@,
                Incoming::Broken(e) => r@ == ResponseView::Stop(e@) && final(server)@ == old(
                    server,
                )@,
            },
    {
        let r = server.handle_message(incoming, &self.endpoint_id);
        match &r {
            Response::Alive => {
                self.last_ping = now;
            },
            _ => {},
        }
        r
    }

    /// Decides whether to give up on the client, whose connection is
    /// `elapsed_nanos` old. Returns the message to send first.
    pub fn check(&self, elapsed_nanos: u128, now: u64) -> (r: Option<SignalingMsg>)
        requires
            elapsed_nanos <= MAX_CONNECTION_LIFETIME_SECS * 1_000_000_000 ==> self.heard() <= now,
        ensures
            match r {
                Some(msg) => {
                    &&& close_reason(elapsed_nanos as nat, now as nat, self.heard() as nat) is Some
                    &&& msg@ == (MsgView::Terminate {
                        reason: close_reason(
                            elapsed_nanos as nat,
                            now as nat,
                            self.heard() as nat,
                        )->0,
                    })
                },
                None => close_reason(elapsed_nanos as nat, now as nat, self.heard() as nat) is None,
            },
    {
        check_idle(elapsed_nanos, now, self.last_ping)
    }

    /// Takes the client out of the table at the end of its connection.
    pub fn close(self, server: &mut Server)
        ensures
            final(server)@ == match self.recorded() {
                Some(id) => old(server)@.remove(id),
                None => old(server)@,
            },
    {
        match &self.endpoint_id {
            Some(id) => server.remove_endpoint(id),
            None => {},
        }
    }
}

/// Once the connection of an endpoint is closed, the endpoint is not found any
/// more: whoever sends to it is told so.
pub proof fn lemma_closed_is_not_found(
    endpoints: Map<Seq<char>, EndpointView>,
    id: Seq<char>,
    sender: Seq<char>,
    msg: MsgView,
)
    requires
        msg.route() == Some((sender, id)),
    ensures
        response_to(endpoints.remove(id), Some(sender), msg) == ResponseView::Reply(
            MsgView::IdNotFound { id: sender, reason: "No endpoint found for id: "@ + id },
        ),
{
}

/// The answer to a client that may not bind: it is not authorized, and is told
/// the reason.
pub fn rejection(error: &BindError) -> (r: (u16, String))
    ensures
        r.0 == 401,
        r.1@ == error@.text(),
{
    (401, error.message())
}

// *** Idle connections

/// Why a connection is closed, if it is: it is too old, or its client has not
/// been heard of for too long.
pub open spec fn close_reason(elapsed_nanos: nat, now: nat, last_ping: nat) -> Option<Seq<char>> {
    if elapsed_nanos > MAX_CONNECTION_LIFETIME_SECS * 1_000_000_000 {
        Some("12-hour limit reached, need re-auth"@)
    } else if now - last_ping > INACTIVE_TIMEOUT_SECS {
        Some("No ping received in 10 minutes"@)
    } else {
        None
    }
}

/// Decides whether a connection that is `elapsed_nanos` old is to be closed.
/// Returns the message to send first.
pub fn check_idle(elapsed_nanos: u128, now: u64, last_ping: u64) -> (r: Option<SignalingMsg>)
    requires
        elapsed_nanos <= MAX_CONNECTION_LIFETIME_SECS * 1_000_000_000 ==> last_ping <= now,
    ensures
        match r {
            Some(msg) => {
                &&& close_reason(elapsed_nanos as nat, now as nat, last_ping as nat) is Some
                &&& msg@ == (MsgView::Terminate {
                    reason: close_reason(elapsed_nanos as nat, now as nat, last_ping as nat)->0,
                })
            },
            None => close_reason(elapsed_nanos as nat, now as nat, last_ping as nat) is None,
        },
{
    if elapsed_nanos > MAX_CONNECTION_LIFETIME_SECS as u128 * 1_000_000_000 {
        Some(SignalingMsg::Terminate { reason: "12-hour limit reached, need re-auth".to_owned() })
    } else if now - last_ping > INACTIVE_TIMEOUT_SECS {
        Some(SignalingMsg::Terminate { reason: "No ping received in 10 minutes".to_owned() })
    } else {
        None
    }
}

// *** Sockets

/// What happens to the socket of a client. `I` stands for what comes in, and `O`
/// for what goes out.
pub enum SocketEvent<I, O> {
    /// It is time to look at the clock: the age of the connection, what the
    /// clock shows, and when the client was last heard of.
    Tick { elapsed_nanos: u128, now: u64, last_ping: u64 },
    /// Something arrived.
    Received(I),
    /// Nothing more will arrive.
    Ended,
    /// Something is to be sent.
    Outgoing(O),
    /// It could not be sent.
    SendFailed,
    /// The connection is no longer served.
    Unserved,
}

/// What is done about it.
pub enum SocketAction<I, O> {
    /// Nothing.
    Wait,
    /// What arrived is handed to whoever serves the connection.
    HandOver(I),
    /// It is sent.
    Send(O),
    /// The message is sent, and the socket is closed.
    Terminate(SignalingMsg),
    /// The socket is left.
    Leave,
}

/// Whether an event can be handled: the clock does not show a time before the
/// client was last heard of, unless the connection is too old anyway.
pub open spec fn sound_event<I, O>(event: SocketEvent<I, O>) -> bool {
    event matches SocketEvent::Tick { elapsed_nanos, now, last_ping } ==> (elapsed_nanos
        <= MAX_CONNECTION_LIFETIME_SECS * 1_000_000_000 ==> last_ping <= now)
}

/// Decides what to do about what happens to the socket of a client.
pub fn socket_step<I, O>(event: SocketEvent<I, O>) -> (r: SocketAction<I, O>)
    requires
        sound_event(event),
    ensures
        match event {
            SocketEvent::Tick { elapsed_nanos, now, last_ping } => match close_reason(
                elapsed_nanos as nat,
                now as nat,
                last_ping as nat,
            ) {
                Some(why) => r matches SocketAction::Terminate(msg) && msg@
                    == (MsgView::Terminate { reason: why }),
                None => r is Wait,
            },
            SocketEvent::Received(i) => r == SocketAction::<I, O>::HandOver(i),
            SocketEvent::Ended => r is Leave,
            SocketEvent::Outgoing(o) => r == SocketAction::<I, O>::Send(o),
            SocketEvent::SendFailed => r is Leave,
            SocketEvent::Unserved => r is Leave,
        },
{
    match event {
        SocketEvent::Tick { elapsed_nanos, now, last_ping } => match check_idle(
            elapsed_nanos,
            now,
            last_ping,
        ) {
            Some(msg) => SocketAction::Terminate(msg),
            None => SocketAction::Wait,
        },
        SocketEvent::Received(i) => SocketAction::HandOver(i),
        SocketEvent::Ended => SocketAction::Leave,
        SocketEvent::Outgoing(o) => SocketAction::Send(o),
        SocketEvent::SendFailed => SocketAction::Leave,
        SocketEvent::Unserved => SocketAction::Leave,
    }
}

} // verus!
