//! What messages, errors and requests of the signaling protocol say.

use crate::number;
use crate::number::NumberError;
use crate::signaling;
use crate::signaling::auth;
use crate::signaling::auth::{AuthError, AuthErrorView, KeyCert};
use crate::signaling::client;
use crate::signaling::client::{BindPlan, ClientBindError, ClientBindErrorView, Payload};
use crate::signaling::client::PayloadView;
use crate::signaling::routing::{RouteError, RouteErrorView};
use crate::signaling::server;
use crate::signaling::server::{BindError, BindErrorView, EndpointInfo, Response, ResponseView};
use crate::signaling::{Base64Error, Identity, IdentityError, MsgView, SignalingError, SignalingMsg};
use crate::split;
use crate::text;
use crate::types;
use vstd::prelude::*;
use vstd::string::*;

verus! {

// *** Messages

/// A list of ids is written with each id in quotes, and a comma and a space
/// between two of them.
pub proof fn lemma_lists_written(ids: Seq<Seq<char>>, id: Seq<char>)
    ensures
        signaling::quoted_items(Seq::empty()) == Seq::<char>::empty(),
        ids.len() == 0 ==> signaling::quoted_items(ids.push(id)) == text::debug_quoted(id),
        ids.len() > 0 ==> signaling::quoted_items(ids.push(id)) == signaling::quoted_items(ids)
            + ", "@ + text::debug_quoted(id),
{
    assert(ids.push(id).drop_last() =~= ids);
}

/// How messages from endpoint to endpoint are written: the name, and in braces
/// the sender, the receiver and what they are about.
pub proof fn lemma_routed_messages_written(a: Seq<char>, b: Seq<char>, x: Seq<char>)
    ensures
        (MsgView::Connect { sender: a, receiver: b, initiator: true }).text()
            == "Connect { sender: "@ + text::debug_quoted(a) + ", receiver: "@ + text::debug_quoted(b)
            + ", initiator: "@ + "true"@ + " }"@,
        (MsgView::Connect { sender: a, receiver: b, initiator: false }).text()
            == "Connect { sender: "@ + text::debug_quoted(a) + ", receiver: "@ + text::debug_quoted(b)
            + ", initiator: "@ + "false"@ + " }"@,
        (MsgView::SDP { sender: a, receiver: b, sdp: x }).text() == "SDP { sender: "@
            + text::debug_quoted(a) + ", receiver: "@ + text::debug_quoted(b) + ", sdp: "@
            + text::debug_quoted(x) + " }"@,
        (MsgView::Candidate { sender: a, receiver: b, candidate: x }).text()
            == "Candidate { sender: "@ + text::debug_quoted(a) + ", receiver: "@
            + text::debug_quoted(b) + ", candidate: "@ + text::debug_quoted(x) + " }"@,
{
}

/// How the other messages are written.
pub proof fn lemma_messages_written(id: Seq<char>, trusted: Seq<Seq<char>>, reason: Seq<char>)
    ensures
        (MsgView::Bound { id, trusted }).text() == "Bound { id: "@ + text::debug_quoted(id)
            + ", trusted: ["@ + signaling::quoted_items(trusted) + "]"@ + " }"@,
        (MsgView::Trust { sender: id, trusted }).text() == "Trust { sender: "@ + text::debug_quoted(id)
            + ", trusted: ["@ + signaling::quoted_items(trusted) + "]"@ + " }"@,
        (MsgView::Trusted { id, trusted }).text() == "Trusted { id: "@ + text::debug_quoted(id)
            + ", trusted: ["@ + signaling::quoted_items(trusted) + "]"@ + " }"@,
        (MsgView::IdNotFound { id, reason }).text() == "IdNotFound { id: "@ + text::debug_quoted(id)
            + ", reason: "@ + text::debug_quoted(reason) + " }"@,
        (MsgView::Rejected { id, reason }).text() == "Rejected { id: "@ + text::debug_quoted(id)
            + ", reason: "@ + text::debug_quoted(reason) + " }"@,
        (MsgView::Terminate { reason }).text() == "Terminate { reason: "@ + text::debug_quoted(reason)
            + " }"@,
        MsgView::Ping.text() == "Ping"@,
        MsgView::Pong.text() == "Pong"@,
{
    let list = signaling::quoted_items(trusted);
    let q = text::debug_quoted(id);
    assert("Bound { id: "@ + q + ", trusted: ["@ + (list + "]"@) =~= "Bound { id: "@ + q
        + ", trusted: ["@ + list + "]"@);
    assert("Trust { sender: "@ + q + ", trusted: ["@ + (list + "]"@) =~= "Trust { sender: "@ + q
        + ", trusted: ["@ + list + "]"@);
    assert("Trusted { id: "@ + q + ", trusted: ["@ + (list + "]"@) =~= "Trusted { id: "@ + q
        + ", trusted: ["@ + list + "]"@);
}

/// What a client hands to a sock, and what the server does, say what they hold.
pub proof fn lemma_actions_mean(s: String, t: String, channel: u64, msg: SignalingMsg)
    ensures
        Payload::SDP(s)@ == PayloadView::SDP(s@),
        Payload::Candidate(s)@ == PayloadView::Candidate(s@),
        Response::Quiet@ is Quiet,
        Response::Alive@ is Alive,
        Response::Reply(msg)@ == ResponseView::Reply(msg@),
        (Response::Forward { channel, msg })@ == (ResponseView::Forward { channel, msg: msg@ }),
        Response::Unsupported(s)@ == ResponseView::Unsupported(s@),
        (Response::Refuse { reason: s, error: t })@ == (ResponseView::Refuse {
            reason: s@,
            error: t@,
        }),
        Response::Stop(s)@ == ResponseView::Stop(s@),
{
}

/// What the server knows of an endpoint, and what came of reading bytes, say what
/// they hold.
pub proof fn lemma_contents(info: EndpointInfo, v: Vec<u8>, e: String, b: Base64Error)
    ensures
        info@.channel == info.channel,
        info@.trusted == info.trusted@,
        auth::bytes_result(Ok::<Vec<u8>, Base64Error>(v)) == Ok::<Seq<u8>, Base64Error>(v@),
        auth::bytes_result(Err::<Vec<u8>, Base64Error>(b)) == Err::<Seq<u8>, Base64Error>(b),
        auth::key_result(Ok(v)) == Ok::<Seq<u8>, Seq<char>>(v@),
        auth::key_result(Err(e)) == Err::<Seq<u8>, Seq<char>>(e@),
{
}

// *** Errors

/// What is said of a text that is no base64, and of one that is no identity.
pub proof fn lemma_encoding_errors_say(index: usize, byte: u8, e: Base64Error, n: NumberError)
    ensures
        Base64Error::InvalidByte(index, byte).text() == "Invalid symbol "@ + number::decimal(
            byte as nat,
        ) + ", offset "@ + number::decimal(index as nat) + "."@,
        Base64Error::InvalidLength(index).text() == "Invalid input length: "@ + number::decimal(
            index as nat,
        ),
        Base64Error::InvalidLastSymbol(index, byte).text() == "Invalid last symbol "@
            + number::decimal(byte as nat) + ", offset "@ + number::decimal(index as nat) + "."@,
        Base64Error::InvalidPadding.text() == "Invalid padding"@,
        IdentityError::MissingSeparator.text() == "Identity missing ':' separator"@,
        IdentityError::Timestamp(n).text() == n.text(),
        IdentityError::Cert(e).text() == "cert base64: "@ + e.text(),
{
}

/// What is said of an identity that was not accepted or not signed.
pub proof fn lemma_auth_errors_say(timestamp: u64, now: u64, e: Base64Error, s: String)
    ensures
        AuthError::Clock@.text() == "system clock before unix epoch"@,
        (AuthError::Timestamp { timestamp, now })@.text() == "Identity timestamp "@ + number::decimal(
            timestamp as nat,
        ) + " outside max allowed "@ + number::decimal(30) + "s offset (now="@ + number::decimal(
            now as nat,
        ) + ")"@,
        AuthError::Signature(e)@.text() == "Signature base64: "@ + e.text(),
        AuthError::Cert(s)@.text() == "Parsing identity cert: "@ + s@,
        AuthError::TooLong@.text() == "Identity too long"@,
        AuthError::Verification@.text() == "Identity signature verification failed"@,
        AuthError::Key(s)@.text() == "Loading signing key: "@ + s@,
        AuthError::Sign(s)@.text() == "Signing identity: "@ + s@,
        AuthError::Clock@ is Clock,
        (AuthError::Timestamp { timestamp, now })@ == (AuthErrorView::Timestamp {
            timestamp: timestamp as nat,
            now: now as nat,
        }),
        AuthError::Signature(e)@ == AuthErrorView::Signature(e),
        AuthError::Cert(s)@ == AuthErrorView::Cert(s@),
        AuthError::TooLong@ is TooLong,
        AuthError::Verification@ is Verification,
        AuthError::Key(s)@ == AuthErrorView::Key(s@),
        AuthError::Sign(s)@ == AuthErrorView::Sign(s@),
{
}

/// What is said of a client that may not bind.
pub proof fn lemma_bind_errors_say(a: String, b: String, e: IdentityError, f: AuthError)
    ensures
        BindError::Missing(a)@.text() == "missing "@ + a@,
        BindError::Identity(e)@.text() == "X-Collab-Identity"@ + ": "@ + e.text(),
        BindError::Verify(f)@.text() == "identity verify: "@ + f@.text(),
        (BindError::Hash { id_hash: a, cert_hash: b })@.text() == "bind id hash "@ + a@
            + " != cert hash "@ + b@,
        BindError::Missing(a)@ == BindErrorView::Missing(a@),
        BindError::Identity(e)@ == BindErrorView::Identity(e),
        BindError::Verify(f)@ == BindErrorView::Verify(f@),
        (BindError::Hash { id_hash: a, cert_hash: b })@ == (BindErrorView::Hash {
            id_hash: a@,
            cert_hash: b@,
        }),
        (ClientBindError::Hash { id_hash: a, cert_hash: b })@ == (ClientBindErrorView::Hash {
            id_hash: a@,
            cert_hash: b@,
        }),
        ClientBindError::Auth(f)@ == ClientBindErrorView::Auth(f@),
        ClientBindError::Trusted(signaling::CommaInId(a))@ == ClientBindErrorView::Trusted(a@),
{
}

/// What is said of a connection that failed, and of a message that goes nowhere.
pub proof fn lemma_routing_errors_say(a: String, b: String, m: SignalingMsg)
    ensures
        SignalingError::ConnectionBroke.text() == "Connection broke"@,
        SignalingError::OtherError(a).text() == "Error: "@ + a@,
        RouteError::Unexpected(m)@ == RouteErrorView::Unexpected(m@),
        (RouteError::NotBound { receiver: a, addr: b })@ == (RouteErrorView::NotBound {
            receiver: a@,
            addr: b@,
        }),
        (RouteError::NoSock { sender: a, receiver: b })@ == (RouteErrorView::NoSock {
            sender: a@,
            receiver: b@,
        }),
{
}

// *** Binding

/// The textual form of an identity is the time, a colon and the encoded
/// certificate.
pub proof fn lemma_identity_written(id: Identity)
    ensures
        id.text() == number::decimal(id.timestamp as nat) + seq![':'] + signaling::b64_encoded(
            id.cert@,
        ),
        id.text() == signaling::identity_text(id.timestamp, signaling::b64_encoded(id.cert@)),
{
    reveal_strlit(":");
    assert(":"@ =~= seq![':']);
}

/// The headers that the server gets are the four values of the plan, each under
/// its own name.
pub proof fn lemma_plan_headers(plan: BindPlan)
    ensures
        plan.headers().id == Some(plan.id),
        plan.headers().identity == Some(plan.identity),
        plan.headers().signature == Some(plan.signature),
        plan.headers().trusted == Some(plan.trusted),
{
}

/// What a plan that holds says: the id, the trust list with commas between the
/// ids, and that the server accepts it for thirty seconds where the certificate
/// is that of the key.
pub proof fn lemma_plan(
    plan: BindPlan,
    id: Seq<char>,
    key_cert: KeyCert,
    trusted: Seq<Seq<char>>,
    now: u64,
    later: u64,
)
    requires
        now <= later <= now + 30 || later <= now <= later + 30,
    ensures
        client::plan_holds(plan, id, key_cert, trusted, now) ==> {
            &&& plan.id@ == id
            &&& plan.trusted@ == split::join(trusted, ',')
            &&& auth::x509_key(key_cert.cert_der@) == Ok::<Seq<u8>, Seq<char>>(
                auth::pkcs8_public_key(key_cert.key_der@),
            ) && trusted != seq![Seq::<char>::empty()] ==> server::headers_verdict(
                plan.headers(),
                later,
            ) == Ok::<(Seq<char>, Seq<Seq<char>>), BindErrorView>((id, trusted))
        },
{
}

/// An id belongs to a certificate if its hash is that of the certificate, two
/// digits for each byte with colons between them. Otherwise the error names
/// both.
pub proof fn lemma_id_of_a_certificate(id: Seq<char>, key_cert: KeyCert, e: ClientBindError)
    ensures
        client::id_matches(id, key_cert) <==> types::hash_of(id) == auth::colon_hex(
            auth::sha256(key_cert.cert_der@),
        ),
        client::is_hash_error(e, id, key_cert) <==> e@ == (ClientBindErrorView::Hash {
            id_hash: types::hash_of(id),
            cert_hash: auth::colon_hex(auth::sha256(key_cert.cert_der@)),
        }),
{
}

/// The value of a header holds no control character of ASCII but the tab.
pub proof fn lemma_header_values(s: Seq<char>)
    ensures
        client::header_value(s) <==> forall|i: int|
            0 <= i < s.len() ==> #[trigger] s[i] == '\t' || !((s[i] as u32) < 32 || s[i] as u32 == 127),
{
    assert forall|i: int| 0 <= i < s.len() implies client::header_char(#[trigger] s[i]) == (s[i]
        == '\t' || !((s[i] as u32) < 32 || s[i] as u32 == 127)) by {
    }
    if client::header_value(s) {
        assert forall|i: int| 0 <= i < s.len() implies #[trigger] s[i] == '\t' || !((s[i] as u32) < 32
            || s[i] as u32 == 127) by {
            assert(client::header_char(s[i]));
        }
    }
}

/// A header that is there is its content.
pub proof fn lemma_header_contents(s: String)
    ensures
        server::header_view(Some(s)) == Some(s@),
        server::header_view(None) is None,
        client::authority_view(Some(Some(s))) == Some(Some(s@)),
        client::authority_view(Some(None)) == Some(None::<Seq<char>>),
        client::authority_view(None) is None,
{
}

/// A plan can be sent if all four of its values can stand in headers.
pub proof fn lemma_plan_sendable(plan: BindPlan)
    ensures
        client::plan_sendable(plan) <==> client::header_value(plan.id@) && client::header_value(
            plan.identity@,
        ) && client::header_value(plan.signature@) && client::header_value(plan.trusted@),
{
}

/// A request to bind is a web socket upgrade, and carries the four values of the
/// plan under their names.
pub proof fn lemma_bind_request(
    headers: Seq<(String, String)>,
    plan: BindPlan,
    host: Seq<char>,
    key: Seq<char>,
)
    requires
        client::asks_to_bind(headers, plan, host, key),
    ensures
        headers.len() == 9,
        headers[0].0@ == "Host"@ && headers[0].1@ == host,
        headers[1].0@ == "Connection"@ && headers[1].1@ == "Upgrade"@,
        headers[2].0@ == "Upgrade"@ && headers[2].1@ == "websocket"@,
        headers[3].0@ == "Sec-WebSocket-Version"@ && headers[3].1@ == "13"@,
        headers[4].0@ == "Sec-WebSocket-Key"@ && headers[4].1@ == key,
        headers[5].0@ == "X-Collab-Endpoint-Id"@ && headers[5].1@ == plan.id@,
        headers[6].0@ == "X-Collab-Identity"@ && headers[6].1@ == plan.identity@,
        headers[7].0@ == "X-Collab-Signature"@ && headers[7].1@ == plan.signature@,
        headers[8].0@ == "X-Collab-Trusted"@ && headers[8].1@ == plan.trusted@,
{
}

} // verus!
