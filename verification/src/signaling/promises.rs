//! What server, clients and identities promise, said of messages, headers and
//! times.

use crate::number;
use crate::signaling;
use crate::signaling::auth;
use crate::signaling::auth::AuthErrorView;
use crate::signaling::client::{
    ClientAction, ClientActionView, ClientEvent, ClientView, Frame, PayloadView,
};
use crate::signaling::routing;
use crate::signaling::routing::{Delivery, DeliveryView, Key, RouteErrorView, TestEndpointView};
use crate::signaling::server;
use crate::signaling::server::{BindErrorView, BindHeaders, EndpointView, ResponseView};
use crate::signaling::{Base64Error, EndpointId, IdentityError, MsgView, SignalingMsg};
use crate::split;
use crate::text;
use crate::types;
use vstd::prelude::*;
use vstd::string::*;
use vstd::utf8;

verus! {

// *** Messages

/// What a message says is in its fields, all of them.
pub proof fn lemma_message_says_its_fields(m: SignalingMsg)
    ensures
        match m {
            SignalingMsg::Bound { id, trusted } => m@ == (MsgView::Bound {
                id: id@,
                trusted: split::texts(trusted@),
            }),
            SignalingMsg::Connect { sender, receiver, initiator } => m@ == (MsgView::Connect {
                sender: sender@,
                receiver: receiver@,
                initiator,
            }),
            SignalingMsg::SDP { sender, receiver, sdp } => m@ == (MsgView::SDP {
                sender: sender@,
                receiver: receiver@,
                sdp: sdp@,
            }),
            SignalingMsg::Candidate { sender, receiver, candidate } => m@ == (MsgView::Candidate {
                sender: sender@,
                receiver: receiver@,
                candidate: candidate@,
            }),
            SignalingMsg::Trust { sender, trusted } => m@ == (MsgView::Trust {
                sender: sender@,
                trusted: split::texts(trusted@),
            }),
            SignalingMsg::Trusted { id, trusted } => m@ == (MsgView::Trusted {
                id: id@,
                trusted: split::texts(trusted@),
            }),
            SignalingMsg::IdNotFound { id, reason } => m@ == (MsgView::IdNotFound {
                id: id@,
                reason: reason@,
            }),
            SignalingMsg::Rejected { id, reason } => m@ == (MsgView::Rejected {
                id: id@,
                reason: reason@,
            }),
            SignalingMsg::Ping => m@ == MsgView::Ping,
            SignalingMsg::Pong => m@ == MsgView::Pong,
            SignalingMsg::Terminate { reason } => m@ == (MsgView::Terminate { reason: reason@ }),
        },
{
}

/// Connect requests, session descriptions and candidates go from their sender to
/// their receiver; no other message goes from endpoint to endpoint.
pub proof fn lemma_routes(m: MsgView, sender: Seq<char>, receiver: Seq<char>, x: Seq<char>, b: bool)
    ensures
        (MsgView::Connect { sender, receiver, initiator: b }).route() == Some((sender, receiver)),
        (MsgView::SDP { sender, receiver, sdp: x }).route() == Some((sender, receiver)),
        (MsgView::Candidate { sender, receiver, candidate: x }).route() == Some((sender, receiver)),
        !(m is Connect || m is SDP || m is Candidate) ==> m.route() is None,
{
}

// *** Clients

/// Every confirmation of a trust list, connect request, notice that an endpoint is
/// not there, and rejection that a client receives is reported unchanged, with the
/// address of the server. The client goes on as it was.
pub proof fn lemma_server_messages_are_reported(c: ClientView, m: SignalingMsg)
    requires
        m is Trusted || m is Connect || m is IdNotFound || m is Rejected,
    ensures
        c.after(ClientEvent::Received(Frame::Msg(m))) == (
            c,
            ClientActionView::Report { addr: c.addr, msg: m@ },
        ),
        c.incoming(m@) == (ClientActionView::Report { addr: c.addr, msg: m@ }),
{
}

/// Whatever the server replies to a message that it does not send on, the client
/// that gets the reply reports it.
pub proof fn lemma_replies_are_reported(
    endpoints: Map<Seq<char>, EndpointView>,
    recorded: Option<Seq<char>>,
    msg: MsgView,
    c: ClientView,
    reply: SignalingMsg,
)
    requires
        server::response_to(endpoints, recorded, msg) == ResponseView::Reply(reply@),
    ensures
        c.after(ClientEvent::Received(Frame::Msg(reply))) == (
            c,
            ClientActionView::Report { addr: c.addr, msg: reply@ },
        ),
{
}

/// A session description or a candidate goes to the sock for its sender, unchanged;
/// without one it is dropped. The other messages mean nothing to a client.
pub proof fn lemma_payloads_go_to_socks(c: ClientView, m: SignalingMsg)
    ensures
        ({
            let (after, action) = c.after(ClientEvent::Received(Frame::Msg(m)));
            &&& after == c
            &&& m matches SignalingMsg::SDP { sender, sdp, .. } ==> action == if c.socks.contains_key(
                sender@,
            ) {
                ClientActionView::Deliver {
                    channel: c.socks[sender@],
                    payload: PayloadView::SDP(sdp@),
                }
            } else {
                ClientActionView::Quiet
            }
            &&& m matches SignalingMsg::Candidate { sender, candidate, .. } ==> action
                == if c.socks.contains_key(sender@) {
                ClientActionView::Deliver {
                    channel: c.socks[sender@],
                    payload: PayloadView::Candidate(candidate@),
                }
            } else {
                ClientActionView::Quiet
            }
            &&& m is Bound || m is Trust || m is Ping || m is Pong || m is Terminate ==> action
                is Quiet
        }),
{
}

/// A client sends what it is given, unchanged, and a ping when one is due. Frames of
/// other kinds are ignored. None of this changes the client.
pub proof fn lemma_client_sends(c: ClientView, m: SignalingMsg)
    ensures
        c.after(ClientEvent::Send(m)) == (c, ClientActionView::Send(m@)),
        c.after(ClientEvent::PingDue) == (c, ClientActionView::Send(MsgView::Ping)),
        c.after(ClientEvent::Received(Frame::Other)) == (c, ClientActionView::Quiet),
{
}

/// Whether an event ends a client.
pub open spec fn ends(event: ClientEvent) -> bool {
    match event {
        ClientEvent::PingFailed(_) => true,
        ClientEvent::Received(Frame::Unreadable(_)) => true,
        ClientEvent::Received(Frame::Close) => true,
        ClientEvent::SocketError(_) => true,
        ClientEvent::StreamClosed => true,
        ClientEvent::SendFailed(_) => true,
        ClientEvent::CommandsClosed => true,
        ClientEvent::OutgoingClosed => true,
        ClientEvent::Shutdown => true,
        _ => false,
    }
}

/// A client stops at any failure, at the end of its connection and when it is told
/// to, and only then. It lets go of its socks and says why, with the description of
/// what failed.
pub proof fn lemma_client_stops(c: ClientView, event: ClientEvent)
    ensures
        c.after(event).1 is Stop <==> ends(event),
        c.after(event).1 matches ClientActionView::Stop { addr, reason } ==> {
            let after = c.after(event).0;
            &&& addr == c.addr
            &&& after.socks == Map::<Seq<char>, u64>::empty()
            &&& after.id == c.id && after.addr == c.addr
            &&& match event {
                ClientEvent::PingFailed(e) => reason == "Failed to send ping: "@ + e@,
                ClientEvent::Received(Frame::Unreadable(e)) => reason == "Parse error: "@ + e@,
                ClientEvent::Received(Frame::Close) => reason
                    == "Signaling server closed connection"@,
                ClientEvent::SocketError(e) => reason == "Websocket error: "@ + e@,
                ClientEvent::StreamClosed => reason == "Websocket stream closed"@,
                ClientEvent::SendFailed(e) => reason == "Send error: "@ + e@,
                ClientEvent::CommandsClosed => reason == "Command channel closed"@,
                ClientEvent::OutgoingClosed => reason == "Outgoing message channel closed"@,
                ClientEvent::Shutdown => reason == ""@,
                _ => false,
            }
        },
{
}

/// A sock is made for a peer under the client's own id; one that is removed gets
/// nothing any more. The socks for other peers stay.
pub proof fn lemma_socks_come_and_go(c: ClientView, peer: EndpointId, channel: u64)
    ensures
        ({
            let (made, action) = c.after(ClientEvent::CreateSock { peer, channel });
            &&& action == (ClientActionView::Ready { me: c.id, peer: peer@ })
            &&& made.socks.contains_key(peer@) && made.socks[peer@] == channel
            &&& made.id == c.id && made.addr == c.addr
            &&& forall|p: Seq<char>|
                p != peer@ ==> #[trigger] made.socks.contains_key(p) == c.socks.contains_key(p) && (
                c.socks.contains_key(p) ==> made.socks[p] == c.socks[p])
        }),
        ({
            let (gone, action) = c.after(ClientEvent::RemoveSock { peer });
            &&& action is Quiet
            &&& !gone.socks.contains_key(peer@)
            &&& gone.id == c.id && gone.addr == c.addr
            &&& forall|p: Seq<char>|
                p != peer@ ==> #[trigger] gone.socks.contains_key(p) == c.socks.contains_key(p) && (
                c.socks.contains_key(p) ==> gone.socks[p] == c.socks[p])
        }),
{
}

/// An action does one thing only.
pub proof fn lemma_client_action_is_one(a: ClientAction, v: ClientActionView, w: ClientActionView)
    requires
        a.is_like(v),
        a.is_like(w),
    ensures
        v == w,
{
}

// *** The server

/// A client speaks for itself only: a message with another sender than the id on
/// record is refused, the connection is given up, and nothing changes.
pub proof fn lemma_only_own_messages(
    endpoints: Map<Seq<char>, EndpointView>,
    id: Seq<char>,
    msg: MsgView,
    trusted: Seq<Seq<char>>,
)
    ensures
        msg.route() matches Some(route) && route.0 != id ==> {
            &&& server::response_to(endpoints, Some(id), msg) is Refuse
            &&& server::endpoints_after(endpoints, Some(id), msg) == endpoints
        },
        forall|sender: Seq<char>| #[trigger]
            own_trust(endpoints, id, sender, trusted),
{
    assert forall|sender: Seq<char>| #[trigger] own_trust(endpoints, id, sender, trusted) by {}
}

/// Whether a client can set the trust list of a sender only if it is that sender.
pub open spec fn own_trust(
    endpoints: Map<Seq<char>, EndpointView>,
    id: Seq<char>,
    sender: Seq<char>,
    trusted: Seq<Seq<char>>,
) -> bool {
    let msg = MsgView::Trust { sender, trusted };
    sender != id ==> {
        &&& server::response_to(endpoints, Some(id), msg) is Refuse
        &&& server::endpoints_after(endpoints, Some(id), msg) == endpoints
    }
}

/// What a client is told that uses another id.
pub proof fn lemma_refusal_text()
    ensures
        server::refusal() == (ResponseView::Refuse {
            reason: "You are using a endpoint id different from the one recorded"@,
            error: "Endpoint tries to use a different endpoint as previously used"@,
        }),
{
}

/// A message of a client under its own id reaches a bound receiver that trusts it,
/// unchanged; else the client is told that the receiver is not there, or does not
/// trust it. Passing messages on changes nothing in the table.
pub proof fn lemma_messages_are_passed_on(
    endpoints: Map<Seq<char>, EndpointView>,
    sender: Seq<char>,
    receiver: Seq<char>,
    msg: MsgView,
)
    requires
        msg.route() == Some((sender, receiver)),
    ensures
        ({
            let r = server::response_to(endpoints, Some(sender), msg);
            &&& r == server::response_to(endpoints, None, msg)
            &&& server::endpoints_after(endpoints, Some(sender), msg) == endpoints
            &&& !endpoints.contains_key(receiver) ==> r == ResponseView::Reply(
                MsgView::IdNotFound {
                    id: sender,
                    reason: "No endpoint found for id: "@ + receiver,
                },
            )
            &&& endpoints.contains_key(receiver) && !endpoints[receiver].trusted.contains(sender)
                ==> r == ResponseView::Reply(
                MsgView::Rejected {
                    id: sender,
                    reason: "Sender not in "@ + receiver + "\u{2019}s trust list"@,
                },
            )
            &&& endpoints.contains_key(receiver) && endpoints[receiver].trusted.contains(sender)
                ==> r == (ResponseView::Forward { channel: endpoints[receiver].channel, msg })
        }),
{
}

/// A trust list is confirmed as it was sent. From then on exactly those on it are
/// trusted, in any order and however often they are named; the endpoint is reached
/// as before, and the others keep their lists. An id that is not bound gets no entry.
pub proof fn lemma_trust_list_is_taken(
    endpoints: Map<Seq<char>, EndpointView>,
    id: Seq<char>,
    trusted: Seq<Seq<char>>,
)
    ensures
        ({
            let msg = MsgView::Trust { sender: id, trusted };
            let after = server::endpoints_after(endpoints, Some(id), msg);
            &&& server::response_to(endpoints, Some(id), msg) == ResponseView::Reply(
                MsgView::Trusted { id, trusted },
            )
            &&& after.dom() == endpoints.dom()
            &&& endpoints.contains_key(id) ==> {
                &&& after[id].channel == endpoints[id].channel
                &&& forall|x: Seq<char>| #[trigger]
                    after[id].trusted.contains(x) <==> exists|i: int|
                        0 <= i < trusted.len() && trusted[i] == x
            }
            &&& forall|other: Seq<char>|
                other != id && #[trigger] endpoints.contains_key(other) ==> after[other]
                    == endpoints[other]
        }),
{
    let msg = MsgView::Trust { sender: id, trusted };
    let after = server::endpoints_after(endpoints, Some(id), msg);
    assert(after.dom() =~= endpoints.dom());
    if endpoints.contains_key(id) {
        assert forall|x: Seq<char>| #[trigger] after[id].trusted.contains(x) <==> exists|i: int|
            0 <= i < trusted.len() && trusted[i] == x by {
            assert(trusted.to_set().contains(x) == trusted.contains(x));
        }
    }
}

/// A ping shows that the client is alive, a pong means nothing, and what only the
/// server may say is not supported. None of them changes the table.
pub proof fn lemma_other_messages(
    endpoints: Map<Seq<char>, EndpointView>,
    recorded: Option<Seq<char>>,
    msg: MsgView,
)
    ensures
        msg is Ping ==> server::response_to(endpoints, recorded, msg) is Alive,
        msg is Pong ==> server::response_to(endpoints, recorded, msg) is Quiet,
        msg is Bound || msg is Trusted || msg is IdNotFound || msg is Rejected || msg is Terminate
            ==> server::response_to(endpoints, recorded, msg) == ResponseView::Unsupported(
            "Send Connect, SDP, Candidate, Trust, or Ping only"@,
        ),
        !(msg is Trust) ==> server::endpoints_after(endpoints, recorded, msg) == endpoints,
{
}

/// A connection ends after twelve hours, or after ten minutes without a ping, and
/// not before.
pub proof fn lemma_limits_of_a_connection(elapsed_nanos: nat, now: nat, last_ping: nat)
    ensures
        ({
            let twelve_hours = 12 * 60 * 60 * 1_000_000_000int;
            let r = server::close_reason(elapsed_nanos, now, last_ping);
            &&& elapsed_nanos > twelve_hours ==> r == Some("12-hour limit reached, need re-auth"@)
            &&& elapsed_nanos <= twelve_hours && now - last_ping > 10 * 60 ==> r == Some(
                "No ping received in 10 minutes"@,
            )
            &&& elapsed_nanos <= twelve_hours && now - last_ping <= 10 * 60 ==> r is None
        }),
{
}

// *** Binding

/// An identity is objected to, in this order, for its time, which may be thirty
/// seconds off either way, for the encoding of its signature, for its certificate,
/// for its length, and for the signature itself; and for nothing else.
pub proof fn lemma_objections(
    timestamp: u64,
    now: u64,
    sig: Result<Seq<u8>, Base64Error>,
    key: Result<Seq<u8>, Seq<char>>,
    long: bool,
    valid: bool,
)
    ensures
        ({
            let r = auth::objection(timestamp, now, sig, key, long, valid);
            let recent = now - timestamp <= 30 && timestamp - now <= 30;
            &&& !recent ==> r == Some(
                AuthErrorView::Timestamp { timestamp: timestamp as nat, now: now as nat },
            )
            &&& recent && sig is Err ==> r == Some(AuthErrorView::Signature(sig->Err_0))
            &&& recent && sig is Ok && key is Err ==> r == Some(AuthErrorView::Cert(key->Err_0))
            &&& recent && sig is Ok && key is Ok && long ==> r == Some(AuthErrorView::TooLong)
            &&& recent && sig is Ok && key is Ok && !long && !valid ==> r == Some(
                AuthErrorView::Verification,
            )
            &&& recent && sig is Ok && key is Ok && !long && valid ==> r is None
        }),
{
}

/// What an identity is signed as, and for which key the signature has to be valid:
/// the time, a colon and the certificate in base64, for the key of the certificate.
pub proof fn lemma_what_is_signed(id: signaling::Identity, sig: signaling::Signature, now: u64)
    ensures
        ({
            let bytes = utf8::encode_utf8(
                number::decimal(id.timestamp as nat) + seq![':'] + signaling::b64_encoded(id.cert@),
            );
            let long = bytes.len() >= 0x2000_0000_0000_0000 || id.cert@.len()
                >= 0x2000_0000_0000_0000;
            auth::identity_objection(id, sig, now) == auth::objection(
                id.timestamp,
                now,
                signaling::b64_decoded(sig.0@),
                auth::x509_key(id.cert@),
                long,
                auth::ecdsa_valid(
                    auth::x509_key(id.cert@)->Ok_0,
                    bytes,
                    signaling::b64_decoded(sig.0@)->Ok_0,
                ),
            )
        }),
{
    reveal_strlit(":");
    assert(":"@ =~= seq![':']);
}

/// A client may bind only with all four headers, under an id whose hash is that of
/// the certificate it shows, with a recent identity that the key of the certificate
/// signed. It binds as that id with that trust list. The first thing that is missing
/// or wrong is named.
pub proof fn lemma_who_may_bind(h: BindHeaders, now: u64)
    ensures
        ({
            let r = server::headers_verdict(h, now);
            let identity = signaling::identity_of(
                h.identity->0@,
                |t: Seq<char>| signaling::b64_decoded(t),
            );
            let (timestamp, cert) = identity->Ok_0;
            let sig = h.signature->0@;
            let bytes = utf8::encode_utf8(
                number::decimal(timestamp as u64 as nat) + seq![':'] + signaling::b64_encoded(cert),
            );
            let long = bytes.len() >= 0x2000_0000_0000_0000 || cert.len() >= 0x2000_0000_0000_0000;
            let objection = auth::objection(
                timestamp as u64,
                now,
                signaling::b64_decoded(sig),
                auth::x509_key(cert),
                long,
                auth::ecdsa_valid(
                    auth::x509_key(cert)->Ok_0,
                    bytes,
                    signaling::b64_decoded(sig)->Ok_0,
                ),
            );
            let cert_hash = auth::colon_hex(auth::sha256(cert));
            let id_hash = types::hash_of(h.id->0@);
            if h.id is None {
                r matches Err(BindErrorView::Missing(n)) && n == "X-Collab-Endpoint-Id"@
            } else if h.identity is None {
                r matches Err(BindErrorView::Missing(n)) && n == "X-Collab-Identity"@
            } else if identity is Err {
                r matches Err(BindErrorView::Identity(e)) && e == identity->Err_0
            } else if h.signature is None {
                r matches Err(BindErrorView::Missing(n)) && n == "X-Collab-Signature"@
            } else if h.trusted is None {
                r matches Err(BindErrorView::Missing(n)) && n == "X-Collab-Trusted"@
            } else if objection is Some {
                r matches Err(BindErrorView::Verify(e)) && e == objection->0
            } else if id_hash != cert_hash {
                r matches Err(BindErrorView::Hash { id_hash: a, cert_hash: b }) && a == id_hash && b
                    == cert_hash
            } else {
                r matches Ok((id, trusted)) && id == h.id->0@ && trusted == signaling::trusted_of(
                    h.trusted->0@,
                )
            }
        }),
{
    reveal_strlit(":");
    assert(":"@ =~= seq![':']);
}

/// What is wrong with the headers themselves is wrong at any time. Headers with
/// which nothing is wrong fail only for what the identity turns out to be.
pub proof fn lemma_faulty_headers(h: BindHeaders, now: u64)
    ensures
        match server::headers_error(h) {
            Some(e) => server::headers_verdict(h, now) == Err::<
                (Seq<char>, Seq<Seq<char>>),
                BindErrorView,
            >(e),
            None => match server::headers_verdict(h, now) {
                Ok(_) => true,
                Err(e) => e is Verify || e is Hash,
            },
        },
{
}

/// An identity is read as a time before the first colon and a certificate behind it.
pub proof fn lemma_identity_is_read(
    time: Seq<char>,
    cert: Seq<char>,
    decode: spec_fn(Seq<char>) -> Result<Seq<u8>, Base64Error>,
)
    requires
        !time.contains(':'),
    ensures
        ({
            let r = signaling::identity_of(time + seq![':'] + cert, decode);
            match number::parse_unsigned(time, u64::MAX as nat) {
                Err(e) => r == Err::<(nat, Seq<u8>), IdentityError>(IdentityError::Timestamp(e)),
                Ok(t) => match decode(cert) {
                    Err(e) => r == Err::<(nat, Seq<u8>), IdentityError>(IdentityError::Cert(e)),
                    Ok(bytes) => r == Ok::<(nat, Seq<u8>), IdentityError>((t, bytes)),
                },
            }
        }),
        signaling::identity_of(time, decode) == Err::<(nat, Seq<u8>), IdentityError>(
            IdentityError::MissingSeparator,
        ),
{
    let s = time + seq![':'] + cert;
    assert(s =~= time.push(':') + cert);
    text::lemma_find_char_after(time, ':', cert);
    text::lemma_find_char(time, ':');
    assert(s.take(time.len() as int) =~= time);
    assert(s.skip(time.len() as int + 1) =~= cert);
}

/// The first id with a comma is the one that cannot be sent.
pub proof fn lemma_first_comma(ids: Seq<Seq<char>>)
    ensures
        match signaling::first_with_comma(ids) {
            Some(id) => exists|i: int|
                0 <= i < ids.len() && ids[i] == id && id.contains(',') && forall|j: int|
                    0 <= j < i ==> !(#[trigger] ids[j]).contains(','),
            None => forall|i: int| 0 <= i < ids.len() ==> !(#[trigger] ids[i]).contains(','),
        },
    decreases ids.len(),
{
    if ids.len() > 0 {
        let short = ids.drop_last();
        lemma_first_comma(short);
        match signaling::first_with_comma(short) {
            Some(id) => {
                let i = choose|i: int|
                    0 <= i < short.len() && short[i] == id && id.contains(',') && forall|j: int|
                        0 <= j < i ==> !(#[trigger] short[j]).contains(',');
                assert(ids[i] == id);
                assert forall|j: int| 0 <= j < i implies !(#[trigger] ids[j]).contains(',') by {
                    assert(short[j] == ids[j]);
                }
            },
            None => {
                let n = ids.len() - 1;
                assert(ids[n] == ids.last());
                assert forall|j: int| 0 <= j < n implies !(#[trigger] ids[j]).contains(',') by {
                    assert(short[j] == ids[j]);
                }
            },
        }
    }
}

/// An empty value stands for nobody; any other for what stands between its commas.
pub proof fn lemma_trust_list_of(value: Seq<char>, id: Seq<char>)
    requires
        !id.contains(','),
    ensures
        signaling::trusted_of(Seq::empty()).len() == 0,
        id.len() > 0 ==> signaling::trusted_of(id) == seq![id],
        value.len() > 0 ==> signaling::trusted_of(value + seq![','] + id)
            == signaling::trusted_of(value).push(id),
{
    split::lemma_split_whole(id, ',');
    split::lemma_split_behind(value, id, ',');
    assert(value + seq![','] + id =~= value.push(',') + id);
}

/// The hash of a certificate has two digits for every byte, in upper case, with
/// colons between them.
pub proof fn lemma_hash_form(bytes: Seq<u8>)
    ensures
        bytes.len() == 0 ==> auth::colon_hex(bytes).len() == 0,
        bytes.len() > 0 ==> auth::colon_hex(bytes).len() == 3 * bytes.len() - 1,
        forall|i: int|
            #![trigger bytes[i]]
            0 <= i < bytes.len() ==> auth::colon_hex(bytes)[3 * i] == upper_digit(bytes[i] / 16)
                && auth::colon_hex(bytes)[3 * i + 1] == upper_digit(bytes[i] % 16) && (i + 1
                < bytes.len() ==> auth::colon_hex(bytes)[3 * i + 2] == ':'),
    decreases bytes.len(),
{
    if bytes.len() > 0 {
        let short = bytes.drop_last();
        lemma_hash_form(short);
        let parts = auth::hex_parts(bytes);
        assert(parts.drop_last() =~= auth::hex_parts(short));
        let (s, t) = (auth::colon_hex(bytes), auth::colon_hex(short));
        let last = number::hex_byte(bytes.last());
        let n = short.len() as int;
        assert(last.len() == 2);
        lemma_upper_digit(bytes.last() / 16);
        lemma_upper_digit(bytes.last() % 16);
        if n > 0 {
            assert(s =~= t.push(':') + last);
        } else {
            assert(s =~= last);
        }
        assert forall|i: int|
            #![trigger bytes[i]]
            0 <= i < bytes.len() implies s[3 * i] == upper_digit(bytes[i] / 16) && s[3 * i + 1]
            == upper_digit(bytes[i] % 16) && (i + 1 < bytes.len() ==> s[3 * i + 2] == ':') by {
            if i < n {
                assert(short[i] == bytes[i]);
            } else {
                assert(bytes[i] == bytes.last());
            }
        }
    }
}

/// The hexadecimal digit of a number below sixteen, in upper case.
pub open spec fn upper_digit(d: u8) -> char {
    seq!['0', '1', '2', '3', '4', '5', '6', '7', '8', '9', 'A', 'B', 'C', 'D', 'E', 'F'][d as int]
}

proof fn lemma_upper_digit(d: u8)
    requires
        d < 16,
    ensures
        number::hex_digit(d as int) == upper_digit(d),
{
    assert(d == 0 || d == 1 || d == 2 || d == 3 || d == 4 || d == 5 || d == 6 || d == 7 || d == 8
        || d == 9 || d == 10 || d == 11 || d == 12 || d == 13 || d == 14 || d == 15);
}

// *** Within a process

/// Without a server a message reaches a bound receiver at the same address that
/// trusts its sender: a connect request goes to whoever runs the receiver, a session
/// description or a candidate to the receiver's sock for the sender. A sender that is
/// not trusted is told so where it is bound itself, and else nobody is told.
pub proof fn lemma_routing_within(
    endpoints: Map<Key, TestEndpointView>,
    addr: Seq<char>,
    msg: MsgView,
    sender: Seq<char>,
    receiver: Seq<char>,
)
    ensures
        msg.route() is None ==> routing::routed(endpoints, addr, msg) == Err::<
            DeliveryView,
            RouteErrorView,
        >(RouteErrorView::Unexpected(msg)),
        msg.route() == Some((sender, receiver)) ==> {
            let r = routing::routed(endpoints, addr, msg);
            let to = endpoints[(addr, receiver)];
            if !endpoints.contains_key((addr, receiver)) {
                r == Err::<DeliveryView, RouteErrorView>(
                    RouteErrorView::NotBound { receiver, addr },
                )
            } else if !to.trusted.contains(sender) {
                if endpoints.contains_key((addr, sender)) {
                    r == Ok::<DeliveryView, RouteErrorView>(
                        DeliveryView::Report {
                            channel: endpoints[(addr, sender)].channel,
                            addr,
                            msg: MsgView::Rejected {
                                id: sender,
                                reason: receiver + " does not trust sender"@,
                            },
                        },
                    )
                } else {
                    r == Ok::<DeliveryView, RouteErrorView>(DeliveryView::Nothing)
                }
            } else {
                match msg {
                    MsgView::Connect { .. } => r == Ok::<DeliveryView, RouteErrorView>(
                        DeliveryView::Report { channel: to.channel, addr, msg },
                    ),
                    MsgView::SDP { sdp, .. } if to.socks.contains_key(sender) => r == Ok::<
                        DeliveryView,
                        RouteErrorView,
                    >(
                        DeliveryView::Deliver {
                            channel: to.socks[sender],
                            payload: PayloadView::SDP(sdp),
                        },
                    ),
                    MsgView::Candidate { candidate, .. } if to.socks.contains_key(sender) => r
                        == Ok::<DeliveryView, RouteErrorView>(
                        DeliveryView::Deliver {
                            channel: to.socks[sender],
                            payload: PayloadView::Candidate(candidate),
                        },
                    ),
                    _ => r == Err::<DeliveryView, RouteErrorView>(
                        RouteErrorView::NoSock { sender, receiver },
                    ),
                }
            }
        },
{
}

/// A sock is added to one endpoint, in place of an earlier one for the same peer;
/// nothing else changes.
pub proof fn lemma_sock_is_added(
    endpoints: Map<Key, TestEndpointView>,
    key: Key,
    peer: Seq<char>,
    channel: u64,
    other: Key,
    p: Seq<char>,
)
    requires
        endpoints.contains_key(key),
    ensures
        ({
            let after = routing::with_sock(endpoints, key, peer, channel);
            &&& after.dom() == endpoints.dom()
            &&& other != key && endpoints.contains_key(other) ==> after[other] == endpoints[other]
            &&& after[key].channel == endpoints[key].channel
            &&& after[key].trusted == endpoints[key].trusted
            &&& after[key].socks.contains_key(peer) && after[key].socks[peer] == channel
            &&& p != peer ==> after[key].socks.contains_key(p)
                == endpoints[key].socks.contains_key(p)
            &&& p != peer && endpoints[key].socks.contains_key(p) ==> after[key].socks[p]
                == endpoints[key].socks[p]
        }),
{
    let after = routing::with_sock(endpoints, key, peer, channel);
    assert(after.dom() =~= endpoints.dom());
}

/// A delivery does one thing only.
pub proof fn lemma_delivery_is_one(a: Delivery, v: DeliveryView, w: DeliveryView)
    requires
        a.is_like(v),
        a.is_like(w),
    ensures
        v == w,
{
}

/// The id for an address is the one that was bound first.
pub proof fn lemma_first_id_for_an_address(bound: Seq<Key>, addr: Seq<char>)
    ensures
        match routing::first_bound(bound, addr) {
            Some(id) => exists|i: int|
                0 <= i < bound.len() && bound[i] == (addr, id) && forall|j: int|
                    0 <= j < i ==> (#[trigger] bound[j]).0 != addr,
            None => forall|i: int| 0 <= i < bound.len() ==> (#[trigger] bound[i]).0 != addr,
        },
    decreases bound.len(),
{
    if bound.len() > 0 {
        let short = bound.drop_last();
        lemma_first_id_for_an_address(short, addr);
        let n = bound.len() - 1;
        assert(bound[n] == bound.last());
        match routing::first_bound(short, addr) {
            Some(id) => {
                let i = choose|i: int|
                    0 <= i < short.len() && short[i] == (addr, id) && forall|j: int|
                        0 <= j < i ==> (#[trigger] short[j]).0 != addr;
                assert(bound[i] == (addr, id));
                assert forall|j: int| 0 <= j < i implies (#[trigger] bound[j]).0 != addr by {
                    assert(short[j] == bound[j]);
                }
            },
            None => {
                assert forall|j: int| 0 <= j < n implies (#[trigger] bound[j]).0 != addr by {
                    assert(short[j] == bound[j]);
                }
                if bound[n].0 == addr {
                    assert(bound[n] == (addr, bound[n].1));
                }
            },
        }
    }
}

} // verus!
