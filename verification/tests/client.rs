use collab_mode::signaling::auth::{AuthError, KeyCert};
use collab_mode::signaling::client::{
    bind_plan, bind_request_to, bound_notice, build_bind_request, is_header_value, BindPlan,
    ClientAction, ClientBindError, ClientEvent, ClientGone, Frame, NoClient, NoopSignalingChannel,
    Payload, RequestError, SignalingChannel, SignalingClient, Sock, PING_INTERVAL_SECS,
};
use collab_mode::signaling::routing::{
    AddrNotBound, Delivery, RouteError, TestFactoryState, TestSignalingChannel,
};
use collab_mode::signaling::server::INACTIVE_TIMEOUT_SECS;
use collab_mode::signaling::{Identity, Signature, SignalingMsg};

fn text(s: &str) -> String {
    s.to_string()
}

fn plan() -> BindPlan {
    BindPlan {
        id: text("me::AB"),
        identity: text("1:AAAA"),
        signature: text("c2ln"),
        trusted: text("x,y"),
    }
}

fn sdp(sender: &str, receiver: &str) -> SignalingMsg {
    SignalingMsg::SDP { sender: text(sender), receiver: text(receiver), sdp: text("v=0") }
}

fn candidate(sender: &str, receiver: &str) -> SignalingMsg {
    SignalingMsg::Candidate {
        sender: text(sender),
        receiver: text(receiver),
        candidate: text("cand"),
    }
}

fn connect(sender: &str, receiver: &str) -> SignalingMsg {
    SignalingMsg::Connect { sender: text(sender), receiver: text(receiver), initiator: true }
}

fn stop_reason(action: ClientAction) -> String {
    match action {
        ClientAction::Stop(m) => {
            assert_eq!(m.signaling_addr, "ws://s");
            m.msg.unwrap_err().0
        }
        _ => panic!("goes on"),
    }
}

#[test]
fn request_to_bind() {
    let headers = build_bind_request("ws://example.com:8080/path", &plan()).unwrap();
    let key = headers[4].1.clone();
    assert_eq!(key.len(), 24);
    let expected = [
        ("Host", "example.com:8080"),
        ("Connection", "Upgrade"),
        ("Upgrade", "websocket"),
        ("Sec-WebSocket-Version", "13"),
        ("Sec-WebSocket-Key", key.as_str()),
        ("X-Collab-Endpoint-Id", "me::AB"),
        ("X-Collab-Identity", "1:AAAA"),
        ("X-Collab-Signature", "c2ln"),
        ("X-Collab-Trusted", "x,y"),
    ];
    assert_eq!(headers.len(), expected.len());
    for (h, e) in headers.iter().zip(expected.iter()) {
        assert_eq!((h.0.as_str(), h.1.as_str()), *e);
    }
    let again = build_bind_request("ws://example.com", &plan()).unwrap();
    assert_ne!(again[4].1, key);
}

#[test]
fn plan_from_what_was_signed() {
    let signed = || Ok((Identity { timestamp: 1, cert: vec![0, 0, 0] }, Signature(text("c2ln"))));
    let made = bind_plan(&text("me::AB"), signed(), &[text("x"), text("y")]).unwrap();
    assert_eq!(made.id, plan().id);
    assert_eq!(made.identity, plan().identity);
    assert_eq!(made.signature, plan().signature);
    assert_eq!(made.trusted, plan().trusted);
    let comma = bind_plan(&text("me"), signed(), &[text("x"), text("y,z"), text(",")]);
    assert!(matches!(comma, Err(ClientBindError::Trusted(e)) if e.0 == "y,z"));
    let unsigned = bind_plan(&text("me"), Err(AuthError::Sign(text("no"))), &[text(",")]);
    assert!(matches!(unsigned, Err(ClientBindError::Auth(AuthError::Sign(s))) if s == "no"));
}

#[test]
fn values_that_no_header_holds() {
    assert!(is_header_value("caf\u{e9}\t ~"));
    assert!(is_header_value(""));
    for bad in ["a\nb", "\r", "\u{0}", "\u{1f}", "\u{7f}"] {
        assert!(!is_header_value(bad));
        for field in 0..4 {
            let mut p = plan();
            match field {
                0 => p.id = text(bad),
                1 => p.identity = text(bad),
                2 => p.signature = text(bad),
                _ => p.trusted = text(bad),
            }
            let e = build_bind_request("ws://example.com", &p).err();
            assert_eq!(e, Some(RequestError::InvalidValue));
        }
        let e = bind_request_to(Some(Some(text(bad))), &plan(), "k").err();
        assert_eq!(e, Some(RequestError::InvalidValue));
        let e = bind_request_to(Some(Some(text("h"))), &plan(), bad).err();
        assert_eq!(e, Some(RequestError::InvalidValue));
    }
    assert_eq!(RequestError::InvalidValue.message(), "building upgrade request");
}

#[test]
fn address_without_a_host() {
    assert_eq!(
        build_bind_request("not a uri", &plan()).err(),
        Some(RequestError::InvalidAddr)
    );
    assert_eq!(build_bind_request("", &plan()).err(), Some(RequestError::InvalidAddr));
    assert_eq!(
        build_bind_request("/only/a/path", &plan()).err(),
        Some(RequestError::MissingHost)
    );
    assert_eq!(bind_request_to(None, &plan(), "k").err(), Some(RequestError::InvalidAddr));
    assert_eq!(bind_request_to(Some(None), &plan(), "k").err(), Some(RequestError::MissingHost));
    assert_eq!(
        bind_request_to(Some(Some(text("h"))), &plan(), "k").unwrap()[0],
        (text("Host"), text("h"))
    );
    assert_eq!(RequestError::InvalidAddr.message(), "invalid signaling addr");
    assert_eq!(RequestError::MissingHost.message(), "signaling addr missing host");
}

#[test]
fn notice_of_a_bind() {
    let m = bound_notice("ws://s", &text("me"), &[text("x")]);
    assert_eq!(m.signaling_addr, "ws://s");
    assert_eq!(m.msg.unwrap().to_text(), "Bound { id: \"me\", trusted: [\"x\"] }");
}

#[test]
fn socks_make_messages() {
    let sock = Sock::new(text("me"), text("peer::AB"));
    assert_eq!(sock.id(), "peer::AB");
    assert_eq!(sock.cert_hash(), "AB");
    assert_eq!(sock.send_sdp(text("v=0")).to_text(), sdp("me", "peer::AB").to_text());
    assert_eq!(
        sock.send_candidate(text("cand")).to_text(),
        candidate("me", "peer::AB").to_text()
    );
    assert_eq!(
        sock.candidate_sender().send_candidate(text("cand")).to_text(),
        candidate("me", "peer::AB").to_text()
    );
}

#[test]
fn client_reports_and_delivers() {
    let mut c = SignalingClient::new(text("me"), text("ws://s"));
    match c.step(ClientEvent::Received(Frame::Msg(connect("p", "me")))) {
        ClientAction::Report(m) => {
            assert_eq!(m.signaling_addr, "ws://s");
            assert_eq!(m.msg.unwrap().to_text(), connect("p", "me").to_text());
        }
        _ => panic!("not reported"),
    }
    assert!(matches!(
        c.step(ClientEvent::Received(Frame::Msg(sdp("p", "me")))),
        ClientAction::Quiet
    ));
    match c.step(ClientEvent::CreateSock { peer: text("p"), channel: 7 }) {
        ClientAction::Ready(sock) => assert_eq!(sock.id(), "p"),
        _ => panic!("no sock"),
    }
    assert!(matches!(
        c.step(ClientEvent::Received(Frame::Msg(sdp("p", "me")))),
        ClientAction::Deliver { channel: 7, payload: Payload::SDP(s) } if s == "v=0"
    ));
    assert!(matches!(
        c.step(ClientEvent::Received(Frame::Msg(candidate("p", "me")))),
        ClientAction::Deliver { channel: 7, payload: Payload::Candidate(s) } if s == "cand"
    ));
    assert!(matches!(
        c.step(ClientEvent::Received(Frame::Msg(sdp("q", "me")))),
        ClientAction::Quiet
    ));
    assert!(matches!(
        c.step(ClientEvent::RemoveSock { peer: text("p") }),
        ClientAction::Quiet
    ));
    assert!(matches!(
        c.step(ClientEvent::Received(Frame::Msg(sdp("p", "me")))),
        ClientAction::Quiet
    ));
    assert!(matches!(
        c.handle_incoming_message(SignalingMsg::Pong),
        ClientAction::Quiet
    ));
}

#[test]
fn client_pings_and_sends() {
    let mut c = SignalingClient::new(text("me"), text("ws://s"));
    assert!(matches!(
        c.step(ClientEvent::PingDue),
        ClientAction::Send(SignalingMsg::Ping)
    ));
    assert!(matches!(
        c.step(ClientEvent::Send(sdp("me", "p"))),
        ClientAction::Send(SignalingMsg::SDP { .. })
    ));
    assert!(matches!(c.step(ClientEvent::Received(Frame::Other)), ClientAction::Quiet));
    assert!(PING_INTERVAL_SECS < INACTIVE_TIMEOUT_SECS);
}

#[test]
fn client_stops_for_a_reason() {
    let cases = vec![
        (ClientEvent::PingFailed(text("e")), "Failed to send ping: e"),
        (ClientEvent::Received(Frame::Unreadable(text("e"))), "Parse error: e"),
        (ClientEvent::Received(Frame::Close), "Signaling server closed connection"),
        (ClientEvent::SocketError(text("e")), "Websocket error: e"),
        (ClientEvent::StreamClosed, "Websocket stream closed"),
        (ClientEvent::SendFailed(text("e")), "Send error: e"),
        (ClientEvent::CommandsClosed, "Command channel closed"),
        (ClientEvent::OutgoingClosed, "Outgoing message channel closed"),
        (ClientEvent::Shutdown, ""),
    ];
    for (event, reason) in cases {
        let mut c = SignalingClient::new(text("me"), text("ws://s"));
        c.step(ClientEvent::CreateSock { peer: text("p"), channel: 7 });
        assert_eq!(stop_reason(c.step(event)), reason);
        assert!(matches!(
            c.handle_incoming_message(sdp("p", "me")),
            ClientAction::Quiet
        ));
    }
}

#[test]
fn one_client_for_each_address() {
    let mut channel = SignalingChannel::new();
    assert!(channel.needs_client("ws://s"));
    let e = channel.client_for("ws://s").unwrap_err();
    assert_eq!(e, NoClient(text("ws://s")));
    assert_eq!(e.message(), "No signaling client for address ws://s");
    channel.add_client(text("ws://s"), 3);
    assert!(!channel.needs_client("ws://s"));
    assert!(channel.needs_client("ws://t"));
    assert_eq!(channel.client_for("ws://s"), Ok(3));
    assert_eq!(channel.remove("ws://s"), Some(3));
    assert_eq!(channel.remove("ws://s"), None);
    assert!(channel.needs_client("ws://s"));
}

#[test]
fn clients_that_are_gone() {
    assert_eq!(ClientGone::Closed(text("a")).message(), "Signaling client a channel closed");
    assert_eq!(
        ClientGone::Dropped(text("a")).message(),
        "Signaling client a dropped before reply"
    );
    assert_eq!(ClientGone::SockClosed.message(), "Signaling channel closed");
    assert_eq!(ClientGone::SdpClosed.message(), "SDP channel closed");
}

#[test]
fn unused_signaling_fails() {
    let mut channel = NoopSignalingChannel;
    let key_cert = KeyCert { key_der: vec![], cert_der: vec![] };
    assert_eq!(
        channel.bind(text("a"), text("i"), &key_cert, vec![]),
        Err(text("Envoy mode shouldn’t use signaling"))
    );
    assert_eq!(
        channel.send("a", SignalingMsg::Ping),
        Err(text("envoy mode: signaling unused"))
    );
    assert!(channel.create_sock("a", text("p")).is_err());
    channel.remove("a");
}

fn network() -> TestFactoryState {
    let mut state = TestFactoryState::new();
    state.bind("ws://s", "a", 1, &[text("b")]);
    state.bind("ws://s", "b", 2, &[text("a")]);
    state.bind("ws://t", "c", 3, &[]);
    state
}

#[test]
fn test_connect_message_routing() {
    let state = network();
    match state.route("ws://s", connect("a", "b")).unwrap() {
        Delivery::Report { channel, msg } => {
            assert_eq!(channel, 2);
            assert_eq!(msg.signaling_addr, "ws://s");
            assert_eq!(msg.msg.unwrap().to_text(), connect("a", "b").to_text());
        }
        _ => panic!("not reported"),
    }
}

#[test]
fn test_sdp_and_ice_candidate_routing() {
    let mut state = network();
    assert!(state.add_sock("ws://s", "b", text("a"), 9));
    assert!(!state.add_sock("ws://s", "nobody", text("a"), 9));
    assert!(matches!(
        state.route("ws://s", sdp("a", "b")).unwrap(),
        Delivery::Deliver { channel: 9, payload: Payload::SDP(s) } if s == "v=0"
    ));
    assert!(matches!(
        state.route("ws://s", candidate("a", "b")).unwrap(),
        Delivery::Deliver { channel: 9, payload: Payload::Candidate(s) } if s == "cand"
    ));
    let e = state.route("ws://s", sdp("b", "a")).err().unwrap();
    assert!(matches!(e, RouteError::NoSock { .. }));
    assert_eq!(e.message(), "Sock for peer b not found in receiver a");
}

#[test]
fn routing_failures() {
    let mut state = network();
    let e = state.route("ws://s", connect("a", "c")).err().unwrap();
    assert_eq!(e.message(), "Receiver c not bound to signaling addr ws://s");
    let e = state.route("ws://s", SignalingMsg::Ping).err().unwrap();
    assert_eq!(e.message(), "route: unexpected variant Ping");
    let e = state
        .route("ws://s", SignalingMsg::Rejected { id: text("x"), reason: text("y") })
        .err()
        .unwrap();
    assert_eq!(
        e.message(),
        "route: unexpected variant Rejected { id: \"x\", reason: \"y\" }"
    );
    state.update_trust("ws://s", "b", &[]);
    match state.route("ws://s", connect("a", "b")).unwrap() {
        Delivery::Report { channel, msg } => {
            assert_eq!(channel, 1);
            match msg.msg.unwrap() {
                SignalingMsg::Rejected { id, reason } => {
                    assert_eq!(id, "a");
                    assert_eq!(reason, "b does not trust sender");
                }
                _ => panic!("not rejected"),
            }
        }
        _ => panic!("not reported"),
    }
    state.remove("ws://s", "a");
    assert!(matches!(
        state.route("ws://s", connect("a", "b")).unwrap(),
        Delivery::Nothing
    ));
}

#[test]
fn trust_is_answered_in_process() {
    let mut state = network();
    let trust = SignalingMsg::Trust { sender: text("a"), trusted: vec![text("z")] };
    match state.handle_send("ws://s", 1, trust).unwrap() {
        Delivery::Report { channel, msg } => {
            assert_eq!(channel, 1);
            assert_eq!(
                msg.msg.unwrap().to_text(),
                "Trusted { id: \"a\", trusted: [\"z\"] }"
            );
        }
        _ => panic!("no answer"),
    }
    assert!(matches!(
        state.handle_send("ws://s", 2, connect("b", "a")).unwrap(),
        Delivery::Report { channel: 2, .. }
    ));
    assert!(matches!(
        state.handle_send("ws://s", 2, SignalingMsg::Ping).unwrap(),
        Delivery::Nothing
    ));
}

#[test]
fn bound_ids_are_remembered() {
    let mut channel = TestSignalingChannel::new();
    assert_eq!(channel.my_id("ws://s"), None);
    channel.note_bound(text("ws://s"), text("a"));
    assert_eq!(channel.my_id("ws://s"), Some(text("a")));
    assert_eq!(channel.my_id("ws://t"), None);
    let mut state = TestFactoryState::new();
    let e = channel.create_sock(&mut state, "ws://t", text("p"), 1).unwrap_err();
    assert_eq!(e, AddrNotBound(text("ws://t")));
    assert_eq!(e.message(), "Not bound to signaling addr ws://t");
    assert!(channel.create_sock(&mut state, "ws://s", text("p"), 1).is_err());
    state.bind("ws://s", "a", 4, &[text("p")]);
    let sock = channel.create_sock(&mut state, "ws://s", text("p"), 1).unwrap();
    assert_eq!(sock.id(), "p");
    assert!(matches!(
        state.route_from_sock("ws://s", sdp("p", "a")),
        Delivery::Deliver { channel: 1, payload: Payload::SDP(_) }
    ));
    assert!(matches!(
        state.route_from_sock("ws://s", connect("p", "a")),
        Delivery::Nothing
    ));
    assert!(matches!(
        state.route_from_sock("ws://s", sdp("p", "nobody")),
        Delivery::Nothing
    ));
}
