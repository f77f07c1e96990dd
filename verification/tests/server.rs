use collab_mode::signaling::auth::{sign_identity_at, AuthError, KeyCert};
use collab_mode::signaling::client::{prepare_bind, prepare_bind_at, ClientBindError};
use collab_mode::signaling::server::{
    check_hash, check_id, check_idle, collect, header_str, rejection, socket_step, validate_bind,
    validate_bind_at, BindError, BindHeaders, Connection, Incoming, Response, Server, SocketAction,
    SocketEvent,
};
use collab_mode::signaling::{IdentityError, SignalingMsg};
use collab_mode::types::make_id;

fn create_key_cert(name: &str) -> KeyCert {
    let made = rcgen::generate_simple_self_signed(vec![name.to_string()]).unwrap();
    KeyCert {
        key_der: made.key_pair.serialize_der(),
        cert_der: made.cert.der().to_vec(),
    }
}

fn texts(v: &[&str]) -> Vec<String> {
    v.iter().map(|s| s.to_string()).collect()
}

fn headers(key_cert: &KeyCert, id: &str, trusted: &str, now: u64) -> BindHeaders {
    let (identity, signature) = sign_identity_at(key_cert, now).unwrap();
    BindHeaders {
        id: Some(id.to_string()),
        identity: Some(identity.to_text()),
        signature: Some(signature.0),
        trusted: Some(trusted.to_string()),
    }
}

fn sdp(sender: &str, receiver: &str) -> SignalingMsg {
    SignalingMsg::SDP {
        sender: sender.to_string(),
        receiver: receiver.to_string(),
        sdp: "v=0".to_string(),
    }
}

#[test]
fn client_with_its_own_certificate_binds() {
    let key_cert = create_key_cert("alice");
    let id = make_id(Some("alice"), &key_cert.cert_der_hash());
    let h = headers(&key_cert, &id, "bob::1,carol::2", 1000);
    let (bound, trusted) = validate_bind_at(&h, 1030).unwrap();
    assert_eq!(bound, id);
    assert_eq!(trusted, texts(&["bob::1", "carol::2"]));
    assert_eq!(
        validate_bind_at(&h, 1031),
        Err(BindError::Verify(AuthError::Timestamp { timestamp: 1000, now: 1031 }))
    );
}

#[test]
fn plan_of_a_client_is_accepted() {
    let key_cert = create_key_cert("alice");
    let id = make_id(Some("alice"), &key_cert.cert_der_hash());
    let plan = prepare_bind(&id, &key_cert, &texts(&["bob"])).unwrap();
    let h = BindHeaders {
        id: Some(plan.id),
        identity: Some(plan.identity),
        signature: Some(plan.signature),
        trusted: Some(plan.trusted),
    };
    assert_eq!(validate_bind(&h).unwrap(), (id, texts(&["bob"])));
}

#[test]
fn client_does_not_bind_with_a_foreign_id() {
    let key_cert = create_key_cert("alice");
    let e = prepare_bind_at(&"alice::AB".to_string(), &key_cert, &[], 5).err().unwrap();
    assert!(matches!(e, ClientBindError::Hash { .. }));
    assert_eq!(
        e.message(),
        format!(
            "Endpoint id hash AB doesn't match our cert hash {}",
            key_cert.cert_der_hash()
        )
    );
    let id = make_id(None, &key_cert.cert_der_hash());
    let e = prepare_bind_at(&id, &key_cert, &texts(&["a,b"]), 5).err().unwrap();
    assert!(matches!(e, ClientBindError::Trusted(_)));
    let broken = KeyCert { key_der: vec![1, 2, 3], cert_der: key_cert.cert_der.clone() };
    let e = prepare_bind_at(&id, &broken, &[], 5).err().unwrap();
    assert!(matches!(e, ClientBindError::Auth(AuthError::Key(_))));
}

#[test]
fn headers_are_checked_in_order() {
    let key_cert = create_key_cert("alice");
    let id = make_id(Some("alice"), &key_cert.cert_der_hash());
    let mut h = headers(&key_cert, &id, "", 1000);
    h.trusted = None;
    assert_eq!(
        validate_bind_at(&h, 1000),
        Err(BindError::Missing("X-Collab-Trusted".to_string()))
    );
    h.signature = None;
    assert_eq!(
        validate_bind_at(&h, 1000).unwrap_err().message(),
        "missing X-Collab-Signature"
    );
    h.identity = Some("nonsense".to_string());
    assert_eq!(
        validate_bind(&h),
        Err(BindError::Identity(IdentityError::MissingSeparator))
    );
    h.identity = None;
    assert_eq!(
        validate_bind_at(&h, 1000).unwrap_err().message(),
        "missing X-Collab-Identity"
    );
    h.id = None;
    assert_eq!(
        validate_bind_at(&h, 1000).unwrap_err().message(),
        "missing X-Collab-Endpoint-Id"
    );
    assert_eq!(header_str(&Some("v".to_string()), "n"), Ok("v".to_string()));
    assert_eq!(header_str(&None, "n"), Err(BindError::Missing("n".to_string())));
}

#[test]
fn id_of_another_certificate_is_refused() {
    let alice = create_key_cert("alice");
    let bob = create_key_cert("bob");
    let h = headers(&alice, &make_id(Some("bob"), &bob.cert_der_hash()), "", 1000);
    let e = validate_bind_at(&h, 1000).unwrap_err();
    assert_eq!(
        e.message(),
        format!(
            "bind id hash {} != cert hash {}",
            bob.cert_der_hash(),
            alice.cert_der_hash()
        )
    );
    assert_eq!(rejection(&e), (401, e.message()));
    assert_eq!(check_hash("n::AB", "AB"), Ok(()));
    assert!(check_hash("n::AB", "AC").is_err());
}

#[test]
fn messages_reach_those_who_trust() {
    let mut server = Server::new();
    server.bind("a".to_string(), 1, &texts(&["b"]));
    server.bind("b".to_string(), 2, &texts(&[]));
    let b = Some("b".to_string());
    match server.handle_message(Incoming::Msg(sdp("b", "a")), &b) {
        Response::Forward { channel, msg } => {
            assert_eq!(channel, 1);
            assert_eq!(msg.to_text(), sdp("b", "a").to_text());
        }
        _ => panic!("not forwarded"),
    }
    let a = Some("a".to_string());
    match server.handle_message(Incoming::Msg(sdp("a", "b")), &a) {
        Response::Reply(SignalingMsg::Rejected { id, reason }) => {
            assert_eq!(id, "a");
            assert_eq!(reason, "Sender not in b’s trust list");
        }
        _ => panic!("not rejected"),
    }
    match server.handle_message(Incoming::Msg(sdp("a", "c")), &a) {
        Response::Reply(SignalingMsg::IdNotFound { id, reason }) => {
            assert_eq!(id, "a");
            assert_eq!(reason, "No endpoint found for id: c");
        }
        _ => panic!("found"),
    }
}

#[test]
fn new_trust_list_counts_at_once() {
    let mut server = Server::new();
    server.bind("a".to_string(), 1, &texts(&["b"]));
    server.bind("b".to_string(), 2, &texts(&[]));
    let trust = SignalingMsg::Trust { sender: "a".to_string(), trusted: texts(&["c"]) };
    match server.handle_message(Incoming::Msg(trust), &Some("a".to_string())) {
        Response::Reply(SignalingMsg::Trusted { id, trusted }) => {
            assert_eq!(id, "a");
            assert_eq!(trusted, texts(&["c"]));
        }
        _ => panic!("no answer"),
    }
    assert!(matches!(
        server.handle_message(Incoming::Msg(sdp("b", "a")), &Some("b".to_string())),
        Response::Reply(SignalingMsg::Rejected { .. })
    ));
    server.update_trust(&"nobody".to_string(), &texts(&["x"]));
    assert!(server.get_endpoint_info(&"nobody".to_string()).is_none());
    let info = server.get_endpoint_info(&"a".to_string()).unwrap();
    assert_eq!(info.channel, 1);
    assert!(info.trusted.contains("c"));
    assert!(!info.trusted.contains("b"));
    let set = collect(&texts(&["x", "x", "y"]));
    assert_eq!(set.len(), 2);
}

#[test]
fn foreign_sender_is_refused() {
    let mut server = Server::new();
    server.bind("a".to_string(), 1, &texts(&["b"]));
    let mallory = Some("m".to_string());
    let r = server.handle_message(Incoming::Msg(sdp("b", "a")), &mallory);
    assert!(r.is_final());
    match r {
        Response::Refuse { reason, error } => {
            assert_eq!(reason, "You are using a endpoint id different from the one recorded");
            assert_eq!(error, "Endpoint tries to use a different endpoint as previously used");
        }
        _ => panic!("not refused"),
    }
    assert!(check_id(&"m".to_string(), &mallory).is_ok());
    assert!(check_id(&"m".to_string(), &None).is_ok());
    assert!(check_id(&"n".to_string(), &mallory).is_err());
}

#[test]
fn other_input() {
    let mut server = Server::new();
    let id = Some("a".to_string());
    assert!(matches!(
        server.handle_message(Incoming::Msg(SignalingMsg::Ping), &id),
        Response::Alive
    ));
    assert!(matches!(
        server.handle_message(Incoming::Msg(SignalingMsg::Pong), &id),
        Response::Quiet
    ));
    match server.handle_message(
        Incoming::Msg(SignalingMsg::Terminate { reason: String::new() }),
        &id,
    ) {
        Response::Unsupported(reason) => {
            assert_eq!(reason, "Send Connect, SDP, Candidate, Trust, or Ping only")
        }
        _ => panic!("supported"),
    }
    match server.handle_message(Incoming::NotText, &id) {
        Response::Unsupported(reason) => assert_eq!(reason, "We only support text message"),
        _ => panic!("supported"),
    }
    let r = server.handle_message(Incoming::Broken("reset".to_string()), &id);
    assert!(r.is_final());
    assert!(matches!(r, Response::Stop(e) if e == "reset"));
}

#[test]
fn connection_ends_with_its_entry() {
    let mut server = Server::new();
    server.bind("b".to_string(), 2, &texts(&[]));
    let mut c = Connection::open(&mut server, "a".to_string(), &texts(&["b"]), 1, 100);
    assert!(server.get_endpoint_info(&"a".to_string()).is_some());
    assert!(c.check(0, 700).is_none());
    assert!(c.check(0, 701).is_some());
    assert!(matches!(
        c.handle(&mut server, Incoming::Msg(SignalingMsg::Ping), 500),
        Response::Alive
    ));
    assert!(c.check(0, 1100).is_none());
    assert!(matches!(
        c.handle(&mut server, Incoming::Msg(SignalingMsg::Pong), 900),
        Response::Quiet
    ));
    assert!(c.check(0, 1101).is_some());
    c.close(&mut server);
    assert!(matches!(
        server.handle_message(Incoming::Msg(sdp("b", "a")), &Some("b".to_string())),
        Response::Reply(SignalingMsg::IdNotFound { .. })
    ));
}

#[test]
fn old_and_idle_connections_are_closed() {
    let day = 43200u128 * 1_000_000_000;
    assert!(check_idle(day, 600, 0).is_none());
    assert!(matches!(
        check_idle(day, 601, 0),
        Some(SignalingMsg::Terminate { reason }) if reason == "No ping received in 10 minutes"
    ));
    assert!(matches!(
        check_idle(day + 1, 0, 5),
        Some(SignalingMsg::Terminate { reason }) if reason == "12-hour limit reached, need re-auth"
    ));
}

#[test]
fn sockets_of_clients() {
    let tick = |elapsed_nanos, now| SocketEvent::<u8, u8>::Tick { elapsed_nanos, now, last_ping: 0 };
    assert!(matches!(socket_step(tick(0, 540)), SocketAction::Wait));
    assert!(matches!(socket_step(tick(0, 601)), SocketAction::Terminate(_)));
    assert!(matches!(
        socket_step(SocketEvent::<u8, u8>::Received(3)),
        SocketAction::HandOver(3)
    ));
    assert!(matches!(
        socket_step(SocketEvent::<u8, u8>::Outgoing(4)),
        SocketAction::Send(4)
    ));
    assert!(matches!(socket_step(SocketEvent::<u8, u8>::Ended), SocketAction::Leave));
    assert!(matches!(socket_step(SocketEvent::<u8, u8>::SendFailed), SocketAction::Leave));
    assert!(matches!(socket_step(SocketEvent::<u8, u8>::Unserved), SocketAction::Leave));
}
