use collab_mode::message::{HeyMessage, Msg, RequestId};
use collab_mode::webchannel::byte_stream::{
    frame_bytes, outgoing_writes, take_frame, ReadError, StreamReader, MAX_FRAME_SIZE,
};
use collab_mode::webchannel::io_remote::{
    io_exit_notice, io_step, split_command, IoAction, IoEvent, IoExit, SshAction, SshRemote,
    SshStage,
};
use collab_mode::webchannel::sctp_remote::{
    classify_stream, decode_failure, encode_failure, exit_notice, now_secs, read_failure,
    verify_dtls_cert, CertError, Exit, RemoteAction, RemoteEvent, SctpRemote, StreamUse,
};
use collab_mode::webchannel::test_transport::{
    route_message, DeliverPlan, FactoryState, NotRegistered, TravelTime,
};
use collab_mode::webchannel::{
    broadcast_failures, connect_via, connection_broke, ice_progress, stream_id_init, ConnectVia,
    Message, SendError, SendPlan, TransportConfig, WebChannel, WebChannelError,
};

fn text(s: &str) -> String {
    s.to_string()
}

fn hey() -> Msg {
    Msg::Hey {
        hey: HeyMessage {
            message: text("hi"),
            credentials: text(""),
            version: text("v1.0.0"),
        },
    }
}

fn shared(doc: u32) -> Message {
    Message { host: text("test-a"), body: Msg::FileShared { doc }, req_id: None }
}

// *** Peers

#[test]
fn sides_differ() {
    assert_eq!(stream_id_init("a", "b"), 1);
    assert_eq!(stream_id_init("b", "a"), 2);
    assert_eq!(stream_id_init("a", "a"), 2);
    assert_eq!(stream_id_init("a", "ab"), 1);
    assert_eq!(stream_id_init("Z", "a"), 1);
    assert_eq!(stream_id_init("é", "z"), 2);
}

#[test]
fn transports_have_addresses() {
    let sctp = TransportConfig::SCTP { signaling_addr: text("wss://s") };
    assert_eq!(sctp.signaling_addr(), Some("wss://s"));
    let ssh = TransportConfig::SshStdio { ssh_host: text("h"), command: vec![], projects: vec![] };
    assert_eq!(ssh.signaling_addr(), None);
    assert_eq!(connect_via(true, ConnectVia::Sock), ConnectVia::InProcess);
    assert_eq!(connect_via(false, ConnectVia::Ssh), ConnectVia::Ssh);
}

#[test]
fn send_to_unconnected_fails() {
    let chan = WebChannel::new(text("a"));
    let plan = chan.send(&text("b"), None, hey());
    assert!(matches!(plan, SendPlan::NotConnected));
    let e = plan.outcome(true).unwrap_err();
    assert!(e.message().contains("Not connected"));
}

#[test]
fn connected_peer_gets_messages() {
    let mut chan = WebChannel::new(text("test-a"));
    assert_eq!(chan.hostid(), "test-a");
    assert_eq!(chan.connect_with_sock(&text("test-b"), 5, true), Ok((1, false)));
    assert_eq!(chan.handle_of("test-b"), Some(5));
    let req = Some(RequestId::Number(3));
    match chan.send(&text("test-b"), req, Msg::FileShared { doc: 42 }) {
        SendPlan::Forward { handle, message } => {
            assert_eq!(handle, 5);
            assert_eq!(message.host, "test-a");
            assert_eq!(message.body, Msg::FileShared { doc: 42 });
            assert_eq!(message.req_id, Some(RequestId::Number(3)));
            let plan = SendPlan::Forward { handle, message };
            assert_eq!(plan.outcome(true), Ok(()));
            assert_eq!(plan.outcome(false), Err(SendError::ChannelBroke));
        }
        _ => panic!("not forwarded"),
    }
    assert_eq!(chan.disconnect("test-b"), Some(5));
    assert_eq!(chan.disconnect("test-b"), None);
    assert!(matches!(
        chan.send(&text("test-b"), None, hey()),
        SendPlan::NotConnected
    ));
}

#[test]
fn message_to_oneself_stays() {
    let chan = WebChannel::new(text("a"));
    let plan = chan.send(&text("a"), None, hey());
    assert!(matches!(&plan, SendPlan::Loopback(m) if m.host == "a"));
    assert_eq!(plan.outcome(true), Ok(()));
    assert_eq!(plan.outcome(false), Err(SendError::LoopbackFull));
    assert_eq!(
        SendError::LoopbackFull.message(),
        "Loopback channel is full which shouldn’t happen; shutting down"
    );
    assert_eq!(SendError::ChannelBroke.message(), "Channel broke");
}

#[test]
fn live_connection_is_kept() {
    let mut chan = WebChannel::new(text("b"));
    chan.reserve(&text("a"), 1, true).unwrap();
    let e = chan.connect_with_sock(&text("a"), 2, true).unwrap_err();
    assert_eq!(e, WebChannelError::ConnectionExists(text("a")));
    assert_eq!(e.message(), "Connection to a already exists");
    assert_eq!(chan.handle_of("a"), Some(1));
    assert_eq!(chan.connect_with_sock(&text("a"), 2, false), Ok((2, true)));
    assert_eq!(chan.handle_of("a"), Some(2));
}

#[test]
fn test_sync_broadcast() {
    let mut chan = WebChannel::new(text("test-sender"));
    chan.reserve(&text("test-receiver1"), 1, true).unwrap();
    chan.reserve(&text("test-receiver2"), 2, true).unwrap();
    let sent = chan.broadcast(None, Msg::FileShared { doc: 123 });
    assert_eq!(sent.len(), 2);
    for (i, (peer, handle, m)) in sent.iter().enumerate() {
        assert_eq!(*peer, format!("test-receiver{}", i + 1));
        assert_eq!(*handle, i as u64 + 1);
        assert_eq!(m.host, "test-sender");
        assert_eq!(m.body, Msg::FileShared { doc: 123 });
    }
    let (notices, result) = broadcast_failures(&[text("x"), text("y")]);
    assert_eq!(notices, vec![connection_broke(&text("x")), connection_broke(&text("y"))]);
    assert_eq!(result, Err(text("broadcast failed for 2 peer(s)")));
    assert_eq!(broadcast_failures(&[]), (vec![], Ok(())));
    assert_eq!(chan.shutdown(), vec![1, 2]);
    assert!(chan.broadcast(None, hey()).is_empty());
}

#[test]
fn notices() {
    let m = connection_broke(&text("p"));
    assert_eq!(m.host, "p");
    assert_eq!(m.body, Msg::ConnectionBroke { peer: text("p") });
    assert_eq!(m.req_id, None);
    let m = ice_progress(&text("me"), &text("p"), text("Connected"));
    assert_eq!(m.host, "me");
    assert_eq!(m.body, Msg::IceProgress { peer: text("p"), message: text("Connected") });
}

// *** Frames

#[test]
fn frame_has_a_length() {
    let mut expected = vec![0, 0, 0, 0, 0, 0, 0, 3];
    expected.extend_from_slice(b"abc");
    assert_eq!(frame_bytes(b"abc"), expected);
    assert_eq!(frame_bytes(b""), vec![0; 8]);
    assert_eq!(take_frame(&expected), Some((b"abc".to_vec(), 11)));
    assert_eq!(take_frame(&expected[..10]), None);
    assert_eq!(take_frame(&expected[..7]), None);
    expected.push(9);
    assert_eq!(take_frame(&expected), Some((b"abc".to_vec(), 11)));
}

#[test]
fn large_message_is_chunked() {
    let data: Vec<u8> = (0..(2 * MAX_FRAME_SIZE + 5)).map(|i| (i % 251) as u8).collect();
    let writes = outgoing_writes(&data);
    let lens: Vec<usize> = writes.iter().map(|w| w.len()).collect();
    assert_eq!(lens, vec![8, MAX_FRAME_SIZE, MAX_FRAME_SIZE, 5]);
    assert_eq!(writes.concat(), frame_bytes(&data));
    let mut reader = StreamReader::new();
    for w in &writes {
        assert!(reader.outcome().is_none());
        assert!(reader.want() >= w.len());
        reader.feed(w);
    }
    assert_eq!(reader.outcome(), Some(Ok(&data[..])));
}

#[test]
fn stream_reader_asks_for_what_is_left() {
    let mut reader = StreamReader::new();
    assert_eq!(reader.want(), 8);
    reader.feed(&[0, 0, 0, 0, 0, 0, 0, 5]);
    assert_eq!(reader.want(), 5);
    reader.feed(b"ab");
    assert_eq!(reader.want(), 3);
    reader.feed(b"cde");
    assert_eq!(reader.outcome(), Some(Ok(&b"abcde"[..])));
    let mut reader = StreamReader::new();
    reader.feed(&[0; 8]);
    assert_eq!(reader.outcome(), Some(Ok(&b""[..])));
}

#[test]
fn streams_that_end_early() {
    let mut reader = StreamReader::new();
    reader.feed(&[0, 0, 0]);
    assert_eq!(reader.outcome(), Some(Err(ReadError::ShortPrefix { got: 3 })));
    assert_eq!(
        ReadError::ShortPrefix { got: 3 }.message(),
        "Failed to read full length (8 bytes) prefix: only got 3 bytes"
    );
    let mut reader = StreamReader::new();
    reader.feed(&[0, 0, 0, 0, 0, 0, 0, 5]);
    reader.feed(b"ab");
    reader.feed(&[]);
    assert_eq!(reader.outcome(), Some(Err(ReadError::Eof { expected: 5, got: 2 })));
    assert_eq!(
        ReadError::Eof { expected: 5, got: 2 }.message(),
        "EOF while reading content: expected 5 bytes, got 2"
    );
    let mut reader = StreamReader::new();
    reader.fail();
    assert_eq!(reader.outcome(), Some(Err(ReadError::Broken)));
    assert_eq!(
        ReadError::Broken.message(),
        "Failed to read from stream because buffer too short which should never happen"
    );
}

// *** Connections

#[test]
fn streams_are_told_apart() {
    assert_eq!(classify_stream(0, 1), StreamUse::Ping);
    assert_eq!(classify_stream(0, 2), StreamUse::Ping);
    assert_eq!(classify_stream(3, 1), StreamUse::Own);
    assert_eq!(classify_stream(4, 1), StreamUse::Message);
    assert_eq!(classify_stream(4, 2), StreamUse::Own);
    assert_eq!(classify_stream(3, 2), StreamUse::Message);
}

#[test]
fn stream_ids_go_round() {
    let mut r = SctpRemote::new(1, 1000);
    assert!(!r.as_server());
    assert_eq!(r.step(RemoteEvent::Outgoing), RemoteAction::Write(1));
    assert_eq!(r.step(RemoteEvent::Outgoing), RemoteAction::Write(3));
    r.next_stream_id = 65535;
    assert_eq!(r.step(RemoteEvent::Outgoing), RemoteAction::Write(65535));
    assert_eq!(r.step(RemoteEvent::Outgoing), RemoteAction::Write(1));
    let mut s = SctpRemote::new(2, 1000);
    assert!(s.as_server());
    s.next_stream_id = 65534;
    assert_eq!(s.step(RemoteEvent::Outgoing), RemoteAction::Write(65534));
    assert_eq!(s.step(RemoteEvent::Outgoing), RemoteAction::Write(2));
    let mut full = SctpRemote::new(2, 1000);
    for n in 0..40000u32 {
        let id = 2 + 2 * (n % 32767) as u16;
        assert_eq!(full.step(RemoteEvent::Outgoing), RemoteAction::Write(id));
    }
    assert_eq!(s.step(RemoteEvent::Stream(3)), RemoteAction::Read);
    assert_eq!(s.step(RemoteEvent::Stream(4)), RemoteAction::CloseRead);
    assert_eq!(s.step(RemoteEvent::Stream(0)), RemoteAction::Quiet);
}

#[test]
fn pings_keep_a_connection() {
    let mut r = SctpRemote::new(1, 1000);
    assert_eq!(r.step(RemoteEvent::Tick(1000)), RemoteAction::Ping);
    assert_eq!(r.step(RemoteEvent::PingSent(1000)), RemoteAction::Quiet);
    assert_eq!(r.step(RemoteEvent::Tick(1009)), RemoteAction::Quiet);
    assert_eq!(r.step(RemoteEvent::Tick(1010)), RemoteAction::Ping);
    assert_eq!(r.step(RemoteEvent::Tick(1030)), RemoteAction::Ping);
    assert_eq!(
        r.step(RemoteEvent::Tick(1031)),
        RemoteAction::Exit(Exit::PingTimeout)
    );
    assert_eq!(r.step(RemoteEvent::PingRead(1, 1020)), RemoteAction::Quiet);
    assert_eq!(r.handle_ping_tick(1050), RemoteAction::Ping);
    assert_eq!(r.handle_ping_tick(1051), RemoteAction::Exit(Exit::PingTimeout));
    assert_eq!(r.step(RemoteEvent::MessageRead(1040)), RemoteAction::Quiet);
    assert_eq!(r.handle_ping_tick(1070), RemoteAction::Ping);
    assert_eq!(r.step(RemoteEvent::BytesRead(0, 1060)), RemoteAction::Quiet);
    assert_eq!(r.handle_ping_tick(1071), RemoteAction::Exit(Exit::PingTimeout));
    assert_eq!(r.step(RemoteEvent::BytesRead(3, 1060)), RemoteAction::Quiet);
    assert_eq!(r.handle_ping_tick(1090), RemoteAction::Ping);
    assert_eq!(r.handle_ping_tick(1091), RemoteAction::Exit(Exit::PingTimeout));
    assert_eq!(r.handle_ping_tick(5), RemoteAction::Quiet);
    assert_eq!(SctpRemote::new(1, 3).last_ping_sent, 0);
    assert!(now_secs() > 1_600_000_000);
}

#[test]
fn connections_end() {
    let ends = [
        (RemoteEvent::PingOpenFailed, Exit::NoPingStream),
        (RemoteEvent::Shutdown, Exit::Shutdown),
        (RemoteEvent::SenderDropped, Exit::SenderDropped),
        (RemoteEvent::WriteFailed, Exit::OutgoingErr),
        (RemoteEvent::StreamsClosed, Exit::IncomingClosed),
        (RemoteEvent::PingFailed, Exit::OutgoingErr),
        (RemoteEvent::PingRead(0, 5), Exit::PingTimeout),
        (RemoteEvent::PingReadFailed, Exit::PingTimeout),
    ];
    for (event, exit) in ends {
        let mut r = SctpRemote::new(1, 1000);
        assert_eq!(r.step(event), RemoteAction::Exit(exit));
        let notice = exit_notice(exit, &text("p"));
        if exit == Exit::Shutdown {
            assert_eq!(notice, None);
        } else {
            assert_eq!(notice, Some(connection_broke(&text("p"))));
        }
    }
}

#[test]
fn unreadable_messages_are_reported() {
    let reason = |m: Message| match m.body {
        Msg::SerializationErr { reason } => reason,
        _ => panic!("other message"),
    };
    assert_eq!(
        reason(read_failure(&text("p"), ReadError::ShortPrefix { got: 1 })),
        "Failed to read full length (8 bytes) prefix: only got 1 bytes"
    );
    assert_eq!(
        reason(decode_failure(&text("p"), "expected value")),
        "Failed to deserialize message: expected value"
    );
    assert_eq!(reason(encode_failure(&text("p"))), "p");
}

#[test]
fn certificates_are_compared() {
    let hash = "BA:78:16:BF:8F:01:CF:EA:41:41:40:DE:5D:AE:22:23:B0:03:61:A3:96:17:7A:9C:B4:10:FF:61:F2:00:15:AD";
    let certs = vec![b"abc".to_vec(), b"other".to_vec()];
    let provided = match verify_dtls_cert(&text("x"), &certs) {
        Err(CertError::Mismatch { expected, provided }) => {
            assert_eq!(expected, "x");
            provided
        }
        _ => panic!("accepted"),
    };
    assert_eq!(provided.to_uppercase(), hash);
    assert!(verify_dtls_cert(&provided, &certs).is_ok());
    let e = verify_dtls_cert(&text("x"), &[]).unwrap_err();
    assert_eq!(e.message(), "Remote host provided empty certificate");
    let e = verify_dtls_cert(&text("x"), &certs).unwrap_err();
    assert_eq!(
        e.message(),
        format!(
            "Certificate hash mismatch, cert from signaling server = x, cert provided by DTLS = {}",
            provided
        )
    );
}

#[test]
fn byte_stream_connections() {
    let cases = [
        (IoEvent::Outgoing, IoAction::Write),
        (IoEvent::Inbound, IoAction::Forward),
        (IoEvent::Shutdown, IoAction::Exit(IoExit::Shutdown)),
        (IoEvent::WriteFailed, IoAction::Exit(IoExit::OutgoingErr)),
        (IoEvent::SenderDropped, IoAction::Exit(IoExit::SenderDropped)),
        (IoEvent::ForwardFailed, IoAction::Exit(IoExit::InboundClosed)),
        (IoEvent::ReadFailed, IoAction::Exit(IoExit::InboundClosed)),
    ];
    for (event, action) in cases {
        assert_eq!(io_step(event), action);
    }
    assert_eq!(io_exit_notice(IoExit::Shutdown, &text("p")), None);
}

#[test]
fn eof_emits_connection_broke() {
    let exit = match io_step(IoEvent::ReadFailed) {
        IoAction::Exit(exit) => exit,
        _ => panic!("goes on"),
    };
    let m = io_exit_notice(exit, &text("b")).unwrap();
    assert!(matches!(m.body, Msg::ConnectionBroke { peer: _ }));
}

#[test]
fn commands_over_ssh() {
    let command = vec![text("collab-mode"), text("envoy"), text("-v")];
    assert_eq!(
        split_command(&command),
        (text("collab-mode"), vec![text("envoy"), text("-v")])
    );
    let remote = SshRemote::new(text("p"), text("host"), command, 17);
    assert_eq!(remote.step(SshStage::Start, true), SshAction::Connect);
    assert_eq!(
        remote.step(SshStage::Connected, true),
        SshAction::Spawn { program: text("collab-mode"), args: vec![text("envoy"), text("-v")] }
    );
    assert_eq!(remote.step(SshStage::Spawned, true), SshAction::TakePipes);
    assert_eq!(remote.step(SshStage::Piped, true), SshAction::Run);
    let broke = SshAction::Broke { notice: connection_broke(&text("p")), connection_id: 17 };
    assert_eq!(remote.step(SshStage::Connected, false), broke);
    let empty = SshRemote::new(text("p"), text("host"), vec![], 17);
    assert_eq!(empty.step(SshStage::Start, true), broke);
}

// *** In-process transport

/// What the second host gets when the first one sends `doc` to it.
fn sent_between(doc: u32, time: TravelTime) -> (WebChannel, DeliverPlan, Vec<Message>) {
    let mut chan_a = WebChannel::new(text("test-a"));
    let chan_b = WebChannel::new(text("test-b"));
    let mut state = FactoryState::default();
    state.register(chan_b.hostid(), 4);
    chan_a.reserve(&chan_b.hostid(), 1, false).unwrap();
    let message = match chan_a.send(&chan_b.hostid(), None, Msg::FileShared { doc }) {
        SendPlan::Forward { handle: 1, message } => message,
        _ => panic!("not forwarded"),
    };
    let plan = route_message(&mut state, &chan_b.hostid(), message, time.delay_ms()).unwrap();
    let (messages, channel) = state.drain(&chan_b.hostid()).unwrap();
    assert_eq!(channel, 4);
    assert_eq!(state.drain(&chan_b.hostid()), Ok((vec![], 4)));
    (chan_a, plan, messages)
}

#[test]
fn test_sync_send_instant() {
    let (chan_a, plan, messages) = sent_between(42, TravelTime::Instant);
    assert_eq!(plan, DeliverPlan::Now);
    assert_eq!(messages.len(), 1);
    assert_eq!(messages[0].host, chan_a.hostid());
    assert!(matches!(messages[0].body, Msg::FileShared { doc: 42 }));
}

#[test]
fn test_sync_send_ms_zero() {
    let (chan_a, plan, messages) = sent_between(99, TravelTime::Ms(0));
    assert_eq!(plan, DeliverPlan::Now);
    assert_eq!(messages.len(), 1);
    assert_eq!(messages[0].host, chan_a.hostid());
    assert!(matches!(messages[0].body, Msg::FileShared { doc: 99 }));
}

#[test]
fn delayed_messages_wait_in_order() {
    let mut state = FactoryState::new();
    state.register(text("test-b"), 4);
    assert_eq!(
        route_message(&mut state, &text("test-b"), shared(99), 0),
        Ok(DeliverPlan::Now)
    );
    assert_eq!(
        route_message(&mut state, &text("test-b"), shared(100), 25),
        Ok(DeliverPlan::Later(25))
    );
    assert_eq!(
        state.drain(&text("test-b")),
        Ok((vec![shared(99), shared(100)], 4))
    );
}

#[test]
fn unknown_hosts_get_nothing() {
    let mut state = FactoryState::new();
    let e = state.push(&text("x"), shared(1)).unwrap_err();
    assert_eq!(e, NotRegistered(text("x")));
    assert_eq!(e.message(), "Host x not registered");
    assert!(state.drain(&text("x")).is_err());
    assert!(route_message(&mut state, &text("x"), shared(1), 0).is_err());
}

#[test]
fn travel_times() {
    assert_eq!(TravelTime::Ms(12).delay_ms(), 12);
    assert_eq!(TravelTime::Random(10, 14).delay_with(0), 10);
    assert_eq!(TravelTime::Random(10, 14).delay_with(7), 12);
    assert_eq!(TravelTime::Random(3, 3).delay_with(u64::MAX), 3);
    let mut seen = Vec::new();
    for _ in 0..200 {
        let d = TravelTime::Random(10, 1000).delay_ms();
        assert!(10 <= d && d <= 1000);
        seen.push(d);
    }
    assert!(seen.iter().any(|d| *d != seen[0]));
}
