use collab_mode::message::Msg;
use collab_mode::ssh_channel::{
    connect_error, ssh_reader_writer, SshFailure, SshMsgChannel, SshNext, SshProgress, SshSendPlan,
    TransportKind,
};
use collab_mode::websocket_receptor::{receptor_step, ReceptorAction, ReceptorEvent};

fn text(s: &str) -> String {
    s.to_string()
}

#[test]
fn peers_over_ssh() {
    let mut chan = SshMsgChannel::new(text("me"), vec![text("collab-mode"), text("--envoy")]);
    let msg = || Msg::FileShared { doc: 1 };
    assert!(matches!(chan.send(&text("me"), None, msg()), SshSendPlan::Loopback(m) if m.host == "me"));
    match chan.send(&text("p"), None, msg()) {
        SshSendPlan::NotConnected(reason) => assert_eq!(reason, "Not connected to p"),
        _ => panic!("connected"),
    }
    chan.add_peer(text("p"), 1);
    chan.add_peer(text("q"), 2);
    chan.add_peer(text("p"), 3);
    assert!(matches!(
        chan.send(&text("p"), None, msg()),
        SshSendPlan::Forward { handle: 3, message } if message.host == "me"
    ));
    assert_eq!(chan.broadcast(), vec![text("p"), text("q")]);
    assert_eq!(chan.disconnect("p"), Some(3));
    assert_eq!(chan.disconnect("p"), None);
    assert_eq!(chan.broadcast(), vec![text("q")]);
}

#[test]
fn only_ssh_will_do() {
    assert_eq!(
        SshMsgChannel::connect_target(TransportKind::Ssh { ssh_host: text("h") }),
        Ok(text("h"))
    );
    assert_eq!(
        SshMsgChannel::connect_target(TransportKind::Sock),
        Err(text("SshMsgChannel does not handle Sock transports"))
    );
    assert_eq!(
        SshMsgChannel::connect_target(TransportKind::Dummy),
        Err(text("SshMsgChannel does not handle Dummy transport"))
    );
    assert_eq!(connect_error("h"), "Spawning ssh to h");
}

fn failure(progress: SshProgress<u8, u16>) -> String {
    match ssh_reader_writer(&[text("prog")], progress) {
        SshNext::Fail(f) => f.message("host", "prog"),
        _ => panic!("goes on"),
    }
}

#[test]
fn command_comes_up_step_by_step() {
    let command = vec![text("prog"), text("x")];
    let next = |p: SshProgress<u8, u16>| ssh_reader_writer(&command, p);
    assert!(matches!(next(SshProgress::Start), SshNext::Connect));
    match next(SshProgress::Session(Ok(()))) {
        SshNext::Spawn { program, args } => {
            assert_eq!(program, "prog");
            assert_eq!(args, vec![text("x")]);
        }
        _ => panic!("no program"),
    }
    assert!(matches!(next(SshProgress::Program(Ok(()))), SshNext::TakeStdin));
    assert!(matches!(next(SshProgress::Stdin(Some(1))), SshNext::TakeStdout(1)));
    assert!(matches!(
        next(SshProgress::Stdout(1, Some(2))),
        SshNext::Ready { stdin: 1, stdout: 2 }
    ));
}

#[test]
fn command_fails() {
    assert_eq!(
        failure(SshProgress::Session(Err(text("e")))),
        "openssh connect to host"
    );
    assert_eq!(
        failure(SshProgress::Program(Err(text("e")))),
        "openssh spawn prog on host"
    );
    assert_eq!(failure(SshProgress::Stdin(None)), "openssh child missing stdin");
    assert_eq!(failure(SshProgress::Stdout(1, None)), "openssh child missing stdout");
    assert_eq!(
        SshFailure::Ended.message("host", "prog"),
        "openssh spawn task ended before sending result"
    );
}

#[test]
fn receptor_decisions() {
    let step = |e| receptor_step("1.2.3.4:5", e);
    assert!(matches!(step(ReceptorEvent::RemoteClosed), ReceptorAction::Stop));
    assert!(matches!(step(ReceptorEvent::NotText), ReceptorAction::Continue));
    assert!(matches!(step(ReceptorEvent::Message), ReceptorAction::HandOn));
    assert!(matches!(step(ReceptorEvent::CallerGone), ReceptorAction::Stop));
    assert!(matches!(step(ReceptorEvent::Outgoing), ReceptorAction::Send));
    assert!(matches!(
        step(ReceptorEvent::StreamFailed(text("e"))),
        ReceptorAction::ReportAndStop(s) if s == "Connection with 1.2.3.4:5 broke: e"
    ));
    assert!(matches!(
        step(ReceptorEvent::SendFailed(text("e"))),
        ReceptorAction::ReportAndStop(s) if s == "Connection with 1.2.3.4:5 broke: e"
    ));
    assert!(matches!(
        step(ReceptorEvent::Unreadable(text("e"))),
        ReceptorAction::Report(s) if s == "Can't parse message: e"
    ));
}
