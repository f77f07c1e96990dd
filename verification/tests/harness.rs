use collab_mode::clock::{or_zero, unix_seconds};
use collab_mode::harness::{
    connected_fields, create_test_id, drain_response, full_permission, get_random_port, local_addr,
    match_notification, match_request, match_response, missed_message, opened_file,
    setup_hub_and_spoke_servers, setup_steps, shared_file, signaling_url, undo_ops, Awaited,
    Inbound, Missed, Permission, RequestIds, SetupStep,
};

fn text(s: &str) -> String {
    s.to_string()
}

#[test]
fn ports_and_addresses() {
    let mut seen = Vec::new();
    for _ in 0..50 {
        let port = get_random_port();
        assert!(port >= 49152);
        seen.push(port);
    }
    assert!(seen.iter().any(|p| *p != seen[0]));
    assert_eq!(local_addr(49152), "127.0.0.1:49152");
    assert_eq!(signaling_url("127.0.0.1:49152"), "ws://127.0.0.1:49152");
    assert_eq!(create_test_id("hub"), "hub");
}

#[test]
fn spokes_get_permissions() {
    let plan = setup_hub_and_spoke_servers(3, None).unwrap();
    assert_eq!(plan.hub_id, "hub");
    assert_eq!(plan.spoke_ids, vec![text("spoke1"), text("spoke2"), text("spoke3")]);
    assert_eq!(plan.spoke_permissions, vec![full_permission(); 3]);
    let read_only = Permission { write: false, create: false, delete: false };
    let plan = setup_hub_and_spoke_servers(1, Some(&[read_only])).unwrap();
    assert_eq!(plan.spoke_permissions, vec![read_only]);
    assert_eq!(plan.hub_permission, full_permission());
    assert_eq!(
        setup_hub_and_spoke_servers(2, Some(&[read_only])).err(),
        Some(text("spoke_permissions must have exactly 2 entries, got 1"))
    );
}

#[test]
fn hub_accepts_before_spokes_connect() {
    assert_eq!(
        setup_steps(2),
        vec![
            SetupStep::StartHub,
            SetupStep::Pause(100),
            SetupStep::Accept,
            SetupStep::AwaitAccepting,
            SetupStep::Pause(1000),
            SetupStep::StartSpoke(0),
            SetupStep::Connect(0),
            SetupStep::AwaitConnecting(0),
            SetupStep::StartSpoke(1),
            SetupStep::Connect(1),
            SetupStep::AwaitConnecting(1),
            SetupStep::AwaitHubConnected,
            SetupStep::AwaitHubConnected,
            SetupStep::AwaitSpokeConnected(0),
            SetupStep::AwaitSpokeConnected(1),
        ]
    );
}

#[test]
fn requests_are_numbered() {
    let mut ids = RequestIds::new();
    assert_eq!(ids.next_request_id(), 1);
    assert_eq!(ids.next_request_id(), 2);
}

#[test]
fn awaited_messages() {
    let note = || Inbound::Notification { method: text("Connected"), params: 7 };
    assert!(matches!(match_notification("Connected", note()), Awaited::Found(7)));
    assert!(matches!(match_notification("Connecting", note()), Awaited::Still()));
    assert!(matches!(match_response(1, 0, note()), Awaited::Still()));
    let request = || Inbound::Request { id: 4, method: text("Open"), params: 8 };
    assert!(matches!(match_request("Open", request()), Awaited::Found((4, 8))));
    assert!(matches!(match_request("Close", request()), Awaited::Still()));
    let result = || Inbound::Result { id: 5, result: Some(9) };
    assert!(matches!(match_response(5, 0, result()), Awaited::Found(9)));
    assert!(matches!(match_response(6, 0, result()), Awaited::Still()));
    assert!(matches!(match_notification("x", result()), Awaited::Still()));
    let nothing = || Inbound::Result { id: 5, result: None };
    assert!(matches!(match_response(5, 0, nothing()), Awaited::Found(0)));
    let failure = || Inbound::<i32>::Failure { id: 5, code: -32000, message: text("no") };
    match match_response(5, 0, failure()) {
        Awaited::Failed(e) => assert_eq!(e, "Response error: -32000 - no"),
        _ => panic!("no failure"),
    }
    assert_eq!(drain_response(Some(result())), Some(9));
    assert_eq!(drain_response(Some(nothing())), None);
    assert_eq!(drain_response(Some(failure())), None);
    assert_eq!(drain_response(Some(note())), None);
    assert_eq!(drain_response::<i32>(None), None);
}

#[test]
fn missed_messages() {
    assert_eq!(
        missed_message(&Missed::Notification(text("N"))),
        "Timeout waiting for notification: N"
    );
    assert_eq!(
        missed_message(&Missed::Request(text("R"))),
        "Timeout waiting for request: R"
    );
    assert_eq!(
        missed_message(&Missed::Response(-3)),
        "Timeout waiting for response to request -3"
    );
    assert_eq!(missed_message(&Missed::Closed), "Channel closed");
}

#[test]
fn replies_are_taken_apart() {
    assert_eq!(shared_file(Some(1), Some((1 << 32) + 2)), Ok((1, 2)));
    assert_eq!(shared_file(None, Some(1)), Err(text("Missing docId in response")));
    assert_eq!(shared_file(Some(1), None), Err(text("Missing siteId in response")));
    assert_eq!(opened_file(Some(1), Some(2), Some(text("c"))), Ok((1, 2, text("c"))));
    assert_eq!(opened_file(None, None, None), Err(text("Missing docId in response")));
    assert_eq!(
        opened_file(Some(1), Some(2), None),
        Err(text("Missing content in response"))
    );
    assert_eq!(undo_ops(Some(vec![1])), Ok(vec![1]));
    assert_eq!(undo_ops::<i32>(None), Err(text("Missing ops in undo response")));
    assert_eq!(
        connected_fields(Some(text("h")), Some(text("m"))),
        Ok((text("h"), text("m")))
    );
    assert_eq!(connected_fields(Some(text("h")), None), Ok((text("h"), text(""))));
    assert_eq!(
        connected_fields(None, None),
        Err(text("Missing hostId in Connected notification"))
    );
}

#[test]
fn the_clock_runs() {
    let now = unix_seconds().unwrap();
    assert!(now > 1_600_000_000);
    assert_eq!(or_zero(Some(5)), 5);
    assert_eq!(or_zero(None), 0);
}
