use vfriend::codec::{encode_request, encode_share};
use vfriend::data::{FriendEvent, ShareData};
use vfriend::service::{FriendExchangeService, ServiceError};

// The canonical encoding of the curve base point: a well-formed endpoint
// identity that `send_friend_request` accepts.
const VALID_PEER_ID: &str = "5866666666666666666666666666666666666666666666666666666666666666";

fn profile(name: &str, reg: &str) -> ShareData {
    ShareData {
        u: name.to_string(),
        r: reg.to_string(),
        s: 3,
        h: vec![],
        q: vec![],
        t: "2025-06-14T13:10:21+00:00".to_string(),
        o: vec![],
    }
}

#[test]
fn accept_unknown_remote_fails_not_found_and_keeps_registry() {
    let mut svc = FriendExchangeService::new("self".to_string());
    svc.start();
    let before = svc.registry.len();
    let r = svc.accept_friend_request(&"ghost".to_string(), &profile("me", "me_reg"));
    assert_eq!(r.unwrap_err(), ServiceError::NotFound);
    assert_eq!(svc.registry.len(), before);
}

#[test]
fn reject_unknown_remote_fails_not_found_and_keeps_registry() {
    let mut svc = FriendExchangeService::new("self".to_string());
    svc.start();
    let r = svc.reject_friend_request(&"ghost".to_string());
    assert_eq!(r.unwrap_err(), ServiceError::NotFound);
    assert_eq!(svc.registry.len(), 0);
}

#[test]
fn second_accept_for_same_remote_fails_not_found() {
    let mut svc = FriendExchangeService::new("self".to_string());
    svc.start();
    let payload = encode_request("peer_reg", "peer");
    svc.handle_incoming(7, "peer_conn_id".to_string(), &payload)
        .expect("well-formed request registers");
    let me = profile("me", "me_reg");
    svc.accept_friend_request(&"peer_conn_id".to_string(), &me)
        .expect("first accept consumes the entry");
    let again = svc.accept_friend_request(&"peer_conn_id".to_string(), &me);
    assert_eq!(again.unwrap_err(), ServiceError::NotFound);
}

#[test]
fn second_reject_for_same_remote_fails_not_found() {
    let mut svc = FriendExchangeService::new("self".to_string());
    svc.start();
    let payload = encode_request("peer_reg", "peer");
    svc.handle_incoming(7, "peer_conn_id".to_string(), &payload)
        .expect("well-formed request registers");
    svc.reject_friend_request(&"peer_conn_id".to_string())
        .expect("first reject consumes the entry");
    let again = svc.reject_friend_request(&"peer_conn_id".to_string());
    assert_eq!(again.unwrap_err(), ServiceError::NotFound);
}

#[test]
fn stop_then_start_discovery_leaves_one_task() {
    let mut svc = FriendExchangeService::new("self".to_string());
    // before start there is no channel: discovery will not run
    assert!(svc.start_discovery().is_none());
    assert!(svc.discovery_task.is_none());
    svc.start();
    let first = svc.start_discovery().expect("started service spawns a task");
    assert_eq!(first.cancel, None);
    assert_eq!(svc.discovery_task, Some(first.spawn));
    // restarting cancels the previous task before spawning the next
    let second = svc.start_discovery().expect("restart spawns a task");
    assert_eq!(second.cancel, Some(first.spawn));
    assert_eq!(svc.discovery_task, Some(second.spawn));
    // stop then start: exactly the new task is alive
    let cancelled = svc.stop_discovery();
    assert_eq!(cancelled, Some(second.spawn));
    assert_eq!(svc.discovery_task, None);
    let third = svc.start_discovery().expect("start after stop spawns a task");
    assert_eq!(third.cancel, None);
    assert_eq!(svc.discovery_task, Some(third.spawn));
    // stopping twice is a no-op the second time
    assert_eq!(svc.stop_discovery(), Some(third.spawn));
    assert_eq!(svc.stop_discovery(), None);
}

#[test]
fn discovery_filters_out_the_local_identity() {
    let mut svc = FriendExchangeService::new("self_id".to_string());
    svc.start();
    svc.handle_discovery("self_id".to_string(), 100);
    svc.handle_discovery("other_id".to_string(), 101);
    let events = svc.take_events();
    assert_eq!(events.len(), 1);
    match &events[0] {
        FriendEvent::PeerDiscovered { peer } => {
            assert_eq!(peer.endpoint_id, "other_id");
            assert_eq!(peer.timestamp, 101);
        }
        other => panic!("expected a discovery event, got {:?}", other),
    }
}

#[test]
fn send_friend_request_rejects_malformed_identity() {
    let svc = FriendExchangeService::new("self".to_string());
    let r = svc.send_friend_request(&"not a key".to_string(), &profile("me", "me_reg"));
    assert_eq!(r.unwrap_err(), ServiceError::InvalidAddress);
}

#[test]
fn send_friend_request_accepts_well_formed_identity() {
    let svc = FriendExchangeService::new("self".to_string());
    let attempt = svc
        .send_friend_request(&VALID_PEER_ID.to_string(), &profile("alice", "alice_reg"))
        .expect("a well-formed identity passes validation");
    assert_eq!(
        attempt.request_bytes,
        b"{\"from\":\"alice_reg\",\"name\":\"alice\"}".to_vec()
    );
}

#[test]
fn rejecting_never_sends_profile_bytes() {
    let mut responder = FriendExchangeService::new("bob_id".to_string());
    responder.start();
    let payload = encode_request("alice_reg", "alice");
    responder
        .handle_incoming(3, "alice_as_seen".to_string(), &payload)
        .expect("request registers");
    let directive = responder
        .reject_friend_request(&"alice_as_seen".to_string())
        .expect("reject consumes the entry");
    // the refusal is the whole answer: no profile payload exists in it
    assert_eq!(directive.response_bytes, b"{\"accepted\":false}".to_vec());
    assert_eq!(directive.conn, 3);
    // and the initiator, reading it, stops before opening stream two
    let alice = profile("alice", "alice_reg");
    let initiator = FriendExchangeService::new("alice_id".to_string());
    let r = initiator.send_friend_request_response(&alice, &directive.response_bytes);
    assert_eq!(r.unwrap_err(), ServiceError::Rejected);
}

#[test]
fn full_exchange_is_faithful_both_ways() {
    // service A (alice) and service B (bob), wired back to back
    let mut a = FriendExchangeService::new("alice_endpoint".to_string());
    let mut b = FriendExchangeService::new("bob_endpoint".to_string());
    let alice_profile = profile("alice", "alice_reg");
    let bob_profile = profile("bob", "bob_reg");
    a.set_share_data(alice_profile.clone());
    b.set_share_data(bob_profile.clone());
    a.start();
    b.start();
    a.start_discovery().expect("discovery starts");
    b.start_discovery().expect("discovery starts");

    // A sees B on the local network
    a.handle_discovery("bob_endpoint".to_string(), 42);
    let seen = a.take_events();
    assert!(matches!(&seen[0], FriendEvent::PeerDiscovered { peer } if peer.endpoint_id == "bob_endpoint"));

    // A opens the handshake; B's handler reads the request off stream one
    let attempt = a
        .send_friend_request(&VALID_PEER_ID.to_string(), &alice_profile)
        .expect("identity validates");
    let incoming = b
        .handle_incoming(11, "alice_as_seen_by_b".to_string(), &attempt.request_bytes)
        .expect("request decodes");
    assert_eq!(incoming.from, "alice_reg");
    assert_eq!(incoming.name, "alice");
    let announced = b.take_events();
    assert!(matches!(&announced[0], FriendEvent::IncomingRequest { request }
        if request.from == "alice_reg" && request.name == "alice"));

    // B accepts; its consent and its profile travel back
    let accept = b
        .accept_friend_request(&"alice_as_seen_by_b".to_string(), &bob_profile)
        .expect("pending entry exists");
    assert_eq!(accept.conn, 11);

    // A reads the consent and sends its profile on stream two
    let alice_bytes = a
        .send_friend_request_response(&alice_profile, &accept.response_bytes)
        .expect("consent decodes");
    assert_eq!(alice_bytes, encode_share(&alice_profile));

    // each side decodes what the other sent: the exchange is faithful
    let bob_received = b
        .accept_friend_request_finish(&alice_bytes)
        .expect("alice's profile decodes");
    assert_eq!(bob_received, alice_profile);
    let alice_received = a
        .send_friend_request_finish(&accept.my_data_bytes)
        .expect("bob's profile decodes");
    assert_eq!(alice_received, bob_profile);

    assert!(matches!(&a.take_events()[0], FriendEvent::DataReceived { share_data } if *share_data == bob_profile));
    assert!(matches!(&b.take_events()[0], FriendEvent::RequestAccepted { share_data } if *share_data == alice_profile));
}

#[test]
fn rejected_exchange_fails_the_initiator_and_empties_the_registry() {
    let mut a = FriendExchangeService::new("alice_endpoint".to_string());
    let mut b = FriendExchangeService::new("bob_endpoint".to_string());
    let alice_profile = profile("alice", "alice_reg");
    a.start();
    b.start();
    let attempt = a
        .send_friend_request(&VALID_PEER_ID.to_string(), &alice_profile)
        .expect("identity validates");
    b.handle_incoming(4, "alice_as_seen_by_b".to_string(), &attempt.request_bytes)
        .expect("request decodes");
    let directive = b
        .reject_friend_request(&"alice_as_seen_by_b".to_string())
        .expect("pending entry exists");
    let r = a.send_friend_request_response(&alice_profile, &directive.response_bytes);
    assert_eq!(r.unwrap_err(), ServiceError::Rejected);
    assert_eq!(b.registry.len(), 0);
}

#[test]
fn malformed_request_fails_only_that_connection() {
    let mut b = FriendExchangeService::new("bob_endpoint".to_string());
    b.start();
    let r = b.handle_incoming(9, "mallory".to_string(), b"{{{ not json");
    assert_eq!(r.unwrap_err(), ServiceError::BadMessage);
    // the registry is untouched and the failure is announced
    assert_eq!(b.registry.len(), 0);
    let events = b.take_events();
    assert!(matches!(&events[0], FriendEvent::Error { .. }));
    // an unrelated handshake still goes through afterwards
    let payload = encode_request("carol_reg", "carol");
    b.handle_incoming(10, "carol_conn".to_string(), &payload)
        .expect("later requests are unaffected");
    assert_eq!(b.registry.len(), 1);
    let me = profile("bob", "bob_reg");
    b.accept_friend_request(&"carol_conn".to_string(), &me)
        .expect("the later request can be accepted");
}

#[test]
fn duplicate_requests_from_one_peer_pile_up() {
    let mut b = FriendExchangeService::new("bob_endpoint".to_string());
    b.start();
    let payload = encode_request("peer_reg", "peer");
    b.handle_incoming(1, "peer_conn".to_string(), &payload).unwrap();
    b.handle_incoming(2, "peer_conn".to_string(), &payload).unwrap();
    assert_eq!(b.registry.len(), 2);
    // each accept consumes exactly one entry, oldest first
    let me = profile("bob", "bob_reg");
    let first = b.accept_friend_request(&"peer_conn".to_string(), &me).unwrap();
    assert_eq!(first.conn, 1);
    let second = b.accept_friend_request(&"peer_conn".to_string(), &me).unwrap();
    assert_eq!(second.conn, 2);
    assert!(b.accept_friend_request(&"peer_conn".to_string(), &me).is_err());
}

#[test]
fn shutdown_orders_the_discovery_task_cancelled() {
    let mut svc = FriendExchangeService::new("self".to_string());
    svc.start();
    let spawned = svc.start_discovery().expect("task spawns");
    let directive = svc.shutdown();
    assert_eq!(directive.cancel_discovery, Some(spawned.spawn));
}

#[test]
fn garbage_response_is_a_bad_message() {
    let initiator = FriendExchangeService::new("alice_id".to_string());
    let alice = profile("alice", "alice_reg");
    let r = initiator.send_friend_request_response(&alice, b"\x00\x01 nonsense");
    assert_eq!(r.unwrap_err(), ServiceError::BadMessage);
    let mut a = FriendExchangeService::new("alice_id".to_string());
    let r = a.send_friend_request_finish(b"also nonsense");
    assert_eq!(r.unwrap_err(), ServiceError::BadMessage);
}

#[test]
fn error_messages_name_the_failure() {
    assert_eq!(ServiceError::NotFound.message(), "no pending request from this peer");
    assert_eq!(ServiceError::Rejected.message(), "friend request was rejected");
    assert_eq!(ServiceError::BadMessage.message(), "malformed message payload");
    assert_eq!(ServiceError::InvalidAddress.message(), "invalid endpoint id");
}
