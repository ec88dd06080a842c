use pubsub_service::{
    announce, route_decoded, Effect, InFlight, Notification, Payload, PubSubCore, PubSubItem,
    RequestId, Response, ResponseRoute, SerializedRequest, ServiceError, SubId,
};

fn id_str(s: &str) -> RequestId {
    RequestId::Str(s.to_string())
}

fn plain_request(id: &str, method: &str) -> SerializedRequest {
    SerializedRequest {
        id: id_str(id),
        method: method.to_string(),
        subscription: false,
        params: "[]".to_string(),
        frame: format!(r#"{{"method":"{}","params":[],"id":"{}","jsonrpc":"2.0"}}"#, method, id),
    }
}

fn subscribe_request(id: &str) -> SerializedRequest {
    SerializedRequest {
        id: id_str(id),
        method: "eth_subscribe".to_string(),
        subscription: false,
        params: r#"["newHeads"]"#.to_string(),
        frame: format!(r#"{{"method":"eth_subscribe","params":["newHeads"],"id":"{}","jsonrpc":"2.0"}}"#, id),
    }
}

fn success(id: &str, raw: &str) -> PubSubItem {
    PubSubItem::Response(Response { id: id_str(id), payload: Payload::Success(raw.to_string()) })
}

fn small(v: u64) -> SubId {
    SubId { l0: v, l1: 0, l2: 0, l3: 0 }
}

fn notification(server: u64, raw: &str) -> PubSubItem {
    PubSubItem::Notification(Notification { subscription: small(server), result: raw.to_string() })
}

fn expected_local_id() -> SubId {
    let h = alloy_primitives::keccak256(br#"["newHeads"]"#.as_slice());
    let l = alloy_primitives::U256::from_be_bytes(h.0).into_limbs();
    SubId { l0: l[0], l1: l[1], l2: l[2], l3: l[3] }
}

fn expected_local_json() -> String {
    let h = alloy_primitives::keccak256(br#"["newHeads"]"#.as_slice());
    format!("\"{}\"", h)
}

/// Subscribes under "a" and returns the local identifier handed to the caller.
fn open_subscription(core: &mut PubSubCore<u32>) -> SubId {
    let frame = core.service_request(InFlight::new(subscribe_request("a"), 1));
    assert_eq!(frame, subscribe_request("a").frame);
    match core.handle_item(success("a", "\"0xab\"")) {
        Ok(Effect::Subscribed(l, created, waiter, resp)) => {
            assert!(created);
            assert_eq!(waiter, Some(1));
            assert!(matches!(resp.id, RequestId::Str(ref s) if s == "a"));
            match resp.payload {
                Payload::Success(s) => assert_eq!(s, expected_local_json()),
                Payload::Failure(_) => panic!("expected a success"),
            }
            l
        }
        _ => panic!("expected a subscription"),
    }
}

#[test]
fn plain_request_is_answered() {
    let mut core: PubSubCore<u32> = PubSubCore::new();
    let frame = core.service_request(InFlight::new(plain_request("7", "eth_blockNumber"), 7));
    assert_eq!(frame, plain_request("7", "eth_blockNumber").frame);
    match core.handle_item(success("7", "42")) {
        Ok(Effect::Reply(Some(7), resp)) => match resp.payload {
            Payload::Success(s) => assert_eq!(s, "42"),
            Payload::Failure(_) => panic!("expected a success"),
        },
        _ => panic!("expected a reply"),
    }
    assert_eq!(core.in_flights.len(), 0);
}

#[test]
fn subscribe_hands_out_local_id() {
    let mut core: PubSubCore<u32> = PubSubCore::new();
    let l = open_subscription(&mut core);
    assert_eq!(l, expected_local_id());
    assert_ne!(l, small(0xab));
    assert_eq!(core.subs.local_id_for(small(0xab)), Some(l));
    assert_eq!(core.in_flights.len(), 0);
}

#[test]
fn notification_fans_out_to_every_receiver() {
    let mut core: PubSubCore<u32> = PubSubCore::new();
    let l = open_subscription(&mut core);
    assert!(core.service_get_sub(l));
    assert!(core.service_get_sub(l));
    match core.handle_item(notification(0xab, "\"0x01\"")) {
        Ok(Effect::Publish(to, payload)) => {
            assert_eq!(to, l);
            assert_eq!(payload, "\"0x01\"");
        }
        _ => panic!("expected a publication"),
    }
}

#[test]
fn reconnect_keeps_local_id() {
    let mut core: PubSubCore<u32> = PubSubCore::new();
    let l = open_subscription(&mut core);
    let frames = core.resume();
    assert_eq!(frames, vec![subscribe_request("a").frame]);
    assert_eq!(core.in_flights.len(), 1);
    assert!(matches!(core.handle_item(notification(0xab, "\"0x00\"")), Ok(Effect::Nothing)));
    match core.handle_item(success("a", "\"0xcd\"")) {
        Ok(Effect::Subscribed(again, created, waiter, _)) => {
            assert_eq!(again, l);
            assert!(!created);
            assert_eq!(waiter, None);
        }
        _ => panic!("expected a subscription"),
    }
    match core.handle_item(notification(0xcd, "\"0x02\"")) {
        Ok(Effect::Publish(to, payload)) => {
            assert_eq!(to, l);
            assert_eq!(payload, "\"0x02\"");
        }
        _ => panic!("expected a publication"),
    }
    assert!(matches!(core.handle_item(notification(0xab, "\"0x03\"")), Ok(Effect::Nothing)));
    assert!(core.service_get_sub(l));
}

#[test]
fn pending_request_is_replayed() {
    let mut core: PubSubCore<u32> = PubSubCore::new();
    let req = plain_request("9", "eth_chainId");
    core.service_request(InFlight::new(req.clone(), 9));
    let frames = core.resume();
    assert_eq!(frames, vec![req.frame.clone()]);
    match core.handle_item(success("9", "true")) {
        Ok(Effect::Reply(Some(9), resp)) => match resp.payload {
            Payload::Success(s) => assert_eq!(s, "true"),
            Payload::Failure(_) => panic!("expected a success"),
        },
        _ => panic!("expected a reply"),
    }
    assert!(matches!(core.handle_item(success("9", "true")), Ok(Effect::Nothing)));
}

#[test]
fn replay_lists_requests_before_subscriptions() {
    let mut core: PubSubCore<u32> = PubSubCore::new();
    open_subscription(&mut core);
    core.service_request(InFlight::new(plain_request("1", "eth_a"), 1));
    core.service_request(InFlight::new(plain_request("2", "eth_b"), 2));
    let frames = core.resume();
    assert_eq!(
        frames,
        vec![plain_request("1", "eth_a").frame, plain_request("2", "eth_b").frame, subscribe_request("a").frame]
    );
    assert_eq!(core.in_flights.len(), 3);
}

#[test]
fn unsubscribe_stops_notifications() {
    let mut core: PubSubCore<u32> = PubSubCore::new();
    let l = open_subscription(&mut core);
    let frame = core.service_unsubscribe(l).expect("frame");
    assert!(frame.contains("eth_unsubscribe"));
    assert!(frame.contains(&expected_local_json()));
    assert!(frame.contains("\"id\":null"));
    assert!(!core.service_get_sub(l));
    assert!(matches!(core.handle_item(notification(0xab, "\"0x01\"")), Ok(Effect::Nothing)));
    assert_eq!(core.subs.len(), 0);
}

#[test]
fn unknown_local_id_gets_no_receiver() {
    let core: PubSubCore<u32> = PubSubCore::new();
    assert!(!core.service_get_sub(small(5)));
}

#[test]
fn late_response_is_discarded() {
    let mut core: PubSubCore<u32> = PubSubCore::new();
    assert!(matches!(core.handle_item(success("x", "1")), Ok(Effect::Nothing)));
}

#[test]
fn unknown_notification_is_dropped() {
    let mut core: PubSubCore<u32> = PubSubCore::new();
    assert!(matches!(core.handle_item(notification(0x77, "1")), Ok(Effect::Nothing)));
}

#[test]
fn subscribe_answer_that_is_no_integer_is_forwarded() {
    let mut core: PubSubCore<u32> = PubSubCore::new();
    core.service_request(InFlight::new(subscribe_request("s"), 3));
    match core.handle_item(success("s", "{\"x\":1}")) {
        Ok(Effect::Reply(Some(3), resp)) => match resp.payload {
            Payload::Success(s) => assert_eq!(s, "{\"x\":1}"),
            Payload::Failure(_) => panic!("expected a success"),
        },
        _ => panic!("expected a reply"),
    }
    assert_eq!(core.subs.len(), 0);
}

#[test]
fn integer_answer_to_plain_request_is_forwarded() {
    let mut core: PubSubCore<u32> = PubSubCore::new();
    core.service_request(InFlight::new(plain_request("p", "eth_blockNumber"), 4));
    assert!(matches!(core.handle_item(success("p", "\"0xab\"")), Ok(Effect::Reply(Some(4), _))));
    assert_eq!(core.subs.len(), 0);
}

#[test]
fn flagged_request_opens_subscription() {
    let mut core: PubSubCore<u32> = PubSubCore::new();
    let mut req = plain_request("f", "custom_subscribe");
    req.subscription = true;
    core.service_request(InFlight::new(req, 6));
    assert!(matches!(core.handle_item(success("f", "\"0x10\"")), Ok(Effect::Subscribed(_, true, Some(6), _))));
    assert_eq!(core.subs.len(), 1);
}

#[test]
fn error_response_is_forwarded() {
    let mut core: PubSubCore<u32> = PubSubCore::new();
    core.service_request(InFlight::new(subscribe_request("e"), 8));
    let err = pubsub_service::ErrorObject { code: -32000, message: "no".to_string(), data: None };
    let item = PubSubItem::Response(Response { id: id_str("e"), payload: Payload::Failure(err) });
    match core.handle_item(item) {
        Ok(Effect::Reply(Some(8), resp)) => match resp.payload {
            Payload::Failure(e) => assert_eq!(e.code, -32000),
            Payload::Success(_) => panic!("expected a failure"),
        },
        _ => panic!("expected a reply"),
    }
}

#[test]
fn same_request_id_replaces_pending() {
    let mut core: PubSubCore<u32> = PubSubCore::new();
    core.service_request(InFlight::new(plain_request("d", "eth_a"), 1));
    core.service_request(InFlight::new(plain_request("d", "eth_b"), 2));
    assert_eq!(core.in_flights.len(), 1);
    assert!(matches!(core.handle_item(success("d", "0")), Ok(Effect::Reply(Some(2), _))));
}

#[test]
fn same_params_share_local_id() {
    let mut core: PubSubCore<u32> = PubSubCore::new();
    let l = open_subscription(&mut core);
    core.service_request(InFlight::new(subscribe_request("b"), 2));
    match core.handle_item(success("b", "\"0xef\"")) {
        Ok(Effect::Subscribed(again, created, _, _)) => {
            assert_eq!(again, l);
            assert!(!created);
        }
        _ => panic!("expected a subscription"),
    }
    assert_eq!(core.subs.len(), 1);
    assert!(matches!(core.handle_item(notification(0xab, "1")), Ok(Effect::Nothing)));
    assert!(matches!(core.handle_item(notification(0xef, "1")), Ok(Effect::Publish(_, _))));
}

#[test]
fn numeric_and_null_ids_are_distinct() {
    let a = RequestId::Number(1);
    assert!(a.same(&RequestId::Number(1)));
    assert!(!a.same(&RequestId::Null));
    assert!(!RequestId::Str("1".to_string()).same(&a));
}

#[test]
fn decoded_answer_routes_to_subscription() {
    let resp = Response { id: id_str("a"), payload: Payload::Success("\"0x2a\"".to_string()) };
    let f = InFlight::new(subscribe_request("a"), 1u32);
    match route_decoded(f, resp.clone(), Some(small(0x2a))) {
        ResponseRoute::Subscription(sid, g) => {
            assert_eq!(sid, small(0x2a));
            assert_eq!(g.waiter, Some(1));
        }
        _ => panic!("expected a subscription"),
    }
    let f = InFlight::new(subscribe_request("a"), 2u32);
    assert!(matches!(route_decoded(f, resp, None), ResponseRoute::Deliver(Some(2), _)));
}

#[test]
fn announce_needs_the_local_id_text() {
    let r: Result<Effect<u32>, ServiceError> = announce(small(3), true, Some(1), id_str("a"), None);
    assert!(matches!(r, Err(ServiceError::Serialization)));
    let r: Result<Effect<u32>, ServiceError> =
        announce(small(3), false, None, id_str("a"), Some("\"0x03\"".to_string()));
    match r {
        Ok(Effect::Subscribed(l, created, waiter, resp)) => {
            assert_eq!(l, small(3));
            assert!(!created);
            assert_eq!(waiter, None);
            assert!(matches!(resp.payload, Payload::Success(ref t) if t == "\"0x03\""));
        }
        _ => panic!("expected a subscription"),
    }
}

#[test]
fn close_without_frame_keeps_subscription() {
    let mut core: PubSubCore<u32> = PubSubCore::new();
    let l = open_subscription(&mut core);
    assert!(matches!(core.close_with(l, None), Err(ServiceError::Serialization)));
    assert!(core.service_get_sub(l));
    assert_eq!(core.close_with(l, Some("bye".to_string())), Ok("bye".to_string()));
    assert!(!core.service_get_sub(l));
}

#[test]
fn second_unsubscribe_only_yields_frame() {
    let mut core: PubSubCore<u32> = PubSubCore::new();
    let l = open_subscription(&mut core);
    let first = core.service_unsubscribe(l).expect("frame");
    let second = core.service_unsubscribe(l).expect("frame");
    assert_eq!(first, second);
    assert_eq!(core.subs.len(), 0);
    assert_eq!(core.in_flights.len(), 0);
}
