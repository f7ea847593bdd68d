use game_room::conn::{
    ConnDelivery, ConnState, DeliveryReaction, HeartbeatAction, WsEvent, WsReaction,
};
use game_room::edge::{check_server_upgrade, next_client_party, ServerUpgradeDecision};
use game_room::message_stream::MessageStream;
use game_room::proto::{MessageCode, PartyId, PayloadKind, ALL_CLIENT_ID};

fn frame() -> MessageStream {
    MessageStream::new(
        MessageCode::Normal,
        5,
        PartyId::Server(0),
        PartyId::Client(1),
        PayloadKind::Data,
        Some(&[0x42]),
    )
}

#[test]
fn heartbeat_pings_within_the_timeout_and_closes_after_it() {
    let conn = ConnState::new(PartyId::Client(0), 10_000);
    assert_eq!(conn.heartbeat(10_000), HeartbeatAction::SendPing);
    assert_eq!(conn.heartbeat(11_999), HeartbeatAction::SendPing);
    assert_eq!(conn.heartbeat(12_000), HeartbeatAction::SendPing);
    assert_eq!(conn.heartbeat(12_001), HeartbeatAction::CloseAndDisconnect);
}

#[test]
fn pong_refreshes_the_activity_clock() {
    let mut conn = ConnState::new(PartyId::Client(0), 0);
    assert_eq!(conn.heartbeat(2_001), HeartbeatAction::CloseAndDisconnect);
    let reaction = conn.on_ws_event(1_500, WsEvent::Pong);
    assert!(matches!(reaction, WsReaction::Ignore));
    assert_eq!(conn.heartbeat(2_001), HeartbeatAction::SendPing);
    assert_eq!(conn.heartbeat(3_501), HeartbeatAction::CloseAndDisconnect);
}

#[test]
fn ping_is_answered_with_its_payload() {
    let mut conn = ConnState::new(PartyId::Client(0), 0);
    match conn.on_ws_event(1, WsEvent::Ping(vec![1, 2, 3])) {
        WsReaction::SendPong(payload) => assert_eq!(payload, vec![1, 2, 3]),
        other => panic!("ping answered with {:?}", other),
    }
    assert_eq!(conn.last_known_activity_ms, 1);
}

#[test]
fn parsable_binary_goes_to_the_router() {
    let mut conn = ConnState::new(PartyId::Client(1), 0);
    let raw = frame().into_raw();
    match conn.on_ws_event(1, WsEvent::Binary(raw)) {
        WsReaction::ForwardToRouter(decoded) => assert_eq!(decoded, frame()),
        other => panic!("binary handled as {:?}", other),
    }
}

#[test]
fn garbage_binary_is_dropped_but_counts_as_activity() {
    let mut conn = ConnState::new(PartyId::Client(1), 0);
    let reaction = conn.on_ws_event(7, WsEvent::Binary(vec![0, 1, 2]));
    assert!(matches!(reaction, WsReaction::Ignore));
    assert_eq!(conn.last_known_activity_ms, 7);
}

#[test]
fn close_text_and_errors_react_as_specified() {
    let mut conn = ConnState::new(PartyId::Client(1), 0);
    assert!(matches!(conn.on_ws_event(1, WsEvent::Close), WsReaction::CloseAndDisconnect));
    assert!(matches!(conn.on_ws_event(1, WsEvent::Text), WsReaction::RejectText));
    assert!(matches!(conn.on_ws_event(1, WsEvent::Other), WsReaction::Ignore));
    assert!(matches!(conn.on_ws_event(1, WsEvent::Error), WsReaction::CloseAndDisconnect));
    // None of those refresh the clock.
    assert_eq!(conn.last_known_activity_ms, 0);
}

#[test]
fn disconnect_delivery_closes_only_the_named_party() {
    let conn = ConnState::new(PartyId::Client(1), 0);
    assert!(matches!(
        conn.on_delivery(ConnDelivery::Disconnect(PartyId::Client(1))),
        DeliveryReaction::CloseAndDisconnect
    ));
    assert!(matches!(
        conn.on_delivery(ConnDelivery::Disconnect(PartyId::Client(2))),
        DeliveryReaction::Ignore
    ));
}

#[test]
fn frame_delivery_writes_the_serialized_bytes() {
    let conn = ConnState::new(PartyId::Client(1), 0);
    match conn.on_delivery(ConnDelivery::Frame(frame())) {
        DeliveryReaction::WriteBinary(bytes) => assert_eq!(bytes, frame().into_raw()),
        other => panic!("frame handled as {:?}", other),
    }
}

const CONFIGURED: [u8; 16] = [7; 16];

#[test]
fn server_upgrade_needs_the_right_uuid_and_a_free_slot() {
    assert_eq!(
        check_server_upgrade(&CONFIGURED, &CONFIGURED, false),
        ServerUpgradeDecision::Accept
    );
    assert_eq!(
        check_server_upgrade(&CONFIGURED, &CONFIGURED, true),
        ServerUpgradeDecision::AlreadyJoined
    );
    let wrong = [8; 16];
    assert_eq!(
        check_server_upgrade(&wrong, &CONFIGURED, false),
        ServerUpgradeDecision::WrongUuid
    );
    assert_eq!(
        check_server_upgrade(&wrong, &CONFIGURED, true),
        ServerUpgradeDecision::WrongUuid
    );
}

#[test]
fn client_counter_allocates_until_the_wildcard_value() {
    assert_eq!(next_client_party(0), Some((PartyId::Client(0), 1)));
    assert_eq!(next_client_party(256), Some((PartyId::Client(256), 257)));
    assert_eq!(
        next_client_party(ALL_CLIENT_ID - 1),
        Some((PartyId::Client(ALL_CLIENT_ID - 1), ALL_CLIENT_ID))
    );
    assert_eq!(next_client_party(ALL_CLIENT_ID), None);
    assert_eq!(next_client_party(ALL_CLIENT_ID + 1), None);
    assert_eq!(next_client_party(u32::MAX), None);
}
