use game_room::message_stream::MessageStream;
use game_room::proto::{MessageCode, PartyId, PayloadKind};
use game_room::router::{GameRoomRouter, RouterEvent, RouterOutput};

const UUID_A: [u8; 16] = [
    0x11, 0x22, 0x33, 0x44, 0x55, 0x66, 0x77, 0x88, 0x99, 0xAA, 0xBB, 0xCC, 0xDD, 0xEE, 0xFF,
    0x00,
];
const UUID_B: [u8; 16] = [1; 16];
const UUID_C: [u8; 16] = [2; 16];

fn special_info(room_id: u32, origin: PartyId, payload: &[u8]) -> MessageStream {
    MessageStream::new(
        MessageCode::Special,
        room_id,
        origin,
        PartyId::Server(0),
        PayloadKind::Info,
        Some(payload),
    )
}

fn normal(origin: PartyId, destination: PartyId, room_id: u32, payload: &[u8]) -> MessageStream {
    MessageStream::new(
        MessageCode::Normal,
        room_id,
        origin,
        destination,
        PayloadKind::Data,
        Some(payload),
    )
}

/// A router with a server and clients 0 and 1 in room 5.
fn serving_router() -> GameRoomRouter {
    let mut router = GameRoomRouter::new();
    router.handle(RouterEvent::ServerConnect(PartyId::Server(0)));
    router.handle(RouterEvent::ClientConnect(5, PartyId::Client(0), UUID_A));
    router.handle(RouterEvent::ClientConnect(5, PartyId::Client(1), UUID_B));
    router
}

#[test]
fn server_publishes_rooms_sorted_and_deduplicated() {
    let mut router = GameRoomRouter::new();
    router.handle(RouterEvent::ServerConnect(PartyId::Server(0)));
    let out = router.handle(RouterEvent::NewMessage(
        PartyId::Server(0),
        special_info(0, PartyId::Server(0), &[3, 1, 2, 2]),
    ));
    assert!(out.is_empty());
    assert_eq!(router.available_rooms_list(), vec![1, 2, 3]);
}

#[test]
fn special_from_non_server_is_dropped() {
    let mut router = serving_router();
    let out = router.handle(RouterEvent::NewMessage(
        PartyId::Client(0),
        special_info(0, PartyId::Client(0), &[3, 1, 2]),
    ));
    assert!(out.is_empty());
    assert_eq!(router.available_rooms_list(), Vec::<u8>::new());
}

#[test]
fn special_without_info_kind_is_dropped() {
    let mut router = serving_router();
    let out = router.handle(RouterEvent::NewMessage(
        PartyId::Server(0),
        MessageStream::new(
            MessageCode::Special,
            0,
            PartyId::Server(0),
            PartyId::Server(0),
            PayloadKind::Data,
            Some(&[3, 1, 2]),
        ),
    ));
    assert!(out.is_empty());
    assert_eq!(router.available_rooms_list(), Vec::<u8>::new());
}

#[test]
fn client_join_sends_hello_to_server() {
    let mut router = GameRoomRouter::new();
    router.handle(RouterEvent::ServerConnect(PartyId::Server(0)));
    let out = router.handle(RouterEvent::ClientConnect(5, PartyId::Client(0), UUID_A));
    assert_eq!(out.len(), 1);
    match &out[0] {
        RouterOutput::ToServer(origin, frame) => {
            assert_eq!(*origin, PartyId::Client(0));
            assert_eq!(frame.message_code, MessageCode::Special);
            assert_eq!(frame.room_id, 5);
            assert_eq!(frame.origin_id, PartyId::Client(0));
            assert_eq!(frame.destination_id, PartyId::Server(0));
            assert_eq!(frame.payload_kind, PayloadKind::Info);
            let mut expected = vec![0xF0];
            expected.extend_from_slice(&UUID_A);
            assert_eq!(frame.payload, expected);
        }
        other => panic!("hello went to {:?}", other),
    }
}

#[test]
fn client_join_without_server_sends_nothing() {
    let mut router = GameRoomRouter::new();
    let out = router.handle(RouterEvent::ClientConnect(5, PartyId::Client(0), UUID_A));
    assert!(out.is_empty());
}

#[test]
fn unicast_reaches_exactly_the_addressed_client() {
    let mut router = serving_router();
    let out = router.handle(RouterEvent::NewMessage(
        PartyId::Server(0),
        normal(PartyId::Server(0), PartyId::Client(1), 5, &[0xAB]),
    ));
    assert_eq!(out.len(), 1);
    match &out[0] {
        RouterOutput::ToClient(room_id, member, origin, frame) => {
            assert_eq!(*room_id, 5);
            assert_eq!(*member, 1);
            assert_eq!(*origin, PartyId::Server(0));
            assert_eq!(frame.payload, vec![0xAB]);
        }
        other => panic!("unicast went to {:?}", other),
    }
}

#[test]
fn unicast_to_absent_client_is_dropped() {
    let mut router = serving_router();
    let out = router.handle(RouterEvent::NewMessage(
        PartyId::Server(0),
        normal(PartyId::Server(0), PartyId::Client(7), 5, &[0xAB]),
    ));
    assert!(out.is_empty());
}

#[test]
fn broadcast_reaches_server_and_every_client_of_the_room() {
    let mut router = serving_router();
    let out = router.handle(RouterEvent::NewMessage(
        PartyId::Server(0),
        normal(PartyId::Server(0), PartyId::AllClients, 5, &[0xCD]),
    ));
    assert_eq!(out.len(), 3);
    assert!(matches!(&out[0], RouterOutput::ToServer(PartyId::Server(0), _)));
    assert!(matches!(&out[1], RouterOutput::ToClient(5, 0, PartyId::Server(0), _)));
    assert!(matches!(&out[2], RouterOutput::ToClient(5, 1, PartyId::Server(0), _)));
    for output in &out {
        let frame = match output {
            RouterOutput::ToServer(_, frame) => frame,
            RouterOutput::ToClient(_, _, _, frame) => frame,
            other => panic!("broadcast went to {:?}", other),
        };
        assert_eq!(frame.payload, vec![0xCD]);
        assert_eq!(frame.destination_id, PartyId::AllClients);
    }
}

#[test]
fn broadcast_does_not_cross_rooms() {
    let mut router = serving_router();
    router.handle(RouterEvent::ClientConnect(6, PartyId::Client(0), UUID_C));
    let out = router.handle(RouterEvent::NewMessage(
        PartyId::Client(0),
        normal(PartyId::Client(0), PartyId::AllClients, 6, &[0x01]),
    ));
    // The server and the one client of room 6; nobody in room 5.
    assert_eq!(out.len(), 2);
    assert!(matches!(&out[0], RouterOutput::ToServer(_, _)));
    assert!(matches!(&out[1], RouterOutput::ToClient(6, 0, _, _)));
}

#[test]
fn spoofed_origin_is_dropped() {
    let mut router = serving_router();
    let out = router.handle(RouterEvent::NewMessage(
        PartyId::Client(0),
        normal(PartyId::Client(1), PartyId::AllClients, 5, &[0x01]),
    ));
    assert!(out.is_empty());
}

#[test]
fn wildcard_origin_is_dropped() {
    let mut router = serving_router();
    let out = router.handle(RouterEvent::NewMessage(
        PartyId::AllClients,
        normal(PartyId::AllClients, PartyId::Client(0), 5, &[0x01]),
    ));
    assert!(out.is_empty());
}

#[test]
fn message_to_server_without_server_is_dropped() {
    let mut router = GameRoomRouter::new();
    router.handle(RouterEvent::ClientConnect(5, PartyId::Client(0), UUID_A));
    let out = router.handle(RouterEvent::NewMessage(
        PartyId::Client(0),
        normal(PartyId::Client(0), PartyId::Server(0), 5, &[0x01]),
    ));
    assert!(out.is_empty());
}

#[test]
fn client_departure_sends_goodbye_and_leaves_the_room() {
    let mut router = serving_router();
    let out = router.handle(RouterEvent::Disconnect(PartyId::Client(0)));
    assert_eq!(out.len(), 1);
    match &out[0] {
        RouterOutput::ToServer(origin, frame) => {
            assert_eq!(*origin, PartyId::Client(0));
            assert_eq!(frame.message_code, MessageCode::Special);
            assert_eq!(frame.room_id, 5);
            assert_eq!(frame.payload_kind, PayloadKind::Info);
            let mut expected = vec![0x0F];
            expected.extend_from_slice(&UUID_A);
            assert_eq!(frame.payload, expected);
        }
        other => panic!("goodbye went to {:?}", other),
    }
    // The departed client no longer receives unicasts.
    let out = router.handle(RouterEvent::NewMessage(
        PartyId::Server(0),
        normal(PartyId::Server(0), PartyId::Client(0), 5, &[0x01]),
    ));
    assert!(out.is_empty());
}

#[test]
fn client_departure_without_server_is_silent() {
    let mut router = GameRoomRouter::new();
    router.handle(RouterEvent::ClientConnect(5, PartyId::Client(0), UUID_A));
    let out = router.handle(RouterEvent::Disconnect(PartyId::Client(0)));
    assert!(out.is_empty());
}

#[test]
fn server_departure_cascades_to_every_client() {
    let mut router = serving_router();
    router.handle(RouterEvent::ClientConnect(9, PartyId::Client(0), UUID_C));
    router.handle(RouterEvent::NewMessage(
        PartyId::Server(0),
        special_info(0, PartyId::Server(0), &[5, 9]),
    ));
    assert_eq!(router.available_rooms_list(), vec![5, 9]);

    let out = router.handle(RouterEvent::Disconnect(PartyId::Server(0)));
    assert_eq!(router.available_rooms_list(), Vec::<u8>::new());
    assert_eq!(out.len(), 3);
    assert!(matches!(
        &out[0],
        RouterOutput::DisconnectClient(5, 0, PartyId::Client(0), _)
    ));
    assert!(matches!(
        &out[1],
        RouterOutput::DisconnectClient(5, 1, PartyId::Client(1), _)
    ));
    assert!(matches!(
        &out[2],
        RouterOutput::DisconnectClient(9, 0, PartyId::Client(0), _)
    ));
    match &out[0] {
        RouterOutput::DisconnectClient(_, _, _, uuid) => assert_eq!(*uuid, UUID_A),
        other => panic!("cascade went to {:?}", other),
    }

    // The clients answer with their own disconnects; the router tolerates
    // them and empties the rooms.
    router.handle(RouterEvent::Disconnect(PartyId::Client(0)));
    router.handle(RouterEvent::Disconnect(PartyId::Client(1)));
    let out = router.handle(RouterEvent::NewMessage(
        PartyId::Server(0),
        normal(PartyId::Server(0), PartyId::AllClients, 5, &[0x01]),
    ));
    // No server handle and no clients are left.
    assert!(out.is_empty());
}

#[test]
fn rejoining_client_replaces_its_uuid() {
    let mut router = GameRoomRouter::new();
    router.handle(RouterEvent::ClientConnect(5, PartyId::Client(0), UUID_A));
    router.handle(RouterEvent::ClientConnect(5, PartyId::Client(0), UUID_B));
    router.handle(RouterEvent::ServerConnect(PartyId::Server(0)));
    let out = router.handle(RouterEvent::Disconnect(PartyId::Client(0)));
    match &out[0] {
        RouterOutput::ToServer(_, frame) => {
            assert_eq!(frame.payload[1..], UUID_B);
        }
        other => panic!("goodbye went to {:?}", other),
    }
}
