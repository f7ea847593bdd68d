use game_room::message_stream::{MessageStream, ParseError};
use game_room::proto::{MessageCode, PartyId, PayloadKind};

fn sample_frame() -> MessageStream {
    MessageStream::new(
        MessageCode::Special,
        10,
        PartyId::Server(15),
        PartyId::Client(12),
        PayloadKind::Data,
        Some(&[0xFF, 0xAA]),
    )
}

const SAMPLE_BYTES: [u8; 22] = [
    0xEF, 0xBE, 0xED, 0xFE, 0x5E, 0x0A, 0x00, 0x00, 0x00, 0x0F, 0x00, 0x00, 0x80, 0x0C, 0x00,
    0x00, 0x00, 0xDA, 0x02, 0x00, 0xFF, 0xAA,
];

#[test]
fn test_message_stream_into_bytes_is_as_expected() {
    let expected_result = vec![
        0xEF, 0xBE, 0xED, 0xFE, 0x5E, 0x0A, 0x00, 0x00, 0x00, 0x0F, 0x00, 0x00, 0x80, 0x0C, 0x00,
        0x00, 0x00, 0xDA, 0x02, 0x00, 0xFF, 0xAA,
    ];
    let message_stream = MessageStream::new(
        MessageCode::Special,
        10,
        PartyId::Server(15),
        PartyId::Client(12),
        PayloadKind::Data,
        Some(&[0xFF, 0xAA]),
    );
    let message_stream_raw = message_stream.into_raw();

    assert_eq!(message_stream_raw, expected_result);
}

#[test]
fn test_bytes_into_message_stream_is_as_expected() {
    let message_stream_raw = vec![
        0xEF, 0xBE, 0xED, 0xFE, 0x5E, 0x0A, 0x00, 0x00, 0x00, 0x0F, 0x00, 0x00, 0x80, 0x0C, 0x00,
        0x00, 0x00, 0xDA, 0x02, 0x00, 0xFF, 0xAA,
    ];
    let expected_result = MessageStream::new(
        MessageCode::Special,
        10,
        PartyId::Server(15),
        PartyId::Client(12),
        PayloadKind::Data,
        Some(&[0xFF, 0xAA]),
    );
    let message_stream = MessageStream::from_raw(&message_stream_raw).unwrap();

    assert_eq!(message_stream, expected_result);
}

#[test]
fn round_trip_of_sample_frame() {
    let parsed = MessageStream::from_raw(&sample_frame().into_raw()).unwrap();
    assert_eq!(parsed, sample_frame());
}

#[test]
fn round_trip_of_empty_payload_frame() {
    let frame = MessageStream::new(
        MessageCode::Normal,
        0xFFFF_FFFF,
        PartyId::AllClients,
        PartyId::AllServersWithEcho,
        PayloadKind::Command,
        None,
    );
    let raw = frame.into_raw();
    assert_eq!(raw.len(), 20);
    let expected = MessageStream::new(
        MessageCode::Normal,
        0xFFFF_FFFF,
        PartyId::AllClients,
        PartyId::AllServersWithEcho,
        PayloadKind::Command,
        None,
    );
    assert_eq!(MessageStream::from_raw(&raw).unwrap(), expected);
}

#[test]
fn round_trip_of_large_payload_frame() {
    let payload: Vec<u8> = (0..65535u32).map(|i| (i % 251) as u8).collect();
    let frame = MessageStream::new(
        MessageCode::Normal,
        7,
        PartyId::Client(0),
        PartyId::Server(0),
        PayloadKind::Info,
        Some(&payload),
    );
    let raw = frame.into_raw();
    assert_eq!(raw.len(), 20 + 65535);
    let parsed = MessageStream::from_raw(&raw).unwrap();
    assert_eq!(parsed.payload, payload);
    assert_eq!(parsed.room_id, 7);
}

#[test]
fn serialized_frames_begin_with_preamble_bytes() {
    for frame in [
        sample_frame(),
        MessageStream::new(
            MessageCode::Normal,
            0,
            PartyId::Client(0),
            PartyId::Client(1),
            PayloadKind::Info,
            None,
        ),
    ] {
        let raw = frame.into_raw();
        assert_eq!(&raw[0..4], &[0xEF, 0xBE, 0xED, 0xFE]);
    }
}

#[test]
fn short_inputs_are_short_header() {
    for len in [0usize, 1, 4, 19] {
        let bytes = vec![0xEFu8; len];
        assert_eq!(MessageStream::from_raw(&bytes), Err(ParseError::ShortHeader));
    }
    // A 19-byte prefix of a valid frame is still short.
    assert_eq!(
        MessageStream::from_raw(&SAMPLE_BYTES[0..19]),
        Err(ParseError::ShortHeader)
    );
}

#[test]
fn wrong_preamble_is_bad_preamble() {
    let mut bytes = SAMPLE_BYTES.to_vec();
    bytes[0] = 0xEE;
    assert_eq!(MessageStream::from_raw(&bytes), Err(ParseError::BadPreamble));

    let zeros = vec![0u8; 20];
    assert_eq!(MessageStream::from_raw(&zeros), Err(ParseError::BadPreamble));
}

#[test]
fn unknown_code_byte_is_bad_message_code() {
    let mut bytes = SAMPLE_BYTES.to_vec();
    bytes[4] = 0x01;
    assert_eq!(MessageStream::from_raw(&bytes), Err(ParseError::BadMessageCode));
}

#[test]
fn unknown_kind_byte_is_bad_payload_kind() {
    let mut bytes = SAMPLE_BYTES.to_vec();
    bytes[17] = 0x00;
    assert_eq!(MessageStream::from_raw(&bytes), Err(ParseError::BadPayloadKind));
}

#[test]
fn wrong_declared_length_is_length_mismatch() {
    let mut bytes = SAMPLE_BYTES.to_vec();
    bytes[18] = 0x03;
    assert_eq!(MessageStream::from_raw(&bytes), Err(ParseError::LengthMismatch));

    // Extra trailing byte without a matching declared length.
    let mut longer = SAMPLE_BYTES.to_vec();
    longer.push(0x00);
    assert_eq!(MessageStream::from_raw(&longer), Err(ParseError::LengthMismatch));
}

#[test]
fn party_id_decode_then_encode_round_trips() {
    for value in [
        0u32,
        1,
        12,
        0x7FFF_FFFD,
        0x7FFF_FFFE,
        0x7FFF_FFFF,
        0x8000_0000,
        0x8000_000F,
        0xFFFF_FFFD,
        0xFFFF_FFFE,
        0xFFFF_FFFF,
    ] {
        assert_eq!(PartyId::from_u32(value).get_repr(), value);
    }
}

#[test]
fn party_id_encode_then_decode_round_trips() {
    for party in [
        PartyId::AllClients,
        PartyId::AllClientsWithEcho,
        PartyId::AllServers,
        PartyId::AllServersWithEcho,
        PartyId::Client(0),
        PartyId::Client(12),
        PartyId::Client(0x7FFF_FFFD),
        PartyId::Server(0),
        PartyId::Server(15),
        PartyId::Server(0x7FFF_FFFD),
    ] {
        assert_eq!(PartyId::from_u32(party.get_repr()), party);
    }
}

#[test]
fn reserved_values_decode_to_wildcards() {
    assert_eq!(PartyId::from_u32(0x7FFF_FFFE), PartyId::AllClients);
    assert_eq!(PartyId::from_u32(0x7FFF_FFFF), PartyId::AllClientsWithEcho);
    assert_eq!(PartyId::from_u32(0xFFFF_FFFE), PartyId::AllServers);
    assert_eq!(PartyId::from_u32(0xFFFF_FFFF), PartyId::AllServersWithEcho);
    assert_eq!(PartyId::from_u32(0x8000_0000), PartyId::Server(0));
    assert_eq!(PartyId::from_u32(0), PartyId::Client(0));
}

#[test]
fn party_id_le_bytes_match_repr() {
    assert_eq!(PartyId::Server(15).to_le_bytes(), [0x0F, 0x00, 0x00, 0x80]);
    assert_eq!(PartyId::Client(12).to_le_bytes(), [0x0C, 0x00, 0x00, 0x00]);
    assert_eq!(PartyId::AllClients.to_le_bytes(), [0xFE, 0xFF, 0xFF, 0x7F]);
}

#[test]
fn single_party_predicates() {
    assert!(PartyId::Client(3).is_single_client_id());
    assert!(!PartyId::Client(3).is_single_server_id());
    assert!(PartyId::Server(3).is_single_server_id());
    assert!(!PartyId::AllClients.is_single_client_id());
    assert!(!PartyId::AllServersWithEcho.is_single_server_id());
}
