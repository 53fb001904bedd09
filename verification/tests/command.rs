use aeron_rs::cnc::command::{
    ADD_PUBLICATION_LENGTH, ADD_SUBSCRIPTION_LENGTH, AddPublication, AddSubscription,
    CLIENT_KEEPALIVE_LENGTH, ClientKeepalive, ERROR_CHANNEL_PARSE_FAILED, ERROR_GENERIC,
    MAX_CHANNEL_URI_LENGTH, MAX_ERROR_MSG_LENGTH, OPERATION_ERROR_LENGTH, OperationError,
    PUBLICATION_READY_LENGTH, PublicationReady, REMOVE_PUBLICATION_LENGTH,
    REMOVE_SUBSCRIPTION_LENGTH, RemovePublication, RemoveSubscription,
    SUBSCRIPTION_READY_LENGTH, SubscriptionReady,
};

#[test]
fn add_publication_roundtrip() {
    let cmd = AddPublication::from_channel(1, 2, 10, "aeron:udp?endpoint=127.0.0.1:40123")
        .expect("create");
    assert_eq!(cmd.correlation_id, 1);
    assert_eq!(cmd.stream_id, 10);
    assert_eq!(
        cmd.channel_str(),
        Some("aeron:udp?endpoint=127.0.0.1:40123"),
    );

    let mut buf = [0u8; ADD_PUBLICATION_LENGTH];
    let len = cmd.encode(&mut buf).expect("encode");
    assert_eq!(len, ADD_PUBLICATION_LENGTH);

    let decoded = AddPublication::decode(&buf).expect("decode");
    assert_eq!(decoded.correlation_id, 1);
    assert_eq!(decoded.client_id, 2);
    assert_eq!(decoded.stream_id, 10);
    assert_eq!(
        decoded.channel_str(),
        Some("aeron:udp?endpoint=127.0.0.1:40123"),
    );
}

#[test]
fn add_publication_channel_too_long() {
    let long = "x".repeat(MAX_CHANNEL_URI_LENGTH + 1);
    assert!(AddPublication::from_channel(1, 1, 1, &long).is_none());
}

#[test]
fn remove_publication_roundtrip() {
    let cmd = RemovePublication {
        correlation_id: 5,
        client_id: 2,
        registration_id: 42,
    };
    let mut buf = [0u8; REMOVE_PUBLICATION_LENGTH];
    cmd.encode(&mut buf).expect("encode");
    let decoded = RemovePublication::decode(&buf).expect("decode");
    assert_eq!(decoded.correlation_id, 5);
    assert_eq!(decoded.registration_id, 42);
}

#[test]
fn add_subscription_roundtrip() {
    let cmd = AddSubscription::from_channel(3, 1, 20, "aeron:udp?endpoint=127.0.0.1:40124")
        .expect("create");
    let mut buf = [0u8; ADD_SUBSCRIPTION_LENGTH];
    cmd.encode(&mut buf).expect("encode");
    let decoded = AddSubscription::decode(&buf).expect("decode");
    assert_eq!(decoded.correlation_id, 3);
    assert_eq!(decoded.stream_id, 20);
    assert_eq!(
        decoded.channel_str(),
        Some("aeron:udp?endpoint=127.0.0.1:40124"),
    );
}

#[test]
fn remove_subscription_roundtrip() {
    let cmd = RemoveSubscription {
        correlation_id: 7,
        client_id: 1,
        registration_id: 99,
    };
    let mut buf = [0u8; REMOVE_SUBSCRIPTION_LENGTH];
    cmd.encode(&mut buf).expect("encode");
    let decoded = RemoveSubscription::decode(&buf).expect("decode");
    assert_eq!(decoded.correlation_id, 7);
    assert_eq!(decoded.registration_id, 99);
}

#[test]
fn client_keepalive_roundtrip() {
    let cmd = ClientKeepalive {
        correlation_id: 10,
        client_id: 3,
    };
    let mut buf = [0u8; CLIENT_KEEPALIVE_LENGTH];
    cmd.encode(&mut buf).expect("encode");
    let decoded = ClientKeepalive::decode(&buf).expect("decode");
    assert_eq!(decoded.correlation_id, 10);
    assert_eq!(decoded.client_id, 3);
}

#[test]
fn publication_ready_roundtrip() {
    let rsp = PublicationReady {
        correlation_id: 1,
        registration_id: 100,
        session_id: 42,
        stream_id: 10,
        position_limit_counter_id: 0,
        channel_status_indicator_id: 1,
    };
    let mut buf = [0u8; PUBLICATION_READY_LENGTH];
    rsp.encode(&mut buf).expect("encode");
    let decoded = PublicationReady::decode(&buf).expect("decode");
    assert_eq!(decoded.correlation_id, 1);
    assert_eq!(decoded.registration_id, 100);
    assert_eq!(decoded.session_id, 42);
    assert_eq!(decoded.stream_id, 10);
}

#[test]
fn subscription_ready_roundtrip() {
    let rsp = SubscriptionReady {
        correlation_id: 5,
        channel_status_indicator_id: 2,
    };
    let mut buf = [0u8; SUBSCRIPTION_READY_LENGTH];
    rsp.encode(&mut buf).expect("encode");
    let decoded = SubscriptionReady::decode(&buf).expect("decode");
    assert_eq!(decoded.correlation_id, 5);
    assert_eq!(decoded.channel_status_indicator_id, 2);
}

#[test]
fn operation_error_roundtrip() {
    let rsp = OperationError::from_message(7, ERROR_CHANNEL_PARSE_FAILED, "bad channel URI");
    assert_eq!(rsp.error_str(), Some("bad channel URI"));

    let mut buf = [0u8; OPERATION_ERROR_LENGTH];
    rsp.encode(&mut buf).expect("encode");
    let decoded = OperationError::decode(&buf).expect("decode");
    assert_eq!(decoded.correlation_id, 7);
    assert_eq!(decoded.error_code, ERROR_CHANNEL_PARSE_FAILED);
    assert_eq!(decoded.error_str(), Some("bad channel URI"));
}

#[test]
fn decode_too_short_returns_none() {
    assert!(AddPublication::decode(&[0u8; 4]).is_none());
    assert!(RemovePublication::decode(&[0u8; 4]).is_none());
    assert!(PublicationReady::decode(&[0u8; 4]).is_none());
    assert!(OperationError::decode(&[0u8; 4]).is_none());
}

#[test]
fn text_that_is_not_utf8_gives_none() {
    let mut cmd = AddPublication::from_channel(1, 2, 10, "ab").expect("create");
    cmd.channel_uri[1] = 0xff;
    assert_eq!(cmd.channel_str(), None);
    let mut cmd = AddSubscription::from_channel(1, 2, 10, "\u{e4}").expect("create");
    assert_eq!(cmd.channel_str(), Some("\u{e4}"));
    cmd.channel_uri_len = 1;
    assert_eq!(cmd.channel_str(), None);
}

#[test]
fn text_length_out_of_bounds_gives_none() {
    let cmd = AddSubscription::from_channel(3, 1, 20, "aeron:ipc").expect("create");
    let mut buf = [0u8; ADD_SUBSCRIPTION_LENGTH];
    cmd.encode(&mut buf).expect("encode");
    buf[20..24].copy_from_slice(&257i32.to_le_bytes());
    assert!(AddSubscription::decode(&buf).is_none());
    buf[20..24].copy_from_slice(&(-1i32).to_le_bytes());
    assert!(AddSubscription::decode(&buf).is_none());
    buf[20..24].copy_from_slice(&256i32.to_le_bytes());
    assert!(AddSubscription::decode(&buf).is_some());
}

#[test]
fn encode_into_short_buffer_returns_none() {
    let cmd = ClientKeepalive { correlation_id: 10, client_id: 3 };
    let mut buf = [7u8; CLIENT_KEEPALIVE_LENGTH - 1];
    assert!(cmd.encode(&mut buf).is_none());
    assert_eq!(buf, [7u8; CLIENT_KEEPALIVE_LENGTH - 1]);
}

#[test]
fn encoded_fields_are_little_endian() {
    let cmd = ClientKeepalive { correlation_id: 0x0102, client_id: -1 };
    let mut buf = [0u8; CLIENT_KEEPALIVE_LENGTH];
    cmd.encode(&mut buf).expect("encode");
    assert_eq!(buf, [2, 1, 0, 0, 0, 0, 0, 0, 255, 255, 255, 255, 255, 255, 255, 255]);
}

#[test]
fn long_error_message_is_cut() {
    let long = "y".repeat(MAX_ERROR_MSG_LENGTH + 5);
    let rsp = OperationError::from_message(1, ERROR_GENERIC, &long);
    assert_eq!(rsp.error_str().map(|text| text.len()), Some(MAX_ERROR_MSG_LENGTH));
}
