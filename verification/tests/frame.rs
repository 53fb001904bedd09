use aeron_rs::frame::{
    AF_INET, AF_INET6, CURRENT_VERSION, DATA_FLAG_BEGIN, DATA_FLAG_END, DATA_HEADER_LENGTH,
    DataHeader, FRAME_HEADER_LENGTH, FRAME_TYPE_DATA, FRAME_TYPE_ERR, FRAME_TYPE_HEARTBEAT,
    FRAME_TYPE_NAK, FRAME_TYPE_PAD, FRAME_TYPE_RESOLUTION, FRAME_TYPE_RTTM, FRAME_TYPE_SETUP,
    FRAME_TYPE_SM, FrameHeader, FrameType, NAK_TOTAL_LENGTH, NakHeader, RTTM_TOTAL_LENGTH,
    RttmHeader, SETUP_TOTAL_LENGTH, SM_TOTAL_LENGTH, SOCKADDR_IN6_LENGTH, SOCKADDR_IN_LENGTH,
    SetupHeader, SockaddrStorage, SocketAddress, StatusMessage, classify_frame, sockaddr_to_std,
    sockaddr_to_storage,
};

// FrameHeader

#[test]
fn frame_header_parse_short_buffer_returns_none() {
    assert!(FrameHeader::parse(&[]).is_none());
    assert!(FrameHeader::parse(&[0u8; 7]).is_none());
}

#[test]
fn frame_header_write_parse_roundtrip() {
    let hdr = FrameHeader {
        frame_length: 64,
        version: CURRENT_VERSION,
        flags: 0xAB,
        frame_type: FRAME_TYPE_DATA,
    };
    let mut buf = [0u8; FRAME_HEADER_LENGTH];
    hdr.write(&mut buf);
    let p = FrameHeader::parse(&buf).unwrap();
    assert_eq!(p.frame_length, 64);
    assert_eq!(p.version, CURRENT_VERSION);
    assert_eq!(p.flags, 0xAB);
    assert_eq!(p.frame_type, FRAME_TYPE_DATA);
}

// DataHeader

#[test]
fn data_header_parse_short_buffer_returns_none() {
    assert!(DataHeader::parse(&[0u8; DATA_HEADER_LENGTH - 1]).is_none());
}

#[test]
fn data_header_write_parse_roundtrip() {
    let data = DataHeader {
        frame_header: FrameHeader {
            frame_length: 64,
            version: CURRENT_VERSION,
            flags: DATA_FLAG_BEGIN | DATA_FLAG_END,
            frame_type: FRAME_TYPE_DATA,
        },
        term_offset: 1024,
        session_id: 42,
        stream_id: 7,
        term_id: 200,
        reserved_value: 0xDEAD,
    };
    let mut buf = [0u8; 64];
    data.write(&mut buf);
    let p = DataHeader::parse(&buf).unwrap();
    assert_eq!(p.session_id, 42);
    assert_eq!(p.stream_id, 7);
    assert_eq!(p.term_id, 200);
    assert_eq!(p.term_offset, 1024);
    assert_eq!(p.reserved_value, 0xDEAD);
    assert_eq!(p.frame_header.frame_type, FRAME_TYPE_DATA);
}

#[test]
fn data_header_payload_extraction() {
    let mut buf = [0u8; 36];
    let data = DataHeader {
        frame_header: FrameHeader {
            frame_length: 36,
            version: CURRENT_VERSION,
            flags: DATA_FLAG_BEGIN | DATA_FLAG_END,
            frame_type: FRAME_TYPE_DATA,
        },
        term_offset: 0,
        session_id: 1,
        stream_id: 1,
        term_id: 0,
        reserved_value: 0,
    };
    data.write(&mut buf);
    buf[32..36].copy_from_slice(&[0xCA, 0xFE, 0xBA, 0xBE]);

    let parsed = DataHeader::parse(&buf).unwrap();
    let payload = parsed.payload(&buf);
    assert_eq!(payload, &[0xCA, 0xFE, 0xBA, 0xBE]);
}

#[test]
fn data_header_payload_empty_when_frame_length_equals_header() {
    let mut buf = [0u8; DATA_HEADER_LENGTH];
    let data = DataHeader {
        frame_header: FrameHeader {
            frame_length: DATA_HEADER_LENGTH as i32,
            version: CURRENT_VERSION,
            flags: 0,
            frame_type: FRAME_TYPE_DATA,
        },
        term_offset: 0,
        session_id: 1,
        stream_id: 1,
        term_id: 0,
        reserved_value: 0,
    };
    data.write(&mut buf);
    let parsed = DataHeader::parse(&buf).unwrap();
    assert!(parsed.payload(&buf).is_empty());
}

#[test]
fn data_header_parse_mut() {
    let mut buf = [0u8; DATA_HEADER_LENGTH];
    let data = DataHeader {
        frame_header: FrameHeader {
            frame_length: DATA_HEADER_LENGTH as i32,
            version: CURRENT_VERSION,
            flags: 0,
            frame_type: FRAME_TYPE_DATA,
        },
        term_offset: 0,
        session_id: 99,
        stream_id: 1,
        term_id: 0,
        reserved_value: 0,
    };
    data.write(&mut buf);
    let mut hdr = DataHeader::parse_mut(&mut buf).unwrap();
    let mut changed = hdr.get();
    changed.session_id = 200;
    hdr.set(&changed);
    let p = DataHeader::parse(&buf).unwrap();
    assert_eq!(p.session_id, 200);
}

// StatusMessage

#[test]
fn status_message_parse_short_returns_none() {
    assert!(StatusMessage::parse(&[0u8; SM_TOTAL_LENGTH - 1]).is_none());
}

#[test]
fn status_message_write_parse_roundtrip() {
    let sm = StatusMessage {
        frame_header: FrameHeader {
            frame_length: SM_TOTAL_LENGTH as i32,
            version: CURRENT_VERSION,
            flags: 0,
            frame_type: FRAME_TYPE_SM,
        },
        session_id: 42,
        stream_id: 7,
        consumption_term_id: 100,
        consumption_term_offset: 2048,
        receiver_window: 65536,
        receiver_id: 0xBEEF,
    };
    let mut buf = [0u8; SM_TOTAL_LENGTH];
    sm.write(&mut buf);
    let p = StatusMessage::parse(&buf).unwrap();
    assert_eq!(p.session_id, 42);
    assert_eq!(p.stream_id, 7);
    assert_eq!(p.consumption_term_id, 100);
    assert_eq!(p.consumption_term_offset, 2048);
    assert_eq!(p.receiver_window, 65536);
    assert_eq!(p.receiver_id, 0xBEEF);
}

// NakHeader

#[test]
fn nak_parse_short_returns_none() {
    assert!(NakHeader::parse(&[0u8; NAK_TOTAL_LENGTH - 1]).is_none());
}

#[test]
fn nak_write_parse_roundtrip() {
    let nak = NakHeader {
        frame_header: FrameHeader {
            frame_length: NAK_TOTAL_LENGTH as i32,
            version: CURRENT_VERSION,
            flags: 0,
            frame_type: FRAME_TYPE_NAK,
        },
        session_id: 42,
        stream_id: 7,
        active_term_id: 100,
        term_offset: 512,
        length: 1408,
    };
    let mut buf = [0u8; NAK_TOTAL_LENGTH];
    nak.write(&mut buf);
    let p = NakHeader::parse(&buf).unwrap();
    assert_eq!(p.session_id, 42);
    assert_eq!(p.active_term_id, 100);
    assert_eq!(p.term_offset, 512);
    assert_eq!(p.length, 1408);
}

// SetupHeader

#[test]
fn setup_parse_short_returns_none() {
    assert!(SetupHeader::parse(&[0u8; SETUP_TOTAL_LENGTH - 1]).is_none());
}

#[test]
fn setup_write_parse_roundtrip() {
    let setup = SetupHeader {
        frame_header: FrameHeader {
            frame_length: SETUP_TOTAL_LENGTH as i32,
            version: CURRENT_VERSION,
            flags: 0,
            frame_type: FRAME_TYPE_SETUP,
        },
        term_offset: 0,
        session_id: 42,
        stream_id: 7,
        initial_term_id: 10,
        active_term_id: 12,
        term_length: 1 << 16,
        mtu: 1408,
        ttl: 8,
    };
    let mut buf = [0u8; SETUP_TOTAL_LENGTH];
    setup.write(&mut buf);
    let p = SetupHeader::parse(&buf).unwrap();
    assert_eq!(p.session_id, 42);
    assert_eq!(p.stream_id, 7);
    assert_eq!(p.initial_term_id, 10);
    assert_eq!(p.active_term_id, 12);
    assert_eq!(p.term_length, 1 << 16);
    assert_eq!(p.mtu, 1408);
    assert_eq!(p.ttl, 8);
}

// RttmHeader

#[test]
fn rttm_parse_short_returns_none() {
    assert!(RttmHeader::parse(&[0u8; RTTM_TOTAL_LENGTH - 1]).is_none());
}

#[test]
fn rttm_write_parse_roundtrip() {
    let rttm = RttmHeader {
        frame_header: FrameHeader {
            frame_length: RTTM_TOTAL_LENGTH as i32,
            version: CURRENT_VERSION,
            flags: 0,
            frame_type: FRAME_TYPE_RTTM,
        },
        session_id: 42,
        stream_id: 7,
        echo_timestamp: 123_456_789,
        reception_delta: 5000,
        receiver_id: 0xCAFE,
    };
    let mut buf = [0u8; RTTM_TOTAL_LENGTH];
    rttm.write(&mut buf);
    let p = RttmHeader::parse(&buf).unwrap();
    assert_eq!(p.session_id, 42);
    assert_eq!(p.echo_timestamp, 123_456_789);
    assert_eq!(p.reception_delta, 5000);
    assert_eq!(p.receiver_id, 0xCAFE);
}

// classify_frame

#[test]
fn classify_frame_empty_returns_none() {
    assert!(classify_frame(&[]).is_none());
}

#[test]
fn classify_frame_all_types() {
    let cases: &[(u16, FrameType)] = &[
        (FRAME_TYPE_PAD, FrameType::Pad),
        (FRAME_TYPE_DATA, FrameType::Data),
        (FRAME_TYPE_NAK, FrameType::Nak),
        (FRAME_TYPE_SM, FrameType::StatusMessage),
        (FRAME_TYPE_ERR, FrameType::Error),
        (FRAME_TYPE_SETUP, FrameType::Setup),
        (FRAME_TYPE_RTTM, FrameType::Rttm),
        (FRAME_TYPE_RESOLUTION, FrameType::Resolution),
        (FRAME_TYPE_HEARTBEAT, FrameType::Heartbeat),
    ];
    for &(wire_val, expected) in cases {
        let hdr = FrameHeader {
            frame_length: FRAME_HEADER_LENGTH as i32,
            version: CURRENT_VERSION,
            flags: 0,
            frame_type: wire_val,
        };
        let mut buf = [0u8; FRAME_HEADER_LENGTH];
        hdr.write(&mut buf);
        assert_eq!(classify_frame(&buf), Some(expected), "frame_type=0x{wire_val:04X}");
    }
}

#[test]
fn classify_frame_unknown_type() {
    let hdr = FrameHeader {
        frame_length: FRAME_HEADER_LENGTH as i32,
        version: CURRENT_VERSION,
        flags: 0,
        frame_type: 0xFFFF,
    };
    let mut buf = [0u8; FRAME_HEADER_LENGTH];
    hdr.write(&mut buf);
    assert_eq!(classify_frame(&buf), Some(FrameType::Unknown(0xFFFF)));
}

// FrameType

#[test]
fn frame_type_from_u16() {
    assert_eq!(FrameType::from(FRAME_TYPE_DATA), FrameType::Data);
    assert_eq!(FrameType::from(0x9999), FrameType::Unknown(0x9999));
}

// sockaddr_to_std

fn ipv4_storage(family: u16, port: u16, octets: [u8; 4]) -> SockaddrStorage {
    let mut bytes = [0u8; 128];
    bytes[0..2].copy_from_slice(&family.to_ne_bytes());
    bytes[2..4].copy_from_slice(&port.to_be_bytes());
    bytes[4..8].copy_from_slice(&octets);
    SockaddrStorage { bytes }
}

/// The address that a text names.
fn address(text: &str) -> SocketAddress {
    if let Some((host, port)) = text.split_once("]:") {
        assert_eq!(host, "[::1");
        let mut octets = [0u8; 16];
        octets[15] = 1;
        return SocketAddress::V6 { octets, port: port.parse().unwrap() };
    }
    let (host, port) = text.split_once(':').unwrap();
    let parts: Vec<u8> = host.split('.').map(|part| part.parse().unwrap()).collect();
    SocketAddress::V4 { octets: parts.try_into().unwrap(), port: port.parse().unwrap() }
}

#[test]
fn sockaddr_to_std_ipv4() {
    let storage = ipv4_storage(libc::AF_INET as u16, 40123, [127, 0, 0, 1]);
    let len = std::mem::size_of::<libc::sockaddr_in>() as u32;

    let addr = sockaddr_to_std(&storage, len).expect("should parse IPv4");
    assert_eq!(addr, address("127.0.0.1:40123"));
}

#[test]
fn sockaddr_to_std_ipv6() {
    let mut bytes = [0u8; 128];
    bytes[0..2].copy_from_slice(&(libc::AF_INET6 as u16).to_ne_bytes());
    bytes[2..4].copy_from_slice(&9999u16.to_be_bytes());
    bytes[8..24].copy_from_slice(&[0, 0, 0, 0, 0, 0, 0, 0, 0, 0, 0, 0, 0, 0, 0, 1]);
    let storage = SockaddrStorage { bytes };
    let len = std::mem::size_of::<libc::sockaddr_in6>() as u32;

    let addr = sockaddr_to_std(&storage, len).expect("should parse IPv6");
    assert_eq!(addr, address("[::1]:9999"));
}

#[test]
fn sockaddr_to_std_short_len_returns_none() {
    let storage = SockaddrStorage { bytes: [0u8; 128] };
    assert!(sockaddr_to_std(&storage, 0).is_none());
}

#[test]
fn sockaddr_to_std_unknown_family_returns_none() {
    let mut storage = SockaddrStorage { bytes: [0u8; 128] };
    storage.bytes[0..2].copy_from_slice(&255u16.to_ne_bytes());
    let len = std::mem::size_of::<libc::sockaddr_storage>() as u32;
    assert!(sockaddr_to_std(&storage, len).is_none());
}

#[test]
fn sockaddr_to_std_needs_the_whole_address() {
    let storage = ipv4_storage(libc::AF_INET as u16, 40123, [127, 0, 0, 1]);
    assert!(sockaddr_to_std(&storage, 15).is_none());
    assert!(sockaddr_to_std(&storage, 16).is_some());
}

#[test]
fn kernel_layout_is_that_of_the_system() {
    assert_eq!(std::mem::size_of::<libc::sockaddr_storage>(), 128);
    assert_eq!(std::mem::size_of::<libc::sockaddr_in>() as u32, SOCKADDR_IN_LENGTH);
    assert_eq!(std::mem::size_of::<libc::sockaddr_in6>() as u32, SOCKADDR_IN6_LENGTH);
    assert_eq!(libc::AF_INET as u16, AF_INET);
    assert_eq!(libc::AF_INET6 as u16, AF_INET6);
}

#[test]
fn sockaddr_v4_to_storage() {
    let addr = address("127.0.0.1:40123");
    let (storage, len) = sockaddr_to_storage(&addr);
    assert_eq!(storage.bytes[0..2], (libc::AF_INET as u16).to_ne_bytes());
    assert_eq!(sockaddr_to_std(&storage, len), Some(addr));
}

#[test]
fn sockaddr_v6_to_storage() {
    let addr = address("[::1]:40123");
    let (storage, len) = sockaddr_to_storage(&addr);
    assert_eq!(storage.bytes[0..2], (libc::AF_INET6 as u16).to_ne_bytes());
    assert_eq!(sockaddr_to_std(&storage, len), Some(addr));
}

// Debug formatting

#[test]
fn frame_header_debug_does_not_panic() {
    let hdr = FrameHeader {
        frame_length: 32,
        version: 0,
        flags: 0xC0,
        frame_type: FRAME_TYPE_DATA,
    };
    let s = format!("{hdr:?}");
    assert!(s.contains("FrameHeader"));
    assert!(s.contains("frame_length"));
}

#[test]
fn header_bytes_are_little_endian() {
    let hdr = FrameHeader { frame_length: 0x0102, version: 3, flags: 4, frame_type: 0x0506 };
    let mut buf = [0u8; FRAME_HEADER_LENGTH];
    hdr.write(&mut buf);
    assert_eq!(buf, [2, 1, 0, 0, 3, 4, 6, 5]);
}

#[test]
fn payload_beyond_the_buffer_is_empty() {
    let mut buf = [9u8; 40];
    let data = DataHeader {
        frame_header: FrameHeader {
            frame_length: 100,
            version: CURRENT_VERSION,
            flags: 0,
            frame_type: FRAME_TYPE_DATA,
        },
        term_offset: 0,
        session_id: 1,
        stream_id: 1,
        term_id: 0,
        reserved_value: 0,
    };
    data.write(&mut buf);
    assert!(data.payload(&buf).is_empty());
}
