use aeron_rs::cnc::cnc_file::{cnc_file_length, ClientCnc, CncError, DriverCnc};
use aeron_rs::cnc::command::{
    ADD_PUBLICATION_LENGTH, AddPublication, CMD_ADD_PUBLICATION, PUBLICATION_READY_LENGTH,
    PublicationReady, RSP_PUBLICATION_READY,
};
use aeron_rs::cnc::{broadcast, ring_buffer};

const TEST_TO_DRIVER: usize = 1024;
const TEST_TO_CLIENTS: usize = 1024;
const TEST_PID: i32 = 4711;
const NOW_MS: i64 = 1_700_000_000_000;

#[test]
fn create_anonymous_cnc() {
    let (_region, cnc) = DriverCnc::create_anonymous(TEST_TO_DRIVER, TEST_TO_CLIENTS, TEST_PID, NOW_MS)
        .expect("create");
    assert_eq!(cnc.to_driver_capacity(), TEST_TO_DRIVER);
    assert_eq!(cnc.to_clients_capacity(), TEST_TO_CLIENTS);
}

#[test]
fn cnc_file_invalid_capacity() {
    assert_eq!(
        DriverCnc::create_anonymous(100, TEST_TO_CLIENTS, TEST_PID, NOW_MS).unwrap_err(),
        CncError::InvalidCapacity,
    );
    assert_eq!(
        DriverCnc::create_anonymous(TEST_TO_DRIVER, 100, TEST_PID, NOW_MS).unwrap_err(),
        CncError::InvalidCapacity,
    );
}

#[test]
fn client_maps_driver_cnc() {
    let (region, _cnc) = DriverCnc::create_anonymous(TEST_TO_DRIVER, TEST_TO_CLIENTS, TEST_PID, NOW_MS)
        .expect("create");

    let client = ClientCnc::from_ptr(&region).expect("client map");

    assert_eq!(client.driver_pid(&region), TEST_PID);
}

#[test]
fn driver_heartbeat_alive() {
    let (mut region, cnc) = DriverCnc::create_anonymous(TEST_TO_DRIVER, TEST_TO_CLIENTS, TEST_PID, NOW_MS)
        .expect("create");
    cnc.update_heartbeat(&mut region, NOW_MS + 60_000);

    let client = ClientCnc::from_ptr(&region).expect("client map");

    assert!(client.is_driver_alive(&region, NOW_MS + 60_100, 5000));
}

#[test]
fn command_roundtrip_via_cnc() {
    let (mut region, cnc) = DriverCnc::create_anonymous(TEST_TO_DRIVER, TEST_TO_CLIENTS, TEST_PID, NOW_MS)
        .expect("create");

    let mut client = ClientCnc::from_ptr(&region).expect("client map");

    // Client writes a command.
    let cmd = AddPublication::from_channel(1, 1, 10, "aeron:udp?endpoint=127.0.0.1:40123")
        .expect("cmd");
    let mut buf = [0u8; ADD_PUBLICATION_LENGTH];
    cmd.encode(&mut buf).expect("encode");
    client.to_driver().write(&mut region, CMD_ADD_PUBLICATION, &buf).expect("write");

    // Driver reads the command.
    let mut received = Vec::new();
    cnc.to_driver().read(&mut region, &mut received);
    assert_eq!(received.len(), 1);
    let received_type = received[0].msg_type;
    let received_data = received[0].payload.clone();
    assert_eq!(received_type, CMD_ADD_PUBLICATION);
    let decoded = AddPublication::decode(&received_data).expect("decode");
    assert_eq!(decoded.stream_id, 10);

    // Driver writes a response.
    let rsp = PublicationReady {
        correlation_id: 1,
        registration_id: 100,
        session_id: 42,
        stream_id: 10,
        position_limit_counter_id: 0,
        channel_status_indicator_id: 1,
    };
    let mut rsp_buf = [0u8; PUBLICATION_READY_LENGTH];
    rsp.encode(&mut rsp_buf).expect("encode rsp");
    cnc.to_clients().transmit(&mut region, RSP_PUBLICATION_READY, &rsp_buf).expect("transmit");

    // Client reads the response.
    let mut responses = Vec::new();
    client.to_clients().receive(&region, &mut responses);
    assert_eq!(responses.len(), 1);
    let rsp_type = responses[0].msg_type;
    let rsp_data = responses[0].payload.clone();
    assert_eq!(rsp_type, RSP_PUBLICATION_READY);
    let decoded_rsp = PublicationReady::decode(&rsp_data).expect("decode rsp");
    assert_eq!(decoded_rsp.session_id, 42);
    assert_eq!(decoded_rsp.registration_id, 100);
}

#[test]
fn cnc_file_length_correct() {
    let expected = 256
        + ring_buffer::required_buffer_size(1024)
        + broadcast::required_buffer_size(1024);
    assert_eq!(cnc_file_length(1024, 1024), expected);
}

#[test]
fn client_not_ready_before_version() {
    // A region of zeros, no version written.
    let length = cnc_file_length(TEST_TO_DRIVER, TEST_TO_CLIENTS);
    let region = vec![0u8; length];

    let result = ClientCnc::from_ptr(&region);
    assert_eq!(result.unwrap_err(), CncError::NotReady);
}

#[test]
fn cnc_file_display_errors() {
    assert!(CncError::InvalidCapacity.to_string().contains("power-of-two"));
    assert!(CncError::VersionMismatch.to_string().contains("mismatch"));
    assert!(CncError::NotReady.to_string().contains("not ready"));
}

#[test]
fn driver_without_heartbeat_is_not_alive() {
    let (region, _cnc) =
        DriverCnc::create_anonymous(TEST_TO_DRIVER, TEST_TO_CLIENTS, TEST_PID, NOW_MS)
            .expect("create");
    let client = ClientCnc::from_ptr(&region).expect("client map");
    assert!(client.is_driver_alive(&region, NOW_MS + 4999, 5000));
    assert!(!client.is_driver_alive(&region, NOW_MS + 5000, 5000));
}

#[test]
fn closed_region_is_not_ready() {
    let (mut region, cnc) =
        DriverCnc::create_anonymous(TEST_TO_DRIVER, TEST_TO_CLIENTS, TEST_PID, NOW_MS)
            .expect("create");
    cnc.close(&mut region);
    assert_eq!(ClientCnc::from_ptr(&region).unwrap_err(), CncError::NotReady);
}

#[test]
fn region_of_another_version_is_refused() {
    let (mut region, _cnc) =
        DriverCnc::create_anonymous(TEST_TO_DRIVER, TEST_TO_CLIENTS, TEST_PID, NOW_MS)
            .expect("create");
    region[0] = 99;
    assert_eq!(ClientCnc::from_ptr(&region).unwrap_err(), CncError::VersionMismatch);
}

#[test]
fn region_that_is_too_short_is_refused() {
    let (region, _cnc) =
        DriverCnc::create_anonymous(TEST_TO_DRIVER, TEST_TO_CLIENTS, TEST_PID, NOW_MS)
            .expect("create");
    let short = &region[..region.len() - 1];
    assert_eq!(ClientCnc::from_ptr(short).unwrap_err(), CncError::InvalidCapacity);
}
