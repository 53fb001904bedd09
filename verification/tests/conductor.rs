use aeron_rs::agent::conductor::{
    decode_receiver_cmd, decode_sender_cmd, encode_receiver_cmd, encode_sender_cmd, ConductorAgent,
    ConductorParts, ReceiverCommand, SenderCommand,
};
use aeron_rs::cnc::cnc_file::{ClientCnc, DriverCnc};
use aeron_rs::cnc::command::{
    ADD_PUBLICATION_LENGTH, ADD_SUBSCRIPTION_LENGTH, AddPublication, AddSubscription,
    CLIENT_KEEPALIVE_LENGTH, CMD_ADD_PUBLICATION, CMD_ADD_SUBSCRIPTION, CMD_CLIENT_KEEPALIVE,
    CMD_REMOVE_PUBLICATION, CMD_REMOVE_SUBSCRIPTION, ClientKeepalive, PublicationReady,
    REMOVE_PUBLICATION_LENGTH, RSP_PUBLICATION_READY, RemovePublication, RemoveSubscription,
};

const TO_DRIVER: usize = 4096;
const TO_CLIENTS: usize = 4096;

const TEST_PID: i32 = 4711;
const NOW_MS: i64 = 1_700_000_000_000;

/// A conductor with its queues and regions.
struct Driver {
    region: Vec<u8>,
    parts: ConductorParts,
}

impl Driver {
    fn do_work(&mut self, now_ns: i64) -> i32 {
        self.parts.conductor.do_work(
            &mut self.region,
            &mut self.parts.to_sender_buf,
            &mut self.parts.to_receiver_buf,
            now_ns,
            NOW_MS,
        )
    }

    fn write(&mut self, msg_type: i32, payload: &[u8]) {
        let ring = self.parts.conductor.channels.cnc.to_driver;
        ring.write(&mut self.region, msg_type, payload).expect("write");
    }
}

fn make_conductor() -> Driver {
    let (region, cnc) =
        DriverCnc::create_anonymous(TO_DRIVER, TO_CLIENTS, TEST_PID, NOW_MS).expect("create CnC");
    let parts = ConductorAgent::new(cnc, 10_000_000_000).expect("create conductor");
    Driver { region, parts }
}

#[test]
fn conductor_creates_successfully() {
    let driver = make_conductor();
    assert_eq!(driver.parts.conductor.name(), "aeron-conductor");
}

#[test]
fn conductor_idle_do_work() {
    let mut driver = make_conductor();
    let work = driver.do_work(1);
    assert_eq!(work, 0, "no commands - should be idle");
}

#[test]
fn conductor_processes_add_publication() {
    let mut driver = make_conductor();

    // Simulate a client writing an AddPublication command.
    let cmd = AddPublication::from_channel(
        1, 100, 10, "aeron:udp?endpoint=127.0.0.1:40123",
    ).expect("cmd");
    let mut buf = [0u8; ADD_PUBLICATION_LENGTH];
    cmd.encode(&mut buf).expect("encode");
    driver.write(CMD_ADD_PUBLICATION, &buf);

    // Run the conductor duty cycle.
    let work = driver.do_work(1);
    assert!(work > 0, "should have processed the command");

    // Check that the sender got a command.
    let mut received = false;
    let mut commands = Vec::new();
    let queue = &driver.parts.sender_queue;
    queue.poll(&mut driver.parts.to_sender_buf, &mut commands);
    for cmd in &commands {
        match cmd {
            SenderCommand::AddPublication { stream_id, .. } => {
                assert_eq!(*stream_id, 10);
                received = true;
            }
            _ => panic!("unexpected command"),
        }
    }
    assert!(received, "sender should have received AddPublication");
}

#[test]
fn conductor_processes_add_subscription() {
    let mut driver = make_conductor();

    let cmd = AddSubscription::from_channel(
        2, 200, 20, "aeron:udp?endpoint=127.0.0.1:40124",
    ).expect("cmd");
    let mut buf = [0u8; ADD_SUBSCRIPTION_LENGTH];
    cmd.encode(&mut buf).expect("encode");
    driver.write(CMD_ADD_SUBSCRIPTION, &buf);

    let work = driver.do_work(1);
    assert!(work > 0);

    let mut received = false;
    let mut commands = Vec::new();
    let queue = &driver.parts.receiver_queue;
    queue.poll(&mut driver.parts.to_receiver_buf, &mut commands);
    for cmd in &commands {
        match cmd {
            ReceiverCommand::AddSubscription { stream_id, .. } => {
                assert_eq!(*stream_id, 20);
                received = true;
            }
            _ => panic!("unexpected command"),
        }
    }
    assert!(received, "receiver should have received AddSubscription");
}

#[test]
fn conductor_sends_publication_ready_response() {
    let mut driver = make_conductor();

    // Create a client-side view of the CnC.
    let mut client = ClientCnc::from_ptr(&driver.region).expect("client");

    // Write AddPublication command.
    let cmd = AddPublication::from_channel(
        42, 100, 10, "aeron:udp?endpoint=127.0.0.1:40123",
    ).expect("cmd");
    let mut buf = [0u8; ADD_PUBLICATION_LENGTH];
    cmd.encode(&mut buf).expect("encode");
    client.to_driver().write(&mut driver.region, CMD_ADD_PUBLICATION, &buf).expect("write");

    // Run conductor.
    driver.do_work(1);

    // Client should see PublicationReady response.
    let mut got_response = false;
    let mut responses = Vec::new();
    client.to_clients().receive(&driver.region, &mut responses);
    for response in &responses {
        assert_eq!(response.msg_type, RSP_PUBLICATION_READY);
        let rsp = PublicationReady::decode(&response.payload).expect("decode");
        assert_eq!(rsp.correlation_id, 42);
        assert_eq!(rsp.stream_id, 10);
        assert!(rsp.registration_id > 0);
        got_response = true;
    }
    assert!(got_response, "client should receive PublicationReady");
}

#[test]
fn conductor_handles_keepalive() {
    let mut driver = make_conductor();

    let cmd = ClientKeepalive {
        correlation_id: 0,
        client_id: 999,
    };
    let mut buf = [0u8; CLIENT_KEEPALIVE_LENGTH];
    cmd.encode(&mut buf).expect("encode");
    driver.write(CMD_CLIENT_KEEPALIVE, &buf);

    let work = driver.do_work(1);
    assert!(work > 0);

    // Client should be tracked.
    let conductor = &driver.parts.conductor;
    assert_eq!(conductor.client_count, 1);
    assert_eq!(conductor.clients[0].client_id, 999);
    assert!(conductor.clients[0].active);
}

#[test]
fn internal_sender_command_encode_decode() {
    let cmd = SenderCommand::AddPublication {
        correlation_id: 1,
        stream_id: 10,
        session_id: 42,
        initial_term_id: 0,
        term_length: 65536,
        mtu: 1408,
    };
    let mut buf = [0u8; 64];
    let (msg_type, len) = encode_sender_cmd(&cmd, &mut buf);
    let decoded = decode_sender_cmd(msg_type, &buf[..len]).expect("decode");
    match decoded {
        SenderCommand::AddPublication { stream_id, session_id, .. } => {
            assert_eq!(stream_id, 10);
            assert_eq!(session_id, 42);
        }
        _ => panic!("wrong variant"),
    }
}

#[test]
fn internal_receiver_command_encode_decode() {
    let cmd = ReceiverCommand::AddSubscription {
        correlation_id: 2,
        stream_id: 20,
    };
    let mut buf = [0u8; 64];
    let (msg_type, len) = encode_receiver_cmd(&cmd, &mut buf);
    let decoded = decode_receiver_cmd(msg_type, &buf[..len]).expect("decode");
    match decoded {
        ReceiverCommand::AddSubscription { stream_id, .. } => {
            assert_eq!(stream_id, 20);
        }
        _ => panic!("wrong variant"),
    }
}

#[test]
fn ids_are_given_out_in_order() {
    let mut driver = make_conductor();
    let mut client = ClientCnc::from_ptr(&driver.region).expect("client");
    for correlation_id in 1..4 {
        let cmd = AddPublication::from_channel(correlation_id, 100, 10, "aeron:ipc").expect("cmd");
        let mut buf = [0u8; ADD_PUBLICATION_LENGTH];
        cmd.encode(&mut buf).expect("encode");
        driver.write(CMD_ADD_PUBLICATION, &buf);
    }
    assert!(driver.do_work(1) > 0);
    let mut responses = Vec::new();
    client.to_clients().receive(&driver.region, &mut responses);
    let ids: Vec<(i64, i64, i32)> = responses
        .iter()
        .map(|response| PublicationReady::decode(&response.payload).expect("decode"))
        .map(|rsp| (rsp.correlation_id, rsp.registration_id, rsp.session_id))
        .collect();
    assert_eq!(ids, vec![(1, 1, 1), (2, 2, 2), (3, 3, 3)]);
}

#[test]
fn removals_reach_sender_and_receiver() {
    let mut driver = make_conductor();
    let mut buf = [0u8; REMOVE_PUBLICATION_LENGTH];
    RemovePublication { correlation_id: 5, client_id: 1, registration_id: 42 }
        .encode(&mut buf)
        .expect("encode");
    driver.write(CMD_REMOVE_PUBLICATION, &buf);
    RemoveSubscription { correlation_id: 6, client_id: 1, registration_id: 43 }
        .encode(&mut buf)
        .expect("encode");
    driver.write(CMD_REMOVE_SUBSCRIPTION, &buf);
    driver.do_work(1);
    let mut to_sender = Vec::new();
    driver.parts.sender_queue.poll(&mut driver.parts.to_sender_buf, &mut to_sender);
    assert_eq!(
        to_sender,
        vec![SenderCommand::RemovePublication { correlation_id: 5, registration_id: 42 }]
    );
    let mut to_receiver = Vec::new();
    driver.parts.receiver_queue.poll(&mut driver.parts.to_receiver_buf, &mut to_receiver);
    assert_eq!(
        to_receiver,
        vec![ReceiverCommand::RemoveSubscription { correlation_id: 6, registration_id: 43 }]
    );
}

#[test]
fn commands_that_cannot_be_decoded_are_skipped() {
    let mut driver = make_conductor();
    driver.write(CMD_ADD_PUBLICATION, &[1, 2, 3]);
    driver.write(12345, &[1, 2, 3]);
    driver.do_work(1);
    assert_eq!(driver.parts.conductor.client_count, 0);
    let mut commands = Vec::new();
    driver.parts.sender_queue.poll(&mut driver.parts.to_sender_buf, &mut commands);
    assert!(commands.is_empty());
}

#[test]
fn every_waiting_command_is_processed() {
    let mut driver = make_conductor();
    for i in 0..33 {
        let mut buf = [0u8; REMOVE_PUBLICATION_LENGTH];
        RemoveSubscription { correlation_id: i, client_id: 1, registration_id: 100 + i }
            .encode(&mut buf)
            .expect("encode");
        driver.write(CMD_REMOVE_SUBSCRIPTION, &buf);
    }
    assert_eq!(driver.do_work(1), 33);
    let mut to_receiver = Vec::new();
    let count = driver.parts.receiver_queue.poll(&mut driver.parts.to_receiver_buf, &mut to_receiver);
    assert_eq!(count, 33);
    let expected: Vec<ReceiverCommand> = (0..33)
        .map(|i| ReceiverCommand::RemoveSubscription { correlation_id: i, registration_id: 100 + i })
        .collect();
    assert_eq!(to_receiver, expected);
    assert_eq!(driver.do_work(2), 0);
}
