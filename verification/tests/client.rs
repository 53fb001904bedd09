use aeron_rs::agent::conductor::ConductorParts;
use aeron_rs::agent::AgentError;
use aeron_rs::client::aeron::{Aeron, ClientConfig, PublicationOutcome, CLIENT_ID_MASK};
use aeron_rs::client::bridge::PublicationBridge;
use aeron_rs::client::media_driver::{DriverParts, LaunchError, MediaDriver};
use aeron_rs::client::publication::{LogCursor, LogParams, OfferError, Publication};
use aeron_rs::client::sub_bridge::{
    PendingImage, RecvEndpointBridge, SubscriptionBridge, RECV_ENDPOINT_BRIDGE_CAPACITY,
};
use aeron_rs::client::subscription::{Subscription, MAX_SUB_IMAGES};
use aeron_rs::client::ClientError;
use aeron_rs::cnc::command::{
    AddPublication, ClientKeepalive, CMD_ADD_PUBLICATION, CMD_CLIENT_CLOSE, CMD_CLIENT_KEEPALIVE,
    RSP_PUBLICATION_READY, RSP_SUBSCRIPTION_READY,
};
use aeron_rs::context::{ContextValidationError, DriverContext};
use aeron_rs::frame::{sockaddr_to_std, SocketAddress, SOCKADDR_IN_LENGTH};

const NOW_MS: i64 = 1_700_000_000_000;
const PID: i32 = 4711;
const CHANNEL: &str = "aeron:udp?endpoint=127.0.0.1:40123";

fn launch() -> (MediaDriver, DriverParts) {
    MediaDriver::launch(&DriverContext::default(), 77, PID, NOW_MS).expect("launch")
}

fn work(region: &mut [u8], parts: &mut ConductorParts) -> i32 {
    parts.conductor.do_work(
        region,
        &mut parts.to_sender_buf,
        &mut parts.to_receiver_buf,
        1_000,
        NOW_MS,
    )
}

fn remote() -> SocketAddress {
    SocketAddress::V4 { octets: [127, 0, 0, 1], port: 40123 }
}

fn cursor(position: i64) -> LogCursor {
    LogCursor { active_term_id: 0, term_offset: position as u32, position }
}

// driver

#[test]
fn launch_refuses_an_invalid_context() {
    let mut ctx = DriverContext::default();
    ctx.mtu_length = 1;
    let error = MediaDriver::launch(&ctx, 77, PID, NOW_MS).map(|_| ()).unwrap_err();
    assert_eq!(error, LaunchError::Context(ContextValidationError::MtuOutOfRange));
    assert_eq!(error.to_string(), "mtu_length must be in [64, 65536]");
}

#[test]
fn launch_tells_clients_the_configuration() {
    let (driver, parts) = launch();
    assert_eq!(
        driver.config,
        ClientConfig {
            socket_rcvbuf: 2_097_152,
            socket_sndbuf: 2_097_152,
            multicast_ttl: DriverContext::default().multicast_ttl,
            term_length: 65_536,
            mtu: 1408,
        }
    );
    assert_eq!(driver.cnc_length, parts.region.len());
    assert_eq!(parts.receiver.receiver_id, 77);
}

#[test]
fn close_gives_the_first_error() {
    let (driver, _) = launch();
    assert!(driver.close(Ok(()), Ok(()), Ok(())).is_ok());
    let fail = |text: &str| Err(AgentError::from(std::io::Error::other(text.to_string())));
    match driver.close(Ok(()), fail("sender"), fail("conductor")) {
        Err(AgentError::Io(e)) => assert_eq!(e.to_string(), "sender"),
        Ok(()) => panic!("expected an error"),
    }
}

// connection

#[test]
fn client_connects_and_is_tracked() {
    let (driver, mut parts) = launch();
    let client = driver.connect(&mut parts.region, NOW_MS + 100).expect("connect");
    assert_eq!(client.client_id(), PID as i64 ^ 0x1234_5678);
    assert_eq!(client.client_id(), PID as i64 ^ CLIENT_ID_MASK);
    assert!(client.is_driver_alive(&parts.region, NOW_MS + 4_999));
    assert!(!client.is_driver_alive(&parts.region, NOW_MS + 5_000));
    assert!(work(&mut parts.region, &mut parts.conductor) > 0);
    assert_eq!(parts.conductor.conductor.client_count, 1);
    assert_eq!(parts.conductor.conductor.clients[0].client_id, client.client_id());
}

#[test]
fn client_refuses_a_driver_that_is_gone() {
    let (driver, mut parts) = launch();
    let before = parts.region.clone();
    let error = driver.connect(&mut parts.region, NOW_MS + 5_000).map(|_| ()).unwrap_err();
    assert_eq!(error, ClientError::DriverNotRunning);
    assert_eq!(parts.region, before);
    parts.conductor.conductor.channels.cnc.close(&mut parts.region);
    let error = driver.connect(&mut parts.region, NOW_MS).map(|_| ()).unwrap_err();
    assert_eq!(error, ClientError::CncError);
}

#[test]
fn heartbeat_and_close_name_the_client() {
    let (driver, mut parts) = launch();
    let client = driver.connect(&mut parts.region, NOW_MS).expect("connect");
    client.heartbeat(&mut parts.region);
    client.close(&mut parts.region);
    let mut commands = Vec::new();
    let ring = parts.conductor.conductor.channels.cnc.to_driver;
    ring.read(&mut parts.region, &mut commands);
    let types: Vec<i32> = commands.iter().map(|command| command.msg_type).collect();
    assert_eq!(types, vec![CMD_CLIENT_KEEPALIVE, CMD_CLIENT_KEEPALIVE, CMD_CLIENT_CLOSE]);
    for command in &commands {
        let cmd = ClientKeepalive::decode(&command.payload).expect("decode");
        assert_eq!((cmd.correlation_id, cmd.client_id), (0, client.client_id()));
    }
}

// publications

#[test]
fn publication_is_made_as_asked() {
    let (driver, mut parts) = launch();
    let mut client = driver.connect(&mut parts.region, NOW_MS).expect("connect");
    let request = client.begin_publication(Some(remote()), 10).expect("begin");
    assert_eq!(request.correlation_id, 1);
    assert_eq!(
        request.log,
        LogParams {
            session_id: 1,
            stream_id: 10,
            initial_term_id: 0,
            term_length: 65_536,
            mtu: 1408,
        }
    );
    assert_eq!(request.local, SocketAddress::V4 { octets: [0; 4], port: 0 });
    assert_eq!(sockaddr_to_std(&request.dest, SOCKADDR_IN_LENGTH), Some(remote()));
    assert_eq!(request.transport.mtu_length, 1408);

    let mut bridge = PublicationBridge::<&str>::new();
    let outcome = PublicationOutcome::Ready { pending: "sender side", cursor: cursor(0) };
    let publication = client
        .add_publication(&mut parts.region, &mut bridge, &request, CHANNEL, outcome)
        .expect("add");
    assert_eq!(bridge.try_take(0), Some("sender side"));
    assert_eq!(publication.registration_id(), 1);
    assert_eq!(publication.session_id(), 1);
    assert_eq!(publication.stream_id(), 10);
    assert_eq!(publication.initial_term_id(), 0);
    assert_eq!(publication.term_length(), 65_536);
    assert_eq!(publication.mtu(), 1408);
    assert_eq!(publication.channel(), CHANNEL);

    let mut commands = Vec::new();
    let ring = parts.conductor.conductor.channels.cnc.to_driver;
    ring.read(&mut parts.region, &mut commands);
    assert_eq!(commands[1].msg_type, CMD_ADD_PUBLICATION);
    let cmd = AddPublication::decode(&commands[1].payload).expect("decode");
    assert_eq!((cmd.correlation_id, cmd.client_id), (1, client.client_id()));
    assert_eq!((cmd.stream_id, cmd.channel_str()), (10, Some(CHANNEL)));
}

#[test]
fn publication_request_is_answered() {
    let (driver, mut parts) = launch();
    let mut client = driver.connect(&mut parts.region, NOW_MS).expect("connect");
    let request = client.begin_publication(Some(remote()), 10).expect("begin");
    let mut bridge = PublicationBridge::<()>::new();
    let outcome = PublicationOutcome::Ready { pending: (), cursor: cursor(0) };
    client
        .add_publication(&mut parts.region, &mut bridge, &request, CHANNEL, outcome)
        .expect("add");
    work(&mut parts.region, &mut parts.conductor);
    let mut responses = Vec::new();
    client.cnc.to_clients().receive(&parts.region, &mut responses);
    assert_eq!(responses.len(), 1);
    assert_eq!(responses[0].msg_type, RSP_PUBLICATION_READY);
}

#[test]
fn publication_that_cannot_be_made_is_refused() {
    let (driver, mut parts) = launch();
    let mut client = driver.connect(&mut parts.region, NOW_MS).expect("connect");
    let error = client.begin_publication(None, 10).map(|_| ()).unwrap_err();
    assert_eq!(error, ClientError::ChannelInvalid);
    assert_eq!(client.next_correlation_id, 1);

    let request = client.begin_publication(Some(remote()), 10).expect("begin");
    let mut bridge = PublicationBridge::<u32>::new();
    let region = &mut parts.region;
    let mut add = |client: &Aeron, outcome| {
        client.add_publication(region, &mut bridge, &request, CHANNEL, outcome).map(|_| ())
    };
    assert_eq!(add(&client, PublicationOutcome::NoLog), Err(ClientError::InvalidParams));
    assert_eq!(add(&client, PublicationOutcome::NoTransport), Err(ClientError::TransportError));
    for pending in 0..32 {
        let outcome = PublicationOutcome::Ready { pending, cursor: cursor(0) };
        assert_eq!(add(&client, outcome), Ok(()));
    }
    let outcome = PublicationOutcome::Ready { pending: 99, cursor: cursor(0) };
    assert_eq!(add(&client, outcome), Err(ClientError::MaxPublicationsReached));
}

#[test]
fn wildcard_has_the_family_of_the_remote() {
    let (driver, mut parts) = launch();
    let mut client = driver.connect(&mut parts.region, NOW_MS).expect("connect");
    let v6 = SocketAddress::V6 { octets: [1; 16], port: 9 };
    let request = client.begin_publication(Some(v6), 10).expect("begin");
    assert_eq!(request.local, SocketAddress::V6 { octets: [0; 16], port: 0 });
}

fn make_publication(mtu: u32) -> Publication {
    let params =
        LogParams { session_id: 1, stream_id: 2, initial_term_id: 3, term_length: 1024, mtu };
    Publication::new(params, cursor(0), 5, CHANNEL)
}

#[test]
fn offer_returns_the_new_position() {
    let mut publication = make_publication(128);
    assert_eq!(publication.offer(4, Ok(()), cursor(64)), Ok(64));
    assert_eq!(publication.position(), 64);
    assert_eq!(publication.term_offset(), 64);
    let rotated = LogCursor { active_term_id: 4, term_offset: 0, position: 1024 };
    assert_eq!(
        publication.offer(4, Err(OfferError::AdminAction), rotated),
        Err(OfferError::AdminAction)
    );
    assert_eq!(publication.active_term_id(), 4);
    assert_eq!(
        publication.offer(4, Err(OfferError::BackPressured), rotated),
        Err(OfferError::BackPressured)
    );
}

#[test]
fn offer_refuses_a_payload_beyond_one_frame() {
    let mut publication = make_publication(128);
    assert!(publication.accepts(96));
    assert!(!publication.accepts(97));
    assert_eq!(publication.offer(97, Ok(()), cursor(64)), Err(OfferError::PayloadTooLarge));
    assert_eq!(publication.position(), 0);
    assert!(!make_publication(31).accepts(0));
}

#[test]
fn long_channel_is_cut_off() {
    let long = "x".repeat(300);
    let publication = Publication::new(make_publication(128).params, cursor(0), 5, &long);
    assert_eq!(publication.channel(), &long[..256]);
    let split = format!("{}\u{e4}", "x".repeat(255));
    let publication = Publication::new(make_publication(128).params, cursor(0), 5, &split);
    assert_eq!(publication.channel(), "");
}

// subscriptions

#[test]
fn subscription_request_is_answered() {
    let (driver, mut parts) = launch();
    let mut client = driver.connect(&mut parts.region, NOW_MS).expect("connect");
    let subscription: Subscription<u32> =
        client.add_subscription(&mut parts.region, CHANNEL, 20).expect("add");
    assert_eq!(subscription.registration_id(), 1);
    assert_eq!(subscription.stream_id(), 20);
    assert_eq!(subscription.channel(), CHANNEL);
    assert_eq!(subscription.image_count(), 0);
    work(&mut parts.region, &mut parts.conductor);
    let mut responses = Vec::new();
    client.cnc.to_clients().receive(&parts.region, &mut responses);
    assert_eq!(responses.len(), 1);
    assert_eq!(responses[0].msg_type, RSP_SUBSCRIPTION_READY);
}

#[test]
fn subscription_that_cannot_be_asked_for_is_refused() {
    let (driver, mut parts) = launch();
    let mut client = driver.connect(&mut parts.region, NOW_MS).expect("connect");
    let long = "x".repeat(257);
    let result = client.add_subscription::<u32>(&mut parts.region, &long, 20);
    assert_eq!(result.map(|_| ()), Err(ClientError::ChannelInvalid));
    let mut result = Ok(());
    while result.is_ok() {
        result = client.add_subscription::<u32>(&mut parts.region, CHANNEL, 20).map(|_| ());
    }
    assert_eq!(result, Err(ClientError::RegistrationFailed));
}

fn pending(image: u32, stream_id: i32) -> PendingImage<u32> {
    PendingImage { image, session_id: image as i32, stream_id, correlation_id: 0 }
}

#[test]
fn poll_takes_in_own_images_only() {
    let mut subscription = Subscription::new(1, 7, CHANNEL);
    let mut other = Subscription::new(2, 8, CHANNEL);
    let mut bridge = SubscriptionBridge::new();
    assert!(bridge.deposit(pending(1, 7)));
    assert!(bridge.deposit(pending(2, 8)));
    assert!(bridge.deposit(pending(3, 7)));
    assert!(!subscription.begin_poll(&mut bridge, 0));
    assert_eq!(subscription.image_count(), 0);
    assert!(subscription.begin_poll(&mut bridge, 10));
    assert_eq!(subscription.images, vec![1, 3]);
    assert_eq!(bridge.peek_stream_id(0), None);
    assert_eq!(bridge.peek_stream_id(1), Some(8));
    assert_eq!(bridge.peek_stream_id(2), None);
    assert!(other.begin_poll(&mut bridge, 10));
    assert_eq!(other.images, vec![2]);
    assert_eq!(subscription.images, vec![1, 3]);
    assert_eq!(bridge.peek_stream_id(1), None);
}

#[test]
fn images_that_cannot_be_held_go_on_waiting() {
    let mut subscription = Subscription::new(1, 7, CHANNEL);
    subscription.images = (0..15).collect();
    let mut bridge = SubscriptionBridge::new();
    for (image, stream_id) in [(20, 8), (21, 7), (22, 7), (23, 8)] {
        assert!(bridge.deposit(pending(image, stream_id)));
    }
    subscription.drain_bridge(&mut bridge);
    assert_eq!(subscription.image_count(), MAX_SUB_IMAGES);
    assert_eq!(subscription.images.last(), Some(&21));
    let streams: Vec<Option<i32>> = (0..4).map(|idx| bridge.peek_stream_id(idx)).collect();
    assert_eq!(streams, vec![Some(8), None, Some(7), Some(8)]);
}

#[test]
fn subscription_holds_a_bounded_number_of_images() {
    let mut subscription = Subscription::new(1, 7, CHANNEL);
    let mut bridge = SubscriptionBridge::new();
    for i in 0..20 {
        assert!(bridge.deposit(pending(i, 7)));
    }
    subscription.drain_bridge(&mut bridge);
    assert_eq!(subscription.image_count(), MAX_SUB_IMAGES);
    assert_eq!(bridge.try_take(16).map(|pending| pending.image), Some(16));
}

#[test]
fn closed_images_are_removed() {
    let mut subscription = Subscription::new(1, 7, CHANNEL);
    subscription.images = vec![10, 11, 12, 13, 14];
    subscription.remove_closed_images(vec![true, false, false, true, true]);
    assert_eq!(subscription.images, vec![12, 11]);
    subscription.remove_closed_images(vec![false, false]);
    assert_eq!(subscription.images, vec![12, 11]);
    subscription.remove_closed_images(vec![true, true]);
    assert!(subscription.images.is_empty());
}

/// Polls images that have these numbers of fragments waiting.
fn poll(waiting: &mut Vec<i32>, limit: i32) -> (i32, Vec<i32>) {
    let mut subscription = Subscription::new(1, 7, CHANNEL);
    subscription.images = (0..waiting.len()).collect();
    let mut cycle = subscription.poll_cycle(limit);
    let mut quotas = Vec::new();
    while let Some((index, quota)) = cycle.next() {
        let fragments = waiting[index].min(quota);
        waiting[index] -= fragments;
        quotas.push(quota);
        cycle.on_polled(fragments);
    }
    (cycle.total, quotas)
}

#[test]
fn limit_is_divided_over_the_images() {
    assert_eq!(poll(&mut vec![100, 100, 100], 10), (10, vec![3, 3, 4]));
    assert_eq!(poll(&mut vec![1, 100, 100], 10), (10, vec![3, 4, 5]));
    assert_eq!(poll(&mut vec![100, 100, 100], 2), (2, vec![1, 1]));
    assert_eq!(poll(&mut vec![0, 0, 5], 2), (2, vec![1, 1, 2]));
    assert_eq!(poll(&mut vec![5], 0), (0, vec![]));
    assert_eq!(poll(&mut vec![], 10), (0, vec![]));
}

// errors

#[test]
fn every_client_error_has_its_text() {
    let texts = [
        (ClientError::DriverNotRunning, "driver not running"),
        (ClientError::Timeout, "timed out waiting for driver response"),
        (ClientError::RegistrationFailed, "registration failed"),
        (ClientError::ChannelInvalid, "invalid channel URI"),
        (ClientError::MaxPublicationsReached, "max publications reached"),
        (ClientError::MaxSubscriptionsReached, "max subscriptions reached"),
        (ClientError::InvalidParams, "invalid parameters"),
        (ClientError::CncError, "CnC mapping error"),
        (ClientError::TransportError, "transport open failed"),
    ];
    for (error, text) in texts {
        assert_eq!(error.to_string(), text);
    }
}

#[test]
fn accepted_offers_move_the_position_on() {
    let mut publication = make_publication(128);
    // A log that appends whole frames, aligned to 32 bytes.
    let mut end = 0;
    for payload_length in [0usize, 4, 32, 96] {
        let before = publication.position();
        end += (32 + payload_length as i64 + 31) / 32 * 32;
        let position = publication.offer(payload_length, Ok(()), cursor(end)).expect("offer");
        assert_eq!(publication.position(), position);
        assert!(position >= before + 32 + payload_length as i64);
    }
    let before = publication.position();
    let refused = publication.offer(4, Err(OfferError::BackPressured), cursor(end));
    assert_eq!(refused, Err(OfferError::BackPressured));
    assert_eq!(publication.position(), before);
}

#[test]
fn sockets_of_subscriptions_go_to_the_receiver() {
    let (driver, mut parts) = launch();
    let client = driver.connect(&mut parts.region, NOW_MS).expect("connect");
    let mut bridge = RecvEndpointBridge::<usize>::new();
    let missing = client.add_receive_endpoint(&mut bridge, None);
    assert_eq!(missing, Err(ClientError::TransportError));
    for endpoint in 0..RECV_ENDPOINT_BRIDGE_CAPACITY {
        assert_eq!(client.add_receive_endpoint(&mut bridge, Some(endpoint)), Ok(()));
    }
    let refused = client.add_receive_endpoint(&mut bridge, Some(99));
    assert_eq!(refused, Err(ClientError::MaxSubscriptionsReached));
    for endpoint in 0..RECV_ENDPOINT_BRIDGE_CAPACITY {
        assert_eq!(bridge.try_take(endpoint), Some(endpoint));
    }
}
