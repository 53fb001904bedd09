use aeron_rs::client::sub_bridge::{
    PendingImage, RecvEndpointBridge, SubscriptionBridge, RECV_ENDPOINT_BRIDGE_CAPACITY,
    SUB_BRIDGE_CAPACITY,
};

/// An image, known by its session.
#[derive(Debug, PartialEq)]
struct Image {
    session_id: i32,
}

fn make_pending(session_id: i32, stream_id: i32, correlation_id: i64) -> PendingImage<Image> {
    PendingImage { image: Image { session_id }, session_id, stream_id, correlation_id }
}

#[test]
fn sub_bridge_new_bridge_has_all_empty_slots() {
    let mut bridge = SubscriptionBridge::<Image>::new();
    for i in 0..bridge.capacity() {
        assert!(bridge.try_take(i).is_none());
    }
}

#[test]
fn sub_bridge_bridge_capacity_matches_constant() {
    let bridge = SubscriptionBridge::<Image>::new();
    assert_eq!(bridge.capacity(), SUB_BRIDGE_CAPACITY);
}

#[test]
fn sub_bridge_try_take_out_of_bounds_returns_none() {
    let mut bridge = SubscriptionBridge::<Image>::new();
    assert!(bridge.try_take(SUB_BRIDGE_CAPACITY + 10).is_none());
}

#[test]
fn deposit_and_take_single() {
    let mut bridge = SubscriptionBridge::<Image>::new();
    let pending = make_pending(42, 7, 100);

    assert!(bridge.deposit(pending), "deposit should succeed");

    // First slot should contain the item.
    let taken = bridge.try_take(0);
    assert!(taken.is_some(), "try_take(0) should return the item");
    let item = taken.expect("checked above");
    assert_eq!(item.session_id, 42);
    assert_eq!(item.stream_id, 7);
    assert_eq!(item.correlation_id, 100);

    // Slot should be empty now.
    assert!(bridge.try_take(0).is_none(), "slot should be empty after take");
}

#[test]
fn deposit_fills_first_empty() {
    let mut bridge = SubscriptionBridge::<Image>::new();

    assert!(bridge.deposit(make_pending(1, 10, 1)));
    assert!(bridge.deposit(make_pending(2, 20, 2)));
    assert!(bridge.deposit(make_pending(3, 30, 3)));

    // Items should be in slots 0, 1, 2 in order.
    let t0 = bridge.try_take(0).expect("slot 0");
    assert_eq!(t0.session_id, 1);
    let t1 = bridge.try_take(1).expect("slot 1");
    assert_eq!(t1.session_id, 2);
    let t2 = bridge.try_take(2).expect("slot 2");
    assert_eq!(t2.session_id, 3);

    // No more items.
    assert!(bridge.try_take(3).is_none());
}

#[test]
fn deposit_when_full_returns_false() {
    let mut bridge = SubscriptionBridge::<Image>::new();

    // Fill all slots.
    for i in 0..SUB_BRIDGE_CAPACITY {
        assert!(
            bridge.deposit(make_pending(i as i32, i as i32, i as i64)),
            "deposit {i} should succeed"
        );
    }

    // Next deposit should fail.
    assert!(
        !bridge.deposit(make_pending(999, 999, 999)),
        "deposit should fail when bridge is full"
    );

    // Taking one slot should free it.
    let _ = bridge.try_take(0);
    assert!(
        bridge.deposit(make_pending(888, 888, 888)),
        "deposit should succeed after freeing a slot"
    );
}

#[test]
fn take_then_deposit_reuses_slot() {
    let mut bridge = SubscriptionBridge::<Image>::new();

    // Deposit + take from slot 0.
    assert!(bridge.deposit(make_pending(1, 1, 1)));
    let first = bridge.try_take(0).expect("slot 0 first round");
    assert_eq!(first.session_id, 1);

    // Deposit again - should reuse slot 0 (it is now EMPTY).
    assert!(bridge.deposit(make_pending(2, 2, 2)));
    let second = bridge.try_take(0).expect("slot 0 second round");
    assert_eq!(second.session_id, 2);
}

#[test]
fn peek_leaves_the_image() {
    let mut bridge = SubscriptionBridge::<Image>::new();
    assert_eq!(bridge.peek_stream_id(0), None);
    assert!(bridge.deposit(make_pending(1, 10, 1)));
    assert_eq!(bridge.peek_stream_id(0), Some(10));
    assert_eq!(bridge.peek_stream_id(0), Some(10));
    assert_eq!(bridge.peek_stream_id(SUB_BRIDGE_CAPACITY), None);
    assert_eq!(bridge.try_take(0).map(|pending| pending.image), Some(Image { session_id: 1 }));
}

#[test]
fn endpoint_bridge_has_its_own_capacity() {
    let mut bridge = RecvEndpointBridge::<u8>::new();
    assert_eq!(bridge.capacity(), RECV_ENDPOINT_BRIDGE_CAPACITY);
    for i in 0..RECV_ENDPOINT_BRIDGE_CAPACITY {
        assert!(bridge.deposit(i as u8));
    }
    assert!(!bridge.deposit(99));
    assert_eq!(bridge.try_take(3), Some(3));
}
