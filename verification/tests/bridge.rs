use aeron_rs::client::bridge::{PublicationBridge, BRIDGE_CAPACITY};

#[test]
fn bridge_new_bridge_has_all_empty_slots() {
    let mut bridge = PublicationBridge::<u32>::new();
    for i in 0..bridge.capacity() {
        assert!(bridge.try_take(i).is_none());
    }
}

#[test]
fn bridge_bridge_capacity_matches_constant() {
    let bridge = PublicationBridge::<u32>::new();
    assert_eq!(bridge.capacity(), BRIDGE_CAPACITY);
}

#[test]
fn bridge_try_take_out_of_bounds_returns_none() {
    let mut bridge = PublicationBridge::<u32>::new();
    assert!(bridge.try_take(BRIDGE_CAPACITY + 10).is_none());
}
