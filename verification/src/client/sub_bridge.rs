//! Bridges of the receiving side: images from the receiver to subscriptions, and
//! endpoints from the client to the receiver.

use crate::client::bridge::SlotBridge;
use vstd::prelude::*;

verus! {

/// Images on their way to subscriptions at most.
pub const SUB_BRIDGE_CAPACITY: usize = 32;

/// Endpoints on their way to the receiver at most.
pub const RECV_ENDPOINT_BRIDGE_CAPACITY: usize = 16;

/// An image on its way to a subscription.
#[derive(Debug)]
pub struct PendingImage<I> {
    pub image: I,
    pub session_id: i32,
    pub stream_id: i32,
    pub correlation_id: i64,
}

/// Carries images from the receiver to subscriptions.
pub type SubscriptionBridge<I> = SlotBridge<PendingImage<I>, SUB_BRIDGE_CAPACITY>;

/// Carries endpoints from the client to the receiver.
pub type RecvEndpointBridge<E> = SlotBridge<E, RECV_ENDPOINT_BRIDGE_CAPACITY>;

impl<I, const N: usize> SlotBridge<PendingImage<I>, N> {
    /// Stream id of the image in a slot, which stays there. `None` if the slot is
    /// empty or out of bounds.
    pub fn peek_stream_id(&self, idx: usize) -> (r: Option<i32>)
        requires
            self.wf(),
        ensures
            r == if idx < N && self.slots@[idx as int] is Some {
                Some(self.slots@[idx as int]->0.stream_id)
            } else {
                None
            },
    {
        if idx >= self.slots.len() {
            return None;
        }
        match &self.slots[idx] {
            Some(pending) => Some(pending.stream_id),
            None => None,
        }
    }
}

/// A bridge for images has 32 slots and one for endpoints 16.
pub proof fn law_receiving_bridges_have_their_slots<I, E>(
    images: &SubscriptionBridge<I>,
    endpoints: &RecvEndpointBridge<E>,
    image_slots: usize,
    endpoint_slots: usize,
)
    requires
        images.wf(),
        endpoints.wf(),
        call_ensures(SubscriptionBridge::<I>::capacity, (images,), image_slots),
        call_ensures(RecvEndpointBridge::<E>::capacity, (endpoints,), endpoint_slots),
    ensures
        image_slots == 32,
        endpoint_slots == 16,
{
}

/// A slot tells the stream of the image that waits in it, where one does.
pub proof fn law_slot_tells_its_stream<I>(
    bridge: &SubscriptionBridge<I>,
    idx: usize,
    r: Option<i32>,
)
    requires
        bridge.wf(),
        call_ensures(SubscriptionBridge::<I>::peek_stream_id, (bridge, idx), r),
    ensures
        r is Some <==> idx < 32 && bridge.slots@[idx as int] is Some,
        r matches Some(stream_id) ==> stream_id == bridge.slots@[idx as int]->0.stream_id,
{
}

} // verus!
