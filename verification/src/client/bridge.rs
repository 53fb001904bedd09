//! Bridges that carry handles from one thread to another.
//!
//! A bridge is a fixed number of slots. The producer fills the first empty one,
//! the consumer empties filled ones. It is never resized.

use vstd::prelude::*;

verus! {

/// Publications on their way to the sender at most.
pub const BRIDGE_CAPACITY: usize = 32;

/// A bridge with `N` slots.
#[derive(Debug)]
pub struct SlotBridge<T, const N: usize> {
    pub slots: Vec<Option<T>>,
}

/// Carries publications from the client to the sender.
pub type PublicationBridge<T> = SlotBridge<T, BRIDGE_CAPACITY>;

/// Slot `i` is the first empty one.
pub open spec fn first_empty<T>(slots: Seq<Option<T>>, i: int) -> bool {
    &&& 0 <= i < slots.len()
    &&& slots[i] is None
    &&& forall|k: int| 0 <= k < i ==> #[trigger] slots[k] is Some
}

/// Every slot is filled.
pub open spec fn is_full<T>(slots: Seq<Option<T>>) -> bool {
    forall|k: int| 0 <= k < slots.len() ==> #[trigger] slots[k] is Some
}

/// Every slot is empty.
pub open spec fn is_empty<T>(slots: Seq<Option<T>>) -> bool {
    forall|k: int| 0 <= k < slots.len() ==> #[trigger] slots[k] is None
}

/// From `before` to `after` an item went into the first empty slot, `r` telling
/// whether there was one.
pub open spec fn is_deposit<T>(
    before: Seq<Option<T>>,
    after: Seq<Option<T>>,
    item: T,
    r: bool,
) -> bool {
    &&& r == !is_full(before)
    &&& !r ==> after == before
    &&& forall|i: int| #[trigger]
        first_empty(before, i) ==> after == before.update(i, Some(item))
    &&& r ==> exists|i: int| #[trigger] first_empty(before, i)
}

impl<T, const N: usize> SlotBridge<T, N> {
    /// The bridge has all its slots.
    pub open spec fn wf(self) -> bool {
        self.slots@.len() == N
    }

    /// A bridge with empty slots.
    pub fn new() -> (r: Self)
        ensures
            r.wf(),
            forall|i: int| 0 <= i < N ==> #[trigger] r.slots@[i] is None,
            is_empty(r.slots@),
    {
        let mut slots: Vec<Option<T>> = Vec::new();
        let mut i: usize = 0;
        while i < N
            invariant
                i <= N,
                slots@.len() == i,
                forall|k: int| 0 <= k < i ==> #[trigger] slots@[k] is None,
            decreases N - i,
        {
            slots.push(None);
            i += 1;
        }
        SlotBridge { slots }
    }

    /// Puts an item into the first empty slot. Returns false, and drops the item,
    /// if there is none.
    pub fn deposit(&mut self, item: T) -> (r: bool)
        requires
            old(self).wf(),
        ensures
            final(self).wf(),
            r == !is_full(old(self).slots@),
            !r ==> final(self).slots@ == old(self).slots@,
            forall|i: int| #[trigger]
                first_empty(old(self).slots@, i) ==> final(self).slots@ == old(self).slots@.update(
                    i,
                    Some(item),
                ),
            r ==> exists|i: int| #[trigger] first_empty(old(self).slots@, i),
            is_deposit(old(self).slots@, final(self).slots@, item, r),
    {
        let mut i: usize = 0;
        while i < self.slots.len()
            invariant
                *self == *old(self),
                self.wf(),
                i <= self.slots@.len(),
                forall|k: int| 0 <= k < i ==> #[trigger] self.slots@[k] is Some,
            decreases self.slots@.len() - i,
        {
            if self.slots[i].is_none() {
                self.slots.set(i, Some(item));
                assert(first_empty(old(self).slots@, i as int));
                assert(!(old(self).slots@[i as int] is Some));
                assert forall|k: int| #[trigger] first_empty(old(self).slots@, k) implies k
                    == i by {
                    if k < i {
                        assert(old(self).slots@[k] is Some);
                    }
                    if i < k {
                        assert(old(self).slots@[i as int] is Some);
                    }
                }
                return true;
            }
            i += 1;
        }
        false
    }

    /// Takes the item out of a slot, `None` if the slot is empty or out of bounds.
    pub fn try_take(&mut self, idx: usize) -> (r: Option<T>)
        requires
            old(self).wf(),
        ensures
            final(self).wf(),
            r == if idx < N {
                old(self).slots@[idx as int]
            } else {
                None
            },
            final(self).slots@ == if idx < N {
                old(self).slots@.update(idx as int, None)
            } else {
                old(self).slots@
            },
    {
        if idx >= self.slots.len() {
            return None;
        }
        self.slots[idx].take()
    }

    /// Number of slots.
    pub fn capacity(&self) -> (r: usize)
        requires
            self.wf(),
        ensures
            r == N,
    {
        self.slots.len()
    }
}

/// What was deposited can be taken, from the slot that was filled, and leaves the
/// bridge as it was.
pub proof fn law_deposit_then_take<T>(slots: Seq<Option<T>>, item: T, i: int)
    requires
        first_empty(slots, i),
    ensures
        slots.update(i, Some(item))[i] == Some(item),
        slots.update(i, Some(item)).update(i, None) == slots,
{
    assert(slots.update(i, Some(item)).update(i, None) =~= slots);
}

/// A new bridge has as many slots as its type says, all empty.
pub proof fn law_new_bridge_is_empty<T, const N: usize>(bridge: SlotBridge<T, N>)
    requires
        call_ensures(SlotBridge::<T, N>::new, (), bridge),
    ensures
        bridge.slots@.len() == N,
        forall|k: int| 0 <= k < N ==> #[trigger] bridge.slots@[k] is None,
{
}

/// A bridge for publications has 32 slots.
pub proof fn law_publication_bridge_has_its_slots<T>(bridge: &PublicationBridge<T>, r: usize)
    requires
        bridge.wf(),
        call_ensures(PublicationBridge::<T>::capacity, (bridge,), r),
    ensures
        r == 32,
        bridge.slots@.len() == 32,
{
}

/// An item goes into the slot `i` exactly where that is the first empty one, and
/// no other slot changes. A bridge without an empty slot refuses it.
pub proof fn law_item_goes_into_the_first_empty_slot<T, const N: usize>(
    before: SlotBridge<T, N>,
    after: SlotBridge<T, N>,
    item: T,
    r: bool,
)
    requires
        before.wf(),
        exists|bridge: &mut SlotBridge<T, N>|
            *bridge == before && *final(bridge) == after && #[trigger] call_ensures(
                SlotBridge::<T, N>::deposit,
                (bridge, item),
                r,
            ),
    ensures
        !r ==> after.slots@ == before.slots@,
        !r <==> forall|k: int| 0 <= k < N ==> #[trigger] before.slots@[k] is Some,
        forall|i: int|
            0 <= i < N && #[trigger] before.slots@[i] is None && (forall|k: int|
                0 <= k < i ==> #[trigger] before.slots@[k] is Some) ==> r && after.slots@
                == before.slots@.update(i, Some(item)),
{
    assert(is_deposit(before.slots@, after.slots@, item, r));
    assert forall|i: int|
        0 <= i < N && #[trigger] before.slots@[i] is None && (forall|k: int|
            0 <= k < i ==> #[trigger] before.slots@[k] is Some) implies r && after.slots@
        == before.slots@.update(i, Some(item)) by {
        assert(first_empty(before.slots@, i));
        if !r {
            assert(before.slots@[i] is Some);
        }
    }
}

/// What is taken from a slot was in it; the slot is empty then, and no other
/// changes. Beyond the last slot there is nothing.
pub proof fn law_item_is_taken_out<T, const N: usize>(
    before: SlotBridge<T, N>,
    after: SlotBridge<T, N>,
    idx: usize,
    r: Option<T>,
)
    requires
        before.wf(),
        exists|bridge: &mut SlotBridge<T, N>|
            *bridge == before && *final(bridge) == after && #[trigger] call_ensures(
                SlotBridge::<T, N>::try_take,
                (bridge, idx),
                r,
            ),
    ensures
        after.slots@.len() == N,
        idx >= N ==> r is None && after.slots@ == before.slots@,
        idx < N ==> r == before.slots@[idx as int] && after.slots@[idx as int] is None,
        forall|k: int| 0 <= k < N && k != idx ==> #[trigger] after.slots@[k] == before.slots@[k],
{
}

} // verus!
