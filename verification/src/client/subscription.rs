//! The client's handle of a subscription.
//!
//! Images come in through a bridge from the receiver. A poll takes in new images,
//! drops closed ones, and divides its limit fairly over the rest: `begin_poll`,
//! `remove_closed_images`, then `poll_cycle` says which image to read next and
//! how many fragments of it.

use crate::client::sub_bridge::{PendingImage, SubscriptionBridge};
use crate::client;
use crate::client::{ChannelUri, MAX_CHANNEL_LENGTH};
use vstd::arithmetic::div_mod;
use vstd::prelude::*;
use vstd::utf8;

verus! {

/// Images that a subscription holds at most.
pub const MAX_SUB_IMAGES: usize = 16;

/// A subscription, as its client sees it.
#[derive(Debug)]
pub struct Subscription<I> {
    pub registration_id: i64,
    pub stream_id: i32,
    pub channel_uri: ChannelUri,
    pub images: Vec<I>,
}

/// An image of a stream waits in a slot.
pub open spec fn holds_stream<I>(slot: Option<PendingImage<I>>, stream_id: i32) -> bool {
    slot is Some && slot->0.stream_id == stream_id
}

/// The images of a stream that wait in the slots from `idx` on, in order.
pub open spec fn waiting_images<I>(
    slots: Seq<Option<PendingImage<I>>>,
    idx: int,
    stream_id: i32,
) -> Seq<I>
    decreases slots.len() - idx,
{
    if idx < 0 || idx >= slots.len() {
        Seq::empty()
    } else if holds_stream(slots[idx], stream_id) {
        seq![slots[idx]->0.image] + waiting_images(slots, idx + 1, stream_id)
    } else {
        waiting_images(slots, idx + 1, stream_id)
    }
}

/// The images and the bridge's slots after the slots from `idx` on were drained
/// for a stream. Images of other streams stay in their slots. Draining ends when
/// no more images can be held.
pub open spec fn drained<I>(
    images: Seq<I>,
    slots: Seq<Option<PendingImage<I>>>,
    idx: int,
    stream_id: i32,
) -> (Seq<I>, Seq<Option<PendingImage<I>>>)
    decreases slots.len() - idx,
{
    if idx < 0 || idx >= slots.len() || images.len() >= MAX_SUB_IMAGES {
        (images, slots)
    } else if holds_stream(slots[idx], stream_id) {
        drained(
            images.push(slots[idx]->0.image),
            slots.update(idx, None),
            idx + 1,
            stream_id,
        )
    } else {
        drained(images, slots, idx + 1, stream_id)
    }
}

/// A sequence without its element at `i`, which the last one replaces.
pub open spec fn without<A>(s: Seq<A>, i: int) -> Seq<A> {
    s.update(i, s.last()).drop_last()
}

/// The images that stay when those from `i` on that are closed are removed.
pub open spec fn still_open<I>(images: Seq<I>, closed: Seq<bool>, i: int) -> Seq<I>
    decreases images.len() - i,
{
    if i < 0 || i >= images.len() {
        images
    } else if closed[i] {
        still_open(without(images, i), without(closed, i), i)
    } else {
        still_open(images, closed, i + 1)
    }
}

impl<I> Subscription<I> {
    /// The handle is valid.
    pub open spec fn wf(self) -> bool {
        &&& self.images@.len() <= MAX_SUB_IMAGES
        &&& self.channel_uri.len <= MAX_CHANNEL_LENGTH
    }

    /// A subscription without images.
    pub fn new(registration_id: i64, stream_id: i32, channel: &str) -> (r: Self)
        ensures
            r.wf(),
            r.registration_id == registration_id,
            r.stream_id == stream_id,
            r.channel_uri.is_of(channel@),
            r.images@ == Seq::<I>::empty(),
    {
        Subscription {
            registration_id,
            stream_id,
            channel_uri: ChannelUri::new(channel),
            images: Vec::new(),
        }
    }

    /// All but the images is as before.
    pub open spec fn same_identity(self, other: Self) -> bool {
        &&& self.registration_id == other.registration_id
        &&& self.stream_id == other.stream_id
        &&& self.channel_uri == other.channel_uri
    }

    /// Begins a poll: unless the limit allows nothing, takes new images in.
    /// Returns whether there is anything to go on with.
    pub fn begin_poll(&mut self, bridge: &mut SubscriptionBridge<I>, limit: i32) -> (r: bool)
        requires
            old(self).wf(),
            old(bridge).wf(),
        ensures
            final(self).wf(),
            final(bridge).wf(),
            final(self).same_identity(*old(self)),
            r == (limit > 0),
            (final(self).images@, final(bridge).slots@) == if limit > 0 {
                drained(old(self).images@, old(bridge).slots@, 0, old(self).stream_id)
            } else {
                (old(self).images@, old(bridge).slots@)
            },
    {
        if limit <= 0 {
            return false;
        }
        self.drain_bridge(bridge);
        true
    }

    /// Takes in the images of this subscription's stream that wait in the bridge.
    /// Those of other streams are left to their subscriptions.
    pub fn drain_bridge(&mut self, bridge: &mut SubscriptionBridge<I>)
        requires
            old(self).wf(),
            old(bridge).wf(),
        ensures
            final(self).wf(),
            final(bridge).wf(),
            final(self).same_identity(*old(self)),
            (final(self).images@, final(bridge).slots@) == drained(
                old(self).images@,
                old(bridge).slots@,
                0,
                old(self).stream_id,
            ),
    {
        let ghost goal = drained(self.images@, bridge.slots@, 0, self.stream_id);
        let mut idx: usize = 0;
        while idx < bridge.capacity() && self.images.len() < MAX_SUB_IMAGES
            invariant
                self.wf(),
                bridge.wf(),
                self.same_identity(*old(self)),
                idx <= bridge.slots@.len(),
                drained(self.images@, bridge.slots@, idx as int, self.stream_id) == goal,
            decreases bridge.slots@.len() - idx,
        {
            let own: bool = match bridge.peek_stream_id(idx) {
                Some(stream_id) => stream_id == self.stream_id,
                None => false,
            };
            if own {
                if let Some(pending) = bridge.try_take(idx) {
                    self.images.push(pending.image);
                }
            }
            idx += 1;
        }
    }

    /// Removes the images that are closed, `closed` telling of each image whether
    /// it is. The last image takes the place of a removed one.
    pub fn remove_closed_images(&mut self, closed: Vec<bool>)
        requires
            old(self).wf(),
            closed@.len() == old(self).images@.len(),
        ensures
            final(self).wf(),
            final(self).same_identity(*old(self)),
            final(self).images@ == still_open(old(self).images@, closed@, 0),
    {
        let mut closed = closed;
        let ghost goal = still_open(self.images@, closed@, 0);
        let mut i: usize = 0;
        while i < self.images.len()
            invariant
                self.wf(),
                self.same_identity(*old(self)),
                closed@.len() == self.images@.len(),
                i <= self.images@.len(),
                still_open(self.images@, closed@, i as int) == goal,
            decreases self.images@.len() - i,
        {
            if closed[i] {
                self.images.swap_remove(i);
                closed.swap_remove(i);
            } else {
                i += 1;
            }
        }
    }

    /// The division of a poll's limit over the images.
    pub fn poll_cycle(&self, limit: i32) -> (r: PollCycle)
        requires
            self.wf(),
        ensures
            r.image_count == self.images@.len(),
            r.index == 0,
            r.remaining == if limit > 0 {
                limit
            } else {
                0
            },
            r.total == 0,
            r.wf(),
    {
        PollCycle {
            image_count: self.images.len(),
            index: 0,
            remaining: if limit > 0 {
                limit
            } else {
                0
            },
            total: 0,
        }
    }

    /// Number of images.
    pub fn image_count(&self) -> (r: usize)
        ensures
            r == self.images@.len(),
    {
        self.images.len()
    }

    /// Registration id of the subscription.
    pub fn registration_id(&self) -> (r: i64)
        ensures
            r == self.registration_id,
    {
        self.registration_id
    }

    /// Stream id of the subscription.
    pub fn stream_id(&self) -> (r: i32)
        ensures
            r == self.stream_id,
    {
        self.stream_id
    }

    /// Channel URI. One that was cut off within a character gives an empty text.
    pub fn channel(&self) -> (r: &str)
        requires
            self.wf(),
        ensures
            utf8::valid_utf8(self.channel_uri.text()) ==> utf8::encode_utf8(r@)
                == self.channel_uri.text(),
            !utf8::valid_utf8(self.channel_uri.text()) ==> r@ == ""@,
    {
        self.channel_uri.as_str()
    }
}

/// How far a poll has come.
#[derive(Debug, Clone, Copy, PartialEq, Eq, Structural)]
pub struct PollCycle {
    pub image_count: usize,
    /// Image to be read next.
    pub index: usize,
    /// What is left of the limit.
    pub remaining: i32,
    /// Fragments that were delivered.
    pub total: i32,
}

impl PollCycle {
    /// The counters are in range.
    pub open spec fn wf(self) -> bool {
        &&& self.index <= self.image_count <= MAX_SUB_IMAGES
        &&& 0 <= self.remaining
        &&& 0 <= self.total
        &&& self.total + self.remaining <= i32::MAX
    }

    /// There is nothing more to read.
    pub open spec fn done(self) -> bool {
        self.index >= self.image_count || self.remaining <= 0
    }

    /// The next image's fair share of what is left of the limit.
    pub open spec fn quota(self) -> int {
        let images_left = self.image_count - self.index;
        if self.remaining < images_left {
            1
        } else {
            self.remaining as int / images_left
        }
    }

    /// The image to read next, and how many fragments of it at most. `None` when
    /// the poll is done.
    pub fn next(&self) -> (r: Option<(usize, i32)>)
        requires
            self.wf(),
        ensures
            r is None <==> self.done(),
            r matches Some((index, quota)) ==> index == self.index && quota == self.quota(),
    {
        if self.index >= self.image_count || self.remaining <= 0 {
            return None;
        }
        let images_left: i32 = (self.image_count - self.index) as i32;
        let quota: i32 = if self.remaining < images_left {
            1
        } else {
            self.remaining / images_left
        };
        Some((self.index, quota))
    }

    /// After the next image delivered a number of fragments.
    pub open spec fn polled(self, fragments: i32) -> PollCycle {
        PollCycle {
            image_count: self.image_count,
            index: (self.index + 1) as usize,
            remaining: (self.remaining - fragments) as i32,
            total: (self.total + fragments) as i32,
        }
    }

    /// Takes in how many fragments the next image delivered.
    pub fn on_polled(&mut self, fragments: i32)
        requires
            old(self).wf(),
            !old(self).done(),
            0 <= fragments <= old(self).quota(),
        ensures
            final(self).wf(),
            *final(self) == old(self).polled(fragments),
    {
        proof {
            lemma_quota_in_range(*self);
        }
        self.index = self.index + 1;
        self.remaining = self.remaining - fragments;
        self.total = self.total + fragments;
    }
}

/// A share is at least one fragment, and at most what is left.
proof fn lemma_quota_in_range(cycle: PollCycle)
    requires
        cycle.wf(),
        !cycle.done(),
    ensures
        1 <= cycle.quota() <= cycle.remaining,
{
    let left = cycle.image_count - cycle.index;
    if cycle.remaining >= left {
        div_mod::lemma_div_non_zero(cycle.remaining as int, left);
        div_mod::lemma_div_is_ordered_by_denominator(cycle.remaining as int, 1, left);
    }
}

/// A poll delivers no more fragments than its limit: delivered and left always
/// add up to the same.
pub proof fn law_limit_is_kept(cycle: PollCycle, fragments: i32)
    requires
        cycle.wf(),
        !cycle.done(),
        0 <= fragments <= cycle.quota(),
    ensures
        cycle.polled(fragments).wf(),
        cycle.polled(fragments).total + cycle.polled(fragments).remaining == cycle.total
            + cycle.remaining,
{
    lemma_quota_in_range(cycle);
}

/// The division is fair: while the limit allows a fragment of each image that is
/// left, it goes on to do so, and the shares of later images are no smaller than
/// those of earlier ones.
pub proof fn law_shares_are_fair(cycle: PollCycle, fragments: i32)
    requires
        cycle.wf(),
        !cycle.done(),
        0 <= fragments <= cycle.quota(),
        cycle.index + 1 < cycle.image_count,
        cycle.remaining >= cycle.image_count - cycle.index,
    ensures
        !cycle.polled(fragments).done(),
        cycle.polled(fragments).remaining >= cycle.image_count - (cycle.index + 1),
        cycle.polled(fragments).quota() >= cycle.quota(),
{
    lemma_quota_in_range(cycle);
    let left = cycle.image_count - cycle.index;
    let rest = left - 1;
    let (n, q) = (cycle.remaining as int, cycle.quota());
    let m = n - fragments;
    div_mod::lemma_fundamental_div_mod(n, left);
    assert(m >= q * rest) by (nonlinear_arith)
        requires
            n >= left * q,
            m >= n - q,
            rest == left - 1,
    ;
    assert(q * rest >= rest) by (nonlinear_arith)
        requires
            q >= 1,
            rest >= 0,
    ;
    div_mod::lemma_div_is_ordered(q * rest, m, rest);
    div_mod::lemma_div_by_multiple(q, rest);
}

/// Which images of a stream wait in the slots from `idx` on depends on these slots
/// alone.
proof fn lemma_waiting_images_frame<I>(
    a: Seq<Option<PendingImage<I>>>,
    b: Seq<Option<PendingImage<I>>>,
    idx: int,
    stream_id: i32,
)
    requires
        0 <= idx,
        a.len() == b.len(),
        forall|k: int| idx <= k < a.len() ==> #[trigger] a[k] == b[k],
    ensures
        waiting_images(a, idx, stream_id) == waiting_images(b, idx, stream_id),
    decreases a.len() - idx,
{
    if idx < a.len() {
        lemma_waiting_images_frame(a, b, idx + 1, stream_id);
    }
}

/// Draining a bridge adds exactly the images of the subscription's stream that
/// wait in it, in order, as far as they can be held. The others of the stream go
/// on waiting, and every slot with an image of another stream is left as it is.
pub proof fn law_drain_takes_own_images<I>(
    images: Seq<I>,
    slots: Seq<Option<PendingImage<I>>>,
    idx: int,
    stream_id: i32,
)
    requires
        images.len() <= MAX_SUB_IMAGES,
        0 <= idx <= slots.len(),
    ensures
        ({
            let (after, left) = drained(images, slots, idx, stream_id);
            let own = waiting_images(slots, idx, stream_id);
            let room = MAX_SUB_IMAGES - images.len();
            let n = if own.len() < room {
                own.len() as int
            } else {
                room
            };
            &&& after == images + own.take(n)
            &&& waiting_images(left, idx, stream_id) == own.skip(n)
            &&& left.len() == slots.len()
            &&& forall|k: int| 0 <= k < idx ==> #[trigger] left[k] == slots[k]
            &&& forall|k: int|
                0 <= k < slots.len() && !holds_stream(slots[k], stream_id) ==> #[trigger] left[k]
                    == slots[k]
            &&& forall|k: int|
                0 <= k < slots.len() ==> #[trigger] left[k] is None || left[k] == slots[k]
        }),
    decreases slots.len() - idx,
{
    let (after, left) = drained(images, slots, idx, stream_id);
    let own = waiting_images(slots, idx, stream_id);
    if idx >= slots.len() || images.len() >= MAX_SUB_IMAGES {
        assert(images + own.take(0) =~= images);
        assert(own.skip(0) =~= own);
    } else if holds_stream(slots[idx], stream_id) {
        let image = slots[idx]->0.image;
        let rest = slots.update(idx, None);
        let others = waiting_images(rest, idx + 1, stream_id);
        let room = MAX_SUB_IMAGES - images.len() - 1;
        let n = if others.len() < room {
            others.len() as int
        } else {
            room
        };
        law_drain_takes_own_images(images.push(image), rest, idx + 1, stream_id);
        lemma_waiting_images_frame(slots, rest, idx + 1, stream_id);
        assert(own == seq![image] + others);
        assert(images.push(image) + others.take(n) =~= images + own.take(n + 1));
        assert(others.skip(n) =~= own.skip(n + 1));
        assert(left[idx] == rest[idx]);
        assert forall|k: int|
            0 <= k < slots.len() && !holds_stream(slots[k], stream_id) implies #[trigger] left[k]
            == slots[k] by {
            assert(rest[k] == slots[k]);
        }
        assert forall|k: int| 0 <= k < slots.len() implies #[trigger] left[k] is None || left[k]
            == slots[k] by {
            assert(left[k] is None || left[k] == rest[k]);
        }
    } else {
        law_drain_takes_own_images(images, slots, idx + 1, stream_id);
        assert(left[idx] == slots[idx]);
    }
}

/// A subscription that can hold them all takes every image of its stream, and
/// leaves none of them in the bridge.
pub proof fn law_drain_leaves_no_own_image<I>(
    images: Seq<I>,
    slots: Seq<Option<PendingImage<I>>>,
    stream_id: i32,
)
    requires
        images.len() + waiting_images(slots, 0, stream_id).len() <= MAX_SUB_IMAGES,
    ensures
        ({
            let (after, left) = drained(images, slots, 0, stream_id);
            &&& after == images + waiting_images(slots, 0, stream_id)
            &&& waiting_images(left, 0, stream_id) == Seq::<I>::empty()
        }),
{
    law_drain_takes_own_images(images, slots, 0, stream_id);
    let own = waiting_images(slots, 0, stream_id);
    assert(own.take(own.len() as int) =~= own);
    assert(own.skip(own.len() as int) =~= Seq::<I>::empty());
}

/// Number of images that are not closed.
pub open spec fn open_count(closed: Seq<bool>) -> nat
    decreases closed.len(),
{
    if closed.len() == 0 {
        0
    } else {
        open_count(closed.drop_last()) + if closed.last() {
            0nat
        } else {
            1nat
        }
    }
}

/// An image is one of those that are not closed.
pub open spec fn is_open<I>(image: I, images: Seq<I>, closed: Seq<bool>) -> bool {
    exists|k: int| 0 <= k < images.len() && #[trigger] images[k] == image && !closed[k]
}

proof fn lemma_open_count_update(closed: Seq<bool>, i: int, b: bool)
    requires
        0 <= i < closed.len(),
    ensures
        open_count(closed.update(i, b)) + (if closed[i] {
            0nat
        } else {
            1nat
        }) == open_count(closed) + (if b {
            0nat
        } else {
            1nat
        }),
    decreases closed.len(),
{
    let updated = closed.update(i, b);
    if i == closed.len() - 1 {
        assert(updated.drop_last() =~= closed.drop_last());
    } else {
        lemma_open_count_update(closed.drop_last(), i, b);
        assert(updated.drop_last() =~= closed.drop_last().update(i, b));
    }
}

proof fn lemma_all_open(closed: Seq<bool>)
    requires
        forall|k: int| 0 <= k < closed.len() ==> !#[trigger] closed[k],
    ensures
        open_count(closed) == closed.len(),
    decreases closed.len(),
{
    if closed.len() > 0 {
        lemma_all_open(closed.drop_last());
    }
}

/// Of the images, exactly those stay that are not closed: each that stays is one
/// of them, each of them stays, and there are as many.
pub proof fn law_open_images_stay<I>(images: Seq<I>, closed: Seq<bool>, i: int)
    requires
        images.len() == closed.len(),
        0 <= i <= images.len(),
        forall|k: int| 0 <= k < i ==> !#[trigger] closed[k],
    ensures
        still_open(images, closed, i).len() == open_count(closed),
        forall|image: I| #[trigger]
            still_open(images, closed, i).contains(image) <==> is_open(image, images, closed),
    decreases images.len() - i,
{
    let stay = still_open(images, closed, i);
    if i >= images.len() {
        lemma_all_open(closed);
        assert forall|image: I| #[trigger] stay.contains(image) <==> is_open(
            image,
            images,
            closed,
        ) by {
            if stay.contains(image) {
                let k = choose|k: int| 0 <= k < images.len() && images[k] == image;
                assert(images[k] == image && !closed[k]);
            }
        }
    } else if closed[i] {
        let (a, c) = (without(images, i), without(closed, i));
        law_open_images_stay(a, c, i);
        lemma_open_count_update(closed, i, closed.last());
        assert(open_count(closed.update(i, closed.last())) == open_count(c) + (if closed.last() {
            0nat
        } else {
            1nat
        }));
        assert forall|image: I| #[trigger] stay.contains(image) <==> is_open(
            image,
            images,
            closed,
        ) by {
            let last = images.len() - 1;
            if is_open(image, a, c) {
                let k = choose|k: int| 0 <= k < a.len() && #[trigger] a[k] == image && !c[k];
                let j = if k == i {
                    last
                } else {
                    k
                };
                assert(images[j] == image && !closed[j]);
            }
            if is_open(image, images, closed) {
                let k = choose|k: int|
                    0 <= k < images.len() && #[trigger] images[k] == image && !closed[k];
                let j = if k == last {
                    i
                } else {
                    k
                };
                assert(k != i);
                assert(a[j] == image && !c[j]);
            }
        }
    } else {
        law_open_images_stay(images, closed, i + 1);
    }
}

/// A new subscription has what it was made with and no image.
pub proof fn law_new_subscription_has_no_image<I>(
    registration_id: i64,
    stream_id: i32,
    channel: &str,
    sub: Subscription<I>,
    id: i64,
    stream: i32,
    count: usize,
)
    requires
        call_ensures(Subscription::<I>::new, (registration_id, stream_id, channel), sub),
        call_ensures(Subscription::<I>::registration_id, (&sub,), id),
        call_ensures(Subscription::<I>::stream_id, (&sub,), stream),
        call_ensures(Subscription::<I>::image_count, (&sub,), count),
    ensures
        id == registration_id,
        stream == stream_id,
        count == 0,
{
}

/// A poll with a limit over its images starts with the first of them, the whole
/// limit and nothing delivered.
pub proof fn law_poll_starts_with_its_limit<I>(
    sub: &Subscription<I>,
    limit: i32,
    r: PollCycle,
)
    requires
        call_ensures(Subscription::<I>::poll_cycle, (sub, limit), r),
    ensures
        r.image_count == sub.images@.len(),
        r.index == 0,
        r.total == 0,
        limit >= 0 ==> r.remaining == limit,
        limit < 0 ==> r.remaining == 0,
{
}

/// The next image is given what is left of the limit divided by the images that
/// are left, rounded down, but never less than one fragment. Nothing is read when
/// no image or nothing of the limit is left.
pub proof fn law_next_image_gets_its_share(cycle: &PollCycle, r: Option<(usize, i32)>)
    requires
        cycle.wf(),
        call_ensures(PollCycle::next, (cycle,), r),
    ensures
        r is Some <==> cycle.index < cycle.image_count && cycle.remaining > 0,
        r matches Some((index, quota)) ==> {
            let left = cycle.image_count - cycle.index;
            &&& index == cycle.index
            &&& cycle.remaining < left ==> quota == 1
            &&& cycle.remaining >= left ==> quota * left <= cycle.remaining < (quota + 1) * left
            &&& left == 1 ==> quota == cycle.remaining
        },
{
    if r is Some {
        let left = cycle.image_count - cycle.index;
        let n = cycle.remaining as int;
        div_mod::lemma_fundamental_div_mod(n, left);
        let q = cycle.quota();
        if n >= left {
            assert(left * q == q * left) by (nonlinear_arith);
            assert((q + 1) * left == q * left + left) by (nonlinear_arith);
        }
    }
}

/// What an image delivered is taken off the limit and added to the total, and the
/// next image is the one after it.
pub proof fn law_delivered_fragments_are_counted(
    before: PollCycle,
    after: PollCycle,
    fragments: i32,
)
    requires
        before.wf(),
        before.index < before.image_count,
        0 <= fragments <= before.remaining,
        exists|cycle: &mut PollCycle|
            *cycle == before && *final(cycle) == after && #[trigger] call_ensures(
                PollCycle::on_polled,
                (cycle, fragments),
                (),
            ),
    ensures
        after.image_count == before.image_count,
        after.index == before.index + 1,
        after.remaining == before.remaining - fragments,
        after.total == before.total + fragments,
{
}

/// The images of a stream that wait are those in the slots with the stream's id,
/// in the order of the slots.
proof fn lemma_waiting_images_are_filtered<I>(
    slots: Seq<Option<PendingImage<I>>>,
    idx: int,
    stream_id: i32,
)
    requires
        0 <= idx <= slots.len(),
    ensures
        waiting_images(slots, idx, stream_id) == slots.skip(idx).filter(
            |slot: Option<PendingImage<I>>| slot is Some && slot->0.stream_id == stream_id,
        ).map_values(|slot: Option<PendingImage<I>>| slot->0.image),
    decreases slots.len() - idx,
{
    let own = |slot: Option<PendingImage<I>>| slot is Some && slot->0.stream_id == stream_id;
    let image = |slot: Option<PendingImage<I>>| slot->0.image;
    reveal(Seq::filter);
    if idx == slots.len() {
        assert(slots.skip(idx) =~= Seq::empty());
        assert(waiting_images(slots, idx, stream_id) =~= slots.skip(idx).filter(own).map_values(
            image,
        ));
    } else {
        lemma_waiting_images_are_filtered(slots, idx + 1, stream_id);
        let first = seq![slots[idx]];
        let rest = slots.skip(idx + 1);
        assert(slots.skip(idx) =~= first + rest);
        Seq::filter_distributes_over_add(first, rest, own);
        assert(first.drop_last() =~= Seq::empty());
        assert(first.drop_last().filter(own) =~= Seq::empty());
        assert(first.last() == slots[idx]);
        assert(first.filter(own) =~= if own(slots[idx]) {
            first
        } else {
            Seq::empty()
        });
        assert(waiting_images(slots, idx, stream_id) =~= slots.skip(idx).filter(own).map_values(
            image,
        ));
    }
}

/// A poll that may deliver something first takes in the images of its stream that
/// wait in the bridge, in the order of the slots, up to 16 images in all. It
/// empties the slots that it took them from and no other. A poll that may deliver
/// nothing changes nothing.
pub proof fn law_poll_takes_new_images_in<I>(
    before: Subscription<I>,
    after: Subscription<I>,
    bridge: SubscriptionBridge<I>,
    bridge_after: SubscriptionBridge<I>,
    limit: i32,
    r: bool,
)
    requires
        before.wf(),
        bridge.wf(),
        exists|sub: &mut Subscription<I>, slots: &mut SubscriptionBridge<I>|
            *sub == before && *final(sub) == after && *slots == bridge && *final(slots)
                == bridge_after && #[trigger] call_ensures(
                Subscription::<I>::begin_poll,
                (sub, slots, limit),
                r,
            ),
    ensures
        r == (limit > 0),
        after.stream_id == before.stream_id,
        after.registration_id == before.registration_id,
        after.channel_uri == before.channel_uri,
        limit <= 0 ==> after.images@ == before.images@ && bridge_after.slots@ == bridge.slots@,
        limit > 0 ==> ({
            let own = bridge.slots@.filter(
                |slot: Option<PendingImage<I>>|
                    slot is Some && slot->0.stream_id == before.stream_id,
            ).map_values(|slot: Option<PendingImage<I>>| slot->0.image);
            let room = 16 - before.images@.len();
            &&& own.len() <= room ==> after.images@ == before.images@ + own
            &&& own.len() > room ==> after.images@ == before.images@ + own.take(room)
            &&& bridge_after.slots@.len() == bridge.slots@.len()
            &&& forall|k: int|
                0 <= k < bridge.slots@.len() && !(bridge.slots@[k] is Some
                    && bridge.slots@[k]->0.stream_id == before.stream_id)
                    ==> #[trigger] bridge_after.slots@[k] == bridge.slots@[k]
            &&& forall|k: int|
                0 <= k < bridge.slots@.len() ==> #[trigger] bridge_after.slots@[k] is None
                    || bridge_after.slots@[k] == bridge.slots@[k]
            &&& bridge_after.slots@.filter(
                |slot: Option<PendingImage<I>>|
                    slot is Some && slot->0.stream_id == before.stream_id,
            ).map_values(|slot: Option<PendingImage<I>>| slot->0.image) == own.skip(
                if own.len() <= room {
                    own.len() as int
                } else {
                    room
                },
            )
        }),
{
    if limit > 0 {
        let id = before.stream_id;
        law_drain_takes_own_images(before.images@, bridge.slots@, 0, id);
        lemma_waiting_images_are_filtered(bridge.slots@, 0, id);
        lemma_waiting_images_are_filtered(bridge_after.slots@, 0, id);
        assert(bridge.slots@.skip(0) =~= bridge.slots@);
        assert(bridge_after.slots@.skip(0) =~= bridge_after.slots@);
        let own = waiting_images(bridge.slots@, 0, id);
        assert(own.take(own.len() as int) =~= own);
        assert forall|k: int|
            0 <= k < bridge.slots@.len() && !(bridge.slots@[k] is Some
                && bridge.slots@[k]->0.stream_id == before.stream_id) implies #[trigger]
            bridge_after.slots@[k] == bridge.slots@[k] by {
            assert(!holds_stream(bridge.slots@[k], id));
        }
    }
}

/// Draining the bridge is what a poll does that may deliver something.
pub proof fn law_drain_is_what_a_poll_begins_with<I>(
    before: Subscription<I>,
    drained_sub: Subscription<I>,
    polled: Subscription<I>,
    bridge: SubscriptionBridge<I>,
    bridge_drained: SubscriptionBridge<I>,
    bridge_polled: SubscriptionBridge<I>,
    limit: i32,
    r: bool,
)
    requires
        limit > 0,
        exists|sub: &mut Subscription<I>, slots: &mut SubscriptionBridge<I>|
            *sub == before && *final(sub) == polled && *slots == bridge && *final(slots)
                == bridge_polled && #[trigger] call_ensures(
                Subscription::<I>::begin_poll,
                (sub, slots, limit),
                r,
            ),
        exists|sub: &mut Subscription<I>, slots: &mut SubscriptionBridge<I>|
            *sub == before && *final(sub) == drained_sub && *slots == bridge && *final(slots)
                == bridge_drained && #[trigger] call_ensures(
                Subscription::<I>::drain_bridge,
                (sub, slots),
                (),
            ),
    ensures
        drained_sub.images@ == polled.images@,
        drained_sub.same_identity(polled),
        bridge_drained.slots@ == bridge_polled.slots@,
{
}

/// Of a subscription's images exactly those stay that are not closed. Where one
/// alone is closed, the last image takes its place and the others keep theirs.
pub proof fn law_closed_images_go<I>(
    before: Subscription<I>,
    after: Subscription<I>,
    closed: Vec<bool>,
)
    requires
        before.wf(),
        closed@.len() == before.images@.len(),
        exists|sub: &mut Subscription<I>|
            *sub == before && *final(sub) == after && #[trigger] call_ensures(
                Subscription::<I>::remove_closed_images,
                (sub, closed),
                (),
            ),
    ensures
        after.same_identity(before),
        after.images@.len() == closed@.filter(|c: bool| !c).len(),
        forall|k: int|
            0 <= k < before.images@.len() && !closed@[k] ==> after.images@.contains(
                #[trigger] before.images@[k],
            ),
        forall|j: int|
            0 <= j < after.images@.len() ==> is_open(
                #[trigger] after.images@[j],
                before.images@,
                closed@,
            ),
        forall|i: int|
            0 <= i < before.images@.len() && #[trigger] closed@[i] && (forall|k: int|
                0 <= k < before.images@.len() && k != i ==> !#[trigger] closed@[k])
                ==> after.images@ == before.images@.update(i, before.images@.last()).drop_last(),
{
    let images = before.images@;
    let flags = closed@;
    law_open_images_stay(images, flags, 0);
    lemma_open_count_is_filtered(flags);
    assert forall|k: int| 0 <= k < images.len() && !flags[k] implies after.images@.contains(
        #[trigger] images[k],
    ) by {
        assert(is_open(images[k], images, flags));
    }
    assert forall|j: int| 0 <= j < after.images@.len() implies is_open(
        #[trigger] after.images@[j],
        images,
        flags,
    ) by {
        assert(after.images@.contains(after.images@[j]));
    }
    assert forall|i: int|
        0 <= i < images.len() && #[trigger] flags[i] && (forall|k: int|
            0 <= k < images.len() && k != i ==> !#[trigger] flags[k]) implies after.images@
        == images.update(i, images.last()).drop_last() by {
        lemma_open_up_to(images, flags, 0, i);
        lemma_open_up_to(without(images, i), without(flags, i), i, images.len() - 1);
    }
}

/// Images that are not closed are passed over.
proof fn lemma_open_up_to<I>(images: Seq<I>, closed: Seq<bool>, from: int, to: int)
    requires
        images.len() == closed.len(),
        0 <= from <= to <= images.len(),
        forall|k: int| from <= k < to ==> !#[trigger] closed[k],
    ensures
        still_open(images, closed, from) == still_open(images, closed, to),
    decreases to - from,
{
    if from < to {
        assert(!closed[from]);
        lemma_open_up_to(images, closed, from + 1, to);
    }
}

/// Those that are not closed are counted by leaving out the others.
proof fn lemma_open_count_is_filtered(closed: Seq<bool>)
    ensures
        open_count(closed) == closed.filter(|c: bool| !c).len(),
    decreases closed.len(),
{
    reveal(Seq::filter);
    if closed.len() > 0 {
        lemma_open_count_is_filtered(closed.drop_last());
    }
}

/// A subscription gives back the channel that it was made with, where that has at most 256
/// bytes.
pub proof fn law_subscription_keeps_its_channel<I>(
    registration_id: i64,
    stream_id: i32,
    channel: &str,
    handle: Subscription<I>,
    r: &str,
)
    requires
        call_ensures(Subscription::<I>::new, (registration_id, stream_id, channel), handle),
        call_ensures(Subscription::<I>::channel, (&handle,), r),
    ensures
        utf8::encode_utf8(channel@).len() <= 256 ==> r@ == channel@,
{
    if utf8::encode_utf8(channel@).len() <= 256 {
        client::law_channel_uri_is_kept(handle.channel_uri, channel@);
        utf8::encode_utf8_decode_utf8(r@);
    }
}

} // verus!
