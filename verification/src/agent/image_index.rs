//! The receiver's image table and the hash index over it.
//!
//! `images` is a flat table. `index` maps a hash of (session, stream) to a
//! position in that table by linear probing; deletion shifts later entries of
//! the probe chain back instead of leaving tombstones.

use crate::frame::{SockaddrStorage, SOCKADDR_STORAGE_LENGTH};
use vstd::prelude::*;

verus! {

/// Number of images a receiver can track.
pub const MAX_IMAGES: usize = 256;

/// Bitmask for the hash index (`MAX_IMAGES` is a power of two).
pub const IMAGE_INDEX_MASK: usize = 255;

/// Marks a free slot of the hash index.
pub const IMAGE_INDEX_EMPTY: u16 = 0xFFFF;

/// One publication image on the receiver side.
#[derive(Clone, Copy, Debug)]
pub struct ImageEntry {
    pub session_id: i32,
    pub stream_id: i32,
    pub endpoint_idx: usize,
    /// Address of the sender.
    pub source_addr: SockaddrStorage,
    pub initial_term_id: i32,
    pub active_term_id: i32,
    pub term_length: u32,
    pub consumption_term_id: i32,
    pub consumption_term_offset: i32,
    pub receiver_window: i32,
    pub receiver_id: i64,
    pub expected_term_offset: i32,
    pub time_of_last_sm_ns: i64,
    pub time_of_last_nak_ns: i64,
    /// Whether data came in since the last status message.
    pub data_since_sm: bool,
    pub active: bool,
}

impl ImageEntry {
    /// What an unused place of the image table holds.
    pub open spec fn unused(self) -> bool {
        &&& self.session_id == 0
        &&& self.stream_id == 0
        &&& self.endpoint_idx == 0
        &&& self.source_addr.bytes@ == Seq::new(SOCKADDR_STORAGE_LENGTH as nat, |i: int| 0u8)
        &&& self.initial_term_id == 0
        &&& self.active_term_id == 0
        &&& self.term_length == 0
        &&& self.consumption_term_id == 0
        &&& self.consumption_term_offset == 0
        &&& self.receiver_window == 0
        &&& self.receiver_id == 0
        &&& self.expected_term_offset == 0
        &&& self.time_of_last_sm_ns == 0
        &&& self.time_of_last_nak_ns == 0
        &&& !self.data_since_sm
        &&& !self.active
    }

    /// Whether the entry belongs to the given session and stream.
    pub open spec fn has_key(self, session_id: i32, stream_id: i32) -> bool {
        self.session_id == session_id && self.stream_id == stream_id
    }
}

impl Default for ImageEntry {
    fn default() -> (r: Self)
        ensures
            r.unused(),
    {
        let r = ImageEntry {
            session_id: 0,
            stream_id: 0,
            endpoint_idx: 0,
            source_addr: SockaddrStorage { bytes: [0u8; SOCKADDR_STORAGE_LENGTH] },
            initial_term_id: 0,
            active_term_id: 0,
            term_length: 0,
            consumption_term_id: 0,
            consumption_term_offset: 0,
            receiver_window: 0,
            receiver_id: 0,
            expected_term_offset: 0,
            time_of_last_sm_ns: 0,
            time_of_last_nak_ns: 0,
            data_since_sm: false,
            active: false,
        };
        assert(r.source_addr.bytes@ =~= Seq::new(
            SOCKADDR_STORAGE_LENGTH as nat,
            |i: int| 0u8,
        ));
        r
    }
}

// ---- Model of the hash index ----

/// The slot that the pair hashes to.
pub open spec fn hash_slot(session_id: i32, stream_id: i32) -> int {
    let h = (session_id as u32).wrapping_mul(0x9E37_79B9) ^ (stream_id as u32).wrapping_mul(
        0x517C_C1B7,
    );
    (h % 256) as int
}

/// The slot that an image hashes to.
pub open spec fn home(img: ImageEntry) -> int {
    hash_slot(img.session_id, img.stream_id)
}

/// The slot `d` places after `s`, around the table.
pub open spec fn slot_after(s: int, d: int) -> int {
    if s + d < 256 {
        s + d
    } else {
        s + d - 256
    }
}

/// How many places slot `b` lies after slot `a`, around the table.
pub open spec fn dist(a: int, b: int) -> int {
    if b >= a {
        b - a
    } else {
        b - a + 256
    }
}

/// Whether `s` is a slot number.
pub open spec fn is_slot(s: int) -> bool {
    0 <= s < 256
}

/// Whether slot `s` is in use.
pub open spec fn occupied(index: Seq<u16>, s: int) -> bool {
    index[s] != IMAGE_INDEX_EMPTY
}

/// The image that slot `s` refers to.
pub open spec fn image_at(images: Seq<ImageEntry>, index: Seq<u16>, s: int) -> ImageEntry {
    images[index[s] as int]
}

/// Every slot in use refers into the image table.
pub open spec fn index_in_range(images: Seq<ImageEntry>, index: Seq<u16>) -> bool {
    &&& images.len() == 256
    &&& index.len() == 256
    &&& forall|s: int| is_slot(s) && #[trigger] occupied(index, s) ==> index[s] < 256
}

/// No two slots refer to images of the same session and stream.
pub open spec fn keys_distinct(images: Seq<ImageEntry>, index: Seq<u16>) -> bool {
    forall|s: int, t: int|
        is_slot(s) && is_slot(t) && s != t && #[trigger] occupied(index, s) && #[trigger] occupied(
            index,
            t,
        ) ==> !image_at(images, index, s).has_key(
            image_at(images, index, t).session_id,
            image_at(images, index, t).stream_id,
        )
}

/// Between the slot an image hashes to and the slot that refers to it there is
/// no free slot, so that probing reaches it.
pub open spec fn chains_unbroken(images: Seq<ImageEntry>, index: Seq<u16>) -> bool {
    forall|s: int, x: int|
        #![trigger occupied(index, s), occupied(index, x)]
        is_slot(s) && is_slot(x) && occupied(index, s) && dist(
            home(image_at(images, index, s)),
            x,
        ) < dist(home(image_at(images, index, s)), s) ==> occupied(index, x)
}

/// The hash index is consistent with the image table.
pub open spec fn index_wf(images: Seq<ImageEntry>, index: Seq<u16>) -> bool {
    &&& index_in_range(images, index)
    &&& keys_distinct(images, index)
    &&& chains_unbroken(images, index)
}

/// No probe chain comes from in front of slot `b` to `b` or beyond: every slot in
/// use lies no farther from the slot its image hashes to than from `b`.
pub open spec fn uncrossed(images: Seq<ImageEntry>, index: Seq<u16>, b: int) -> bool {
    forall|s: int|
        is_slot(s) && #[trigger] occupied(index, s) ==> dist(home(image_at(images, index, s)), s)
            <= dist(b, s)
}

/// Somewhere no probe chain crosses from one slot to the next. In an index with a
/// free slot that is so behind it; a full index keeps it from its last insertion.
pub open spec fn has_boundary(images: Seq<ImageEntry>, index: Seq<u16>) -> bool {
    exists|b: int| is_slot(b) && #[trigger] uncrossed(images, index, b)
}

/// Some slot refers to position `i` of the image table.
pub open spec fn indexed(index: Seq<u16>, i: int) -> bool {
    exists|s: int| is_slot(s) && #[trigger] index[s] == i
}

/// Some slot is free.
pub open spec fn has_free_slot(index: Seq<u16>) -> bool {
    exists|s: int| is_slot(s) && !#[trigger] occupied(index, s)
}

/// Position `i` of the table is indexed, active, and has the given key.
pub open spec fn registered(
    images: Seq<ImageEntry>,
    index: Seq<u16>,
    session_id: i32,
    stream_id: i32,
    i: int,
) -> bool {
    &&& 0 <= i < 256
    &&& indexed(index, i)
    &&& images[i].active
    &&& images[i].has_key(session_id, stream_id)
}

/// Slot `s` is in use and refers to an active image with the given key.
pub open spec fn slot_hits(
    images: Seq<ImageEntry>,
    index: Seq<u16>,
    session_id: i32,
    stream_id: i32,
    s: int,
) -> bool {
    &&& occupied(index, s)
    &&& image_at(images, index, s).active
    &&& image_at(images, index, s).has_key(session_id, stream_id)
}

/// The first `p` slots of the key's probe sequence are in use and none hits.
pub open spec fn probes_miss(
    images: Seq<ImageEntry>,
    index: Seq<u16>,
    session_id: i32,
    stream_id: i32,
    p: int,
) -> bool {
    forall|q: int|
        0 <= q < p ==> {
            let s = #[trigger] slot_after(hash_slot(session_id, stream_id), q);
            occupied(index, s) && !slot_hits(images, index, session_id, stream_id, s)
        }
}

/// What probing from the `p`-th slot of the key's probe sequence on finds: the
/// position that the first hit refers to, nothing if a free slot comes first.
pub open spec fn probed(
    images: Seq<ImageEntry>,
    index: Seq<u16>,
    session_id: i32,
    stream_id: i32,
    p: int,
) -> Option<usize>
    decreases 256 - p,
{
    let s = slot_after(hash_slot(session_id, stream_id), p);
    if p >= 256 || !occupied(index, s) {
        None
    } else if slot_hits(images, index, session_id, stream_id, s) {
        Some(index[s] as usize)
    } else {
        probed(images, index, session_id, stream_id, p + 1)
    }
}

/// Slot `d` places after `start` is free and every nearer one is in use.
pub open spec fn first_free(index: Seq<u16>, start: int, d: int) -> bool {
    &&& 0 <= d < 256
    &&& !occupied(index, slot_after(start, d))
    &&& forall|q: int| 0 <= q < d ==> occupied(index, #[trigger] slot_after(start, q))
}

proof fn lemma_mask(x: usize)
    ensures
        x & 255 == x % 256,
{
    assert(x & 255 == x % 256) by (bit_vector);
}

proof fn lemma_hash_slot_range(session_id: i32, stream_id: i32)
    ensures
        is_slot(hash_slot(session_id, stream_id)),
{
}

/// Hashes (session, stream) into a slot of the index.
pub fn image_hash(session_id: i32, stream_id: i32) -> (r: usize)
    ensures
        r == hash_slot(session_id, stream_id),
        r < MAX_IMAGES,
{
    #[verifier::truncate]
    let session_bits: u32 = session_id as u32;
    #[verifier::truncate]
    let stream_bits: u32 = stream_id as u32;
    let h: u32 = session_bits.wrapping_mul(0x9E37_79B9) ^ stream_bits.wrapping_mul(0x517C_C1B7);
    let r: usize = (h as usize) & IMAGE_INDEX_MASK;
    proof {
        lemma_mask(h as usize);
    }
    r
}

/// Looks (session, stream) up by linear probing.
pub fn find_image_in_index(
    images: &[ImageEntry; MAX_IMAGES],
    index: &[u16; MAX_IMAGES],
    session_id: i32,
    stream_id: i32,
) -> (r: Option<usize>)
    requires
        index_in_range(images@, index@),
    ensures
        r == probed(images@, index@, session_id, stream_id, 0),
        r matches Some(i) ==> registered(images@, index@, session_id, stream_id, i as int),
        index_wf(images@, index@) ==> forall|i: int|
            #![trigger registered(images@, index@, session_id, stream_id, i)]
            registered(images@, index@, session_id, stream_id, i) ==> r == Some(i as usize),
{
    let start = image_hash(session_id, stream_id);
    let ghost h = hash_slot(session_id, stream_id);
    let mut probe: usize = 0;
    while probe < MAX_IMAGES
        invariant
            probe <= 256,
            start == h,
            h == hash_slot(session_id, stream_id),
            is_slot(h),
            index_in_range(images@, index@),
            probes_miss(images@, index@, session_id, stream_id, probe as int),
            probed(images@, index@, session_id, stream_id, 0) == probed(
                images@,
                index@,
                session_id,
                stream_id,
                probe as int,
            ),
        decreases 256 - probe,
    {
        let slot: usize = (start + probe) & IMAGE_INDEX_MASK;
        proof {
            lemma_mask((start + probe) as usize);
        }
        assert(slot == slot_after(h, probe as int));
        let idx: u16 = index[slot];
        if idx == IMAGE_INDEX_EMPTY {
            proof {
                lemma_miss_means_absent(images@, index@, session_id, stream_id, probe as int);
            }
            return None;
        }
        assert(occupied(index@, slot as int));
        let img = &images[idx as usize];
        if img.active && img.session_id == session_id && img.stream_id == stream_id {
            proof {
                assert(slot_hits(images@, index@, session_id, stream_id, slot as int));
                assert(index@[slot as int] == idx);
                if index_wf(images@, index@) {
                    assert forall|i: int| #[trigger]
                        registered(images@, index@, session_id, stream_id, i) implies i == idx by {
                        let s = choose|s: int| is_slot(s) && #[trigger] index@[s] == i;
                        assert(occupied(index@, s));
                        assert(s == slot);
                    }
                }
            }
            return Some(idx as usize);
        }
        probe += 1;
    }
    proof {
        lemma_miss_means_absent(images@, index@, session_id, stream_id, 256);
    }
    None
}

/// If probing passes `p` slots without a hit and then meets a free slot or has
/// gone all the way round, nothing with the key is registered.
proof fn lemma_miss_means_absent(
    images: Seq<ImageEntry>,
    index: Seq<u16>,
    session_id: i32,
    stream_id: i32,
    p: int,
)
    requires
        0 <= p <= 256,
        index_in_range(images, index),
        probes_miss(images, index, session_id, stream_id, p),
        p < 256 ==> !occupied(index, slot_after(hash_slot(session_id, stream_id), p)),
    ensures
        index_wf(images, index) ==> forall|i: int|
            !#[trigger] registered(images, index, session_id, stream_id, i),
{
    let h = hash_slot(session_id, stream_id);
    if index_wf(images, index) {
        assert forall|i: int| !#[trigger]
            registered(images, index, session_id, stream_id, i) by {
            if registered(images, index, session_id, stream_id, i) {
                let s = choose|s: int| is_slot(s) && #[trigger] index[s] == i;
                assert(occupied(index, s));
                let d = dist(h, s);
                assert(slot_after(h, d) == s);
                assert(home(image_at(images, index, s)) == h);
                if d < p {
                    assert(!slot_hits(images, index, session_id, stream_id, slot_after(h, d)));
                } else if p < 256 {
                    let x = slot_after(h, p);
                    assert(dist(h, x) == p);
                    if d > p {
                        assert(occupied(index, x));
                    }
                }
            }
        }
    }
}

/// The index after position `i` has been put into the first free slot of the
/// key's probe sequence. A full index stays as it is.
pub open spec fn inserted(index: Seq<u16>, i: u16, session_id: i32, stream_id: i32) -> Seq<u16> {
    let h = hash_slot(session_id, stream_id);
    if has_free_slot(index) {
        let d = choose|d: int| first_free(index, h, d);
        index.update(slot_after(h, d), i)
    } else {
        index
    }
}

/// Puts `images_idx`, cut to 16 bits, into the first free slot of the key's probe sequence.
///
/// A full index is left as it is.
pub fn insert_image_index(
    index: &mut [u16; MAX_IMAGES],
    images_idx: usize,
    session_id: i32,
    stream_id: i32,
)
    ensures
        forall|d: int| #[trigger]
            first_free(old(index)@, hash_slot(session_id, stream_id), d) ==> final(index)@
                == old(index)@.update(
                slot_after(hash_slot(session_id, stream_id), d),
                images_idx as u16,
            ),
        !has_free_slot(old(index)@) ==> final(index)@ == old(index)@,
        has_free_slot(old(index)@) ==> exists|d: int| #[trigger]
            first_free(old(index)@, hash_slot(session_id, stream_id), d),
        final(index)@ == inserted(old(index)@, images_idx as u16, session_id, stream_id),
{
    let start = image_hash(session_id, stream_id);
    let ghost h = hash_slot(session_id, stream_id);
    let mut probe: usize = 0;
    while probe < MAX_IMAGES
        invariant
            probe <= 256,
            start == h,
            h == hash_slot(session_id, stream_id),
            is_slot(h),
            index@ == old(index)@,
            forall|q: int| 0 <= q < probe ==> occupied(index@, #[trigger] slot_after(h, q)),
        decreases 256 - probe,
    {
        let slot: usize = (start + probe) & IMAGE_INDEX_MASK;
        proof {
            lemma_mask((start + probe) as usize);
        }
        assert(slot == slot_after(h, probe as int));
        if index[slot] == IMAGE_INDEX_EMPTY {
            #[verifier::truncate]
            let entry: u16 = images_idx as u16;
            index[slot] = entry;
            proof {
                assert(first_free(old(index)@, h, probe as int));
                assert(!occupied(old(index)@, slot as int));
                assert forall|d: int| #[trigger] first_free(old(index)@, h, d) implies d
                    == probe by {
                    if d < probe {
                        assert(occupied(old(index)@, slot_after(h, d)));
                    } else if d > probe {
                        assert(occupied(old(index)@, slot_after(h, probe as int)));
                    }
                }
            }
            return;
        }
        probe += 1;
    }
    proof {
        assert forall|s: int| is_slot(s) implies #[trigger] occupied(index@, s) by {
            assert(slot_after(h, dist(h, s)) == s);
        }
    }
}

/// The first `p` slots of the key's probe sequence are in use by other keys.
pub open spec fn probes_other_keys(
    images: Seq<ImageEntry>,
    index: Seq<u16>,
    session_id: i32,
    stream_id: i32,
    p: int,
) -> bool {
    forall|q: int|
        0 <= q < p ==> {
            let s = #[trigger] slot_after(hash_slot(session_id, stream_id), q);
            occupied(index, s) && !image_at(images, index, s).has_key(session_id, stream_id)
        }
}

/// The key is first met at the `p`-th slot of its probe sequence.
pub open spec fn key_met_at(
    images: Seq<ImageEntry>,
    index: Seq<u16>,
    session_id: i32,
    stream_id: i32,
    p: int,
) -> bool {
    let s = slot_after(hash_slot(session_id, stream_id), p);
    &&& 0 <= p < 256
    &&& probes_other_keys(images, index, session_id, stream_id, p)
    &&& occupied(index, s)
    &&& image_at(images, index, s).has_key(session_id, stream_id)
}

/// What the index becomes when the entry at `gap` is given up, the slots from
/// `target` up to `j` having been looked at: each later entry of the chain that
/// may move back into the gap does so and leaves a new gap, up to the first free
/// slot (or `target` again), and the last gap is marked free.
pub open spec fn shift_back(
    images: Seq<ImageEntry>,
    index: Seq<u16>,
    target: int,
    gap: int,
    j: int,
) -> Seq<u16>
    decreases 256 - dist(target, j),
    when is_slot(target) && is_slot(j)
{
    let next = slot_after(j, 1);
    if !occupied(index, next) {
        index.update(gap, IMAGE_INDEX_EMPTY)
    } else {
        let moves = dist(home(image_at(images, index, next)), next) >= dist(gap, next);
        let shifted = if moves {
            index.update(gap, index[next])
        } else {
            index
        };
        let new_gap = if moves {
            next
        } else {
            gap
        };
        if next == target {
            shifted.update(new_gap, IMAGE_INDEX_EMPTY)
        } else {
            shift_back(images, shifted, target, new_gap, next)
        }
    }
}

/// Behind a free slot no probe chain crosses.
proof fn lemma_boundary_behind_free_slot(images: Seq<ImageEntry>, index: Seq<u16>, f: int)
    requires
        index_wf(images, index),
        is_slot(f),
        !occupied(index, f),
    ensures
        uncrossed(images, index, slot_after(f, 1)),
        has_boundary(images, index),
{
    let b = slot_after(f, 1);
    assert forall|s: int| is_slot(s) && #[trigger] occupied(index, s) implies dist(
        home(image_at(images, index, s)),
        s,
    ) <= dist(b, s) by {
        let h = home(image_at(images, index, s));
        lemma_hash_slot_range(
            image_at(images, index, s).session_id,
            image_at(images, index, s).stream_id,
        );
        if dist(h, s) > dist(b, s) {
            assert(dist(h, f) < dist(h, s));
            assert(occupied(index, f));
        }
    }
    assert(is_slot(b) && uncrossed(images, index, b));
}

/// State of a deletion in progress: the entry once at `target` is being given
/// up, `gap` is the slot to be refilled, and the slots up to `j` are done. No
/// probe chain crosses in front of `b`, which the gap has not passed.
spec fn shifting(
    images: Seq<ImageEntry>,
    before: Seq<u16>,
    index: Seq<u16>,
    target: int,
    gap: int,
    j: int,
    b: int,
) -> bool {
    &&& index_in_range(images, index)
    &&& is_slot(b)
    &&& dist(target, gap) <= dist(b, gap)
    &&& forall|s: int|
        is_slot(s) && s != gap && #[trigger] occupied(index, s) ==> dist(
            home(image_at(images, index, s)),
            s,
        ) <= dist(b, s)
    &&& forall|s: int| is_slot(s) ==> (#[trigger] occupied(index, s) <==> occupied(before, s))
    &&& forall|s: int|
        is_slot(s) && dist(target, s) <= dist(target, j) ==> #[trigger] occupied(index, s)
    &&& dist(target, gap) <= dist(target, j)
    &&& forall|s: int, t: int|
        is_slot(s) && is_slot(t) && s != t && s != gap && t != gap && #[trigger] occupied(index, s)
            && #[trigger] occupied(index, t) ==> !image_at(images, index, s).has_key(
            image_at(images, index, t).session_id,
            image_at(images, index, t).stream_id,
        )
    &&& forall|s: int, x: int|
        #![trigger occupied(index, s), occupied(index, x)]
        is_slot(s) && is_slot(x) && s != gap && occupied(index, s) && dist(
            home(image_at(images, index, s)),
            x,
        ) < dist(home(image_at(images, index, s)), s) ==> occupied(index, x)
    &&& forall|s: int|
        is_slot(s) && 0 < dist(gap, s) <= dist(gap, j) && #[trigger] occupied(index, s) ==> dist(
            home(image_at(images, index, s)),
            s,
        ) < dist(gap, s)
    &&& forall|s: int|
        is_slot(s) && s != gap && #[trigger] occupied(index, s) ==> indexed(before, index[s] as int)
            && index[s] != before[target]
    &&& forall|i: int| #[trigger]
        indexed(before, i) && i != IMAGE_INDEX_EMPTY && i != before[target] ==> exists|s: int|
            is_slot(s) && s != gap && #[trigger] index[s] == i
}

/// One step of the deletion keeps its state.
proof fn lemma_shifting_step(
    images: Seq<ImageEntry>,
    before: Seq<u16>,
    index: Seq<u16>,
    target: int,
    gap: int,
    j: int,
    b: int,
)
    requires
        is_slot(target),
        is_slot(gap),
        is_slot(j),
        shifting(images, before, index, target, gap, j, b),
        occupied(index, slot_after(j, 1)),
        slot_after(j, 1) != target,
    ensures
        ({
            let next = slot_after(j, 1);
            if dist(home(image_at(images, index, next)), next) >= dist(gap, next) {
                shifting(images, before, index.update(gap, index[next]), target, next, next, b)
            } else {
                shifting(images, before, index, target, gap, next, b)
            }
        }),
{
    let next = slot_after(j, 1);
    let n = home(image_at(images, index, next));
    lemma_hash_slot_range(
        image_at(images, index, next).session_id,
        image_at(images, index, next).stream_id,
    );
    assert(next != gap);
    if dist(n, next) >= dist(gap, next) {
        let after = index.update(gap, index[next]);
        assert(occupied(index, gap));
        assert forall|s: int| is_slot(s) implies (#[trigger] occupied(after, s) <==> occupied(
            before,
            s,
        )) by {
            assert(occupied(index, s) <==> occupied(before, s));
        }
        assert forall|s: int| is_slot(s) && #[trigger] occupied(after, s) implies after[s]
            < 256 by {
            assert(occupied(index, s));
        }
        assert forall|s: int|
            is_slot(s) && dist(target, s) <= dist(target, next) implies #[trigger] occupied(
            after,
            s,
        ) by {
            assert(occupied(index, s));
        }
        assert forall|s: int, t: int|
            is_slot(s) && is_slot(t) && s != t && s != next && t != next && #[trigger] occupied(
                after,
                s,
            ) && #[trigger] occupied(after, t) implies !image_at(images, after, s).has_key(
            image_at(images, after, t).session_id,
            image_at(images, after, t).stream_id,
        ) by {
            let s0 = if s == gap {
                next
            } else {
                s
            };
            let t0 = if t == gap {
                next
            } else {
                t
            };
            assert(occupied(index, s0) && occupied(index, t0));
        }
        assert forall|s: int, x: int|
            #![trigger occupied(after, s), occupied(after, x)]
            is_slot(s) && is_slot(x) && s != next && occupied(after, s) && dist(
                home(image_at(images, after, s)),
                x,
            ) < dist(home(image_at(images, after, s)), s) implies occupied(after, x) by {
            let s0 = if s == gap {
                next
            } else {
                s
            };
            assert(occupied(index, s0));
            if s == gap {
                assert(dist(n, x) < dist(n, next));
            }
            assert(occupied(index, x) == occupied(before, x));
            assert(occupied(index, x));
            assert(occupied(after, x) <==> occupied(before, x));
        }
        assert(dist(n, next) <= dist(b, next));
        assert forall|s: int| is_slot(s) && s != next && #[trigger] occupied(after, s) implies dist(
            home(image_at(images, after, s)),
            s,
        ) <= dist(b, s) by {
            if s != gap {
                assert(occupied(index, s));
            }
        }
        assert forall|s: int|
            is_slot(s) && s != next && #[trigger] occupied(after, s) implies indexed(
            before,
            after[s] as int,
        ) && after[s] != before[target] by {
            let s0 = if s == gap {
                next
            } else {
                s
            };
            assert(occupied(index, s0));
        }
        assert forall|i: int| #[trigger]
            indexed(before, i) && i != IMAGE_INDEX_EMPTY && i != before[target] implies exists|
            s: int,
        |
            is_slot(s) && s != next && #[trigger] after[s] == i by {
            let s0 = choose|s: int| is_slot(s) && s != gap && #[trigger] index[s] == i;
            let s1 = if s0 == next {
                gap
            } else {
                s0
            };
            assert(after[s1] == i);
        }
    } else {
        assert forall|s: int|
            is_slot(s) && 0 < dist(gap, s) <= dist(gap, next) && #[trigger] occupied(
                index,
                s,
            ) implies dist(home(image_at(images, index, s)), s) < dist(gap, s) by {
            if s != next {
                assert(dist(gap, s) <= dist(gap, j));
            }
        }
    }
}

/// When the next slot is free, or is the target again, marking the gap free
/// completes the deletion.
proof fn lemma_shifting_done(
    images: Seq<ImageEntry>,
    before: Seq<u16>,
    index: Seq<u16>,
    target: int,
    gap: int,
    j: int,
    b: int,
)
    requires
        is_slot(target),
        is_slot(gap),
        is_slot(j),
        index_in_range(images, before),
        shifting(images, before, index, target, gap, j, b),
        !occupied(index, slot_after(j, 1)) || slot_after(j, 1) == target,
    ensures
        index_wf(images, index.update(gap, IMAGE_INDEX_EMPTY)),
        has_free_slot(index.update(gap, IMAGE_INDEX_EMPTY)),
        forall|i: int|
            0 <= i < 256 ==> (#[trigger] indexed(index.update(gap, IMAGE_INDEX_EMPTY), i)
                <==> indexed(before, i) && i != before[target]),
{
    let next = slot_after(j, 1);
    let after = index.update(gap, IMAGE_INDEX_EMPTY);
    assert(occupied(index, gap));
    assert forall|s: int| is_slot(s) && #[trigger] occupied(after, s) implies s != gap && occupied(
        index,
        s,
    ) by {}
    assert(!occupied(after, gap));
    assert forall|s: int, x: int|
        #![trigger occupied(after, s), occupied(after, x)]
        is_slot(s) && is_slot(x) && occupied(after, s) && dist(
            home(image_at(images, after, s)),
            x,
        ) < dist(home(image_at(images, after, s)), s) implies occupied(after, x) by {
        lemma_hash_slot_range(
            image_at(images, index, s).session_id,
            image_at(images, index, s).stream_id,
        );
        assert(occupied(index, s));
        assert(occupied(index, x));
        let n = home(image_at(images, index, s));
        if x == gap {
            assert(dist(gap, s) > 0);
            if dist(gap, s) <= dist(gap, j) {
                assert(dist(n, s) < dist(gap, s));
            } else if next == target {
                assert(dist(n, s) <= dist(b, s));
            } else {
                assert(s != next);
                assert(dist(n, next) < dist(n, s));
                assert(occupied(index, next));
            }
        }
    }
    assert forall|i: int| 0 <= i < 256 implies (#[trigger] indexed(after, i) <==> indexed(before, i)
        && i != before[target]) by {
        if indexed(after, i) {
            let s = choose|s: int| is_slot(s) && #[trigger] after[s] == i;
            assert(occupied(after, s));
        }
        if indexed(before, i) && i != before[target] {
            let s = choose|s: int| is_slot(s) && s != gap && #[trigger] index[s] == i;
            assert(after[s] == i);
        }
    }
}

/// When all slots have been looked at, the entry in the target, if there is a new
/// one, stays where it is.
proof fn lemma_target_stays(
    images: Seq<ImageEntry>,
    before: Seq<u16>,
    index: Seq<u16>,
    target: int,
    gap: int,
    j: int,
    b: int,
)
    requires
        is_slot(target),
        is_slot(gap),
        is_slot(j),
        shifting(images, before, index, target, gap, j, b),
        slot_after(j, 1) == target,
        gap != target,
    ensures
        dist(home(image_at(images, index, target)), target) < dist(gap, target),
{
    assert(occupied(index, target));
}

/// Deletion starts with the target as the gap.
proof fn lemma_shifting_start(
    images: Seq<ImageEntry>,
    index: Seq<u16>,
    target: int,
    b: int,
)
    requires
        is_slot(target),
        is_slot(b),
        uncrossed(images, index, b),
        index_wf(images, index),
        occupied(index, target),
    ensures
        shifting(images, index, index, target, target, target, b),
{
    assert forall|s: int| is_slot(s) && s != target && #[trigger] occupied(index, s) implies indexed(
        index,
        index[s] as int,
    ) && index[s] != index[target] by {}
    assert forall|i: int| #[trigger]
        indexed(index, i) && i != IMAGE_INDEX_EMPTY && i != index[target] implies exists|s: int|
        is_slot(s) && s != target && #[trigger] index[s] == i by {
        let s = choose|s: int| is_slot(s) && #[trigger] index[s] == i;
        assert(s != target);
    }
}

/// The index after the entry of a key has been taken out.
pub open spec fn removed(
    images: Seq<ImageEntry>,
    index: Seq<u16>,
    session_id: i32,
    stream_id: i32,
) -> Seq<u16> {
    if exists|p: int| #[trigger] key_met_at(images, index, session_id, stream_id, p) {
        let p = choose|p: int| #[trigger] key_met_at(images, index, session_id, stream_id, p);
        let target = slot_after(hash_slot(session_id, stream_id), p);
        shift_back(images, index, target, target, target)
    } else {
        index
    }
}

/// From `before` to `after` exactly the images of the key left the index.
pub open spec fn forgets(
    images: Seq<ImageEntry>,
    before: Seq<u16>,
    after: Seq<u16>,
    session_id: i32,
    stream_id: i32,
) -> bool {
    &&& index_wf(images, after)
    &&& forall|i: int|
        0 <= i < 256 ==> (#[trigger] indexed(after, i) <==> indexed(before, i) && !(
        images[i].session_id == session_id && images[i].stream_id == stream_id))
}

/// Takes the entry of (session, stream) out of the index by moving later
/// entries of the probe chain back; without such an entry nothing changes.
pub fn remove_image_index(
    index: &mut [u16; MAX_IMAGES],
    images: &[ImageEntry; MAX_IMAGES],
    session_id: i32,
    stream_id: i32,
)
    requires
        index_in_range(images@, old(index)@),
    ensures
        forall|p: int|
            #![trigger key_met_at(images@, old(index)@, session_id, stream_id, p)]
            key_met_at(images@, old(index)@, session_id, stream_id, p) ==> {
                let target = slot_after(hash_slot(session_id, stream_id), p);
                final(index)@ == shift_back(images@, old(index)@, target, target, target)
            },
        (forall|p: int|
            #![trigger key_met_at(images@, old(index)@, session_id, stream_id, p)]
            !key_met_at(images@, old(index)@, session_id, stream_id, p)) ==> final(index)@ == old(
            index,
        )@,
        final(index)@ == removed(images@, old(index)@, session_id, stream_id),
        index_in_range(images@, final(index)@),
        index_wf(images@, old(index)@) && has_boundary(images@, old(index)@) ==> forgets(
            images@,
            old(index)@,
            final(index)@,
            session_id,
            stream_id,
        ),
        index_wf(images@, old(index)@) && has_boundary(images@, old(index)@) ==> {
            &&& index_wf(images@, final(index)@)
            &&& has_boundary(images@, final(index)@)
            &&& has_free_slot(old(index)@) ==> has_free_slot(final(index)@)
            &&& forall|i: int|
                0 <= i < 256 && #[trigger] indexed(old(index)@, i) && images@[i].has_key(
                    session_id,
                    stream_id,
                ) ==> has_free_slot(final(index)@)
            &&& forall|i: int|
                0 <= i < 256 ==> (#[trigger] indexed(final(index)@, i) <==> indexed(old(index)@, i)
                    && !images@[i].has_key(session_id, stream_id))
        },
{
    let start = image_hash(session_id, stream_id);
    let ghost before = index@;
    let ghost h = hash_slot(session_id, stream_id);
    let mut target: usize = MAX_IMAGES;
    let mut probe: usize = 0;
    while probe < MAX_IMAGES && target == MAX_IMAGES
        invariant
            probe <= 256,
            start == h,
            h == hash_slot(session_id, stream_id),
            is_slot(h),
            index@ == before,
            before == old(index)@,
            index_in_range(images@, before),
            target == 256 ==> probes_other_keys(
                images@,
                before,
                session_id,
                stream_id,
                probe as int,
            ),
            target != 256 ==> target < 256 && exists|p: int| #[trigger]
                key_met_at(images@, before, session_id, stream_id, p) && target == slot_after(h, p),
        decreases 256 - probe,
    {
        let slot: usize = (start + probe) & IMAGE_INDEX_MASK;
        proof {
            lemma_mask((start + probe) as usize);
        }
        assert(slot == slot_after(h, probe as int));
        let idx: u16 = index[slot];
        if idx == IMAGE_INDEX_EMPTY {
            proof {
                lemma_key_not_met(images@, before, session_id, stream_id, probe as int);
            }
            return ;
        }
        assert(occupied(before, slot as int));
        let img = &images[idx as usize];
        if img.session_id == session_id && img.stream_id == stream_id {
            target = slot;
            assert(key_met_at(images@, before, session_id, stream_id, probe as int));
        }
        probe += 1;
    }
    if target == MAX_IMAGES {
        proof {
            lemma_key_not_met(images@, before, session_id, stream_id, 256);
        }
        return ;
    }
    let ghost met = choose|p: int| #[trigger]
        key_met_at(images@, before, session_id, stream_id, p) && target == slot_after(h, p);
    let ghost sound = index_wf(images@, before) && has_boundary(images@, before);
    let ghost b = choose|b: int| is_slot(b) && #[trigger] uncrossed(images@, before, b);
    proof {
        if sound {
            lemma_shifting_start(images@, before, target as int, b);
        }
    }
    let mut gap: usize = target;
    let mut j: usize = target;
    let mut done: bool = false;
    while !done
        invariant
            target < 256,
            gap < 256,
            j < 256,
            index_in_range(images@, index@),
            sound ==> index_in_range(images@, before),
            !done ==> shift_back(images@, before, target as int, target as int, target as int)
                == shift_back(images@, index@, target as int, gap as int, j as int),
            done ==> shift_back(images@, before, target as int, target as int, target as int)
                == index@.update(gap as int, IMAGE_INDEX_EMPTY),
            !done && sound ==> shifting(
                images@,
                before,
                index@,
                target as int,
                gap as int,
                j as int,
                b,
            ),
            done && sound ==> {
                &&& index_wf(images@, index@.update(gap as int, IMAGE_INDEX_EMPTY))
                &&& has_free_slot(index@.update(gap as int, IMAGE_INDEX_EMPTY))
                &&& forall|i: int|
                    0 <= i < 256 ==> (#[trigger] indexed(
                        index@.update(gap as int, IMAGE_INDEX_EMPTY),
                        i,
                    ) <==> indexed(before, i) && i != before[target as int])
            },
        decreases
                (if done {
                    0
                } else {
                    1 + 256 - dist(target as int, j as int)
                }),
    {
        let ghost j0 = j as int;
        let ghost gap0 = gap as int;
        let ghost index0 = index@;
        j = (j + 1) & IMAGE_INDEX_MASK;
        proof {
            lemma_mask((j0 + 1) as usize);
        }
        assert(j == slot_after(j0, 1));
        let neighbor_idx: u16 = index[j];
        if neighbor_idx == IMAGE_INDEX_EMPTY {
            proof {
                if sound {
                    lemma_shifting_done(images@, before, index0, target as int, gap0, j0, b);
                }
            }
            done = true;
        } else {
            assert(occupied(index@, j as int));
            let img = &images[neighbor_idx as usize];
            let natural = image_hash(img.session_id, img.stream_id);
            let dist_natural = slots_between(natural, j);
            let dist_gap = slots_between(gap, j);
            if dist_natural >= dist_gap {
                index[gap] = neighbor_idx;
                gap = j;
            }
            proof {
                assert forall|s: int| is_slot(s) && #[trigger] occupied(index@, s) implies index@[s]
                    < 256 by {
                    assert(s == gap0 || occupied(index0, s));
                }
                if j == target && sound {
                    lemma_shifting_done(images@, before, index0, target as int, gap0, j0, b);
                    if gap0 != target {
                        lemma_target_stays(images@, before, index0, target as int, gap0, j0, b);
                    }
                    assert(gap == gap0);
                    assert(index@ =~= index0);
                }
                if j != target && sound {
                    lemma_shifting_step(images@, before, index0, target as int, gap0, j0, b);
                }
            }
            if j == target {
                done = true;
            }
        }
    }
    let ghost last = index@;
    index[gap] = IMAGE_INDEX_EMPTY;
    proof {
        assert forall|s: int| is_slot(s) && #[trigger] occupied(index@, s) implies index@[s]
            < 256 by {
            assert(occupied(last, s));
        }
        assert forall|p: int| #[trigger]
            key_met_at(images@, before, session_id, stream_id, p) implies p == met by {
            lemma_key_met_once(images@, before, session_id, stream_id, p, met);
        }
        if sound {
            let f = choose|f: int| is_slot(f) && !#[trigger] occupied(index@, f);
            lemma_boundary_behind_free_slot(images@, index@, f);
            assert forall|i: int| 0 <= i < 256 implies (#[trigger] indexed(index@, i) <==> indexed(
                before,
                i,
            ) && !images@[i].has_key(session_id, stream_id)) by {
                if indexed(before, i) {
                    let s = choose|s: int| is_slot(s) && #[trigger] before[s] == i;
                    assert(occupied(before, s) && occupied(before, target as int));
                }
            }
        }
    }
}

/// How many places slot `b` lies after slot `a`.
fn slots_between(a: usize, b: usize) -> (r: usize)
    requires
        a < MAX_IMAGES,
        b < MAX_IMAGES,
    ensures
        r == dist(a as int, b as int),
{
    let r: usize = b.wrapping_sub(a) & IMAGE_INDEX_MASK;
    proof {
        lemma_mask(b.wrapping_sub(a));
        assert(usize::MAX == 0xFFFF_FFFF || usize::MAX == 0xFFFF_FFFF_FFFF_FFFF);
    }
    r
}

/// If probing passes `p` slots of other keys and then meets a free slot or has
/// gone all the way round, no slot with the key is met and, in a consistent
/// index, no image with the key is indexed.
proof fn lemma_key_not_met(
    images: Seq<ImageEntry>,
    index: Seq<u16>,
    session_id: i32,
    stream_id: i32,
    p: int,
)
    requires
        0 <= p <= 256,
        index_in_range(images, index),
        probes_other_keys(images, index, session_id, stream_id, p),
        p < 256 ==> !occupied(index, slot_after(hash_slot(session_id, stream_id), p)),
    ensures
        forall|q: int| !#[trigger] key_met_at(images, index, session_id, stream_id, q),
        index_wf(images, index) ==> forall|i: int|
            0 <= i < 256 && #[trigger] indexed(index, i) ==> !images[i].has_key(
                session_id,
                stream_id,
            ),
{
    let h = hash_slot(session_id, stream_id);
    assert forall|q: int| !#[trigger] key_met_at(images, index, session_id, stream_id, q) by {
        if key_met_at(images, index, session_id, stream_id, q) {
            if q < p {
                assert(occupied(index, slot_after(h, q)));
            } else if q > p {
                assert(occupied(index, slot_after(h, p)));
            }
        }
    }
    if index_wf(images, index) {
        assert forall|i: int| 0 <= i < 256 && #[trigger] indexed(index, i) implies !images[i].has_key(
            session_id,
            stream_id,
        ) by {
            if images[i].has_key(session_id, stream_id) {
                let s = choose|s: int| is_slot(s) && #[trigger] index[s] == i;
                assert(occupied(index, s));
                let d = dist(h, s);
                assert(slot_after(h, d) == s);
                if d >= p && p < 256 {
                    let x = slot_after(h, p);
                    assert(dist(h, x) == p);
                    assert(d > p);
                    assert(occupied(index, x));
                }
            }
        }
    }
}

/// The key is first met at one place only.
proof fn lemma_key_met_once(
    images: Seq<ImageEntry>,
    index: Seq<u16>,
    session_id: i32,
    stream_id: i32,
    p: int,
    q: int,
)
    requires
        key_met_at(images, index, session_id, stream_id, p),
        key_met_at(images, index, session_id, stream_id, q),
    ensures
        p == q,
{
    let h = hash_slot(session_id, stream_id);
    if p < q {
        assert(!image_at(images, index, slot_after(h, p)).has_key(session_id, stream_id));
    } else if q < p {
        assert(!image_at(images, index, slot_after(h, q)).has_key(session_id, stream_id));
    }
}

/// Inserting an image whose key is not yet indexed keeps the index consistent
/// and adds just that image. No probe chain crosses behind the slot it was put in.
pub proof fn law_insert_keeps_index(
    images: Seq<ImageEntry>,
    before: Seq<u16>,
    after: Seq<u16>,
    i: int,
    d: int,
)
    requires
        0 <= i < 256,
        index_wf(images, before),
        forall|k: int|
            0 <= k < 256 && #[trigger] indexed(before, k) ==> !images[k].has_key(
                images[i].session_id,
                images[i].stream_id,
            ),
        first_free(before, home(images[i]), d),
        after == before.update(slot_after(home(images[i]), d), i as u16),
    ensures
        index_wf(images, after),
        uncrossed(images, after, slot_after(slot_after(home(images[i]), d), 1)),
        has_boundary(images, after),
        forall|k: int|
            0 <= k < 256 ==> (#[trigger] indexed(after, k) <==> indexed(before, k) || k == i),
{
    let h = home(images[i]);
    let t = slot_after(h, d);
    let b = slot_after(t, 1);
    lemma_hash_slot_range(images[i].session_id, images[i].stream_id);
    lemma_boundary_behind_free_slot(images, before, t);
    assert forall|s: int| is_slot(s) && #[trigger] occupied(after, s) implies dist(
        home(image_at(images, after, s)),
        s,
    ) <= dist(b, s) by {
        if s != t {
            assert(occupied(before, s));
        }
    }
    assert(is_slot(b) && uncrossed(images, after, b));
    assert forall|s: int| is_slot(s) && #[trigger] occupied(before, s) implies indexed(
        before,
        before[s] as int,
    ) by {}
    assert forall|s: int| is_slot(s) && s != t implies (#[trigger] occupied(after, s)
        == occupied(before, s)) by {}
    assert(occupied(after, t));
    assert forall|s: int, u: int|
        is_slot(s) && is_slot(u) && s != u && #[trigger] occupied(after, s) && #[trigger] occupied(
            after,
            u,
        ) implies !image_at(images, after, s).has_key(
        image_at(images, after, u).session_id,
        image_at(images, after, u).stream_id,
    ) by {
        if s != t {
            assert(occupied(before, s));
        }
        if u != t {
            assert(occupied(before, u));
        }
    }
    assert forall|s: int, x: int|
        #![trigger occupied(after, s), occupied(after, x)]
        is_slot(s) && is_slot(x) && occupied(after, s) && dist(
            home(image_at(images, after, s)),
            x,
        ) < dist(home(image_at(images, after, s)), s) implies occupied(after, x) by {
        if s == t {
            assert(slot_after(h, dist(h, x)) == x);
            assert(occupied(before, slot_after(h, dist(h, x))));
        } else {
            assert(occupied(before, s));
            assert(occupied(before, x));
        }
    }
    assert forall|k: int| 0 <= k < 256 implies (#[trigger] indexed(after, k) <==> indexed(before, k)
        || k == i) by {
        if indexed(before, k) {
            let s = choose|s: int| is_slot(s) && #[trigger] before[s] == k;
            assert(after[s] == k);
        }
        if indexed(after, k) {
            let s = choose|s: int| is_slot(s) && #[trigger] after[s] == k;
            if s != t {
                assert(before[s] == k);
            }
        }
        if k == i {
            assert(after[t] == k);
        }
    }
}

/// The index depends on the keys of the images that it refers to, and on nothing
/// else of the image table.
pub proof fn lemma_index_frame(images: Seq<ImageEntry>, changed: Seq<ImageEntry>, index: Seq<u16>)
    requires
        index_wf(images, index),
        changed.len() == 256,
        forall|i: int|
            0 <= i < 256 && #[trigger] indexed(index, i) ==> changed[i].has_key(
                images[i].session_id,
                images[i].stream_id,
            ),
    ensures
        index_wf(changed, index),
        has_boundary(images, index) ==> has_boundary(changed, index),
{
    assert forall|s: int| is_slot(s) && #[trigger] occupied(index, s) implies image_at(
        changed,
        index,
        s,
    ).has_key(
        image_at(images, index, s).session_id,
        image_at(images, index, s).stream_id,
    ) by {
        assert(indexed(index, index[s] as int));
    }
    if has_boundary(images, index) {
        let b = choose|b: int| is_slot(b) && #[trigger] uncrossed(images, index, b);
        assert(uncrossed(changed, index, b));
    }
}

/// What probing finds from the `p`-th slot on, after `p` misses.
proof fn lemma_probed_from(
    images: Seq<ImageEntry>,
    index: Seq<u16>,
    session_id: i32,
    stream_id: i32,
    p: int,
)
    requires
        index_wf(images, index),
        0 <= p <= 256,
        probes_miss(images, index, session_id, stream_id, p),
    ensures
        match probed(images, index, session_id, stream_id, p) {
            Some(i) => registered(images, index, session_id, stream_id, i as int),
            None => forall|i: int| !#[trigger] registered(images, index, session_id, stream_id, i),
        },
    decreases 256 - p,
{
    let s = slot_after(hash_slot(session_id, stream_id), p);
    lemma_hash_slot_range(session_id, stream_id);
    if p >= 256 || !occupied(index, s) {
        lemma_miss_means_absent(images, index, session_id, stream_id, p);
    } else if slot_hits(images, index, session_id, stream_id, s) {
        assert(indexed(index, index[s] as int));
    } else {
        lemma_probed_from(images, index, session_id, stream_id, p + 1);
    }
}

/// In a consistent index a lookup finds the image that is registered under the
/// key, and nothing where there is none.
pub proof fn law_lookup_is_exact(
    images: Seq<ImageEntry>,
    index: Seq<u16>,
    session_id: i32,
    stream_id: i32,
)
    requires
        index_wf(images, index),
    ensures
        match probed(images, index, session_id, stream_id, 0) {
            Some(i) => forall|k: int| #[trigger]
                registered(images, index, session_id, stream_id, k) <==> k == i,
            None => forall|k: int| !#[trigger] registered(images, index, session_id, stream_id, k),
        },
{
    lemma_probed_from(images, index, session_id, stream_id, 0);
    if let Some(i) = probed(images, index, session_id, stream_id, 0) {
        assert forall|k: int| #[trigger]
            registered(images, index, session_id, stream_id, k) implies k == i by {
            let s = choose|s: int| is_slot(s) && #[trigger] index[s] == k;
            let t = choose|t: int| is_slot(t) && #[trigger] index[t] == i;
            assert(occupied(index, s) && occupied(index, t));
        }
    }
}

/// A key hashes to the low byte of its two ids, each times a constant of its own,
/// with the bits of the one turned over by those of the other.
pub proof fn law_hash_mixes_both_ids(session_id: i32, stream_id: i32, r: usize)
    requires
        call_ensures(image_hash, (session_id, stream_id), r),
    ensures
        r < 256,
        ({
            let session = (session_id as u32) * 0x9E37_79B9 % 0x1_0000_0000;
            let stream = (stream_id as u32) * 0x517C_C1B7 % 0x1_0000_0000;
            r == (session as u32 ^ stream as u32) % 256
        }),
{
}

/// A lookup gives a place of the table with an active image of that key that some
/// slot refers to, and nothing exactly where there is none.
pub proof fn law_lookup_finds_the_key(
    images: &[ImageEntry; MAX_IMAGES],
    index: &[u16; MAX_IMAGES],
    session_id: i32,
    stream_id: i32,
    r: Option<usize>,
)
    requires
        index_wf(images@, index@),
        call_ensures(find_image_in_index, (images, index, session_id, stream_id), r),
    ensures
        r matches Some(i) ==> {
            &&& i < 256
            &&& images@[i as int].active
            &&& images@[i as int].session_id == session_id
            &&& images@[i as int].stream_id == stream_id
            &&& exists|s: int| 0 <= s < 256 && #[trigger] index@[s] == i
        },
        r is None ==> forall|s: int|
            0 <= s < 256 && #[trigger] index@[s] != 0xFFFF ==> !({
                let image = images@[index@[s] as int];
                image.active && image.session_id == session_id && image.stream_id == stream_id
            }),
{
    law_lookup_is_exact(images@, index@, session_id, stream_id);
    if let Some(i) = r {
        assert(registered(images@, index@, session_id, stream_id, i as int));
        let s = choose|s: int| is_slot(s) && #[trigger] index@[s] == i;
        assert(0 <= s < 256 && index@[s] == i);
    } else {
        assert forall|s: int| 0 <= s < 256 && #[trigger] index@[s] != 0xFFFF implies !({
            let image = images@[index@[s] as int];
            image.active && image.session_id == session_id && image.stream_id == stream_id
        }) by {
            assert(occupied(index@, s) && is_slot(s));
            assert(indexed(index@, index@[s] as int));
            assert(!registered(images@, index@, session_id, stream_id, index@[s] as int));
        }
    }
}

/// An entry goes into one slot that was free, and no other slot changes; without a
/// free slot nothing does.
pub proof fn law_insert_fills_a_free_slot(
    before: [u16; MAX_IMAGES],
    after: [u16; MAX_IMAGES],
    images_idx: usize,
    session_id: i32,
    stream_id: i32,
)
    requires
        images_idx < 256,
        exists|index: &mut [u16; MAX_IMAGES]|
            *index == before && *final(index) == after && #[trigger] call_ensures(
                insert_image_index,
                (index, images_idx, session_id, stream_id),
                (),
            ),
    ensures
        (exists|s: int| 0 <= s < 256 && #[trigger] before@[s] == 0xFFFF) ==> exists|s: int|
            0 <= s < 256 && #[trigger] before@[s] == 0xFFFF && after@ == before@.update(
                s,
                images_idx as u16,
            ),
        (forall|s: int| 0 <= s < 256 ==> #[trigger] before@[s] != 0xFFFF) ==> after@ == before@,
{
    if has_free_slot(before@) {
        let h = hash_slot(session_id, stream_id);
        let d = choose|d: int| first_free(before@, h, d);
        lemma_hash_slot_range(session_id, stream_id);
        let s = slot_after(h, d);
        assert(0 <= s < 256 && before@[s] == 0xFFFF && after@ == before@.update(
            s,
            images_idx as u16,
        ));
    } else {
        assert forall|s: int| 0 <= s < 256 implies #[trigger] before@[s] != 0xFFFF by {
            assert(is_slot(s) ==> occupied(before@, s));
        }
    }
}

/// An image that was put into the index under its key is found under it.
pub proof fn law_inserted_image_is_found(
    images: &[ImageEntry; MAX_IMAGES],
    before: [u16; MAX_IMAGES],
    after: &[u16; MAX_IMAGES],
    images_idx: usize,
    session_id: i32,
    stream_id: i32,
    r: Option<usize>,
)
    requires
        images_idx < 256,
        index_wf(images@, before@),
        has_free_slot(before@),
        images@[images_idx as int].active,
        images@[images_idx as int].session_id == session_id,
        images@[images_idx as int].stream_id == stream_id,
        forall|k: int|
            0 <= k < 256 && #[trigger] indexed(before@, k) ==> !images@[k].has_key(
                session_id,
                stream_id,
            ),
        exists|index: &mut [u16; MAX_IMAGES]|
            *index == before && *final(index) == *after && #[trigger] call_ensures(
                insert_image_index,
                (index, images_idx, session_id, stream_id),
                (),
            ),
        call_ensures(find_image_in_index, (images, after, session_id, stream_id), r),
    ensures
        r == Some(images_idx),
{
    let h = hash_slot(session_id, stream_id);
    let d = choose|d: int| first_free(before@, h, d);
    law_insert_keeps_index(images@, before@, after@, images_idx as int, d);
    assert(indexed(after@, images_idx as int));
    assert(registered(images@, after@, session_id, stream_id, images_idx as int));
    law_lookup_is_exact(images@, after@, session_id, stream_id);
}

/// A key that was taken out of the index is not found any more, and every other
/// key is found where it was.
pub proof fn law_removed_key_is_not_found(
    images: &[ImageEntry; MAX_IMAGES],
    before: &[u16; MAX_IMAGES],
    after: &[u16; MAX_IMAGES],
    session_id: i32,
    stream_id: i32,
    other_session: i32,
    other_stream: i32,
    found: Option<usize>,
    other_before: Option<usize>,
    other_after: Option<usize>,
)
    requires
        index_wf(images@, before@),
        has_boundary(images@, before@),
        session_id != other_session || stream_id != other_stream,
        exists|index: &mut [u16; MAX_IMAGES]|
            *index == *before && *final(index) == *after && #[trigger] call_ensures(
                remove_image_index,
                (index, images, session_id, stream_id),
                (),
            ),
        call_ensures(find_image_in_index, (images, after, session_id, stream_id), found),
        call_ensures(
            find_image_in_index,
            (images, before, other_session, other_stream),
            other_before,
        ),
        call_ensures(
            find_image_in_index,
            (images, after, other_session, other_stream),
            other_after,
        ),
    ensures
        found is None,
        other_after == other_before,
{
    assert(forgets(images@, before@, after@, session_id, stream_id));
    law_lookup_is_exact(images@, after@, session_id, stream_id);
    law_lookup_is_exact(images@, before@, other_session, other_stream);
    law_lookup_is_exact(images@, after@, other_session, other_stream);
    if let Some(i) = found {
        assert(registered(images@, after@, session_id, stream_id, i as int));
    }
    if let Some(i) = other_before {
        assert(registered(images@, before@, other_session, other_stream, i as int));
        assert(registered(images@, after@, other_session, other_stream, i as int));
    }
    if let Some(i) = other_after {
        assert(registered(images@, after@, other_session, other_stream, i as int));
        assert(registered(images@, before@, other_session, other_stream, i as int));
    }
}

} // verus!
