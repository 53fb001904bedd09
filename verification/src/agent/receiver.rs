//! The receiver: images of remote publications, loss detection and feedback.
//!
//! A setup frame makes an image. Data frames are matched to their image, gaps
//! are noted for a NAK, and the image's term moves on with the data. Status
//! messages and NAKs go back to the senders. Sockets and term buffers are
//! outside: the caller performs what is decided here and reports what came of
//! it.

use crate::agent::image_index;
use crate::agent::image_index::{
    find_image_in_index, insert_image_index, remove_image_index, ImageEntry, IMAGE_INDEX_EMPTY,
    MAX_IMAGES,
};
use crate::client::bridge;
use crate::client::sub_bridge::{PendingImage, SubscriptionBridge};
use crate::context::{ContextValidationError, DriverContext};
use crate::frame::{DataHeader, SetupHeader, SockaddrStorage};
use crate::term;
use crate::term::{HALF_RANGE_I32, PARTITION_COUNT};
use crate::wire;
use vstd::arithmetic::power2;
use vstd::prelude::*;
use vstd::set_lib;

verus! {

/// NAKs that are noted in one duty cycle at most.
pub const MAX_PENDING_NAKS_PER_CYCLE: usize = 64;

/// A NAK to send.
#[derive(Clone, Copy, Debug)]
pub struct PendingNak {
    pub dest_addr: SockaddrStorage,
    pub session_id: i32,
    pub stream_id: i32,
    pub active_term_id: i32,
    pub term_offset: i32,
    pub length: i32,
}

/// A status message to send.
#[derive(Clone, Copy, Debug)]
pub struct PendingSm {
    pub dest_addr: SockaddrStorage,
    pub session_id: i32,
    pub stream_id: i32,
    pub consumption_term_id: i32,
    pub consumption_term_offset: i32,
    pub receiver_window: i32,
    pub receiver_id: i64,
}

/// A status message and the endpoint that it goes out through.
#[derive(Clone, Copy, Debug)]
pub struct QueuedSm {
    pub endpoint_idx: usize,
    pub sm: PendingSm,
}

/// A NAK and the endpoint that it goes out through.
#[derive(Clone, Copy, Debug)]
pub struct QueuedNak {
    pub endpoint_idx: usize,
    pub nak: PendingNak,
}

/// What became of a setup frame.
#[derive(Clone, Copy, Debug, PartialEq, Eq, Structural)]
pub enum SetupOutcome {
    /// The image exists already, or there is no room for another.
    Ignored,
    /// The term length is not a power of two >= 32.
    InvalidTermLength,
    /// The image's term buffers could not be made.
    AllocationFailed,
    /// The image was made, at this position of the table.
    Created(usize),
}

/// What to do with a data frame.
#[derive(Clone, Copy, Debug, PartialEq, Eq, Structural)]
pub enum DataAction {
    /// No image for it.
    NoImage,
    /// Its term is too far behind: drop it.
    Stale,
    /// Write it into the image's term buffer.
    Append(AppendPlan),
}

/// How a data frame goes into an image's term buffer.
#[derive(Clone, Copy, Debug, PartialEq, Eq, Structural)]
pub struct AppendPlan {
    /// Position of the image in the table.
    pub image: usize,
    /// First term that the image enters with this frame; its partition and those
    /// of the following terms, `terms_to_clean` in all, are to be cleaned first.
    pub first_term_to_clean: i32,
    pub terms_to_clean: u32,
    pub term_id: i32,
    pub term_offset: u32,
}

/// Feedback for the senders.
#[derive(Debug)]
pub struct ControlBatch {
    pub sms: Vec<QueuedSm>,
    pub naks: Vec<QueuedNak>,
    /// Number of messages in the batch.
    pub work_count: i32,
}

/// An offset after data up to `end`: offsets only advance.
pub open spec fn advanced_offset(current: i32, end: i32) -> i32 {
    if term::is_ahead_i32(end.wrapping_sub(current)) {
        end
    } else {
        current
    }
}

/// Data at an offset of a term leaves a gap behind what is expected next. Gaps
/// count in the active term only.
pub open spec fn leaves_gap(img: ImageEntry, term_id: i32, term_offset: i32) -> bool {
    term::is_ahead_i32(term_offset.wrapping_sub(img.expected_term_offset)) && term_id
        == img.active_term_id
}

/// Enough time has passed since the image's last NAK.
pub open spec fn nak_allowed(img: ImageEntry, now_ns: i64, nak_delay_ns: i64) -> bool {
    let since = now_ns.wrapping_sub(img.time_of_last_nak_ns);
    since >= 0 && since >= nak_delay_ns
}

/// The NAK for the gap in front of an offset.
pub open spec fn nak_of(img: ImageEntry, term_offset: i32) -> PendingNak {
    PendingNak {
        dest_addr: img.source_addr,
        session_id: img.session_id,
        stream_id: img.stream_id,
        active_term_id: img.active_term_id,
        term_offset: img.expected_term_offset,
        length: term_offset.wrapping_sub(img.expected_term_offset),
    }
}

/// Data of this term moves the image on.
pub open spec fn rotates(img: ImageEntry, term_id: i32) -> bool {
    term::is_ahead_i32(term_id.wrapping_sub(img.active_term_id))
}

/// Terms whose partitions are cleaned when the image moves on to a term.
pub open spec fn terms_entered(img: ImageEntry, term_id: i32) -> int {
    let ahead = term_id.wrapping_sub(img.active_term_id);
    if !rotates(img, term_id) {
        0
    } else if ahead < PARTITION_COUNT {
        ahead as int
    } else {
        PARTITION_COUNT as int
    }
}

/// The image after a data frame was looked at: a NAK that is due is noted, and a
/// newer term becomes the active one.
pub open spec fn after_data(
    img: ImageEntry,
    term_id: i32,
    term_offset: i32,
    now_ns: i64,
    nak_delay_ns: i64,
) -> ImageEntry {
    let noted = ImageEntry {
        time_of_last_nak_ns: if leaves_gap(img, term_id, term_offset) && nak_allowed(
            img,
            now_ns,
            nak_delay_ns,
        ) {
            now_ns
        } else {
            img.time_of_last_nak_ns
        },
        ..img
    };
    if rotates(img, term_id) {
        ImageEntry {
            active_term_id: term_id,
            consumption_term_id: term_id,
            consumption_term_offset: 0,
            expected_term_offset: 0,
            ..noted
        }
    } else {
        noted
    }
}

/// The term is one of those whose partitions the image still has.
pub open spec fn in_window(img: ImageEntry, term_id: i32) -> bool {
    0 <= img.active_term_id.wrapping_sub(term_id) < PARTITION_COUNT
}

/// The image after a frame of a term was written, up to offset `end`.
pub open spec fn after_append(img: ImageEntry, term_id: i32, end: i32) -> ImageEntry {
    ImageEntry {
        consumption_term_offset: if term_id == img.consumption_term_id {
            advanced_offset(img.consumption_term_offset, end)
        } else {
            img.consumption_term_offset
        },
        expected_term_offset: if term_id == img.active_term_id {
            advanced_offset(img.expected_term_offset, end)
        } else {
            img.expected_term_offset
        },
        data_since_sm: true,
        ..img
    }
}

/// A term length that an image can have.
pub open spec fn valid_term_length(term_length: i32) -> bool {
    term_length >= 32 && power2::is_pow2(term_length as int)
}

/// What the receiver decides by.
#[derive(Debug)]
pub struct ReceiverAgent {
    pub endpoint_count: usize,
    pub images: [ImageEntry; MAX_IMAGES],
    pub image_count: usize,
    pub image_index: [u16; MAX_IMAGES],
    pub max_images: usize,
    pub sm_interval_ns: i64,
    pub nak_delay_ns: i64,
    pub default_receiver_window: i32,
    /// Window to advertise, where it is not half a term.
    pub receiver_window: Option<i32>,
    /// Whether a status message follows data at once.
    pub send_sm_on_data: bool,
    pub receiver_id: i64,
    /// NAKs noted since the last batch of feedback.
    pub nak_queue: Vec<PendingNak>,
}

/// The images but those at `i` and `last` are as before.
pub open spec fn others_kept(
    before: Seq<ImageEntry>,
    after: Seq<ImageEntry>,
    i: int,
    last: int,
) -> bool {
    forall|k: int| 0 <= k < 256 && k != i && k != last ==> #[trigger] after[k] == before[k]
}

impl ReceiverAgent {
    /// Counts and table positions are within bounds, and the images in use are
    /// the first of the table.
    pub open spec fn bounded(self) -> bool {
        &&& image_index::index_in_range(self.images@, self.image_index@)
        &&& self.image_count <= self.max_images <= MAX_IMAGES
        &&& forall|i: int|
            0 <= i < 256 ==> (#[trigger] self.images@[i].active <==> i < self.image_count)
        &&& self.nak_queue@.len() <= MAX_PENDING_NAKS_PER_CYCLE
    }

    /// The index finds exactly the images in use.
    pub open spec fn sound(self) -> bool {
        &&& self.bounded()
        &&& image_index::index_wf(self.images@, self.image_index@)
        &&& image_index::has_boundary(self.images@, self.image_index@)
        &&& forall|i: int|
            0 <= i < 256 ==> (#[trigger] image_index::indexed(self.image_index@, i) <==> i
                < self.image_count)
    }

    /// All but images, index, count and NAK queue is as before.
    pub open spec fn same_settings(self, other: ReceiverAgent) -> bool {
        &&& self.endpoint_count == other.endpoint_count
        &&& self.max_images == other.max_images
        &&& self.sm_interval_ns == other.sm_interval_ns
        &&& self.nak_delay_ns == other.nak_delay_ns
        &&& self.default_receiver_window == other.default_receiver_window
        &&& self.receiver_window == other.receiver_window
        &&& self.send_sm_on_data == other.send_sm_on_data
        &&& self.receiver_id == other.receiver_id
    }

    /// Position of the image of a session and stream.
    pub open spec fn image_of(self, session_id: i32, stream_id: i32) -> Option<usize> {
        image_index::probed(self.images@, self.image_index@, session_id, stream_id, 0)
    }

    /// Name of the agent.
    pub fn name(&self) -> (r: &str)
        ensures
            r@ == "aeron-receiver"@,
    {
        "aeron-receiver"
    }

    /// A receiver without images.
    pub fn new(ctx: &DriverContext, receiver_id: i64) -> (r: Result<Self, ContextValidationError>)
        ensures
            r is Ok <==> ctx.valid(),
            match r {
                Ok(agent) => {
                    &&& agent.sound()
                    &&& agent.image_count == 0
                    &&& agent.endpoint_count == 0
                    &&& agent.nak_queue@ == Seq::<PendingNak>::empty()
                    &&& agent.max_images == ctx.max_receiver_images
                    &&& agent.sm_interval_ns == ctx.sm_interval_ns
                    &&& agent.nak_delay_ns == ctx.nak_delay_ns
                    &&& agent.default_receiver_window == ctx.mtu_length * 32
                    &&& agent.receiver_window == ctx.receiver_window
                    &&& agent.send_sm_on_data == ctx.send_sm_on_data
                    &&& agent.receiver_id == receiver_id
                },
                Err(e) => {
                    &&& ctx.violates(e)
                    &&& forall|other: ContextValidationError|
                        DriverContext::rank(other) < DriverContext::rank(e)
                            ==> !#[trigger] ctx.violates(other)
                },
            },
    {
        match ctx.validate() {
            Ok(()) => {},
            Err(e) => {
                return Err(e);
            },
        }
        assert(!ctx.violates(ContextValidationError::MtuOutOfRange));
        assert(!ctx.violates(ContextValidationError::MaxReceiverImagesInvalid));
        let max_images: usize = if ctx.max_receiver_images < MAX_IMAGES {
            ctx.max_receiver_images
        } else {
            MAX_IMAGES
        };
        let unused = ImageEntry::default();
        let agent = ReceiverAgent {
            endpoint_count: 0,
            images: [unused;MAX_IMAGES],
            image_count: 0,
            image_index: [IMAGE_INDEX_EMPTY;MAX_IMAGES],
            max_images,
            sm_interval_ns: ctx.sm_interval_ns,
            nak_delay_ns: ctx.nak_delay_ns,
            default_receiver_window: (ctx.mtu_length * 32) as i32,
            receiver_window: ctx.receiver_window,
            send_sm_on_data: ctx.send_sm_on_data,
            receiver_id,
            nak_queue: Vec::new(),
        };
        proof {
            assert forall|i: int| 0 <= i < 256 implies !#[trigger] image_index::indexed(
                agent.image_index@,
                i,
            ) by {}
            assert(image_index::uncrossed(agent.images@, agent.image_index@, 0));
        }
        Ok(agent)
    }

    /// Takes in an endpoint that has been registered. Endpoints are numbered in
    /// the order in which they come.
    pub fn add_endpoint(&mut self) -> (r: usize)
        requires
            old(self).endpoint_count < usize::MAX,
        ensures
            r == old(self).endpoint_count,
            final(self).endpoint_count == old(self).endpoint_count + 1,
            *final(self) == (ReceiverAgent {
                endpoint_count: final(self).endpoint_count,
                ..*old(self)
            }),
    {
        let idx: usize = self.endpoint_count;
        self.endpoint_count = idx + 1;
        idx
    }

    /// What a setup frame leads to, with or without term buffers for a new image.
    pub open spec fn setup_outcome(self, setup: SetupHeader, allocated: bool) -> SetupOutcome {
        if self.image_of(setup.session_id, setup.stream_id) is Some || self.image_count
            >= self.max_images {
            SetupOutcome::Ignored
        } else if !valid_term_length(setup.term_length) {
            SetupOutcome::InvalidTermLength
        } else if !allocated {
            SetupOutcome::AllocationFailed
        } else {
            SetupOutcome::Created(self.image_count)
        }
    }

    /// The image that a setup frame makes.
    pub open spec fn image_from(self, setup: SetupHeader, source: SockaddrStorage) -> ImageEntry {
        ImageEntry {
            session_id: setup.session_id,
            stream_id: setup.stream_id,
            endpoint_idx: 0,
            source_addr: source,
            initial_term_id: setup.initial_term_id,
            active_term_id: setup.active_term_id,
            term_length: setup.term_length as u32,
            consumption_term_id: setup.active_term_id,
            consumption_term_offset: setup.term_offset,
            receiver_window: match self.receiver_window {
                Some(window) => window,
                None => (setup.term_length as int / 2) as i32,
            },
            receiver_id: 0,
            expected_term_offset: setup.term_offset,
            time_of_last_sm_ns: 0,
            time_of_last_nak_ns: 0,
            data_since_sm: false,
            active: true,
        }
    }

    /// Whether a setup frame asks for an image whose term buffers are to be made
    /// before `on_setup` is called.
    pub fn wants_image(&self, setup: &SetupHeader) -> (r: bool)
        requires
            self.bounded(),
        ensures
            r == (self.setup_outcome(*setup, true) is Created),
    {
        let known = find_image_in_index(
            &self.images,
            &self.image_index,
            setup.session_id,
            setup.stream_id,
        ).is_some();
        !known && self.image_count < self.max_images && setup.term_length >= 32 && (
        setup.term_length as u32).is_power_of_two()
    }

    /// Takes a setup frame. `allocated` tells whether term buffers for a new image
    /// could be made.
    pub fn on_setup(&mut self, setup: &SetupHeader, source: &SockaddrStorage, allocated: bool) -> (r:
        SetupOutcome)
        requires
            old(self).bounded(),
        ensures
            r == old(self).setup_outcome(*setup, allocated),
            r !is Created ==> *final(self) == *old(self),
            r is Created ==> {
                &&& final(self).same_settings(*old(self))
                &&& final(self).nak_queue == old(self).nak_queue
                &&& final(self).image_count == old(self).image_count + 1
                &&& final(self).images@ == old(self).images@.update(
                    old(self).image_count as int,
                    old(self).image_from(*setup, *source),
                )
                &&& final(self).image_index@ == image_index::inserted(
                    old(self).image_index@,
                    old(self).image_count as u16,
                    setup.session_id,
                    setup.stream_id,
                )
            },
            final(self).bounded(),
            old(self).sound() ==> final(self).sound(),
    {
        let session_id: i32 = setup.session_id;
        let stream_id: i32 = setup.stream_id;
        let known = find_image_in_index(
            &self.images,
            &self.image_index,
            session_id,
            stream_id,
        ).is_some();
        if known || self.image_count >= self.max_images {
            return SetupOutcome::Ignored;
        }
        let term_length: i32 = setup.term_length;
        if term_length < 32 || !(term_length as u32).is_power_of_two() {
            return SetupOutcome::InvalidTermLength;
        }
        if !allocated {
            return SetupOutcome::AllocationFailed;
        }
        let idx: usize = self.image_count;
        let receiver_window: i32 = match self.receiver_window {
            Some(window) => window,
            None => term_length / 2,
        };
        self.images[idx] = ImageEntry {
            session_id,
            stream_id,
            endpoint_idx: 0,
            source_addr: *source,
            initial_term_id: setup.initial_term_id,
            active_term_id: setup.active_term_id,
            term_length: term_length as u32,
            consumption_term_id: setup.active_term_id,
            consumption_term_offset: setup.term_offset,
            receiver_window,
            receiver_id: 0,
            expected_term_offset: setup.term_offset,
            time_of_last_sm_ns: 0,
            time_of_last_nak_ns: 0,
            data_since_sm: false,
            active: true,
        };
        insert_image_index(&mut self.image_index, idx, session_id, stream_id);
        self.image_count = idx + 1;
        proof {
            lemma_setup(*old(self), *self, session_id, stream_id);
        }
        SetupOutcome::Created(idx)
    }

    /// What to do with a data frame of an image at a position.
    pub open spec fn data_action(self, i: int, term_id: i32, term_offset: i32) -> DataAction {
        let img = self.images@[i];
        if rotates(img, term_id) || in_window(img, term_id) {
            DataAction::Append(
                AppendPlan {
                    image: i as usize,
                    first_term_to_clean: img.active_term_id.wrapping_add(1),
                    terms_to_clean: terms_entered(img, term_id) as u32,
                    term_id,
                    term_offset: term_offset as u32,
                },
            )
        } else {
            DataAction::Stale
        }
    }

    /// The NAK queue after a data frame of an image.
    pub open spec fn queue_after(
        self,
        i: int,
        term_id: i32,
        term_offset: i32,
        now_ns: i64,
    ) -> Seq<PendingNak> {
        let img = self.images@[i];
        if leaves_gap(img, term_id, term_offset) && nak_allowed(img, now_ns, self.nak_delay_ns)
            && self.nak_queue@.len() < MAX_PENDING_NAKS_PER_CYCLE {
            self.nak_queue@.push(nak_of(img, term_offset))
        } else {
            self.nak_queue@
        }
    }

    /// Takes the header of a data frame: notes a NAK for a gap in front of it,
    /// moves the image on to a newer term, and says what to do with the frame.
    pub fn on_data(&mut self, header: &DataHeader, now_ns: i64) -> (r: DataAction)
        requires
            old(self).bounded(),
        ensures
            match old(self).image_of(header.session_id, header.stream_id) {
                None => r == DataAction::NoImage && *final(self) == *old(self),
                Some(i) => {
                    &&& i < old(self).image_count
                    &&& r == old(self).data_action(i as int, header.term_id, header.term_offset)
                    &&& final(self).same_settings(*old(self))
                    &&& final(self).image_count == old(self).image_count
                    &&& final(self).image_index == old(self).image_index
                    &&& final(self).images@ == old(self).images@.update(
                        i as int,
                        after_data(
                            old(self).images@[i as int],
                            header.term_id,
                            header.term_offset,
                            now_ns,
                            old(self).nak_delay_ns,
                        ),
                    )
                    &&& final(self).nak_queue@ == old(self).queue_after(
                        i as int,
                        header.term_id,
                        header.term_offset,
                        now_ns,
                    )
                },
            },
            final(self).bounded(),
            old(self).sound() ==> final(self).sound(),
    {
        let term_id: i32 = header.term_id;
        let term_offset: i32 = header.term_offset;
        let idx: usize = match find_image_in_index(
            &self.images,
            &self.image_index,
            header.session_id,
            header.stream_id,
        ) {
            Some(idx) => idx,
            None => {
                return DataAction::NoImage;
            },
        };
        let mut img = self.images[idx];
        let ghost before = img;
        let gap: i32 = term_offset.wrapping_sub(img.expected_term_offset);
        if gap > 0 && gap < HALF_RANGE_I32 && term_id == img.active_term_id {
            let since_last: i64 = now_ns.wrapping_sub(img.time_of_last_nak_ns);
            if since_last >= 0 && since_last >= self.nak_delay_ns {
                if self.nak_queue.len() < MAX_PENDING_NAKS_PER_CYCLE {
                    self.nak_queue.push(
                        PendingNak {
                            dest_addr: img.source_addr,
                            session_id: header.session_id,
                            stream_id: header.stream_id,
                            active_term_id: img.active_term_id,
                            term_offset: img.expected_term_offset,
                            length: gap,
                        },
                    );
                }
                img.time_of_last_nak_ns = now_ns;
            }
        }
        let first_term_to_clean: i32 = img.active_term_id.wrapping_add(1);
        let mut terms_to_clean: u32 = 0;
        let term_ahead: i32 = term_id.wrapping_sub(img.active_term_id);
        if term_ahead > 0 && term_ahead < HALF_RANGE_I32 {
            terms_to_clean = if term_ahead < PARTITION_COUNT as i32 {
                term_ahead as u32
            } else {
                PARTITION_COUNT as u32
            };
            img.active_term_id = term_id;
            img.consumption_term_id = term_id;
            img.consumption_term_offset = 0;
            img.expected_term_offset = 0;
        }
        let term_behind: i32 = img.active_term_id.wrapping_sub(term_id);
        self.images[idx] = img;
        proof {
            lemma_image_changed(*old(self), *self, idx as int);
        }
        if term_behind < 0 || term_behind >= PARTITION_COUNT as i32 {
            return DataAction::Stale;
        }
        #[verifier::truncate]
        let offset: u32 = term_offset as u32;
        DataAction::Append(
            AppendPlan {
                image: idx,
                first_term_to_clean,
                terms_to_clean,
                term_id,
                term_offset: offset,
            },
        )
    }

    /// Takes the result of writing a frame into an image's term buffer: the offset
    /// behind the frame, `None` if it did not fit.
    pub fn on_appended(&mut self, idx: usize, term_id: i32, end: Option<u32>)
        requires
            old(self).bounded(),
            idx < old(self).image_count,
        ensures
            final(self).same_settings(*old(self)),
            final(self).image_count == old(self).image_count,
            final(self).image_index == old(self).image_index,
            final(self).nak_queue == old(self).nak_queue,
            final(self).images@ == match end {
                Some(end) => old(self).images@.update(
                    idx as int,
                    after_append(old(self).images@[idx as int], term_id, end as i32),
                ),
                None => old(self).images@,
            },
            final(self).bounded(),
            old(self).sound() ==> final(self).sound(),
    {
        if let Some(new_offset) = end {
            #[verifier::truncate]
            let aligned_end: i32 = new_offset as i32;
            let mut img = self.images[idx];
            if term_id == img.consumption_term_id {
                let advance: i32 = aligned_end.wrapping_sub(img.consumption_term_offset);
                if advance > 0 && advance < HALF_RANGE_I32 {
                    img.consumption_term_offset = aligned_end;
                }
            }
            if term_id == img.active_term_id {
                let advance: i32 = aligned_end.wrapping_sub(img.expected_term_offset);
                if advance > 0 && advance < HALF_RANGE_I32 {
                    img.expected_term_offset = aligned_end;
                }
            }
            img.data_since_sm = true;
            self.images[idx] = img;
            proof {
                lemma_image_changed(*old(self), *self, idx as int);
            }
        }
    }
}

/// Where an image keeps its key and its place, the tables stay in order.
proof fn lemma_image_changed(before: ReceiverAgent, after: ReceiverAgent, i: int)
    requires
        before.bounded(),
        0 <= i < before.image_count,
        after.same_settings(before),
        after.image_count == before.image_count,
        after.image_index == before.image_index,
        after.nak_queue@.len() <= MAX_PENDING_NAKS_PER_CYCLE,
        after.images@ == before.images@.update(i, after.images@[i]),
        after.images@[i].active,
        after.images@[i].has_key(before.images@[i].session_id, before.images@[i].stream_id),
    ensures
        after.bounded(),
        before.sound() ==> after.sound(),
{
    assert forall|k: int| 0 <= k < 256 implies (#[trigger] after.images@[k].active <==> k
        < after.image_count) by {
        assert(before.images@[k].active <==> k < before.image_count);
    }
    if before.sound() {
        image_index::lemma_index_frame(before.images@, after.images@, before.image_index@);
    }
}

/// Fewer images than places leave a free slot in the index.
proof fn lemma_room_means_free_slot(agent: ReceiverAgent)
    requires
        agent.sound(),
        agent.image_count < 256,
    ensures
        image_index::has_free_slot(agent.image_index@),
{
    if !image_index::has_free_slot(agent.image_index@) {
        let index = agent.image_index@;
        assert forall|s: int| image_index::is_slot(s) implies #[trigger] image_index::occupied(
            index,
            s,
        ) by {}
        let places = Seq::new(256, |s: int| index[s] as int);
        assert(places.no_duplicates()) by {
            assert forall|s: int, t: int|
                0 <= s < 256 && 0 <= t < 256 && s != t implies places[s] != places[t] by {
                assert(image_index::occupied(index, s) && image_index::occupied(index, t));
            }
        }
        places.unique_seq_to_set();
        assert forall|x: int| #[trigger] places.to_set().contains(x) implies set_lib::set_int_range(
            0,
            agent.image_count as int,
        ).contains(x) by {
            let s = choose|s: int| 0 <= s < 256 && places[s] == x;
            assert(image_index::occupied(index, s));
            assert(index[s] == x);
            assert(image_index::indexed(index, x));
        }
        set_lib::lemma_int_range(0, agent.image_count as int);
        vstd::set_lib::lemma_len_subset(
            places.to_set(),
            set_lib::set_int_range(0, agent.image_count as int),
        );
    }
}

/// Adding an image whose key is not yet there keeps the tables in order.
proof fn lemma_setup(before: ReceiverAgent, after: ReceiverAgent, session_id: i32, stream_id: i32)
    requires
        before.bounded(),
        before.image_count < before.max_images,
        after.same_settings(before),
        after.nak_queue == before.nak_queue,
        after.image_count == before.image_count + 1,
        after.images@ == before.images@.update(
            before.image_count as int,
            after.images@[before.image_count as int],
        ),
        after.images@[before.image_count as int].active,
        after.images@[before.image_count as int].has_key(session_id, stream_id),
        before.sound() ==> forall|i: int|
            !#[trigger] image_index::registered(
                before.images@,
                before.image_index@,
                session_id,
                stream_id,
                i,
            ),
        after.image_index@ == image_index::inserted(
            before.image_index@,
            before.image_count as u16,
            session_id,
            stream_id,
        ),
        image_index::has_free_slot(before.image_index@) ==> exists|d: int| #[trigger]
            image_index::first_free(
                before.image_index@,
                image_index::hash_slot(session_id, stream_id),
                d,
            ),
    ensures
        after.bounded(),
        before.sound() ==> after.sound(),
{
    let n = before.image_count as int;
    let h = image_index::hash_slot(session_id, stream_id);
    assert forall|k: int| 0 <= k < 256 implies (#[trigger] after.images@[k].active <==> k
        < after.image_count) by {
        assert(before.images@[k].active <==> k < before.image_count);
    }
    assert forall|s: int|
        image_index::is_slot(s) && #[trigger] image_index::occupied(
            after.image_index@,
            s,
        ) implies after.image_index@[s] < 256 by {
        assert(after.image_index@[s] == n || image_index::occupied(before.image_index@, s));
    }
    if before.sound() {
        lemma_room_means_free_slot(before);
        let d = choose|d: int| image_index::first_free(before.image_index@, h, d);
        assert forall|k: int|
            0 <= k < 256 && #[trigger] image_index::indexed(
                before.image_index@,
                k,
            ) implies !after.images@[k].has_key(session_id, stream_id) by {
            assert(k < n);
            assert(before.images@[k].active);
            assert(!image_index::registered(
                before.images@,
                before.image_index@,
                session_id,
                stream_id,
                k,
            ));
        }
        image_index::lemma_index_frame(before.images@, after.images@, before.image_index@);
        image_index::law_insert_keeps_index(
            after.images@,
            before.image_index@,
            after.image_index@,
            n,
            d,
        );
    }
}

/// The image is to be reported to its sender.
pub open spec fn sm_due(
    img: ImageEntry,
    now_ns: i64,
    sm_interval_ns: i64,
    send_sm_on_data: bool,
) -> bool {
    img.active && (now_ns.wrapping_sub(img.time_of_last_sm_ns) > sm_interval_ns || (send_sm_on_data
        && img.data_since_sm))
}

/// The status message of an image.
pub open spec fn sm_of(img: ImageEntry, receiver_id: i64) -> PendingSm {
    PendingSm {
        dest_addr: img.source_addr,
        session_id: img.session_id,
        stream_id: img.stream_id,
        consumption_term_id: img.consumption_term_id,
        consumption_term_offset: img.consumption_term_offset,
        receiver_window: img.receiver_window,
        receiver_id,
    }
}

/// The image after it was reported.
pub open spec fn after_sm(img: ImageEntry, now_ns: i64) -> ImageEntry {
    ImageEntry { time_of_last_sm_ns: now_ns, data_since_sm: false, ..img }
}

impl ReceiverAgent {
    /// The index after an image at position `i` was removed: its key is taken out
    /// and, where the last image of the table takes its place, that image's entry
    /// is renewed.
    pub open spec fn index_without(self, i: int, session_id: i32, stream_id: i32) -> Seq<u16> {
        let last = self.image_count - 1;
        let without = image_index::removed(
            self.images@,
            self.image_index@,
            session_id,
            stream_id,
        );
        if i == last {
            without
        } else {
            let moved = self.images@[last];
            let inactive = self.images@.update(
                i,
                ImageEntry { active: false, ..self.images@[i] },
            );
            image_index::inserted(
                image_index::removed(inactive, without, moved.session_id, moved.stream_id),
                i as u16,
                moved.session_id,
                moved.stream_id,
            )
        }
    }

    /// Removes the image of a session and stream; the last image of the table
    /// takes its place. Returns the freed position, `None` if there is no such
    /// image.
    pub fn remove_image_at(&mut self, session_id: i32, stream_id: i32) -> (r: Option<usize>)
        requires
            old(self).bounded(),
        ensures
            r == old(self).image_of(session_id, stream_id),
            r is None ==> *final(self) == *old(self),
            r matches Some(i) ==> {
                let last = old(self).image_count - 1;
                &&& i <= last
                &&& final(self).same_settings(*old(self))
                &&& final(self).nak_queue == old(self).nak_queue
                &&& final(self).image_count == last
                &&& final(self).images@[last].unused()
                &&& i < last ==> final(self).images@[i as int] == old(self).images@[last]
                &&& forall|k: int|
                    0 <= k < 256 && k != i && k != last ==> #[trigger] final(self).images@[k]
                        == old(self).images@[k]
                &&& others_kept(old(self).images@, final(self).images@, i as int, last)
                &&& final(self).image_index@ == old(self).index_without(
                    i as int,
                    session_id,
                    stream_id,
                )
            },
            final(self).bounded(),
            old(self).sound() ==> final(self).sound(),
    {
        let idx: usize = match find_image_in_index(
            &self.images,
            &self.image_index,
            session_id,
            stream_id,
        ) {
            Some(idx) => idx,
            None => {
                return None;
            },
        };
        let ghost start = *self;
        let ghost orderly = self.sound();
        proof {
            assert(self.images@[idx as int].active);
            assert(image_index::indexed(self.image_index@, idx as int));
        }
        remove_image_index(&mut self.image_index, &self.images, session_id, stream_id);
        let ghost without = self.image_index@;
        let mut gone = self.images[idx];
        gone.active = false;
        self.images[idx] = gone;
        let ghost inactive = self.images@;
        proof {
            if orderly {
                lemma_only_one_removed(start, without, idx as int);
                image_index::lemma_index_frame(start.images@, inactive, without);
            }
        }
        let last: usize = self.image_count - 1;
        if idx != last {
            let moved = self.images[last];
            remove_image_index(
                &mut self.image_index,
                &self.images,
                moved.session_id,
                moved.stream_id,
            );
            let ghost twice = self.image_index@;
            self.images[idx] = moved;
            let ghost swapped = self.images@;
            insert_image_index(&mut self.image_index, idx, moved.session_id, moved.stream_id);
            proof {
                assert forall|s: int|
                    image_index::is_slot(s) && #[trigger] image_index::occupied(
                        self.image_index@,
                        s,
                    ) implies self.image_index@[s] < 256 by {
                    assert(self.image_index@[s] == idx || image_index::occupied(twice, s));
                }
                if orderly {
                    lemma_moved_in(
                        start,
                        inactive,
                        without,
                        twice,
                        swapped,
                        self.image_index@,
                        idx as int,
                    );
                }
            }
        }
        let ghost filled = self.images@;
        self.images[last] = ImageEntry::default();
        self.image_count = last;
        proof {
            assert forall|k: int| 0 <= k < 256 implies (#[trigger] self.images@[k].active <==> k
                < self.image_count) by {
                assert(start.images@[k].active <==> k < start.image_count);
                assert(start.images@[last as int].active);
            }
            if orderly {
                image_index::lemma_index_frame(filled, self.images@, self.image_index@);
            }
        }
        Some(idx)
    }

    /// Removes the image of a session and stream. Returns whether there was one.
    pub fn remove_image(&mut self, session_id: i32, stream_id: i32) -> (r: bool)
        requires
            old(self).bounded(),
        ensures
            r == (old(self).image_of(session_id, stream_id) is Some),
            !r ==> *final(self) == *old(self),
            r ==> {
                let i = old(self).image_of(session_id, stream_id)->0 as int;
                let last = old(self).image_count - 1;
                &&& i <= last
                &&& final(self).same_settings(*old(self))
                &&& final(self).nak_queue == old(self).nak_queue
                &&& final(self).image_count == last
                &&& final(self).images@[last].unused()
                &&& i < last ==> final(self).images@[i] == old(self).images@[last]
                &&& forall|k: int|
                    0 <= k < 256 && k != i && k != last ==> #[trigger] final(self).images@[k]
                        == old(self).images@[k]
                &&& others_kept(old(self).images@, final(self).images@, i as int, last)
                &&& final(self).image_index@ == old(self).index_without(i, session_id, stream_id)
            },
            final(self).bounded(),
            old(self).sound() ==> final(self).sound(),
    {
        self.remove_image_at(session_id, stream_id).is_some()
    }

    /// The images after those that are due were reported.
    pub open spec fn reported(self, now_ns: i64) -> Seq<ImageEntry> {
        Seq::new(
            256,
            |i: int|
                if i < self.image_count && sm_due(
                    self.images@[i],
                    now_ns,
                    self.sm_interval_ns,
                    self.send_sm_on_data,
                ) {
                    after_sm(self.images@[i], now_ns)
                } else {
                    self.images@[i]
                },
        )
    }

    /// The status messages that are due for the first `k` images, through
    /// endpoints that exist.
    pub open spec fn sms_due(self, k: int, now_ns: i64) -> Seq<QueuedSm>
        decreases k,
    {
        if k <= 0 {
            Seq::empty()
        } else {
            let before = self.sms_due(k - 1, now_ns);
            let img = self.images@[k - 1];
            if sm_due(img, now_ns, self.sm_interval_ns, self.send_sm_on_data) && img.endpoint_idx
                < self.endpoint_count {
                before.push(
                    QueuedSm {
                        endpoint_idx: img.endpoint_idx,
                        sm: sm_of(img, self.receiver_id),
                    },
                )
            } else {
                before
            }
        }
    }

    /// The first `k` noted NAKs whose image is still there, through endpoints that
    /// exist.
    pub open spec fn naks_due(
        self,
        images: Seq<ImageEntry>,
        k: int,
    ) -> Seq<QueuedNak>
        decreases k,
    {
        if k <= 0 {
            Seq::empty()
        } else {
            let before = self.naks_due(images, k - 1);
            let nak = self.nak_queue@[k - 1];
            match image_index::probed(
                images,
                self.image_index@,
                nak.session_id,
                nak.stream_id,
                0,
            ) {
                Some(i) if images[i as int].endpoint_idx < self.endpoint_count => before.push(
                    QueuedNak { endpoint_idx: images[i as int].endpoint_idx, nak },
                ),
                _ => before,
            }
        }
    }

    /// Collects the feedback that is due: a status message for every image whose
    /// interval has passed (or that got data, if configured so), and the NAKs noted
    /// since the last time.
    pub fn send_control_messages(&mut self, now_ns: i64) -> (r: ControlBatch)
        requires
            old(self).bounded(),
        ensures
            r.sms@ == old(self).sms_due(old(self).image_count as int, now_ns),
            r.naks@ == old(self).naks_due(
                old(self).reported(now_ns),
                old(self).nak_queue@.len() as int,
            ),
            r.work_count == r.sms@.len() + r.naks@.len(),
            final(self).images@ == old(self).reported(now_ns),
            final(self).nak_queue@ == Seq::<PendingNak>::empty(),
            final(self).image_count == old(self).image_count,
            final(self).image_index == old(self).image_index,
            final(self).same_settings(*old(self)),
            final(self).bounded(),
            old(self).sound() ==> final(self).sound(),
    {
        let ghost start = *self;
        let mut sms: Vec<QueuedSm> = Vec::new();
        let mut i: usize = 0;
        while i < self.image_count
            invariant
                start == *old(self),
                start.bounded(),
                i <= self.image_count,
                self.image_count == start.image_count,
                self.image_index == start.image_index,
                self.nak_queue == start.nak_queue,
                self.same_settings(start),
                sms@ == start.sms_due(i as int, now_ns),
                sms@.len() <= i,
                forall|k: int|
                    0 <= k < i ==> #[trigger] self.images@[k] == start.reported(now_ns)[k],
                forall|k: int| i <= k < 256 ==> #[trigger] self.images@[k] == start.images@[k],
            decreases self.image_count - i,
        {
            let mut img = self.images[i];
            if img.active && (now_ns.wrapping_sub(img.time_of_last_sm_ns) > self.sm_interval_ns || (
            self.send_sm_on_data && img.data_since_sm)) {
                let sm = PendingSm {
                    dest_addr: img.source_addr,
                    session_id: img.session_id,
                    stream_id: img.stream_id,
                    consumption_term_id: img.consumption_term_id,
                    consumption_term_offset: img.consumption_term_offset,
                    receiver_window: img.receiver_window,
                    receiver_id: self.receiver_id,
                };
                img.time_of_last_sm_ns = now_ns;
                img.data_since_sm = false;
                self.images[i] = img;
                if img.endpoint_idx < self.endpoint_count {
                    sms.push(QueuedSm { endpoint_idx: img.endpoint_idx, sm });
                }
            }
            i += 1;
        }
        let ghost images = start.reported(now_ns);
        assert(self.images@ =~= images);
        proof {
            lemma_all_reported(start, *self, now_ns);
        }
        let mut naks: Vec<QueuedNak> = Vec::new();
        let mut n: usize = 0;
        while n < self.nak_queue.len()
            invariant
                start == *old(self),
                n <= self.nak_queue@.len(),
                self.nak_queue@.len() <= 64,
                self.bounded(),
                start.sound() ==> self.sound(),
                images == start.reported(now_ns),
                self.images@ == images,
                self.image_count == start.image_count,
                self.image_index == start.image_index,
                self.nak_queue == start.nak_queue,
                self.same_settings(start),
                naks@ == start.naks_due(images, n as int),
                naks@.len() <= n,
            decreases self.nak_queue@.len() - n,
        {
            let nak = self.nak_queue[n];
            if let Some(idx) = find_image_in_index(
                &self.images,
                &self.image_index,
                nak.session_id,
                nak.stream_id,
            ) {
                let endpoint_idx: usize = self.images[idx].endpoint_idx;
                if endpoint_idx < self.endpoint_count {
                    naks.push(QueuedNak { endpoint_idx, nak });
                }
            }
            n += 1;
        }
        self.nak_queue = Vec::new();
        let work_count: i32 = sms.len() as i32 + naks.len() as i32;
        ControlBatch { sms, naks, work_count }
    }
}

/// Reporting keeps the tables in order.
proof fn lemma_all_reported(before: ReceiverAgent, after: ReceiverAgent, now_ns: i64)
    requires
        before.bounded(),
        after.same_settings(before),
        after.images@ == before.reported(now_ns),
        after.image_count == before.image_count,
        after.image_index == before.image_index,
        after.nak_queue == before.nak_queue,
    ensures
        after.bounded(),
        before.sound() ==> after.sound(),
{
    assert forall|k: int| 0 <= k < 256 implies (#[trigger] after.images@[k].active <==> k
        < after.image_count) by {
        assert(before.images@[k].active <==> k < before.image_count);
    }
    if before.sound() {
        image_index::lemma_index_frame(before.images@, after.images@, before.image_index@);
    }
}

/// In a sound receiver just the removed image leaves the index.
proof fn lemma_only_one_removed(before: ReceiverAgent, without: Seq<u16>, i: int)
    requires
        before.sound(),
        0 <= i < before.image_count,
        forall|k: int|
            0 <= k < 256 ==> (#[trigger] image_index::indexed(without, k) <==> image_index::indexed(
                before.image_index@,
                k,
            ) && !before.images@[k].has_key(
                before.images@[i].session_id,
                before.images@[i].stream_id,
            )),
    ensures
        forall|k: int|
            0 <= k < 256 ==> (#[trigger] image_index::indexed(without, k) <==> k
                < before.image_count && k != i),
{
    assert forall|k: int| 0 <= k < 256 implies (#[trigger] image_index::indexed(without, k) <==> k
        < before.image_count && k != i) by {
        assert(image_index::indexed(before.image_index@, k) <==> k < before.image_count);
        if k < before.image_count && k != i {
            lemma_keys_differ(before, k, i);
        }
    }
}

/// Two images of a sound receiver have different keys.
proof fn lemma_keys_differ(agent: ReceiverAgent, i: int, k: int)
    requires
        agent.sound(),
        0 <= i < agent.image_count,
        0 <= k < agent.image_count,
        i != k,
    ensures
        !agent.images@[i].has_key(agent.images@[k].session_id, agent.images@[k].stream_id),
{
    let index = agent.image_index@;
    assert(image_index::indexed(index, i) && image_index::indexed(index, k));
    let s = choose|s: int| image_index::is_slot(s) && #[trigger] index[s] == i;
    let t = choose|t: int| image_index::is_slot(t) && #[trigger] index[t] == k;
    assert(image_index::occupied(index, s) && image_index::occupied(index, t));
}

/// When the last image has taken the place of the removed one, the index finds
/// the remaining images.
proof fn lemma_moved_in(
    before: ReceiverAgent,
    inactive: Seq<ImageEntry>,
    without: Seq<u16>,
    twice: Seq<u16>,
    swapped: Seq<ImageEntry>,
    index: Seq<u16>,
    i: int,
)
    requires
        before.sound(),
        0 <= i < before.image_count - 1,
        inactive == before.images@.update(i, ImageEntry { active: false, ..before.images@[i] }),
        image_index::index_wf(inactive, twice),
        image_index::has_free_slot(twice),
        forall|k: int|
            0 <= k < 256 ==> (#[trigger] image_index::indexed(without, k) <==> k
                < before.image_count && k != i),
        forall|k: int|
            0 <= k < 256 ==> (#[trigger] image_index::indexed(twice, k) <==> image_index::indexed(
                without,
                k,
            ) && !inactive[k].has_key(
                inactive[before.image_count - 1].session_id,
                inactive[before.image_count - 1].stream_id,
            )),
        swapped == inactive.update(i, inactive[before.image_count - 1]),
        index == image_index::inserted(
            twice,
            i as u16,
            inactive[before.image_count - 1].session_id,
            inactive[before.image_count - 1].stream_id,
        ),
        exists|d: int| #[trigger]
            image_index::first_free(
                twice,
                image_index::hash_slot(
                    inactive[before.image_count - 1].session_id,
                    inactive[before.image_count - 1].stream_id,
                ),
                d,
            ),
    ensures
        image_index::index_wf(swapped, index),
        image_index::has_boundary(swapped, index),
        forall|k: int|
            0 <= k < 256 ==> (#[trigger] image_index::indexed(index, k) <==> k
                < before.image_count - 1),
{
    let last = before.image_count - 1;
    let moved = inactive[last];
    assert forall|k: int| 0 <= k < 256 implies (#[trigger] image_index::indexed(twice, k) <==> k
        < last && k != i) by {
        assert(image_index::indexed(without, k) <==> k < before.image_count && k != i);
        if k < last && k != i {
            lemma_keys_differ(before, k, last);
        }
    }
    image_index::lemma_index_frame(inactive, swapped, twice);
    let h = image_index::hash_slot(moved.session_id, moved.stream_id);
    let d = choose|d: int| image_index::first_free(twice, h, d);
    assert forall|k: int|
        0 <= k < 256 && #[trigger] image_index::indexed(twice, k) implies !swapped[k].has_key(
        moved.session_id,
        moved.stream_id,
    ) by {
        lemma_keys_differ(before, k, last);
    }
    image_index::law_insert_keeps_index(swapped, twice, index, i, d);
    assert forall|k: int| 0 <= k < 256 implies (#[trigger] image_index::indexed(index, k) <==> k
        < last) by {
        assert(image_index::indexed(index, k) <==> image_index::indexed(twice, k) || k == i);
    }
}

/// What is handed to the client of an image that a setup frame asked for.
pub open spec fn pending_of<I>(setup: SetupHeader, image: I) -> PendingImage<I> {
    PendingImage {
        image,
        session_id: setup.session_id,
        stream_id: setup.stream_id,
        correlation_id: 0,
    }
}

/// Hands the client's part of an image that a setup frame asked for to the
/// client. Returns false, and drops it, if the bridge is full: the client does
/// not see the image then.
pub fn announce_image<I>(setup: &SetupHeader, image: I, bridge: &mut SubscriptionBridge<I>) -> (r:
    bool)
    requires
        old(bridge).wf(),
    ensures
        final(bridge).wf(),
        r == !bridge::is_full(old(bridge).slots@),
        !r ==> final(bridge).slots@ == old(bridge).slots@,
        r ==> exists|i: int| #[trigger] bridge::first_empty(old(bridge).slots@, i),
        forall|i: int| #[trigger]
            bridge::first_empty(old(bridge).slots@, i) ==> final(bridge).slots@ == old(
                bridge,
            ).slots@.update(i, Some(pending_of(*setup, image))),
        bridge::is_deposit(
            old(bridge).slots@,
            final(bridge).slots@,
            pending_of(*setup, image),
            r,
        ),
{
    bridge.deposit(
        PendingImage {
            image,
            session_id: setup.session_id,
            stream_id: setup.stream_id,
            correlation_id: 0,
        },
    )
}

/// The id under which a receiver reports: eight random bytes or, where there are
/// none, the process id.
pub fn receiver_id_from(random: Option<[u8; 8]>, pid: u32) -> (r: i64)
    ensures
        r == match random {
            Some(bytes) => wire::i64_at(bytes@, 0),
            None => pid as i64,
        },
{
    match random {
        Some(bytes) => wire::read_i64(&bytes, 0),
        None => pid as i64,
    }
}

/// The image of a key is the one in use that has it.
pub proof fn law_images_are_found(agent: ReceiverAgent, session_id: i32, stream_id: i32)
    requires
        agent.sound(),
    ensures
        match agent.image_of(session_id, stream_id) {
            Some(i) => i < agent.image_count && agent.images@[i as int].has_key(
                session_id,
                stream_id,
            ),
            None => forall|k: int|
                0 <= k < agent.image_count ==> !#[trigger] agent.images@[k].has_key(
                    session_id,
                    stream_id,
                ),
        },
        forall|k: int|
            0 <= k < agent.image_count && #[trigger] agent.images@[k].has_key(
                session_id,
                stream_id,
            ) ==> agent.image_of(session_id, stream_id) == Some(k as usize),
{
    image_index::law_lookup_is_exact(agent.images@, agent.image_index@, session_id, stream_id);
    let r = agent.image_of(session_id, stream_id);
    if let Some(i) = r {
        assert(image_index::registered(
            agent.images@,
            agent.image_index@,
            session_id,
            stream_id,
            i as int,
        ));
    }
    assert forall|k: int|
        0 <= k < agent.image_count && #[trigger] agent.images@[k].has_key(
            session_id,
            stream_id,
        ) implies agent.image_of(session_id, stream_id) == Some(k as usize) by {
        assert(image_index::indexed(agent.image_index@, k));
        assert(agent.images@[k].active);
        assert(image_index::registered(
            agent.images@,
            agent.image_index@,
            session_id,
            stream_id,
            k,
        ));
    }
}

/// An image that a setup frame made is found, and every other key leads where it
/// led before.
pub proof fn law_setup_adds_one_image(
    before: ReceiverAgent,
    after: ReceiverAgent,
    setup: SetupHeader,
    source: SockaddrStorage,
    session_id: i32,
    stream_id: i32,
)
    requires
        before.sound(),
        after.sound(),
        after.image_count == before.image_count + 1,
        after.images@ == before.images@.update(
            before.image_count as int,
            before.image_from(setup, source),
        ),
    ensures
        after.image_of(session_id, stream_id) == if setup.session_id == session_id
            && setup.stream_id == stream_id {
            Some(before.image_count)
        } else {
            before.image_of(session_id, stream_id)
        },
{
    law_images_are_found(before, session_id, stream_id);
    law_images_are_found(after, session_id, stream_id);
    let n = before.image_count as int;
    if setup.session_id == session_id && setup.stream_id == stream_id {
        assert(after.images@[n].has_key(session_id, stream_id));
    } else {
        match before.image_of(session_id, stream_id) {
            Some(i) => {
                assert(after.images@[i as int].has_key(session_id, stream_id));
            },
            None => {
                if let Some(k) = after.image_of(session_id, stream_id) {
                    assert(k < n);
                    assert(before.images@[k as int].has_key(session_id, stream_id));
                }
            },
        }
    }
}

/// After an image was removed its key leads nowhere, and every other key leads to
/// an image with the same contents as before.
pub proof fn law_remove_forgets_one_image(
    before: ReceiverAgent,
    after: ReceiverAgent,
    i: int,
    session_id: i32,
    stream_id: i32,
)
    requires
        before.sound(),
        after.sound(),
        0 <= i < before.image_count,
        after.image_count == before.image_count - 1,
        i < before.image_count - 1 ==> after.images@[i] == before.images@[before.image_count - 1],
        forall|k: int|
            0 <= k < 256 && k != i && k != before.image_count - 1 ==> #[trigger] after.images@[k]
                == before.images@[k],
    ensures
        before.images@[i].has_key(session_id, stream_id) ==> after.image_of(
            session_id,
            stream_id,
        ) is None,
        !before.images@[i].has_key(session_id, stream_id) ==> match before.image_of(
            session_id,
            stream_id,
        ) {
            Some(k) => after.image_of(session_id, stream_id) matches Some(j)
                && after.images@[j as int] == before.images@[k as int],
            None => after.image_of(session_id, stream_id) is None,
        },
{
    let last = before.image_count - 1;
    law_images_are_found(before, session_id, stream_id);
    law_images_are_found(after, session_id, stream_id);
    match after.image_of(session_id, stream_id) {
        Some(j) => {
            let k = if j == i {
                last
            } else {
                j as int
            };
            assert(after.images@[j as int] == before.images@[k]);
            assert(before.images@[k].has_key(session_id, stream_id));
            if before.images@[i].has_key(session_id, stream_id) {
                lemma_keys_differ(before, k, i);
            }
        },
        None => {
            if let Some(k) = before.image_of(session_id, stream_id) {
                if k != i {
                    let j = if k == last {
                        i
                    } else {
                        k as int
                    };
                    assert(after.images@[j] == before.images@[k as int]);
                    assert(after.images@[j].has_key(session_id, stream_id));
                }
            }
        },
    }
}

/// Data at the expected offset, or anywhere in another term, leads to no NAK.
pub proof fn law_no_nak_without_gap(img: ImageEntry, term_id: i32, term_offset: i32)
    requires
        term_offset == img.expected_term_offset || term_id != img.active_term_id,
    ensures
        !leaves_gap(img, term_id, term_offset),
{
}

/// After a NAK no other follows for the same image until the delay has passed.
pub proof fn law_naks_are_spaced(
    img: ImageEntry,
    term_id: i32,
    term_offset: i32,
    now_ns: i64,
    later_ns: i64,
    nak_delay_ns: i64,
)
    requires
        leaves_gap(img, term_id, term_offset),
        nak_allowed(img, now_ns, nak_delay_ns),
        0 <= later_ns.wrapping_sub(now_ns) < nak_delay_ns,
    ensures
        !nak_allowed(
            after_data(img, term_id, term_offset, now_ns, nak_delay_ns),
            later_ns,
            nak_delay_ns,
        ),
{
}

/// Within a term the consumed and the expected offset never go back, in the sense
/// of wrapping offsets.
pub proof fn law_offsets_only_advance(img: ImageEntry, term_id: i32, end: i32)
    ensures
        after_append(img, term_id, end).consumption_term_offset.wrapping_sub(
            img.consumption_term_offset,
        ) >= 0,
        after_append(img, term_id, end).expected_term_offset.wrapping_sub(
            img.expected_term_offset,
        ) >= 0,
{
}

/// A frame that is to be written belongs to a term that the image has a partition
/// for, once it has moved on.
pub proof fn law_appended_frames_are_in_window(
    agent: ReceiverAgent,
    i: int,
    term_id: i32,
    term_offset: i32,
    now_ns: i64,
)
    requires
        agent.data_action(i, term_id, term_offset) is Append,
    ensures
        in_window(
            after_data(agent.images@[i], term_id, term_offset, now_ns, agent.nak_delay_ns),
            term_id,
        ),
{
}

/// After a status message the next one waits for the interval, as long as no data
/// comes in.
pub proof fn law_status_messages_are_spaced(
    img: ImageEntry,
    now_ns: i64,
    later_ns: i64,
    sm_interval_ns: i64,
    send_sm_on_data: bool,
)
    requires
        later_ns.wrapping_sub(now_ns) <= sm_interval_ns,
    ensures
        !sm_due(after_sm(img, now_ns), later_ns, sm_interval_ns, send_sm_on_data),
{
}

/// The image of a session and stream stands at place `i` of the table.
pub open spec fn has_place(agent: ReceiverAgent, session_id: i32, stream_id: i32, i: int) -> bool {
    &&& 0 <= i < agent.image_count
    &&& agent.images@[i].session_id == session_id
    &&& agent.images@[i].stream_id == stream_id
}

/// A data frame that leaves a gap leads to a NAK that names the missing bytes: the
/// term is that of the frame, and the range runs from the offset that was expected
/// up to the frame's own. It goes to the sender of the image. One is queued exactly
/// when the frame is of the active term and ahead of what was expected, the delay
/// since the last one has passed, and the queue has room.
pub proof fn law_nak_names_the_missing_bytes(
    before: ReceiverAgent,
    after: ReceiverAgent,
    header: &DataHeader,
    now_ns: i64,
    r: DataAction,
    i: int,
)
    requires
        before.sound(),
        has_place(before, header.session_id, header.stream_id, i),
        exists|agent: &mut ReceiverAgent|
            *agent == before && *final(agent) == after && #[trigger] call_ensures(
                ReceiverAgent::on_data,
                (agent, header, now_ns),
                r,
            ),
    ensures
        ({
            let img = before.images@[i];
            let n = before.nak_queue@.len() as int;
            let gap = header.term_offset.wrapping_sub(img.expected_term_offset);
            let since = now_ns.wrapping_sub(img.time_of_last_nak_ns);
            let queued = header.term_id == img.active_term_id && 0 < gap < 0x3FFF_FFFF && since >= 0
                && since >= before.nak_delay_ns;
            let nak = after.nak_queue@[n];
            &&& !(queued && n < 64) ==> after.nak_queue@ == before.nak_queue@
            &&& queued && n < 64 ==> {
                &&& after.nak_queue@.len() == n + 1
                &&& after.nak_queue@.take(n) == before.nak_queue@
                &&& nak.active_term_id == header.term_id
                &&& nak.term_offset == img.expected_term_offset
                &&& nak.length > 0
                &&& nak.term_offset.wrapping_add(nak.length) == header.term_offset
                &&& 0 <= img.expected_term_offset && 0 <= header.term_offset ==> nak.term_offset
                    + nak.length == header.term_offset
                &&& nak.session_id == header.session_id
                &&& nak.stream_id == header.stream_id
                &&& nak.dest_addr == img.source_addr
            }
            &&& queued ==> after.images@[i].time_of_last_nak_ns == now_ns
            &&& !queued ==> after.images@[i].time_of_last_nak_ns == img.time_of_last_nak_ns
        }),
{
    law_images_are_found(before, header.session_id, header.stream_id);
    assert(before.images@[i].has_key(header.session_id, header.stream_id));
    assert(after.nak_queue@.len() > before.nak_queue@.len() ==> after.nak_queue@.take(
        before.nak_queue@.len() as int,
    ) =~= before.nak_queue@);
}

/// An image follows its stream: data of a newer term makes that term the active one,
/// from its start; data of the active term or an older one moves nothing. The other
/// images, and all else of this one, stay as they are.
pub proof fn law_image_follows_the_active_term(
    before: ReceiverAgent,
    after: ReceiverAgent,
    header: &DataHeader,
    now_ns: i64,
    r: DataAction,
    i: int,
)
    requires
        before.sound(),
        has_place(before, header.session_id, header.stream_id, i),
        exists|agent: &mut ReceiverAgent|
            *agent == before && *final(agent) == after && #[trigger] call_ensures(
                ReceiverAgent::on_data,
                (agent, header, now_ns),
                r,
            ),
    ensures
        ({
            let img = before.images@[i];
            let next = after.images@[i];
            let newer = 0 < header.term_id.wrapping_sub(img.active_term_id) < 0x3FFF_FFFF;
            &&& newer ==> {
                &&& next.active_term_id == header.term_id
                &&& next.consumption_term_id == header.term_id
                &&& next.consumption_term_offset == 0
                &&& next.expected_term_offset == 0
            }
            &&& !newer ==> {
                &&& next.active_term_id == img.active_term_id
                &&& next.consumption_term_id == img.consumption_term_id
                &&& next.consumption_term_offset == img.consumption_term_offset
                &&& next.expected_term_offset == img.expected_term_offset
            }
            &&& next.session_id == img.session_id
            &&& next.stream_id == img.stream_id
            &&& next.endpoint_idx == img.endpoint_idx
            &&& next.source_addr == img.source_addr
            &&& next.initial_term_id == img.initial_term_id
            &&& next.term_length == img.term_length
            &&& next.receiver_window == img.receiver_window
            &&& next.receiver_id == img.receiver_id
            &&& next.time_of_last_sm_ns == img.time_of_last_sm_ns
            &&& next.data_since_sm == img.data_since_sm
            &&& next.active
            &&& after.images@.len() == before.images@.len()
            &&& forall|k: int|
                0 <= k < before.images@.len() && k != i ==> #[trigger] after.images@[k]
                    == before.images@[k]
            &&& after.image_count == before.image_count
            &&& after.image_index == before.image_index
            &&& after.max_images == before.max_images
            &&& after.endpoint_count == before.endpoint_count
            &&& after.sm_interval_ns == before.sm_interval_ns
            &&& after.nak_delay_ns == before.nak_delay_ns
            &&& after.receiver_id == before.receiver_id
        }),
{
    law_images_are_found(before, header.session_id, header.stream_id);
    assert(before.images@[i].has_key(header.session_id, header.stream_id));
}

/// A data frame is written where it says, into the image of its session and stream,
/// unless its term is one of those whose partition was given up: four at most are
/// kept, the active one among them. The partitions of terms that are entered are
/// cleaned first, each once.
pub proof fn law_data_is_written_where_it_says(
    before: ReceiverAgent,
    after: ReceiverAgent,
    header: &DataHeader,
    now_ns: i64,
    r: DataAction,
    i: int,
)
    requires
        before.sound(),
        has_place(before, header.session_id, header.stream_id, i),
        exists|agent: &mut ReceiverAgent|
            *agent == before && *final(agent) == after && #[trigger] call_ensures(
                ReceiverAgent::on_data,
                (agent, header, now_ns),
                r,
            ),
    ensures
        ({
            let active = before.images@[i].active_term_id;
            let ahead = header.term_id.wrapping_sub(active);
            let newer = 0 < ahead < 0x3FFF_FFFF;
            let kept = 0 <= active.wrapping_sub(header.term_id) < 4;
            &&& r !is NoImage
            &&& r is Append <==> newer || kept
            &&& r matches DataAction::Append(plan) ==> {
                &&& plan.image == i
                &&& plan.term_id == header.term_id
                &&& plan.term_offset == header.term_offset as u32
                &&& 0 <= header.term_offset ==> plan.term_offset == header.term_offset
                &&& plan.first_term_to_clean == active.wrapping_add(1)
                &&& kept ==> plan.terms_to_clean == 0
                &&& newer && ahead <= 4 ==> plan.terms_to_clean == ahead
                &&& newer && ahead > 4 ==> plan.terms_to_clean == 4
            }
        }),
{
    law_images_are_found(before, header.session_id, header.stream_id);
    assert(before.images@[i].has_key(header.session_id, header.stream_id));
}

/// A data frame without an image is not written, and changes nothing.
pub proof fn law_data_without_image_is_dropped(
    before: ReceiverAgent,
    after: ReceiverAgent,
    header: &DataHeader,
    now_ns: i64,
    r: DataAction,
)
    requires
        before.sound(),
        forall|i: int| !#[trigger] has_place(before, header.session_id, header.stream_id, i),
        exists|agent: &mut ReceiverAgent|
            *agent == before && *final(agent) == after && #[trigger] call_ensures(
                ReceiverAgent::on_data,
                (agent, header, now_ns),
                r,
            ),
    ensures
        r is NoImage,
        after == before,
{
    law_images_are_found(before, header.session_id, header.stream_id);
    if let Some(i) = before.image_of(header.session_id, header.stream_id) {
        assert(has_place(before, header.session_id, header.stream_id, i as int));
    }
}

/// What was written moves the expected offset of the active term and the consumed
/// offset of the consumption term on to its end where that is ahead, and makes a
/// status message due if those follow data. What did not fit changes nothing.
pub proof fn law_written_data_moves_the_offsets_on(
    before: ReceiverAgent,
    after: ReceiverAgent,
    idx: usize,
    term_id: i32,
    end: Option<u32>,
)
    requires
        before.bounded(),
        idx < before.image_count,
        exists|agent: &mut ReceiverAgent|
            *agent == before && *final(agent) == after && #[trigger] call_ensures(
                ReceiverAgent::on_appended,
                (agent, idx, term_id, end),
                (),
            ),
    ensures
        ({
            let img = before.images@[idx as int];
            let next = after.images@[idx as int];
            &&& end is None ==> next == img
            &&& end matches Some(end) ==> {
                &&& next == (ImageEntry {
                    expected_term_offset: next.expected_term_offset,
                    consumption_term_offset: next.consumption_term_offset,
                    data_since_sm: next.data_since_sm,
                    ..img
                })
                &&& next.data_since_sm
                &&& term_id != img.active_term_id ==> next.expected_term_offset
                    == img.expected_term_offset
                &&& term_id != img.consumption_term_id ==> next.consumption_term_offset
                    == img.consumption_term_offset
                &&& end <= i32::MAX && term_id == img.active_term_id && 0
                    <= img.expected_term_offset ==> {
                    &&& img.expected_term_offset < end < img.expected_term_offset + 0x3FFF_FFFF
                        ==> next.expected_term_offset == end
                    &&& !(img.expected_term_offset < end < img.expected_term_offset + 0x3FFF_FFFF)
                        ==> next.expected_term_offset == img.expected_term_offset
                }
                &&& end <= i32::MAX && term_id == img.consumption_term_id && 0
                    <= img.consumption_term_offset ==> {
                    &&& img.consumption_term_offset < end < img.consumption_term_offset
                        + 0x3FFF_FFFF ==> next.consumption_term_offset == end
                    &&& !(img.consumption_term_offset < end < img.consumption_term_offset
                        + 0x3FFF_FFFF) ==> next.consumption_term_offset
                        == img.consumption_term_offset
                }
            }
            &&& after.images@.len() == before.images@.len()
            &&& forall|k: int|
                0 <= k < before.images@.len() && k != idx ==> #[trigger] after.images@[k]
                    == before.images@[k]
            &&& after.nak_queue == before.nak_queue
            &&& after.image_count == before.image_count
            &&& after.image_index == before.image_index
        }),
{
}

/// Data that follows in order is not missed: after a frame of the active term was
/// written up to an offset beyond what was expected, a frame at that offset leads to
/// no NAK.
pub proof fn law_data_in_order_needs_no_nak(
    before: ReceiverAgent,
    between: ReceiverAgent,
    after: ReceiverAgent,
    idx: usize,
    end: u32,
    header: &DataHeader,
    now_ns: i64,
    r: DataAction,
)
    requires
        before.sound(),
        idx < before.image_count,
        0 <= before.images@[idx as int].expected_term_offset < end
            < before.images@[idx as int].expected_term_offset + 0x3FFF_FFFF,
        end <= i32::MAX,
        exists|agent: &mut ReceiverAgent|
            *agent == before && *final(agent) == between && #[trigger] call_ensures(
                ReceiverAgent::on_appended,
                (agent, idx, before.images@[idx as int].active_term_id, Some(end)),
                (),
            ),
        between.sound(),
        header.session_id == before.images@[idx as int].session_id,
        header.stream_id == before.images@[idx as int].stream_id,
        header.term_id == before.images@[idx as int].active_term_id,
        header.term_offset == end,
        exists|agent: &mut ReceiverAgent|
            *agent == between && *final(agent) == after && #[trigger] call_ensures(
                ReceiverAgent::on_data,
                (agent, header, now_ns),
                r,
            ),
    ensures
        after.nak_queue@ == before.nak_queue@,
        r is Append,
{
    law_written_data_moves_the_offsets_on(
        before,
        between,
        idx,
        before.images@[idx as int].active_term_id,
        Some(end),
    );
    assert(has_place(between, header.session_id, header.stream_id, idx as int));
    law_nak_names_the_missing_bytes(between, after, header, now_ns, r, idx as int);
    law_data_is_written_where_it_says(between, after, header, now_ns, r, idx as int);
}

/// A setup frame makes an image exactly when there is none of its session and
/// stream, there is room, its term length is a power of two from 32 on, and buffers
/// could be made. The first of these that fails says what becomes of the frame.
pub proof fn law_setup_makes_an_image_where_it_can(
    before: ReceiverAgent,
    after: ReceiverAgent,
    setup: &SetupHeader,
    source: &SockaddrStorage,
    allocated: bool,
    r: SetupOutcome,
)
    requires
        before.sound(),
        exists|agent: &mut ReceiverAgent|
            *agent == before && *final(agent) == after && #[trigger] call_ensures(
                ReceiverAgent::on_setup,
                (agent, setup, source, allocated),
                r,
            ),
    ensures
        ({
            let known = exists|i: int|
                #[trigger] has_place(before, setup.session_id, setup.stream_id, i);
            let room = before.image_count < before.max_images;
            let valid = setup.term_length >= 32 && power2::is_pow2(setup.term_length as int);
            &&& r is Ignored <==> known || !room
            &&& r is InvalidTermLength <==> !known && room && !valid
            &&& r is AllocationFailed <==> !known && room && valid && !allocated
            &&& r is Created <==> !known && room && valid && allocated
            &&& r matches SetupOutcome::Created(at) ==> at == before.image_count
            &&& r !is Created ==> after == before
        }),
{
    law_images_are_found(before, setup.session_id, setup.stream_id);
    if let Some(i) = before.image_of(setup.session_id, setup.stream_id) {
        assert(has_place(before, setup.session_id, setup.stream_id, i as int));
    } else {
        assert forall|i: int| !#[trigger] has_place(before, setup.session_id, setup.stream_id, i) by {
            if has_place(before, setup.session_id, setup.stream_id, i) {
                assert(before.images@[i].has_key(setup.session_id, setup.stream_id));
            }
        }
    }
}

/// The image that a setup frame made starts where the frame says, reports to where
/// it came from, and advertises the configured window, or half a term where there is
/// none. The other images stay as they are.
pub proof fn law_new_image_starts_where_the_setup_says(
    before: ReceiverAgent,
    after: ReceiverAgent,
    setup: &SetupHeader,
    source: &SockaddrStorage,
    allocated: bool,
    at: usize,
)
    requires
        before.bounded(),
        exists|agent: &mut ReceiverAgent|
            *agent == before && *final(agent) == after && #[trigger] call_ensures(
                ReceiverAgent::on_setup,
                (agent, setup, source, allocated),
                SetupOutcome::Created(at),
            ),
    ensures
        ({
            let img = after.images@[at as int];
            &&& img.session_id == setup.session_id
            &&& img.stream_id == setup.stream_id
            &&& img.source_addr == *source
            &&& img.endpoint_idx == 0
            &&& img.initial_term_id == setup.initial_term_id
            &&& img.active_term_id == setup.active_term_id
            &&& img.term_length == setup.term_length
            &&& img.consumption_term_id == setup.active_term_id
            &&& img.consumption_term_offset == setup.term_offset
            &&& img.expected_term_offset == setup.term_offset
            &&& before.receiver_window matches Some(window) ==> img.receiver_window == window
            &&& before.receiver_window is None ==> 2 * img.receiver_window == setup.term_length
            &&& img.time_of_last_sm_ns == 0
            &&& img.time_of_last_nak_ns == 0
            &&& !img.data_since_sm
            &&& img.active
            &&& after.image_count == before.image_count + 1
            &&& forall|k: int|
                0 <= k < before.images@.len() && k != at ==> #[trigger] after.images@[k]
                    == before.images@[k]
            &&& after.nak_queue == before.nak_queue
        }),
{
    let n = setup.term_length as int;
    assert(n % 2 == 0) by {
        lemma_power_of_two_is_even(n);
    }
}

proof fn lemma_power_of_two_is_even(n: int)
    requires
        n >= 32,
        power2::is_pow2(n),
    ensures
        n % 2 == 0,
{
    reveal_with_fuel(power2::is_pow2, 2);
}

/// Buffers are asked for exactly when the setup frame would make an image with them.
pub proof fn law_buffers_are_made_when_needed(
    agent: ReceiverAgent,
    after: ReceiverAgent,
    setup: &SetupHeader,
    source: &SockaddrStorage,
    wanted: bool,
    r: SetupOutcome,
)
    requires
        agent.bounded(),
        call_ensures(ReceiverAgent::wants_image, (&agent, setup), wanted),
        exists|a: &mut ReceiverAgent|
            *a == agent && *final(a) == after && #[trigger] call_ensures(
                ReceiverAgent::on_setup,
                (a, setup, source, true),
                r,
            ),
    ensures
        wanted <==> r is Created,
{
}

/// An image is to be reported: it is in use, and either more than the interval has
/// passed since the last report or data came in and reports follow data.
pub open spec fn report_due(agent: ReceiverAgent, i: int, now_ns: i64) -> bool {
    let img = agent.images@[i];
    &&& 0 <= i < agent.image_count
    &&& now_ns.wrapping_sub(img.time_of_last_sm_ns) > agent.sm_interval_ns || (
    agent.send_sm_on_data && img.data_since_sm)
}

/// The places of the first `k` images that are to be reported through an endpoint,
/// in order.
pub open spec fn places_due(agent: ReceiverAgent, k: int, now_ns: i64) -> Seq<int>
    decreases k,
{
    if k <= 0 {
        Seq::empty()
    } else if report_due(agent, k - 1, now_ns) && agent.images@[k - 1].endpoint_idx
        < agent.endpoint_count {
        places_due(agent, k - 1, now_ns).push(k - 1)
    } else {
        places_due(agent, k - 1, now_ns)
    }
}

/// A status message reports how far an image is consumed and its window, to the
/// image's sender, under the receiver's id.
pub open spec fn reports(queued: QueuedSm, img: ImageEntry, receiver_id: i64) -> bool {
    &&& queued.endpoint_idx == img.endpoint_idx
    &&& queued.sm.dest_addr == img.source_addr
    &&& queued.sm.session_id == img.session_id
    &&& queued.sm.stream_id == img.stream_id
    &&& queued.sm.consumption_term_id == img.consumption_term_id
    &&& queued.sm.consumption_term_offset == img.consumption_term_offset
    &&& queued.sm.receiver_window == img.receiver_window
    &&& queued.sm.receiver_id == receiver_id
}

proof fn lemma_places_due(agent: ReceiverAgent, k: int, now_ns: i64)
    requires
        agent.bounded(),
        0 <= k <= agent.image_count,
    ensures
        ({
            let places = places_due(agent, k, now_ns);
            let sms = agent.sms_due(k, now_ns);
            &&& sms.len() == places.len()
            &&& places.len() <= k
            &&& forall|j: int|
                0 <= j < places.len() ==> {
                    &&& 0 <= #[trigger] places[j] < k
                    &&& report_due(agent, places[j], now_ns)
                    &&& agent.images@[places[j]].endpoint_idx < agent.endpoint_count
                    &&& reports(sms[j], agent.images@[places[j]], agent.receiver_id)
                }
            &&& forall|a: int, b: int|
                0 <= a < b < places.len() ==> #[trigger] places[a] < #[trigger] places[b]
            &&& forall|i: int|
                0 <= i < k && #[trigger] report_due(agent, i, now_ns)
                    && agent.images@[i].endpoint_idx < agent.endpoint_count ==> places.contains(i)
        }),
    decreases k,
{
    if k > 0 {
        lemma_places_due(agent, k - 1, now_ns);
        let places = places_due(agent, k, now_ns);
        let earlier = places_due(agent, k - 1, now_ns);
        assert(agent.images@[k - 1].active);
        assert forall|i: int|
            0 <= i < k && #[trigger] report_due(agent, i, now_ns) && agent.images@[i].endpoint_idx
                < agent.endpoint_count implies places.contains(i) by {
            if i == k - 1 {
                assert(places[places.len() - 1] == i);
            } else {
                let j = choose|j: int| 0 <= j < earlier.len() && earlier[j] == i;
                assert(places[j] == i);
            }
        }
    }
}

/// A status message goes out for every image that is due, once and in order, and
/// for no other; each reports its image as it stands. The images that were due are
/// noted with the current time, the others stay as they are.
pub proof fn law_every_due_image_is_reported(
    before: ReceiverAgent,
    after: ReceiverAgent,
    now_ns: i64,
    r: ControlBatch,
)
    requires
        before.bounded(),
        exists|agent: &mut ReceiverAgent|
            *agent == before && *final(agent) == after && #[trigger] call_ensures(
                ReceiverAgent::send_control_messages,
                (agent, now_ns),
                r,
            ),
    ensures
        exists|places: Seq<int>|
            {
                &&& #[trigger] places.len() == r.sms@.len()
                &&& forall|j: int|
                    0 <= j < places.len() ==> {
                        &&& report_due(before, #[trigger] places[j], now_ns)
                        &&& before.images@[places[j]].endpoint_idx < before.endpoint_count
                        &&& reports(r.sms@[j], before.images@[places[j]], before.receiver_id)
                    }
                &&& forall|a: int, b: int|
                    0 <= a < b < places.len() ==> #[trigger] places[a] < #[trigger] places[b]
                &&& forall|i: int|
                    #[trigger] report_due(before, i, now_ns) && before.images@[i].endpoint_idx
                        < before.endpoint_count ==> places.contains(i)
            },
        forall|i: int|
            #[trigger] report_due(before, i, now_ns) ==> after.images@[i] == (ImageEntry {
                time_of_last_sm_ns: now_ns,
                data_since_sm: false,
                ..before.images@[i]
            }),
        forall|i: int|
            0 <= i < 256 && !report_due(before, i, now_ns) ==> #[trigger] after.images@[i]
                == before.images@[i],
        after.image_count == before.image_count,
        after.image_index == before.image_index,
        r.work_count == r.sms@.len() + r.naks@.len(),
{
    lemma_places_due(before, before.image_count as int, now_ns);
    let places = places_due(before, before.image_count as int, now_ns);
    assert(places.len() == r.sms@.len());
    assert forall|i: int| 0 <= i < 256 && !report_due(before, i, now_ns) implies #[trigger] after.images@[i]
        == before.images@[i] by {
        assert(after.images@[i] == before.reported(now_ns)[i]);
        assert(before.images@[i].active <==> i < before.image_count);
    }
    assert forall|i: int| #[trigger] report_due(before, i, now_ns) implies after.images@[i] == (
    ImageEntry { time_of_last_sm_ns: now_ns, data_since_sm: false, ..before.images@[i] }) by {
        assert(after.images@[i] == before.reported(now_ns)[i]);
        assert(before.images@[i].active);
    }
}

/// A report that went out is not repeated before the interval has passed or data
/// came in.
pub proof fn law_reports_are_spaced(
    before: ReceiverAgent,
    after: ReceiverAgent,
    now_ns: i64,
    later_ns: i64,
    r: ControlBatch,
    i: int,
)
    requires
        before.bounded(),
        exists|agent: &mut ReceiverAgent|
            *agent == before && *final(agent) == after && #[trigger] call_ensures(
                ReceiverAgent::send_control_messages,
                (agent, now_ns),
                r,
            ),
        report_due(before, i, now_ns),
        later_ns.wrapping_sub(now_ns) <= before.sm_interval_ns,
    ensures
        !report_due(after, i, later_ns),
{
    law_every_due_image_is_reported(before, after, now_ns, r);
}

/// The noted NAKs go out as they were noted, in order, each through the endpoint of
/// its image where that is still there, and none is kept for the next time.
pub proof fn law_noted_naks_go_out_once(
    before: ReceiverAgent,
    after: ReceiverAgent,
    now_ns: i64,
    r: ControlBatch,
)
    requires
        before.sound(),
        exists|agent: &mut ReceiverAgent|
            *agent == before && *final(agent) == after && #[trigger] call_ensures(
                ReceiverAgent::send_control_messages,
                (agent, now_ns),
                r,
            ),
    ensures
        after.nak_queue@.len() == 0,
        exists|places: Seq<int>|
            {
                &&& #[trigger] places.len() == r.naks@.len()
                &&& forall|j: int|
                    0 <= j < places.len() ==> {
                        &&& 0 <= #[trigger] places[j] < before.nak_queue@.len()
                        &&& r.naks@[j].nak == before.nak_queue@[places[j]]
                        &&& goes_through(before, r.naks@[j].nak, r.naks@[j].endpoint_idx)
                    }
                &&& forall|a: int, b: int|
                    0 <= a < b < places.len() ==> #[trigger] places[a] < #[trigger] places[b]
                &&& forall|n: int|
                    0 <= n < before.nak_queue@.len() && can_go(
                        before,
                        #[trigger] before.nak_queue@[n],
                    ) ==> places.contains(n)
            },
{
    lemma_reporting_keeps_lookups(before, now_ns);
    lemma_nak_places(before, before.reported(now_ns), before.nak_queue@.len() as int);
    let places = nak_places(before, before.reported(now_ns), before.nak_queue@.len() as int);
    assert(places.len() == r.naks@.len());
}

/// A NAK's image has this endpoint, and the endpoint exists.
pub open spec fn goes_through(agent: ReceiverAgent, nak: PendingNak, endpoint_idx: usize) -> bool {
    exists|i: int|
        #[trigger] has_place(agent, nak.session_id, nak.stream_id, i)
            && agent.images@[i].endpoint_idx == endpoint_idx && endpoint_idx < agent.endpoint_count
}

/// A NAK's image is there, and so is its endpoint.
pub open spec fn can_go(agent: ReceiverAgent, nak: PendingNak) -> bool {
    exists|i: int|
        #[trigger] has_place(agent, nak.session_id, nak.stream_id, i)
            && agent.images@[i].endpoint_idx < agent.endpoint_count
}

/// The places of the noted NAKs among the first `k` that go out.
spec fn nak_places(agent: ReceiverAgent, images: Seq<ImageEntry>, k: int) -> Seq<int>
    decreases k,
{
    if k <= 0 {
        Seq::empty()
    } else if agent.naks_due(images, k).len() > agent.naks_due(images, k - 1).len() {
        nak_places(agent, images, k - 1).push(k - 1)
    } else {
        nak_places(agent, images, k - 1)
    }
}

/// A lookup among changed images finds what stands in the table, with the same
/// endpoint, and nothing else.
spec fn finds_same(
    agent: ReceiverAgent,
    images: Seq<ImageEntry>,
    session_id: i32,
    stream_id: i32,
) -> bool {
    match image_index::probed(images, agent.image_index@, session_id, stream_id, 0) {
        Some(i) => has_place(agent, session_id, stream_id, i as int)
            && images[i as int].endpoint_idx == agent.images@[i as int].endpoint_idx,
        None => forall|i: int| !#[trigger] has_place(agent, session_id, stream_id, i),
    }
}

/// Reporting changes no key, endpoint or use of an image, so lookups find the same.
proof fn lemma_reporting_keeps_lookups(agent: ReceiverAgent, now_ns: i64)
    requires
        agent.sound(),
    ensures
        forall|session_id: i32, stream_id: i32|
            #[trigger] finds_same(agent, agent.reported(now_ns), session_id, stream_id),
{
    let images = agent.reported(now_ns);
    let index = agent.image_index@;
    image_index::lemma_index_frame(agent.images@, images, index);
    assert forall|session_id: i32, stream_id: i32|
        #[trigger] finds_same(agent, agent.reported(now_ns), session_id, stream_id) by {
        image_index::law_lookup_is_exact(images, index, session_id, stream_id);
        match image_index::probed(images, index, session_id, stream_id, 0) {
            Some(i) => {
                assert(image_index::registered(images, index, session_id, stream_id, i as int));
                assert(image_index::indexed(index, i as int));
            },
            None => {
                assert forall|i: int| !#[trigger] has_place(agent, session_id, stream_id, i) by {
                    if has_place(agent, session_id, stream_id, i) {
                        assert(image_index::indexed(index, i));
                        assert(agent.images@[i].active);
                        assert(image_index::registered(images, index, session_id, stream_id, i));
                    }
                }
            },
        }
    }
}

proof fn lemma_nak_places(agent: ReceiverAgent, images: Seq<ImageEntry>, k: int)
    requires
        agent.sound(),
        0 <= k <= agent.nak_queue@.len(),
        forall|session_id: i32, stream_id: i32|
            #[trigger] finds_same(agent, images, session_id, stream_id),
    ensures
        ({
            let places = nak_places(agent, images, k);
            let naks = agent.naks_due(images, k);
            &&& places.len() == naks.len()
            &&& forall|j: int|
                0 <= j < places.len() ==> {
                    &&& 0 <= #[trigger] places[j] < k
                    &&& naks[j].nak == agent.nak_queue@[places[j]]
                    &&& goes_through(agent, naks[j].nak, naks[j].endpoint_idx)
                }
            &&& forall|a: int, b: int|
                0 <= a < b < places.len() ==> #[trigger] places[a] < #[trigger] places[b]
            &&& forall|n: int|
                0 <= n < k && can_go(agent, #[trigger] agent.nak_queue@[n]) ==> places.contains(n)
        }),
    decreases k,
{
    if k > 0 {
        lemma_nak_places(agent, images, k - 1);
        let nak = agent.nak_queue@[k - 1];
        let places = nak_places(agent, images, k);
        let earlier = nak_places(agent, images, k - 1);
        assert(finds_same(agent, images, nak.session_id, nak.stream_id));
        match image_index::probed(images, agent.image_index@, nak.session_id, nak.stream_id, 0) {
            Some(at) => {
                assert(has_place(agent, nak.session_id, nak.stream_id, at as int));
                if can_go(agent, nak) {
                    let i = choose|i: int|
                        #[trigger] has_place(agent, nak.session_id, nak.stream_id, i)
                            && agent.images@[i].endpoint_idx < agent.endpoint_count;
                    if i != at {
                        lemma_keys_differ(agent, i, at as int);
                    }
                }
            },
            None => {},
        }
        assert forall|n: int| 0 <= n < k && can_go(
            agent,
            #[trigger] agent.nak_queue@[n],
        ) implies places.contains(n) by {
            if n == k - 1 {
                assert(places[places.len() - 1] == n);
            } else {
                let j = choose|j: int| 0 <= j < earlier.len() && earlier[j] == n;
                assert(places[j] == n);
            }
        }
    }
}

/// What the client is handed of an image names the image's session and stream.
pub proof fn law_announced_image_keeps_its_names<I>(setup: SetupHeader, image: I)
    ensures
        pending_of(setup, image).image == image,
        pending_of(setup, image).session_id == setup.session_id,
        pending_of(setup, image).stream_id == setup.stream_id,
        pending_of(setup, image).correlation_id == 0,
{
}

/// A receiver starts with no image, no endpoint and nothing to ask for, a window of
/// 32 frames unless its context names one, and the limits and intervals of its
/// context, wherever that context is in range.
pub proof fn law_new_receiver_runs_as_its_context_says(
    ctx: &DriverContext,
    receiver_id: i64,
    r: Result<ReceiverAgent, ContextValidationError>,
    checked: Result<(), ContextValidationError>,
)
    requires
        call_ensures(ReceiverAgent::new, (ctx, receiver_id), r),
        call_ensures(DriverContext::validate, (ctx,), checked),
    ensures
        r is Ok <==> checked is Ok,
        r matches Ok(agent) ==> {
            &&& agent.image_count == 0
            &&& agent.endpoint_count == 0
            &&& agent.nak_queue@.len() == 0
            &&& agent.max_images == ctx.max_receiver_images
            &&& agent.sm_interval_ns == ctx.sm_interval_ns
            &&& agent.nak_delay_ns == ctx.nak_delay_ns
            &&& agent.default_receiver_window == ctx.mtu_length * 32
            &&& agent.receiver_window == ctx.receiver_window
            &&& agent.send_sm_on_data == ctx.send_sm_on_data
            &&& agent.receiver_id == receiver_id
        },
{
}

/// Removing an image takes out the image of that session and stream, where there is
/// one, and no other: no image has the key then, and every image with another key
/// is still there, as it was.
pub proof fn law_removed_image_is_gone(
    before: ReceiverAgent,
    after: ReceiverAgent,
    session_id: i32,
    stream_id: i32,
    r: bool,
)
    requires
        before.sound(),
        exists|agent: &mut ReceiverAgent|
            *agent == before && *final(agent) == after && #[trigger] call_ensures(
                ReceiverAgent::remove_image,
                (agent, session_id, stream_id),
                r,
            ),
    ensures
        r <==> exists|k: int|
            0 <= k < before.image_count && #[trigger] before.images@[k].session_id == session_id
                && before.images@[k].stream_id == stream_id,
        !r ==> after == before,
        r ==> after.image_count == before.image_count - 1,
        forall|k: int|
            0 <= k < after.image_count ==> !(#[trigger] after.images@[k].session_id == session_id
                && after.images@[k].stream_id == stream_id),
        forall|k: int|
            0 <= k < before.image_count && !(#[trigger] before.images@[k].session_id == session_id
                && before.images@[k].stream_id == stream_id) ==> is_among(
                after,
                before.images@[k],
            ),
        after.nak_queue == before.nak_queue,
        after.same_settings(before),
{
    law_images_are_found(before, session_id, stream_id);
    if r {
        let i = before.image_of(session_id, stream_id)->0 as int;
        let last = before.image_count - 1;
        assert(before.images@[i].session_id == session_id);
        assert forall|k: int| 0 <= k < after.image_count implies !(
        #[trigger] after.images@[k].session_id == session_id && after.images@[k].stream_id
            == stream_id) by {
            let from = if k == i {
                last
            } else {
                k
            };
            assert(after.images@[k] == before.images@[from]);
            if before.images@[from].has_key(session_id, stream_id) {
                assert(before.image_of(session_id, stream_id) == Some(from as usize));
            }
        }
        assert forall|k: int|
            0 <= k < before.image_count && !(#[trigger] before.images@[k].session_id == session_id
                && before.images@[k].stream_id == stream_id) implies is_among(
            after,
            before.images@[k],
        ) by {
            let j = if k == last {
                i
            } else {
                k
            };
            assert(after.images@[j] == before.images@[k]);
        }
    } else {
        assert forall|k: int|
            0 <= k < before.image_count && !(#[trigger] before.images@[k].session_id == session_id
                && before.images@[k].stream_id == stream_id) implies is_among(
            after,
            before.images@[k],
        ) by {
            assert(after.images@[k] == before.images@[k]);
        }
        assert forall|k: int| 0 <= k < before.image_count implies !(
        #[trigger] before.images@[k].session_id == session_id && before.images@[k].stream_id
            == stream_id) by {
            assert(!before.images@[k].has_key(session_id, stream_id));
        }
    }
}

/// An image is one of those in use.
pub open spec fn is_among(agent: ReceiverAgent, image: ImageEntry) -> bool {
    exists|j: int| 0 <= j < agent.image_count && #[trigger] agent.images@[j] == image
}

/// The place of the removed image is told, and the last image stands there then.
pub proof fn law_last_image_takes_the_freed_place(
    before: ReceiverAgent,
    after: ReceiverAgent,
    session_id: i32,
    stream_id: i32,
    r: Option<usize>,
)
    requires
        before.sound(),
        exists|agent: &mut ReceiverAgent|
            *agent == before && *final(agent) == after && #[trigger] call_ensures(
                ReceiverAgent::remove_image_at,
                (agent, session_id, stream_id),
                r,
            ),
    ensures
        r is None ==> after == before,
        r matches Some(i) ==> {
            &&& i < before.image_count
            &&& before.images@[i as int].session_id == session_id
            &&& before.images@[i as int].stream_id == stream_id
            &&& after.image_count == before.image_count - 1
            &&& i < after.image_count ==> after.images@[i as int]
                == before.images@[before.image_count - 1]
            &&& forall|k: int|
                0 <= k < after.image_count && k != i ==> #[trigger] after.images@[k]
                    == before.images@[k]
        },
        r is None ==> forall|k: int|
            0 <= k < before.image_count ==> !(#[trigger] before.images@[k].session_id == session_id
                && before.images@[k].stream_id == stream_id),
{
    law_images_are_found(before, session_id, stream_id);
    if r is None {
        assert forall|k: int| 0 <= k < before.image_count implies !(
        #[trigger] before.images@[k].session_id == session_id && before.images@[k].stream_id
            == stream_id) by {
            assert(!before.images@[k].has_key(session_id, stream_id));
        }
    }
}

/// Endpoints are numbered in the order in which they come.
pub proof fn law_endpoints_are_numbered(before: ReceiverAgent, after: ReceiverAgent, r: usize)
    requires
        exists|agent: &mut ReceiverAgent|
            *agent == before && *final(agent) == after && #[trigger] call_ensures(
                ReceiverAgent::add_endpoint,
                (agent,),
                r,
            ),
    ensures
        r == before.endpoint_count,
        after.endpoint_count == before.endpoint_count + 1,
        after.images == before.images,
        after.image_count == before.image_count,
{
}

/// A receiver reports under eight random bytes, the least significant first, or
/// under its process id where there are none.
pub proof fn law_receiver_id_is_random(random: Option<[u8; 8]>, pid: u32, r: i64)
    requires
        call_ensures(receiver_id_from, (random, pid), r),
    ensures
        random is None ==> r == pid,
        random matches Some(bytes) ==> r == wire::i64_at(bytes@, 0),
{
}

/// A client is handed an image through the first empty slot of its bridge, under
/// the session and stream of the setup frame. Without an empty slot it is not.
pub proof fn law_image_is_announced<I>(
    setup: &SetupHeader,
    image: I,
    before: SubscriptionBridge<I>,
    after: SubscriptionBridge<I>,
    r: bool,
)
    requires
        before.wf(),
        exists|slots: &mut SubscriptionBridge<I>|
            *slots == before && *final(slots) == after && #[trigger] call_ensures(
                announce_image::<I>,
                (setup, image, slots),
                r,
            ),
    ensures
        r <==> !bridge::is_full(before.slots@),
        !r ==> after.slots@ == before.slots@,
        forall|i: int| #[trigger]
            bridge::first_empty(before.slots@, i) ==> after.slots@ == before.slots@.update(
                i,
                Some(
                    PendingImage {
                        image,
                        session_id: setup.session_id,
                        stream_id: setup.stream_id,
                        correlation_id: 0,
                    },
                ),
            ),
{
    assert(bridge::is_deposit(before.slots@, after.slots@, pending_of(*setup, image), r));
}

/// Name of the agent.
pub proof fn law_receiver_is_known_by_its_name(agent: &ReceiverAgent, r: &str)
    requires
        call_ensures(ReceiverAgent::name, (agent,), r),
    ensures
        r@ == "aeron-receiver"@,
{
}

} // verus!
