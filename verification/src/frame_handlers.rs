//! Frame handlers for the receiver.
//!
//! Each handler updates the window for a received frame and tells, in a
//! `Reaction`, what must follow: the frames to send, the data to hand to the
//! assembler, the window elements whose timers must be stopped, whether the
//! task waiting for space in the window must be woken, a frame to put in the
//! window with a new timer, and whether the connection ends.

use crate::byte_stuffing::spec_byte_stuffing;
use crate::frame::{spec_frame_content, spec_frame_type_to_byte, Frame, FrameType};
use crate::window::{
    lemma_first_index_unique, spec_first_index, spec_has_num, spec_pop_count, Window,
};
use vstd::prelude::*;

verus! {

/// What must follow the handling of a received frame.
pub struct Reaction<T> {
    /// The connection ends
    pub terminate: bool,
    /// Frames, as bytes, to hand to the writer, in this order
    pub to_send: Vec<Vec<u8>>,
    /// Data to hand to the assembler
    pub to_assembler: Option<Vec<u8>>,
    /// Elements taken out of the window, whose timers must be stopped
    pub released: Vec<(Frame, T)>,
    /// Space was made in the window: the task waiting for it must be woken
    pub notify: bool,
    /// A frame to put in the window with a new timer
    pub to_push: Option<Frame>,
}

impl<T> Reaction<T> {
    /// Nothing follows.
    pub open spec fn is_quiet(&self) -> bool {
        &&& !self.terminate
        &&& self.to_send@.len() == 0
        &&& self.to_assembler is None
        &&& self.released@.len() == 0
        &&& !self.notify
        &&& self.to_push is None
    }

    /// The frames to send are exactly the given byte sequences.
    pub open spec fn sends(&self, frames: Seq<Seq<u8>>) -> bool {
        &&& self.to_send@.len() == frames.len()
        &&& forall|i: int| 0 <= i < frames.len() ==> (#[trigger] self.to_send@[i])@ == frames[i]
    }

    /// A reaction in which nothing follows.
    pub fn quiet() -> (reaction: Self)
        ensures
            reaction.is_quiet(),
    {
        Reaction {
            terminate: false,
            to_send: Vec::new(),
            to_assembler: None,
            released: Vec::new(),
            notify: false,
            to_push: None,
        }
    }
}

/// The number that precedes `num` modulo the number of frame numbers.
pub open spec fn spec_prev_num(num: u8) -> u8 {
    ((num as int + 7) % 8) as u8
}

/// The number that follows `num` modulo the number of frame numbers.
pub open spec fn spec_next_num(num: u8) -> u8 {
    ((num as int + 1) % 8) as u8
}

/// The stuffed bytes of a frame with no data.
pub open spec fn spec_control_frame(frame_type: FrameType, num: u8) -> Seq<u8> {
    spec_byte_stuffing(spec_frame_content(spec_frame_type_to_byte(frame_type), num, Seq::empty()))
}

/// The stuffed bytes a frame holds (none if it holds none).
pub open spec fn spec_stuffed(frame: Frame) -> Seq<u8> {
    match frame.content_stuffed {
        Some(s) => s@,
        None => Seq::empty(),
    }
}

/// The window elements after `pop_until(num, inclusive)`.
pub open spec fn spec_after_pop_until<T>(frames: Seq<(Frame, T)>, num: u8, inclusive: bool) -> Seq<
    (Frame, T),
> {
    if spec_has_num(frames, num) {
        frames.skip(spec_pop_count(frames, num, inclusive))
    } else {
        frames
    }
}

/// `new` and `released` are the window elements after and taken by
/// `pop_until(num, inclusive)` on `old`, and `notify` tells whether that
/// frame was found.
pub open spec fn spec_popped_until<T>(
    old: Seq<(Frame, T)>,
    new: Seq<(Frame, T)>,
    released: Seq<(Frame, T)>,
    notify: bool,
    num: u8,
    inclusive: bool,
) -> bool {
    &&& new == spec_after_pop_until(old, num, inclusive)
    &&& notify == spec_has_num(old, num)
    &&& released == if spec_has_num(old, num) {
        old.take(spec_pop_count(old, num, inclusive))
    } else {
        Seq::empty()
    }
}

/// The handling of a receive-ready frame numbered `num`: when connected,
/// the frames up to the one before `num` are acknowledged and leave the
/// window; otherwise nothing happens.
pub open spec fn spec_receive_ready<T>(old: Window<T>, new: Window<T>, num: u8, r: Reaction<T>) -> bool {
    &&& new.same_flags(&old)
    &&& !old.is_connected ==> new.frames@ == old.frames@ && r.is_quiet()
    &&& old.is_connected ==> {
        &&& !r.terminate
        &&& r.to_send@.len() == 0
        &&& r.to_assembler is None
        &&& r.to_push is None
        &&& spec_popped_until(old.frames@, new.frames@, r.released@, r.notify, spec_prev_num(num), true)
    }
}

/// The handling of a connection end frame: the connection is no longer
/// established, the window is emptied, an acknowledgment is sent unless we
/// asked for the disconnection, and the connection ends.
pub open spec fn spec_connection_end<T>(old: Window<T>, new: Window<T>, r: Reaction<T>) -> bool {
    &&& !new.is_connected
    &&& new.resend_all == old.resend_all
    &&& new.srej == old.srej
    &&& new.sent_disconnect_request == old.sent_disconnect_request
    &&& new.frames@ == Seq::<(Frame, T)>::empty()
    &&& r.released@ == old.frames@
    &&& r.notify == (old.frames@.len() > 0)
    &&& r.terminate
    &&& r.to_assembler is None
    &&& r.to_push is None
    &&& if old.sent_disconnect_request {
        r.sends(Seq::empty())
    } else {
        r.sends(seq![spec_control_frame(FrameType::ConnectionEnd, 0)])
    }
}

/// The handling of a connection start frame numbered `num` (0 for
/// go-back-n, 1 for selective reject): the connection is established. With
/// an empty window, the peer asks for the connection: the protocol is set
/// and the request is acknowledged. Otherwise the frame acknowledges our
/// request, which leaves the window.
pub open spec fn spec_connection_start<T>(old: Window<T>, new: Window<T>, num: u8, r: Reaction<T>) -> bool {
    &&& new.is_connected
    &&& new.resend_all == old.resend_all
    &&& new.sent_disconnect_request == old.sent_disconnect_request
    &&& !r.terminate
    &&& r.to_assembler is None
    &&& r.to_push is None
    &&& old.frames@.len() == 0 ==> {
        &&& new.srej == (num == 1)
        &&& new.frames@ == old.frames@
        &&& r.released@.len() == 0
        &&& !r.notify
        &&& r.sends(seq![spec_control_frame(FrameType::ConnectionStart, num)])
    }
    &&& old.frames@.len() > 0 ==> {
        &&& new.srej == old.srej
        &&& r.released@ == seq![old.frames@[0]]
        &&& new.frames@ == old.frames@.subrange(1, old.frames@.len() as int)
        &&& r.notify
        &&& r.sends(Seq::empty())
    }
}

/// The handling of a reject frame numbered `num`: when connected, the
/// frames before `num` are acknowledged and leave the window; then with
/// selective reject the frame `num` is sent again, otherwise every frame
/// left in the window is, in order.
pub open spec fn spec_reject<T>(old: Window<T>, new: Window<T>, num: u8, r: Reaction<T>) -> bool {
    &&& new.same_flags(&old)
    &&& !old.is_connected ==> new.frames@ == old.frames@ && r.is_quiet()
    &&& old.is_connected ==> {
        &&& !r.terminate
        &&& r.to_assembler is None
        &&& r.to_push is None
        &&& spec_popped_until(old.frames@, new.frames@, r.released@, r.notify, spec_prev_num(num), true)
        &&& old.srej ==> r.sends(
            seq![spec_stuffed(new.frames@[spec_first_index(new.frames@, num)].0)],
        )
        &&& !old.srej ==> r.sends(
            Seq::new(new.frames@.len(), |i: int| spec_stuffed(new.frames@[i].0)),
        )
    }
}

/// The handling of an information frame when `expected` is the number of
/// the next information frame: when connected, a frame with that number is
/// acknowledged (with the next number) and its data go to the assembler,
/// the frames up to it leave the window; a frame with another number means
/// that frame `expected` was lost: unless the window is full or already
/// holds a frame `expected`, a reject for it is sent and put in the window.
pub open spec fn spec_information<T>(
    old: Window<T>,
    new: Window<T>,
    frame: Frame,
    old_expected: u8,
    new_expected: u8,
    r: Reaction<T>,
) -> bool {
    &&& new.same_flags(&old)
    &&& !old.is_connected ==> new.frames@ == old.frames@ && r.is_quiet() && new_expected
        == old_expected
    &&& old.is_connected && frame.num != old_expected ==> {
        &&& new.frames@ == old.frames@
        &&& new_expected == old_expected
        &&& !r.terminate
        &&& r.to_assembler is None
        &&& r.released@.len() == 0
        &&& !r.notify
        &&& if old.frames@.len() == old.spec_max_size() || spec_has_num(old.frames@, old_expected) {
            r.sends(Seq::empty()) && r.to_push is None
        } else {
            &&& r.sends(seq![spec_control_frame(FrameType::Reject, old_expected)])
            &&& r.to_push matches Some(reject) && {
                &&& reject.frame_type == spec_frame_type_to_byte(FrameType::Reject)
                &&& reject.num == old_expected
                &&& reject.data@ == Seq::<u8>::empty()
                &&& reject.is_encoded()
            }
            &&& new.frames@.len() != new.spec_max_size()
        }
    }
    &&& old.is_connected && frame.num == old_expected ==> {
        &&& spec_popped_until(old.frames@, new.frames@, r.released@, r.notify, frame.num, true)
        &&& new_expected == spec_next_num(old_expected)
        &&& r.to_assembler matches Some(data) && data@ == frame.data@
        &&& r.sends(seq![spec_control_frame(FrameType::ReceiveReady, new_expected)])
        &&& !r.terminate
        &&& r.to_push is None
    }
}

/// The handling of a P frame: a receive-ready frame with the number of the
/// next expected information frame is sent.
pub open spec fn spec_p<T>(expected: u8, r: Reaction<T>) -> bool {
    &&& !r.terminate
    &&& r.sends(seq![spec_control_frame(FrameType::ReceiveReady, expected)])
    &&& r.to_assembler is None
    &&& r.released@.len() == 0
    &&& !r.notify
    &&& r.to_push is None
}

/// The bytes of a frame with no data.
fn control_frame(frame_type: FrameType, num: u8) -> (bytes: Vec<u8>)
    ensures
        bytes@ == spec_control_frame(frame_type, num),
{
    Frame::new(frame_type, num, Vec::new()).to_bytes()
}

/// The number that precedes `num` modulo the number of frame numbers.
fn prev_num(num: u8) -> (prev: u8)
    ensures
        prev == spec_prev_num(num),
{
    (num % 8 + 7) % 8
}

/// `pop_until` on the window, with what it means for a reaction.
fn pop_until_released<T>(window: &mut Window<T>, num: u8) -> (result: (Vec<(Frame, T)>, bool))
    ensures
        final(window).same_flags(old(window)),
        old(window).wf() ==> final(window).wf(),
        spec_popped_until(old(window).frames@, final(window).frames@, result.0@, result.1, num, true),
{
    match window.pop_until(num, true) {
        Some(popped) => (popped, true),
        None => (Vec::new(), false),
    }
}

/// Handles a receive-ready frame: the acknowledged frames leave the window.
pub fn handle_receive_ready<T>(window: &mut Window<T>, frame: &Frame) -> (reaction: Reaction<T>)
    ensures
        spec_receive_ready(*old(window), *final(window), frame.num, reaction),
        old(window).wf() ==> final(window).wf(),
{
    // Ignore the frame if the connection is not established
    if !window.is_connected {
        return Reaction::quiet();
    }
    let (released, notify) = pop_until_released(window, prev_num(frame.num));
    Reaction { terminate: false, to_send: Vec::new(), to_assembler: None, released, notify, to_push: None }
}

/// Handles a connection end frame.
///
/// If we did not ask for the disconnection, an acknowledgment is sent. The
/// connection ends.
pub fn handle_connection_end<T>(window: &mut Window<T>) -> (reaction: Reaction<T>)
    ensures
        spec_connection_end(*old(window), *final(window), reaction),
        final(window).wf(),
{
    window.is_connected = false;
    let sent_disconnect_request = window.sent_disconnect_request;
    let released = window.clear();
    let notify = released.len() > 0;
    let mut to_send: Vec<Vec<u8>> = Vec::new();
    if !sent_disconnect_request {
        to_send.push(control_frame(FrameType::ConnectionEnd, 0));
    }
    Reaction { terminate: true, to_send, to_assembler: None, released, notify, to_push: None }
}

/// Handles a connection start frame.
///
/// If the window is empty, the peer asks for the connection: the protocol
/// is set from the frame number and an acknowledgment is sent. Otherwise
/// the frame acknowledges our request, which leaves the window.
pub fn handle_connection_start<T>(window: &mut Window<T>, frame: &Frame) -> (reaction: Reaction<T>)
    requires
        frame.num == 0 || frame.num == 1,
        old(window).frames@.len() > 0 ==> (frame.num == 1) == old(window).srej,
    ensures
        spec_connection_start(*old(window), *final(window), frame.num, reaction),
        old(window).wf() ==> final(window).wf(),
{
    window.is_connected = true;
    let frame_srej = frame.num == 1;
    if window.is_empty() {
        // The peer initiates the connection: set the protocol it asks for
        window.srej = frame_srej;
        let mut to_send: Vec<Vec<u8>> = Vec::new();
        to_send.push(control_frame(FrameType::ConnectionStart, frame.num));
        Reaction { terminate: false, to_send, to_assembler: None, released: Vec::new(), notify: false, to_push: None }
    } else {
        // Our connection request was acknowledged
        let mut released: Vec<(Frame, T)> = Vec::new();
        match window.pop_front() {
            Some(element) => released.push(element),
            None => {},
        }
        Reaction { terminate: false, to_send: Vec::new(), to_assembler: None, released, notify: true, to_push: None }
    }
}

/// Handles a reject frame (REJ or SREJ): the frames before the rejected
/// one are acknowledged and leave the window; then the rejected frame is
/// sent again (SREJ), or every frame left in the window is (REJ).
pub fn handle_reject<T>(window: &mut Window<T>, frame: &Frame) -> (reaction: Reaction<T>)
    requires
        old(window).wf(),
        old(window).is_connected && old(window).srej ==> spec_has_num(
            spec_after_pop_until(old(window).frames@, spec_prev_num(frame.num), true),
            frame.num,
        ),
    ensures
        spec_reject(*old(window), *final(window), frame.num, reaction),
        final(window).wf(),
{
    // Ignore the frame if the connection is not established
    if !window.is_connected {
        return Reaction::quiet();
    }
    let srej = window.srej;

    // The frames before the rejected one are implicitly acknowledged
    let (released, notify) = pop_until_released(window, prev_num(frame.num));

    let mut to_send: Vec<Vec<u8>> = Vec::new();
    let len: usize = window.frames.len();
    if srej {
        // Resend the rejected frame
        match window.position(frame.num) {
            Some(i) => {
                to_send.push(window.frames[i].0.to_bytes());
            },
            None => {},
        }
    } else {
        // Resend every frame left in the window
        let mut i: usize = 0;
        while i < len
            invariant
                len == window.frames@.len(),
                i <= len,
                window.wf(),
                to_send@.len() == i,
                forall|j: int| 0 <= j < i ==> (#[trigger] to_send@[j])@ == spec_stuffed(window.frames@[j].0),
            decreases len - i,
        {
            to_send.push(window.frames[i].0.to_bytes());
            i += 1;
        }
    }
    Reaction { terminate: false, to_send, to_assembler: None, released, notify, to_push: None }
}

/// Handles an information frame, given the number of the next expected
/// information frame.
///
/// A frame with that number is acknowledged with the next number, its data
/// go to the assembler, and the frames up to it (rejects sent for it) leave
/// the window. A frame with another number means that the expected one was
/// lost (see `handle_dropped_frame`).
pub fn handle_information<T>(window: &mut Window<T>, frame: Frame, expected_info_num: &mut u8) -> (reaction: Reaction<T>)
    requires
        *old(expected_info_num) < 255,
    ensures
        spec_information(
            *old(window),
            *final(window),
            frame,
            *old(expected_info_num),
            *final(expected_info_num),
            reaction,
        ),
        old(window).wf() ==> final(window).wf(),
{
    // Ignore the frame if the connection is not established
    if !window.is_connected {
        return Reaction::quiet();
    }

    // Check if a frame was dropped
    if *expected_info_num != frame.num {
        return handle_dropped_frame(window, *expected_info_num);
    }

    // Old reject frames leave the window
    let (released, notify) = pop_until_released(window, frame.num);

    // Update the expected next information frame number
    *expected_info_num = (*expected_info_num + 1) % 8;

    let mut to_send: Vec<Vec<u8>> = Vec::new();
    to_send.push(control_frame(FrameType::ReceiveReady, *expected_info_num));
    Reaction { terminate: false, to_send, to_assembler: Some(frame.data), released, notify, to_push: None }
}

/// Handles a lost information frame numbered `expected_info_num`: unless
/// the window is full or already holds a frame with that number, a reject
/// for it is sent and put in the window.
fn handle_dropped_frame<T>(window: &mut Window<T>, expected_info_num: u8) -> (reaction: Reaction<T>)
    ensures
        final(window).frames@ == old(window).frames@,
        final(window).same_flags(old(window)),
        !reaction.terminate,
        reaction.to_assembler is None,
        reaction.released@.len() == 0,
        !reaction.notify,
        if old(window).frames@.len() == old(window).spec_max_size() || spec_has_num(
            old(window).frames@,
            expected_info_num,
        ) {
            reaction.sends(Seq::empty()) && reaction.to_push is None
        } else {
            &&& reaction.sends(seq![spec_control_frame(FrameType::Reject, expected_info_num)])
            &&& reaction.to_push matches Some(reject) && {
                &&& reject.frame_type == spec_frame_type_to_byte(FrameType::Reject)
                &&& reject.num == expected_info_num
                &&& reject.data@ == Seq::<u8>::empty()
                &&& reject.is_encoded()
            }
            &&& final(window).frames@.len() != final(window).spec_max_size()
        },
{
    // If the window is full or holds the reject already, ignore the frame
    if window.is_full() || window.contains(expected_info_num) {
        return Reaction::quiet();
    }

    // Create a reject frame for the dropped frame, to send and to put in
    // the window
    let rej_frame = Frame::new(FrameType::Reject, expected_info_num, Vec::new());
    let mut to_send: Vec<Vec<u8>> = Vec::new();
    to_send.push(rej_frame.to_bytes());
    Reaction {
        terminate: false,
        to_send,
        to_assembler: None,
        released: Vec::new(),
        notify: false,
        to_push: Some(rej_frame),
    }
}

/// Handles a P frame: a receive-ready frame with the number of the next
/// expected information frame is sent.
pub fn handle_p<T>(expected_info_num: u8) -> (reaction: Reaction<T>)
    ensures
        spec_p(expected_info_num, reaction),
{
    let mut to_send: Vec<Vec<u8>> = Vec::new();
    to_send.push(control_frame(FrameType::ReceiveReady, expected_info_num));
    Reaction { terminate: false, to_send, to_assembler: None, released: Vec::new(), notify: false, to_push: None }
}

/// The receive-ready frame that answers an information frame numbered `n`
/// (numbered with the next number) acknowledges exactly up to frame `n`.
pub proof fn lemma_ack_acknowledges_received(n: u8)
    requires
        n < 8,
    ensures
        spec_prev_num(spec_next_num(n)) == n,
{
}

/// Frames numbered `i` modulo 8, in order, are each the one the receiver
/// expects: after frame `i`, it expects frame `i + 1` modulo 8.
pub proof fn lemma_numbering_follows_expectation(i: nat)
    ensures
        spec_next_num((i % 8) as u8) == ((i + 1) % 8) as u8,
{
}

/// When frame `i` is the first one numbered `num`, popping until `num`
/// (inclusive) takes exactly the elements up to and including frame `i`;
/// when no frame is numbered `num`, nothing leaves.
proof fn lemma_popped_until_prefix<T>(
    old: Seq<(Frame, T)>,
    new: Seq<(Frame, T)>,
    released: Seq<(Frame, T)>,
    notify: bool,
    num: u8,
)
    requires
        spec_popped_until(old, new, released, notify, num, true),
    ensures
        forall|i: int|
            #![trigger old[i]]
            0 <= i < old.len() && old[i].0.num == num && (forall|j: int|
                0 <= j < i ==> (#[trigger] old[j]).0.num != num) ==> {
                &&& released == old.subrange(0, i + 1)
                &&& new == old.subrange(i + 1, old.len() as int)
                &&& notify
            },
        (forall|j: int| 0 <= j < old.len() ==> (#[trigger] old[j]).0.num != num) ==> {
            &&& released.len() == 0
            &&& new == old
            &&& !notify
        },
{
    assert forall|i: int|
        #![trigger old[i]]
        0 <= i < old.len() && old[i].0.num == num && (forall|j: int|
            0 <= j < i ==> (#[trigger] old[j]).0.num != num) implies {
        &&& released == old.subrange(0, i + 1)
        &&& new == old.subrange(i + 1, old.len() as int)
        &&& notify
    } by {
        lemma_first_index_unique(old, num, i);
        assert(spec_pop_count(old, num, true) == i + 1);
        assert(old.take(i + 1) == old.subrange(0, i + 1));
        assert(old.skip(i + 1) == old.subrange(i + 1, old.len() as int));
    }
    if forall|j: int| 0 <= j < old.len() ==> (#[trigger] old[j]).0.num != num {
        if spec_has_num(old, num) {
            let k = choose|k: int| 0 <= k < old.len() && (#[trigger] old[k]).0.num == num;
            assert(old[k].0.num != num);
        }
    }
}

/// A connected receiver that gets the information frame it expects,
/// numbered `n`: every window element up to and including the first frame
/// numbered `n` leaves the window and is released; the data go to the
/// assembler; the next expected number is `n + 1` modulo 8 and a
/// receive-ready frame with that number (and no data) is sent. Without a
/// frame numbered `n` in the window, nothing leaves it.
pub proof fn lemma_in_order_information<T>(
    old: Window<T>,
    new: Window<T>,
    frame: Frame,
    old_expected: u8,
    new_expected: u8,
    r: Reaction<T>,
)
    requires
        spec_information(old, new, frame, old_expected, new_expected, r),
        old.is_connected,
        frame.num == old_expected,
    ensures
        forall|i: int|
            #![trigger old.frames@[i]]
            0 <= i < old.frames@.len() && old.frames@[i].0.num == frame.num && (forall|j: int|
                0 <= j < i ==> (#[trigger] old.frames@[j]).0.num != frame.num) ==> {
                &&& r.released@ == old.frames@.subrange(0, i + 1)
                &&& new.frames@ == old.frames@.subrange(i + 1, old.frames@.len() as int)
                &&& r.notify
            },
        (forall|j: int| 0 <= j < old.frames@.len() ==> (#[trigger] old.frames@[j]).0.num != frame.num)
            ==> r.released@.len() == 0 && new.frames@ == old.frames@ && !r.notify,
        new_expected as int == (old_expected as int + 1) % 8,
        r.to_assembler matches Some(data) && data@ == frame.data@,
        r.to_send@.len() == 1,
        r.to_send@[0]@ == spec_byte_stuffing(spec_frame_content(0x41u8, new_expected, Seq::empty())),
        r.to_push is None,
        !r.terminate,
{
    lemma_popped_until_prefix(old.frames@, new.frames@, r.released@, r.notify, frame.num);
}

/// A connected sender that gets a receive-ready frame numbered `n`: every
/// window element up to and including the first frame numbered
/// `(n + 7) % 8` is acknowledged, leaves the window and is released, and the
/// rest stays in order; without such a frame, nothing leaves. Nothing is
/// sent and the connection goes on.
pub proof fn lemma_receive_ready_acknowledges<T>(old: Window<T>, new: Window<T>, num: u8, r: Reaction<T>)
    requires
        spec_receive_ready(old, new, num, r),
        old.is_connected,
    ensures
        forall|i: int|
            #![trigger old.frames@[i]]
            0 <= i < old.frames@.len() && old.frames@[i].0.num as int == (num as int + 7) % 8 && (
            forall|j: int|
                0 <= j < i ==> (#[trigger] old.frames@[j]).0.num as int != (num as int + 7) % 8) ==> {
                &&& r.released@ == old.frames@.subrange(0, i + 1)
                &&& new.frames@ == old.frames@.subrange(i + 1, old.frames@.len() as int)
                &&& r.notify
            },
        (forall|j: int|
            0 <= j < old.frames@.len() ==> (#[trigger] old.frames@[j]).0.num as int != (num as int + 7)
                % 8) ==> r.released@.len() == 0 && new.frames@ == old.frames@ && !r.notify,
        r.to_send@.len() == 0,
        !r.terminate,
{
    lemma_popped_until_prefix(old.frames@, new.frames@, r.released@, r.notify, spec_prev_num(num));
}

/// A connected sender with go-back-n that gets a reject frame numbered `n`:
/// the frames up to and including the first one numbered `(n + 7) % 8` leave
/// the window and are released, and then every frame left in the window is
/// sent again, as its stuffed bytes, in window order. With selective reject,
/// only the first frame numbered `n` left in the window is sent again.
pub proof fn lemma_reject_resends<T>(old: Window<T>, new: Window<T>, num: u8, r: Reaction<T>)
    requires
        spec_reject(old, new, num, r),
        old.is_connected,
        new.wf(),
    ensures
        forall|i: int|
            #![trigger old.frames@[i]]
            0 <= i < old.frames@.len() && old.frames@[i].0.num as int == (num as int + 7) % 8 && (
            forall|j: int|
                0 <= j < i ==> (#[trigger] old.frames@[j]).0.num as int != (num as int + 7) % 8) ==> {
                &&& r.released@ == old.frames@.subrange(0, i + 1)
                &&& new.frames@ == old.frames@.subrange(i + 1, old.frames@.len() as int)
            },
        (forall|j: int|
            0 <= j < old.frames@.len() ==> (#[trigger] old.frames@[j]).0.num as int != (num as int + 7)
                % 8) ==> r.released@.len() == 0 && new.frames@ == old.frames@,
        !old.srej ==> {
            &&& r.to_send@.len() == new.frames@.len()
            &&& forall|k: int|
                0 <= k < new.frames@.len() ==> ((#[trigger] new.frames@[k]).0.content_stuffed matches Some(
                    v,
                ) && r.to_send@[k]@ == v@)
        },
        old.srej ==> forall|i: int|
            #![trigger new.frames@[i]]
            0 <= i < new.frames@.len() && new.frames@[i].0.num == num && (forall|j: int|
                0 <= j < i ==> (#[trigger] new.frames@[j]).0.num != num) ==> {
                &&& r.to_send@.len() == 1
                &&& new.frames@[i].0.content_stuffed matches Some(v) && r.to_send@[0]@ == v@
            },
        !r.terminate,
{
    lemma_popped_until_prefix(old.frames@, new.frames@, r.released@, r.notify, spec_prev_num(num));
    if !old.srej {
        assert forall|k: int| 0 <= k < new.frames@.len() implies ((#[trigger] new.frames@[k]).0.content_stuffed matches Some(
            v,
        ) && r.to_send@[k]@ == v@) by {
            assert(r.to_send@[k]@ == Seq::new(new.frames@.len(), |i: int| spec_stuffed(new.frames@[i].0))[k]);
        }
    } else {
        assert forall|i: int|
            #![trigger new.frames@[i]]
            0 <= i < new.frames@.len() && new.frames@[i].0.num == num && (forall|j: int|
                0 <= j < i ==> (#[trigger] new.frames@[j]).0.num != num) implies {
            &&& r.to_send@.len() == 1
            &&& new.frames@[i].0.content_stuffed matches Some(v) && r.to_send@[0]@ == v@
        } by {
            lemma_first_index_unique(new.frames@, num, i);
        }
    }
}

/// A connection start frame numbered `n` on an empty window (the peer asks
/// for the connection): the connection is established with selective
/// reject exactly when `n` is 1 (go-back-n when it is 0), and a connection
/// start frame numbered `n`, with no data, is sent back. On a window that
/// holds our request, the request leaves the window and is released, and
/// nothing is sent.
pub proof fn lemma_connection_start_sets_protocol<T>(old: Window<T>, new: Window<T>, num: u8, r: Reaction<T>)
    requires
        spec_connection_start(old, new, num, r),
    ensures
        new.is_connected,
        !r.terminate,
        old.frames@.len() == 0 ==> {
            &&& new.srej == (num == 1)
            &&& new.frames@.len() == 0
            &&& r.to_send@.len() == 1
            &&& r.to_send@[0]@ == spec_byte_stuffing(spec_frame_content(0x43u8, num, Seq::empty()))
        },
        old.frames@.len() > 0 ==> {
            &&& new.srej == old.srej
            &&& r.released@.len() == 1
            &&& r.released@[0] == old.frames@[0]
            &&& new.frames@ == old.frames@.subrange(1, old.frames@.len() as int)
            &&& r.to_send@.len() == 0
        },
{
}

/// The answer to a P frame, whatever the next expected number `n`: a single
/// receive-ready frame numbered `n`, with no data; nothing else happens.
pub proof fn lemma_p_answers_expected<T>(expected: u8, r: Reaction<T>)
    requires
        spec_p(expected, r),
    ensures
        r.to_send@.len() == 1,
        r.to_send@[0]@ == spec_byte_stuffing(spec_frame_content(0x41u8, expected, Seq::empty())),
        r.released@.len() == 0,
        r.to_assembler is None,
        r.to_push is None,
        !r.notify,
        !r.terminate,
{
}

} // verus!
