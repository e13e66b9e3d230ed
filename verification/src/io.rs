//! The decisions of the input and output tasks: cutting received bytes into
//! frames, dispatching received frames to their handlers, perturbing sent
//! frames, and preparing connection requests.

use crate::byte_stuffing::{lemma_stuff_body_len, spec_byte_stuffing};
use crate::frame::{
    lemma_decode_inverts_encode, spec_decode,
    spec_frame_content, spec_frame_type_from_byte, spec_frame_type_to_byte, Frame, FrameError,
    FrameType,
};
use crate::frame_handlers::{
    handle_connection_end, handle_connection_start, handle_information, handle_p,
    handle_receive_ready, handle_reject, spec_after_pop_until, spec_connection_end,
    spec_connection_start, spec_information, spec_p, spec_prev_num, spec_receive_ready,
    spec_reject, Reaction,
};
use crate::window::{spec_has_num, Window};
use vstd::prelude::*;

verus! {

/// The number of messages a channel between tasks can hold.
pub const CHANNEL_CAPACITY: usize = 1024;

/// What the reader does with one received byte.
#[derive(Debug)]
pub enum ByteOutcome {
    /// The byte was added to the frame buffer
    Buffered,
    /// A boundary flag with an empty frame buffer: nothing to do
    Skipped,
    /// The buffered bytes do not form a frame; the buffer was cleared
    BadFrame(FrameError),
    /// The buffered bytes form this frame; the buffer was cleared
    Received(Frame),
}

/// The frame buffer of the reader after one more byte: the byte is added,
/// unless it is a boundary flag, which clears the buffer.
pub open spec fn spec_next_buffer(frame_buf: Seq<u8>, byte: u8) -> Seq<u8> {
    if byte != Frame::BOUNDARY_FLAG {
        frame_buf.push(byte)
    } else if frame_buf.len() == 0 {
        frame_buf
    } else {
        Seq::empty()
    }
}

/// The frame buffer of the reader after the given bytes.
pub open spec fn spec_buffer_after(frame_buf: Seq<u8>, bytes: Seq<u8>) -> Seq<u8>
    decreases bytes.len(),
{
    if bytes.len() == 0 {
        frame_buf
    } else {
        spec_next_buffer(spec_buffer_after(frame_buf, bytes.drop_last()), bytes.last())
    }
}

/// Handles one byte received by the reader.
///
/// A byte other than the boundary flag is added to the frame buffer. A
/// boundary flag ends the buffered frame, which is decoded and the buffer
/// cleared; with an empty buffer, it is skipped.
pub fn read_byte(frame_buf: &mut Vec<u8>, byte: u8) -> (outcome: ByteOutcome)
    ensures
        final(frame_buf)@ == spec_next_buffer(old(frame_buf)@, byte),
        byte != Frame::BOUNDARY_FLAG ==> outcome is Buffered && final(frame_buf)@ == old(
            frame_buf,
        )@.push(byte),
        byte == Frame::BOUNDARY_FLAG && old(frame_buf)@.len() == 0 ==> outcome is Skipped
            && final(frame_buf)@ == old(frame_buf)@,
        byte == Frame::BOUNDARY_FLAG && old(frame_buf)@.len() > 0 ==> {
            &&& final(frame_buf)@ == Seq::<u8>::empty()
            &&& match outcome {
                ByteOutcome::BadFrame(e) => spec_decode(old(frame_buf)@) == Err::<Seq<u8>, FrameError>(e),
                ByteOutcome::Received(frame) => frame.is_decoding_of(old(frame_buf)@),
                _ => false,
            }
        },
{
    if byte != Frame::BOUNDARY_FLAG {
        frame_buf.push(byte);
        return ByteOutcome::Buffered;
    }
    if frame_buf.len() == 0 {
        return ByteOutcome::Skipped;
    }
    let outcome = match Frame::from_bytes(frame_buf.as_slice()) {
        Ok(frame) => ByteOutcome::Received(frame),
        Err(e) => ByteOutcome::BadFrame(e),
    };
    frame_buf.clear();
    outcome
}

/// A frame of a known type, sent as its stuffed bytes, reaches the reader
/// whole: from an empty buffer, every byte but the last is buffered (the
/// first boundary flag skipped), so that the last boundary flag finds in the
/// buffer the bytes between the flags, which decode to the frame's content.
pub proof fn lemma_reader_receives_sent_frame(frame_type: FrameType, num: u8, data: Seq<u8>)
    requires
        frame_type != FrameType::Unknown,
    ensures
        ({
            let content = spec_frame_content(spec_frame_type_to_byte(frame_type), num, data);
            let stuffed = spec_byte_stuffing(content);
            let body = stuffed.subrange(1, stuffed.len() - 1);
            &&& spec_buffer_after(Seq::empty(), stuffed.drop_last()) == body
            &&& body.len() > 0
            &&& stuffed.last() == Frame::BOUNDARY_FLAG
            &&& spec_decode(body) == Ok::<Seq<u8>, FrameError>(content)
        }),
{
    let content = spec_frame_content(spec_frame_type_to_byte(frame_type), num, data);
    let stuffed = spec_byte_stuffing(content);
    let n = stuffed.len();
    lemma_decode_inverts_encode(frame_type, num, data);
    let body = stuffed.subrange(1, n - 1);
    assert forall|i: int| 1 <= i < n - 1 implies #[trigger] stuffed[i] != Frame::BOUNDARY_FLAG by {
        assert(stuffed[i] == body[i - 1]);
    }
    lemma_buffer_collects_body(stuffed, n - 1);
    assert(stuffed.take(n - 1) == stuffed.drop_last());
    assert(stuffed.subrange(1, n - 1).len() > 0) by {
        assert(content.len() >= 4);
        lemma_stuff_body_len(content);
    }
}

/// Feeding the first `k` stuffed bytes of a frame to an empty buffer leaves
/// in it the bytes after the first boundary flag.
proof fn lemma_buffer_collects_body(stuffed: Seq<u8>, k: int)
    requires
        stuffed.len() >= 2,
        stuffed[0] == Frame::BOUNDARY_FLAG,
        1 <= k <= stuffed.len() - 1,
        forall|i: int| 1 <= i < stuffed.len() - 1 ==> #[trigger] stuffed[i] != Frame::BOUNDARY_FLAG,
    ensures
        spec_buffer_after(Seq::empty(), stuffed.take(k)) == stuffed.subrange(1, k),
    decreases k,
{
    if k == 1 {
        assert(stuffed.take(1).drop_last() == Seq::<u8>::empty());
        assert(stuffed.take(1).last() == Frame::BOUNDARY_FLAG);
        assert(spec_buffer_after(Seq::empty(), Seq::<u8>::empty()) == Seq::<u8>::empty());
        assert(stuffed.subrange(1, 1) == Seq::<u8>::empty());
    } else {
        lemma_buffer_collects_body(stuffed, k - 1);
        assert(stuffed.take(k).drop_last() == stuffed.take(k - 1));
        assert(stuffed.take(k).last() == stuffed[k - 1]);
        assert(stuffed[k - 1] != Frame::BOUNDARY_FLAG);
        assert(stuffed.subrange(1, k - 1).push(stuffed[k - 1]) == stuffed.subrange(1, k));
    }
}

/// Whether `handle_reception` accepts the frame on this window: a
/// connection start frame is numbered 0 or 1 and, if the window is not
/// empty, agrees with its protocol; with selective reject on an established
/// connection, the frame a reject names is in the window once the frames
/// before it have left.
pub open spec fn spec_reception_accepted<T>(frame: Frame, window: Window<T>) -> bool {
    &&& spec_frame_type_from_byte(frame.frame_type) == FrameType::ConnectionStart ==> {
        &&& frame.num == 0 || frame.num == 1
        &&& window.frames@.len() > 0 ==> (frame.num == 1) == window.srej
    }
    &&& spec_frame_type_from_byte(frame.frame_type) == FrameType::Reject ==> (window.is_connected
        && window.srej ==> spec_has_num(
        spec_after_pop_until(window.frames@, spec_prev_num(frame.num), true),
        frame.num,
    ))
}

/// Whether `handle_reception` accepts the frame on this window (see
/// `spec_reception_accepted`).
pub fn reception_accepted<T>(frame: &Frame, window: &Window<T>) -> (accepted: bool)
    ensures
        accepted == spec_reception_accepted(*frame, *window),
{
    let frame_type = FrameType::from(frame.frame_type);
    if frame_type == FrameType::ConnectionStart {
        if frame.num != 0 && frame.num != 1 {
            return false;
        }
        return window.frames.len() == 0 || (frame.num == 1) == window.srej;
    }
    if frame_type == FrameType::Reject && window.is_connected && window.srej {
        let prev: u8 = (frame.num % 8 + 7) % 8;
        let len: usize = window.frames.len();
        let start: usize = match window.position(prev) {
            Some(i) => i + 1,
            None => 0,
        };
        let ghost rest = spec_after_pop_until(window.frames@, spec_prev_num(frame.num), true);
        assert(rest == window.frames@.skip(start as int));
        let mut i: usize = start;
        while i < len
            invariant
                len == window.frames@.len(),
                start <= i <= len,
                rest == window.frames@.skip(start as int),
                rest == spec_after_pop_until(window.frames@, spec_prev_num(frame.num), true),
                spec_frame_type_from_byte(frame.frame_type) == FrameType::Reject,
                window.is_connected && window.srej,
                forall|j: int| start <= j < i ==> (#[trigger] window.frames@[j]).0.num != frame.num,
            decreases len - i,
        {
            if window.frames[i].0.num == frame.num {
                assert(rest[i - start] == window.frames@[i as int]);
                assert(0 <= i - start < rest.len() && (rest[i - start]).0.num == frame.num);
                assert(spec_has_num(rest, frame.num));
                return true;
            }
            i += 1;
        }
        assert forall|k: int| 0 <= k < rest.len() implies (#[trigger] rest[k]).0.num != frame.num by {
            assert(rest[k] == window.frames@[k + start]);
        }
        return false;
    }
    true
}

/// Handles a received frame with the handler of its type; a frame of
/// unknown type is ignored.
pub fn handle_reception<T>(frame: Frame, window: &mut Window<T>, expected_info_num: &mut u8) -> (reaction: Reaction<T>)
    requires
        old(window).wf(),
        *old(expected_info_num) < 255,
        spec_reception_accepted(frame, *old(window)),
    ensures
        final(window).wf(),
        match spec_frame_type_from_byte(frame.frame_type) {
            FrameType::ReceiveReady => spec_receive_ready(*old(window), *final(window), frame.num, reaction)
                && *final(expected_info_num) == *old(expected_info_num),
            FrameType::ConnectionEnd => spec_connection_end(*old(window), *final(window), reaction)
                && *final(expected_info_num) == *old(expected_info_num),
            FrameType::ConnectionStart => spec_connection_start(*old(window), *final(window), frame.num, reaction)
                && *final(expected_info_num) == *old(expected_info_num),
            FrameType::Reject => spec_reject(*old(window), *final(window), frame.num, reaction)
                && *final(expected_info_num) == *old(expected_info_num),
            FrameType::Information => spec_information(
                *old(window),
                *final(window),
                frame,
                *old(expected_info_num),
                *final(expected_info_num),
                reaction,
            ),
            FrameType::P => spec_p(*old(expected_info_num), reaction) && *final(window) == *old(window)
                && *final(expected_info_num) == *old(expected_info_num),
            FrameType::Unknown => reaction.is_quiet() && *final(window) == *old(window)
                && *final(expected_info_num) == *old(expected_info_num),
        },
{
    match FrameType::from(frame.frame_type) {
        FrameType::ReceiveReady => handle_receive_ready(window, &frame),
        FrameType::ConnectionEnd => handle_connection_end(window),
        FrameType::ConnectionStart => handle_connection_start(window, &frame),
        FrameType::Reject => handle_reject(window, &frame),
        FrameType::Information => handle_information(window, frame, expected_info_num),
        FrameType::P => handle_p(*expected_info_num),
        FrameType::Unknown => Reaction::quiet(),
    }
}

/// The frame after its bit 0 of byte `random % len` was flipped.
pub open spec fn spec_flip_bit(frame: Seq<u8>, random: usize) -> Seq<u8> {
    let i = (random as int) % (frame.len() as int);
    frame.update(i, frame[i] ^ 1u8)
}

/// Flips a bit of the frame: bit `(random % len) * 8` of the frame, that is
/// the lowest bit of byte `random % len`.
pub fn flip_bit(frame: &mut Vec<u8>, random: usize)
    requires
        old(frame)@.len() > 0,
        (old(frame)@.len() - 1) * 8 <= usize::MAX,
    ensures
        final(frame)@ == spec_flip_bit(old(frame)@, random),
{
    let len: usize = frame.len();
    let index: usize = random % len;
    assert(index * 8 <= usize::MAX) by (nonlinear_arith)
        requires
            index < len,
            (len - 1) * 8 <= usize::MAX,
    ;
    let bit: usize = index * 8;
    assert(bit / 8 == index && bit % 8 == 0) by (nonlinear_arith)
        requires
            bit == index * 8,
    ;
    let shift: u8 = (bit % 8) as u8;
    let mask: u8 = 1u8 << shift;
    assert(mask == 1u8) by (bit_vector)
        requires
            shift == 0u8,
            mask == 1u8 << shift,
    ;
    let byte: u8 = frame[bit / 8];
    frame.set(bit / 8, byte ^ mask);
}

/// Draws a random `usize` with `rand::random`. Nothing is claimed of the
/// value.
#[verifier::external_body]
fn random_usize() -> usize {
    rand::random::<usize>()
}

/// Flips a bit of the frame at a random position (see `flip_bit`).
pub fn flip_random_bit(frame: &mut Vec<u8>)
    requires
        old(frame)@.len() > 0,
        (old(frame)@.len() - 1) * 8 <= usize::MAX,
    ensures
        exists|random: usize| final(frame)@ == spec_flip_bit(old(frame)@, random),
{
    let random: usize = random_usize();
    flip_bit(frame, random);
}

/// Prepares a connection request (to start the connection, or to end it)
/// and returns the request frame: numbered with the protocol (0 for
/// go-back-n, 1 for selective reject) when starting, 0 when ending.
///
/// The window records whether a disconnect request was sent and, when
/// starting, the protocol. Starting without a protocol is refused: `None`
/// is returned and the window is left as it was.
pub fn prepare_connection_request<T>(window: &mut Window<T>, connection_start: bool, srej: Option<u8>) -> (request: Option<Frame>)
    ensures
        connection_start && srej is None ==> request is None && *final(window) == *old(window),
        !(connection_start && srej is None) ==> {
            let num: u8 = match srej {
                Some(n) => n,
                None => 0u8,
            };
            &&& request matches Some(frame) && {
                &&& frame.frame_type == spec_frame_type_to_byte(
                    if connection_start {
                        FrameType::ConnectionStart
                    } else {
                        FrameType::ConnectionEnd
                    },
                )
                &&& frame.num == num
                &&& frame.data@ == Seq::<u8>::empty()
                &&& frame.is_encoded()
            }
            &&& final(window).frames@ == old(window).frames@
            &&& final(window).is_connected == old(window).is_connected
            &&& final(window).resend_all == old(window).resend_all
            &&& final(window).sent_disconnect_request == !connection_start
            &&& final(window).srej == if connection_start {
                num == 1
            } else {
                old(window).srej
            }
        },
{
    let frame_type = if connection_start {
        FrameType::ConnectionStart
    } else {
        FrameType::ConnectionEnd
    };
    let num: u8 = match srej {
        Some(n) => n,
        None => {
            if connection_start {
                return None;
            }
            0
        },
    };
    let request_frame = Frame::new(frame_type, num, Vec::new());
    window.sent_disconnect_request = !connection_start;
    if connection_start {
        window.srej = num == 1;
    }
    Some(request_frame)
}

/// Finishes a connection request, once it was sent (and, when starting,
/// acknowledged): the connection is established when starting, and no longer
/// when ending. Nothing else in the window changes.
pub fn finish_connection_request<T>(window: &mut Window<T>, connection_start: bool)
    ensures
        final(window).is_connected == connection_start,
        final(window).frames@ == old(window).frames@,
        final(window).resend_all == old(window).resend_all,
        final(window).srej == old(window).srej,
        final(window).sent_disconnect_request == old(window).sent_disconnect_request,
{
    window.is_connected = connection_start;
}

} // verus!
