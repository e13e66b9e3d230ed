//! Byte stuffing of frame bytes.
//!
//! Byte stuffing keeps a byte of the frame from being read as a flag:
//! - a byte equal to a flag is sent as the escape flag followed by the byte
//!   with its 5th bit flipped;
//! - boundary flags are added at the start and at the end of the frame.

use crate::frame::{Frame, FrameError};
use vstd::prelude::*;

verus! {

/// Whether a byte must be escaped: it equals the boundary or the escape flag.
pub open spec fn spec_needs_escape(byte: u8) -> bool {
    byte == Frame::BOUNDARY_FLAG || byte == Frame::ESCAPE_FLAG
}

/// The bytes that stand for one byte of the frame.
pub open spec fn spec_stuff_byte(byte: u8) -> Seq<u8> {
    if spec_needs_escape(byte) {
        seq![Frame::ESCAPE_FLAG, byte ^ Frame::REPLACEMENT_POSITION]
    } else {
        seq![byte]
    }
}

/// The stuffed form of some bytes, without the boundary flags.
pub open spec fn spec_stuff_body(bytes: Seq<u8>) -> Seq<u8>
    decreases bytes.len(),
{
    if bytes.len() == 0 {
        Seq::empty()
    } else {
        spec_stuff_body(bytes.drop_last()) + spec_stuff_byte(bytes.last())
    }
}

/// The stuffed form of some bytes, between two boundary flags.
pub open spec fn spec_byte_stuffing(bytes: Seq<u8>) -> Seq<u8> {
    seq![Frame::BOUNDARY_FLAG] + spec_stuff_body(bytes) + seq![Frame::BOUNDARY_FLAG]
}

/// The state of destuffing after one more byte: the bytes produced so far
/// and whether the previous byte was an escape flag, or the error met.
pub open spec fn spec_destuff_step(state: Result<(Seq<u8>, bool), FrameError>, byte: u8) -> Result<
    (Seq<u8>, bool),
    FrameError,
> {
    match state {
        Err(e) => Err(e),
        Ok((out, escape)) => if escape {
            if byte == Frame::BOUNDARY_FLAG {
                Err(FrameError::AbortSequenceReceived)
            } else {
                Ok((out.push(byte ^ Frame::REPLACEMENT_POSITION), false))
            }
        } else if byte == Frame::ESCAPE_FLAG {
            Ok((out, true))
        } else {
            Ok((out.push(byte), false))
        },
    }
}

/// The state of destuffing after all the given bytes.
pub open spec fn spec_destuff_state(bytes: Seq<u8>) -> Result<(Seq<u8>, bool), FrameError>
    decreases bytes.len(),
{
    if bytes.len() == 0 {
        Ok((Seq::empty(), false))
    } else {
        spec_destuff_step(spec_destuff_state(bytes.drop_last()), bytes.last())
    }
}

/// The destuffed form of some bytes: an escape flag followed by a boundary
/// flag aborts the sequence; an escape flag at the very end is dropped.
pub open spec fn spec_byte_destuffing(bytes: Seq<u8>) -> Result<Seq<u8>, FrameError> {
    match spec_destuff_state(bytes) {
        Ok((out, _)) => Ok(out),
        Err(e) => Err(e),
    }
}

/// Once destuffing has failed, further bytes do not change the error.
proof fn lemma_destuff_error_persists(bytes: Seq<u8>, k: int)
    requires
        0 <= k <= bytes.len(),
        spec_destuff_state(bytes.take(k)) is Err,
    ensures
        spec_destuff_state(bytes) == spec_destuff_state(bytes.take(k)),
    decreases bytes.len(),
{
    if k < bytes.len() {
        assert(bytes.drop_last().take(k) == bytes.take(k));
        lemma_destuff_error_persists(bytes.drop_last(), k);
    } else {
        assert(bytes.take(k) == bytes);
    }
}

/// Perform byte stuffing on the given frame bytes: each flag byte is escaped,
/// and boundary flags are added at the start and at the end.
pub fn byte_stuffing(frame_bytes: &[u8]) -> (stuffed: Vec<u8>)
    ensures
        stuffed@ == spec_byte_stuffing(frame_bytes@),
{
    let mut stuffed_frame: Vec<u8> = Vec::new();
    stuffed_frame.push(Frame::BOUNDARY_FLAG);
    let mut i: usize = 0;
    while i < frame_bytes.len()
        invariant
            i <= frame_bytes@.len(),
            stuffed_frame@ == seq![Frame::BOUNDARY_FLAG] + spec_stuff_body(frame_bytes@.take(i as int)),
        decreases frame_bytes@.len() - i,
    {
        let byte: u8 = frame_bytes[i];
        assert(frame_bytes@.take(i + 1).drop_last() == frame_bytes@.take(i as int));
        if byte == Frame::BOUNDARY_FLAG || byte == Frame::ESCAPE_FLAG {
            stuffed_frame.push(Frame::ESCAPE_FLAG);
            stuffed_frame.push(byte ^ Frame::REPLACEMENT_POSITION);
        } else {
            stuffed_frame.push(byte);
        }
        i += 1;
    }
    assert(frame_bytes@.take(frame_bytes@.len() as int) == frame_bytes@);
    stuffed_frame.push(Frame::BOUNDARY_FLAG);
    stuffed_frame
}

/// Destuff the given frame bytes, giving back the bytes before stuffing, or an error
/// if an abort sequence (an escape flag followed by a boundary flag) is met.
pub fn byte_destuffing(frame_bytes: &[u8]) -> (destuffed: Result<Vec<u8>, FrameError>)
    ensures
        match destuffed {
            Ok(v) => spec_byte_destuffing(frame_bytes@) == Ok::<Seq<u8>, FrameError>(v@),
            Err(e) => spec_byte_destuffing(frame_bytes@) == Err::<Seq<u8>, FrameError>(e),
        },
{
    let mut destuffed_frame: Vec<u8> = Vec::with_capacity(Frame::MAX_SIZE);
    let mut escape: bool = false;
    let mut i: usize = 0;
    while i < frame_bytes.len()
        invariant
            i <= frame_bytes@.len(),
            spec_destuff_state(frame_bytes@.take(i as int)) == Ok::<(Seq<u8>, bool), FrameError>(
                (destuffed_frame@, escape),
            ),
        decreases frame_bytes@.len() - i,
    {
        let byte: u8 = frame_bytes[i];
        assert(frame_bytes@.take(i + 1).drop_last() == frame_bytes@.take(i as int));
        if escape {
            if byte == Frame::BOUNDARY_FLAG {
                proof {
                    lemma_destuff_error_persists(frame_bytes@, i + 1);
                }
                return Err(FrameError::AbortSequenceReceived);
            }
            destuffed_frame.push(byte ^ Frame::REPLACEMENT_POSITION);
            escape = false;
        } else {
            if byte == Frame::ESCAPE_FLAG {
                escape = true;
            } else {
                destuffed_frame.push(byte);
            }
        }
        i += 1;
    }
    assert(frame_bytes@.take(frame_bytes@.len() as int) == frame_bytes@);
    Ok(destuffed_frame)
}


proof fn lemma_destuff_state_append(prefix: Seq<u8>, suffix: Seq<u8>)
    requires
        suffix.len() <= 2,
    ensures
        suffix.len() == 0 ==> spec_destuff_state(prefix + suffix) == spec_destuff_state(prefix),
        suffix.len() == 1 ==> spec_destuff_state(prefix + suffix) == spec_destuff_step(
            spec_destuff_state(prefix),
            suffix[0],
        ),
        suffix.len() == 2 ==> spec_destuff_state(prefix + suffix) == spec_destuff_step(
            spec_destuff_step(spec_destuff_state(prefix), suffix[0]),
            suffix[1],
        ),
{
    if suffix.len() == 0 {
        assert(prefix + suffix == prefix);
    } else if suffix.len() == 1 {
        assert((prefix + suffix).drop_last() == prefix);
    } else {
        assert((prefix + suffix).drop_last() == prefix.push(suffix[0]));
        assert(prefix.push(suffix[0]).drop_last() == prefix);
    }
}

/// Destuffing the stuffed form of some bytes (without its boundary flags)
/// gives those bytes back.
pub proof fn lemma_destuffing_undoes_stuffing(bytes: Seq<u8>)
    ensures
        spec_byte_destuffing(spec_stuff_body(bytes)) == Ok::<Seq<u8>, FrameError>(bytes),
        spec_destuff_state(spec_stuff_body(bytes)) == Ok::<(Seq<u8>, bool), FrameError>(
            (bytes, false),
        ),
    decreases bytes.len(),
{
    if bytes.len() == 0 {
        assert(spec_stuff_body(bytes) == Seq::<u8>::empty());
        assert(bytes == Seq::<u8>::empty());
    } else {
        let init = bytes.drop_last();
        let b = bytes.last();
        lemma_destuffing_undoes_stuffing(init);
        lemma_destuff_state_append(spec_stuff_body(init), spec_stuff_byte(b));
        if spec_needs_escape(b) {
            assert(b == 0x7Eu8 || b == 0x7Du8 ==> (b ^ 0x20u8) != 0x7Eu8 && ((b ^ 0x20u8) ^ 0x20u8)
                == b) by (bit_vector);
        }
        assert(init.push(b) == bytes);
    }
}

/// The stuffed form of some bytes holds no boundary flag between its two
/// boundary flags.
pub proof fn lemma_stuffing_hides_boundary_flags(bytes: Seq<u8>)
    ensures
        spec_byte_stuffing(bytes).len() >= 2,
        spec_byte_stuffing(bytes).subrange(1, spec_byte_stuffing(bytes).len() - 1)
            == spec_stuff_body(bytes),
        forall|i: int|
            0 <= i < spec_stuff_body(bytes).len() ==> #[trigger] spec_stuff_body(bytes)[i]
                != Frame::BOUNDARY_FLAG,
    decreases bytes.len(),
{
    let s = spec_byte_stuffing(bytes);
    assert(s.subrange(1, s.len() - 1) == spec_stuff_body(bytes));
    if bytes.len() > 0 {
        let init = bytes.drop_last();
        let b = bytes.last();
        lemma_stuffing_hides_boundary_flags(init);
        assert(b == 0x7Eu8 || b == 0x7Du8 ==> (b ^ 0x20u8) != 0x7Eu8) by (bit_vector);
        let body = spec_stuff_body(bytes);
        assert forall|i: int| 0 <= i < body.len() implies #[trigger] body[i] != Frame::BOUNDARY_FLAG by {
            if i < spec_stuff_body(init).len() {
                assert(body[i] == spec_stuff_body(init)[i]);
            }
        }
    }
}

/// The stuffed form of some bytes is at least as long as the bytes.
pub proof fn lemma_stuff_body_len(bytes: Seq<u8>)
    ensures
        spec_stuff_body(bytes).len() >= bytes.len(),
        spec_byte_stuffing(bytes).len() == spec_stuff_body(bytes).len() + 2,
    decreases bytes.len(),
{
    if bytes.len() > 0 {
        lemma_stuff_body_len(bytes.drop_last());
        assert(spec_stuff_byte(bytes.last()).len() >= 1);
    }
}

} // verus!
