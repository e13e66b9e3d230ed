//! The sender's side of a file transfer: cutting a file into the
//! information frames that carry it.

use crate::frame::{spec_frame_type_to_byte, Frame, FrameType};
use vstd::prelude::*;
use vstd::slice::{slice_subrange, slice_to_vec};

verus! {

/// The number of chunks of at most `Frame::MAX_SIZE_DATA` bytes that `len`
/// bytes are cut into.
pub open spec fn spec_chunk_count(len: nat) -> nat {
    ((len + 65535) / 65536) as nat
}

/// Chunk `i` of the data: the bytes from `i * MAX_SIZE_DATA` up to the next
/// multiple of `MAX_SIZE_DATA` or the end of the data.
pub open spec fn spec_chunk(data: Seq<u8>, i: int) -> Seq<u8> {
    let end = if (i + 1) * 65536 <= data.len() {
        (i + 1) * 65536
    } else {
        data.len() as int
    };
    data.subrange(i * 65536, end)
}

/// The chunks of the data, in order.
pub open spec fn spec_chunks(data: Seq<u8>) -> Seq<Seq<u8>> {
    Seq::new(spec_chunk_count(data.len()), |i: int| spec_chunk(data, i))
}

/// The concatenation of byte sequences, in order.
pub open spec fn spec_concat(parts: Seq<Seq<u8>>) -> Seq<u8>
    decreases parts.len(),
{
    if parts.len() == 0 {
        Seq::empty()
    } else {
        spec_concat(parts.drop_last()) + parts.last()
    }
}

/// Cuts the data into information frames: frame `i` carries chunk `i` of
/// the data (`Frame::MAX_SIZE_DATA` bytes at most) and is numbered `i`
/// modulo the number of frame numbers.
pub fn information_frames(data: &[u8]) -> (frames: Vec<Frame>)
    ensures
        frames@.len() == spec_chunk_count(data@.len()),
        forall|i: int|
            0 <= i < frames@.len() ==> {
                &&& (#[trigger] frames@[i]).frame_type == spec_frame_type_to_byte(
                    FrameType::Information,
                )
                &&& frames@[i].num == i % 8
                &&& frames@[i].data@ == spec_chunk(data@, i)
                &&& frames@[i].is_encoded()
            },
{
    let len: usize = data.len();
    let mut frames: Vec<Frame> = Vec::new();
    let mut start: usize = 0;
    let mut i: usize = 0;
    while start < len
        invariant
            len == data@.len(),
            start <= len,
            start == i * 65536 || (start == len && len < i * 65536),
            i * 65536 <= len + 65535,
            i == 0 || (i - 1) * 65536 < len,
            frames@.len() == i,
            forall|k: int|
                0 <= k < i ==> {
                    &&& (#[trigger] frames@[k]).frame_type == spec_frame_type_to_byte(
                        FrameType::Information,
                    )
                    &&& frames@[k].num == k % 8
                    &&& frames@[k].data@ == spec_chunk(data@, k)
                    &&& frames@[k].is_encoded()
                },
        decreases len - start,
    {
        let end: usize = if len - start >= Frame::MAX_SIZE_DATA {
            start + Frame::MAX_SIZE_DATA
        } else {
            len
        };
        let chunk: Vec<u8> = slice_to_vec(slice_subrange(data, start, end));
        let num: u8 = (i % 8) as u8;
        frames.push(Frame::new(FrameType::Information, num, chunk));
        start = end;
        i += 1;
    }
    assert(i == spec_chunk_count(len as nat)) by (nonlinear_arith)
        requires
            i * 65536 <= len + 65535,
            i == 0 || (i - 1) * 65536 < len,
            len <= i * 65536,
    ;
    frames
}

/// The chunks of some data, put back together in order, give the data.
pub proof fn lemma_chunks_reassemble(data: Seq<u8>)
    ensures
        spec_concat(spec_chunks(data)) == data,
{
    let n = spec_chunk_count(data.len());
    lemma_chunk_prefix(data, n as int);
    assert(n * 65536 >= data.len()) by (nonlinear_arith)
        requires
            n == (data.len() + 65535) / 65536,
    ;
    assert(spec_chunks(data).take(n as int) == spec_chunks(data));
    assert(data.take(data.len() as int) == data);
}

/// The first `k` chunks, put together, are the data up to `k` chunks'
/// worth of bytes.
proof fn lemma_chunk_prefix(data: Seq<u8>, k: int)
    requires
        0 <= k <= spec_chunk_count(data.len()),
    ensures
        spec_concat(spec_chunks(data).take(k)) == data.take(
            if k * 65536 <= data.len() {
                k * 65536
            } else {
                data.len() as int
            },
        ),
    decreases k,
{
    if k == 0 {
        assert(spec_chunks(data).take(0) == Seq::<Seq<u8>>::empty());
        assert(data.take(0) == Seq::<u8>::empty());
    } else {
        lemma_chunk_prefix(data, k - 1);
        assert(spec_chunks(data).take(k).drop_last() == spec_chunks(data).take(k - 1));
        assert((k - 1) * 65536 < data.len()) by (nonlinear_arith)
            requires
                k <= (data.len() + 65535) / 65536,
                k >= 1,
        ;
        let prev_end = (k - 1) * 65536;
        let end = if k * 65536 <= data.len() {
            k * 65536
        } else {
            data.len() as int
        };
        assert(spec_chunks(data).take(k).last() == data.subrange(prev_end, end));
        assert(data.take(prev_end) + data.subrange(prev_end, end) == data.take(end));
    }
}

} // verus!
