//! Frames of the HDLC protocol: their types, their errors, and their
//! encoding to and decoding from bytes.

use crate::byte_stuffing::{
    byte_destuffing, byte_stuffing, lemma_destuffing_undoes_stuffing, lemma_stuff_body_len,
    lemma_stuffing_hides_boundary_flags, spec_byte_destuffing, spec_byte_stuffing,
};
use crate::crc::{
    crc_16_ccitt, lemma_crc_of_checked_data_is_zero, lemma_crc_zero_iff_checked, spec_be_bytes,
    spec_crc,
};
use vstd::slice::{slice_subrange, slice_to_vec};
use vstd::prelude::*;

verus! {

/// An error that may occur when working with frames:
/// - InvalidFrameType: the frame type is invalid
/// - InvalidFCS: the FCS does not match the CRC
/// - InvalidLength: the frame is too short
/// - MissingBoundaryFlag: the frame does not start and end with a boundary flag
/// - AbortSequenceReceived: an abort sequence was met during byte destuffing
/// - DestuffingError: an error occurred during byte destuffing
#[derive(Debug, PartialEq, Eq, Structural)]
pub enum FrameError {
    InvalidFrameType(u8),
    InvalidFCS,
    InvalidLength(usize),
    MissingBoundaryFlag,
    AbortSequenceReceived,
    DestuffingError,
}

/// The type of a frame, encoded as a single byte.
#[derive(Debug, PartialEq, Eq, Clone, Copy, Structural)]
pub enum FrameType {
    /// Contains data to be transmitted (`I`)
    Information,
    /// The sender wants to establish a connection (`C`)
    ConnectionStart,
    /// The sender is ready to receive more data (`A`)
    ReceiveReady,
    /// Requests immediate retransmission of data (`R`)
    Reject,
    /// The sender has finished sending data (`F`)
    ConnectionEnd,
    /// Forces the receiver to send a response (`P`)
    P,
    /// Unknown frame type (`0`)
    Unknown,
}

/// The byte that encodes a frame type.
pub open spec fn spec_frame_type_to_byte(frame_type: FrameType) -> u8 {
    match frame_type {
        FrameType::Information => 0x49u8,
        FrameType::ConnectionStart => 0x43u8,
        FrameType::ReceiveReady => 0x41u8,
        FrameType::Reject => 0x52u8,
        FrameType::ConnectionEnd => 0x46u8,
        FrameType::P => 0x50u8,
        FrameType::Unknown => 0u8,
    }
}

/// The frame type that a byte encodes; `Unknown` for any other byte.
pub open spec fn spec_frame_type_from_byte(byte: u8) -> FrameType {
    if byte == 0x49u8 {
        FrameType::Information
    } else if byte == 0x43u8 {
        FrameType::ConnectionStart
    } else if byte == 0x41u8 {
        FrameType::ReceiveReady
    } else if byte == 0x52u8 {
        FrameType::Reject
    } else if byte == 0x46u8 {
        FrameType::ConnectionEnd
    } else if byte == 0x50u8 {
        FrameType::P
    } else {
        FrameType::Unknown
    }
}

/// Convert a byte to a frame type.
impl From<u8> for FrameType {
    fn from(byte: u8) -> (frame_type: Self) {
        match byte {
            0x49u8 => FrameType::Information,
            0x43u8 => FrameType::ConnectionStart,
            0x41u8 => FrameType::ReceiveReady,
            0x52u8 => FrameType::Reject,
            0x46u8 => FrameType::ConnectionEnd,
            0x50u8 => FrameType::P,
            _ => FrameType::Unknown,
        }
    }
}

impl vstd::std_specs::convert::FromSpecImpl<u8> for FrameType {
    open spec fn obeys_from_spec() -> bool {
        true
    }

    open spec fn from_spec(v: u8) -> Self {
        spec_frame_type_from_byte(v)
    }
}

/// Convert a frame type to a byte.
impl From<FrameType> for u8 {
    fn from(frame_type: FrameType) -> (byte: Self) {
        match frame_type {
            FrameType::Information => 0x49u8,
            FrameType::ConnectionStart => 0x43u8,
            FrameType::ReceiveReady => 0x41u8,
            FrameType::Reject => 0x52u8,
            FrameType::ConnectionEnd => 0x46u8,
            FrameType::P => 0x50u8,
            FrameType::Unknown => 0u8,
        }
    }
}

impl vstd::std_specs::convert::FromSpecImpl<FrameType> for u8 {
    open spec fn obeys_from_spec() -> bool {
        true
    }

    open spec fn from_spec(v: FrameType) -> Self {
        spec_frame_type_to_byte(v)
    }
}

/// Decoding the byte of a known frame type gives that type back, and a byte
/// that decodes to a known type is the byte of that type.
pub proof fn lemma_frame_type_byte_roundtrip(frame_type: FrameType, byte: u8)
    ensures
        frame_type != FrameType::Unknown ==> spec_frame_type_from_byte(
            spec_frame_type_to_byte(frame_type),
        ) == frame_type,
        spec_frame_type_from_byte(byte) != FrameType::Unknown ==> spec_frame_type_to_byte(
            spec_frame_type_from_byte(byte),
        ) == byte,
{
}

/// The header of a frame: its type byte, its number and its data.
pub open spec fn spec_header(frame_type: u8, num: u8, data: Seq<u8>) -> Seq<u8> {
    seq![frame_type, num] + data
}

/// The content of a frame: its header followed by the CRC of the header,
/// stored big-endian.
pub open spec fn spec_frame_content(frame_type: u8, num: u8, data: Seq<u8>) -> Seq<u8> {
    spec_header(frame_type, num, data) + spec_be_bytes(spec_crc(spec_header(frame_type, num, data)))
}

/// The 16-bit value of two bytes, most significant first.
pub open spec fn spec_u16_from_be(hi: u8, lo: u8) -> u16 {
    ((hi as u16) << 8u16) | (lo as u16)
}

/// The result of decoding stuffed frame bytes taken between their boundary
/// flags: the destuffed content, or the error that `Frame::from_bytes`
/// returns.
pub open spec fn spec_decode(bytes: Seq<u8>) -> Result<Seq<u8>, FrameError> {
    if bytes.len() < 4 {
        Err(FrameError::InvalidLength(bytes.len() as usize))
    } else {
        match spec_byte_destuffing(bytes) {
            Err(e) => Err(e),
            Ok(content) => if spec_crc(content) != 0 {
                Err(FrameError::InvalidFCS)
            } else if content.len() == 0 {
                Err(FrameError::InvalidLength(0))
            } else if spec_frame_type_from_byte(content[0]) == FrameType::Unknown {
                Err(FrameError::InvalidFrameType(content[0]))
            } else if content.len() < 4 {
                Err(FrameError::InvalidLength(content.len() as usize))
            } else {
                Ok(content)
            },
        }
    }
}

/// A frame of the HDLC protocol.
#[derive(Debug)]
pub struct Frame {
    /// The frame type byte
    pub frame_type: u8,
    /// The num byte
    pub num: u8,
    /// The data
    pub data: Vec<u8>,
    /// The CRC-16 checksum
    pub fcs: Option<u16>,
    /// The bytes of the frame before byte stuffing: frame type, num, data,
    /// and the FCS stored big-endian
    pub content: Option<Vec<u8>>,
    /// The byte-stuffed form of the content
    pub content_stuffed: Option<Vec<u8>>,
}

impl Frame {
    /// Byte stuffing boundary flag
    pub const BOUNDARY_FLAG: u8 = 0x7E;
    /// Byte stuffing escape flag
    pub const ESCAPE_FLAG: u8 = 0x7D;
    /// An escaped byte is XORed with this byte
    pub const REPLACEMENT_POSITION: u8 = 0x20;
    /// The maximum size of the data field in bytes (64 kB)
    pub const MAX_SIZE_DATA: usize = 65536;
    /// The maximum size of a stuffed frame in bytes: two boundary flags and
    /// twice the content (frame type, num, data and FCS), each byte of which
    /// may be escaped
    pub const MAX_SIZE: usize = 131082;

    /// The frame holds the encoding of its fields: the FCS is the CRC of its
    /// header, the content is the header followed by the FCS, and the stuffed
    /// content is the byte-stuffed content.
    pub open spec fn is_encoded(&self) -> bool {
        &&& self.fcs == Some(spec_crc(spec_header(self.frame_type, self.num, self.data@)))
        &&& self.content matches Some(c) && c@ == spec_frame_content(
            self.frame_type,
            self.num,
            self.data@,
        )
        &&& self.content_stuffed matches Some(s) && s@ == spec_byte_stuffing(
            spec_frame_content(self.frame_type, self.num, self.data@),
        )
    }

    /// The frame is the one decoded from the given bytes: they decode to a
    /// content whose bytes give the frame's type, number, data and FCS; the
    /// frame keeps that content, and the bytes as its stuffed content.
    pub open spec fn is_decoding_of(&self, bytes: Seq<u8>) -> bool {
        spec_decode(bytes) matches Ok(content) && {
            &&& self.frame_type == content[0]
            &&& self.num == content[1]
            &&& self.data@ == content.subrange(2, content.len() - 2)
            &&& self.fcs == Some(
                spec_u16_from_be(content[content.len() - 2], content[content.len() - 1]),
            )
            &&& self.content matches Some(c) && c@ == content
            &&& self.content_stuffed matches Some(s) && s@ == bytes
        }
    }

    /// Create a new frame of the given type, number and data, with its FCS,
    /// its content and its stuffed content.
    pub fn new(frame_type: FrameType, num: u8, data: Vec<u8>) -> (frame: Frame)
        ensures
            frame.frame_type == spec_frame_type_to_byte(frame_type),
            frame.num == num,
            frame.data@ == data@,
            frame.is_encoded(),
    {
        let mut frame = Frame {
            frame_type: u8::from(frame_type),
            num,
            data,
            fcs: None,
            content: None,
            content_stuffed: None,
        };
        frame.generate_content();
        frame
    }

    /// Fill in the FCS, the content and the stuffed content of the frame
    /// from its type, number and data.
    pub fn generate_content(&mut self)
        ensures
            final(self).frame_type == old(self).frame_type,
            final(self).num == old(self).num,
            final(self).data@ == old(self).data@,
            final(self).is_encoded(),
    {
        let mut frame_content: Vec<u8> = Vec::new();
        frame_content.push(self.frame_type);
        frame_content.push(self.num);
        frame_content.extend_from_slice(self.data.as_slice());
        assert(frame_content@ == spec_header(self.frame_type, self.num, self.data@));

        let fcs: u16 = crc_16_ccitt(frame_content.as_slice());
        self.fcs = Some(fcs);

        frame_content.push(#[verifier::truncate] ((fcs >> 8u16) as u8));
        frame_content.push(#[verifier::truncate] (fcs as u8));
        assert(frame_content@ == spec_frame_content(self.frame_type, self.num, self.data@));

        let stuffed: Vec<u8> = byte_stuffing(frame_content.as_slice());
        self.content = Some(frame_content);
        self.content_stuffed = Some(stuffed);
    }

    /// The frame as bytes: its stuffed content.
    pub fn to_bytes(&self) -> (bytes: Vec<u8>)
        requires
            self.content_stuffed is Some,
        ensures
            self.content_stuffed matches Some(s) && bytes@ == s@,
    {
        match &self.content_stuffed {
            Some(stuffed) => stuffed.clone(),
            None => Vec::new(),
        }
    }

    /// Create a frame from the given bytes: the stuffed content of a frame,
    /// without its boundary flags. The bytes are destuffed and checked; the
    /// frame keeps the destuffed content and the given bytes.
    ///
    /// Errors:
    /// - `InvalidLength` if there are fewer than 4 bytes;
    /// - `AbortSequenceReceived` if destuffing meets an abort sequence;
    /// - `InvalidFCS` if the CRC of the destuffed content is not zero;
    /// - `InvalidFrameType` if the first byte of the content is no known type;
    /// - `InvalidLength` if the destuffed content is shorter than 4 bytes
    ///   (frame type, num and FCS).
    pub fn from_bytes(bytes: &[u8]) -> (frame: Result<Frame, FrameError>)
        ensures
            match frame {
                Ok(frame) => frame.is_decoding_of(bytes@),
                Err(e) => spec_decode(bytes@) == Err::<Seq<u8>, FrameError>(e),
            },
    {
        // The frame holds at least 4 bytes: frame type, num and FCS
        if bytes.len() < 4 {
            return Err(FrameError::InvalidLength(bytes.len()));
        }

        let content: Vec<u8> = match byte_destuffing(bytes) {
            Ok(content) => content,
            Err(e) => return Err(e),
        };

        // The CRC of the content with its FCS is zero
        let checksum: u16 = crc_16_ccitt(content.as_slice());
        if checksum != 0 {
            return Err(FrameError::InvalidFCS);
        }

        if content.len() == 0 {
            return Err(FrameError::InvalidLength(0));
        }
        let frame_type = match FrameType::from(content[0]) {
            FrameType::Unknown => return Err(FrameError::InvalidFrameType(content[0])),
            frame_type => frame_type,
        };

        // The content holds at least frame type, num and FCS
        if content.len() < 4 {
            return Err(FrameError::InvalidLength(content.len()));
        }
        proof {
            lemma_frame_type_byte_roundtrip(frame_type, content@[0]);
        }

        let num: u8 = content[1];
        let n: usize = content.len();
        let data: Vec<u8> = slice_to_vec(slice_subrange(content.as_slice(), 2, n - 2));
        let fcs: u16 = ((content[n - 2] as u16) << 8u16) | (content[n - 1] as u16);

        let mut frame = Frame::new(frame_type, num, data);
        frame.fcs = Some(fcs);
        frame.content = Some(content);
        frame.content_stuffed = Some(slice_to_vec(bytes));
        Ok(frame)
    }
}

/// A frame that passes decoding holds a valid encoding: its content is its
/// header (type, number, data) followed by the big-endian CRC of the header.
pub proof fn lemma_decoded_content_is_encoding(bytes: Seq<u8>)
    requires
        spec_decode(bytes) is Ok,
    ensures
        spec_decode(bytes) matches Ok(content) && {
            &&& content.len() >= 4
            &&& content == spec_frame_content(
                content[0],
                content[1],
                content.subrange(2, content.len() - 2),
            )
            &&& spec_u16_from_be(content[content.len() - 2], content[content.len() - 1])
                == spec_crc(spec_header(content[0], content[1], content.subrange(2, content.len() - 2)))
        },
{
    let content = spec_decode(bytes)->Ok_0;
    let n = content.len();
    let header = spec_header(content[0], content[1], content.subrange(2, n - 2));
    assert(header == content.subrange(0, n - 2));
    assert(content == header.push(content[n - 2]).push(content[n - 1]));
    lemma_crc_zero_iff_checked(header, content[n - 2], content[n - 1]);
    let r = spec_crc(header);
    let hi = content[n - 2];
    let lo = content[n - 1];
    assert(spec_be_bytes(r)[0] == hi && spec_be_bytes(r)[1] == lo);
    assert(((((r >> 8u16) as u8) as u16) << 8u16) | ((r as u8) as u16) == r) by (bit_vector);
    assert(spec_be_bytes(r) == seq![hi, lo]);
    assert(content == header + spec_be_bytes(r));
}


/// Decoding the stuffed content of a frame of a known type, taken between its
/// boundary flags, gives back the frame's content, type, number, data and
/// FCS; and those bytes hold no boundary flag.
pub proof fn lemma_decode_inverts_encode(frame_type: FrameType, num: u8, data: Seq<u8>)
    requires
        frame_type != FrameType::Unknown,
    ensures
        ({
            let type_byte = spec_frame_type_to_byte(frame_type);
            let content = spec_frame_content(type_byte, num, data);
            let stuffed = spec_byte_stuffing(content);
            let body = stuffed.subrange(1, stuffed.len() - 1);
            &&& stuffed.len() >= 2
            &&& stuffed[0] == Frame::BOUNDARY_FLAG
            &&& stuffed[stuffed.len() - 1] == Frame::BOUNDARY_FLAG
            &&& forall|i: int| 0 <= i < body.len() ==> #[trigger] body[i] != Frame::BOUNDARY_FLAG
            &&& spec_decode(body) == Ok::<Seq<u8>, FrameError>(content)
            &&& spec_frame_type_from_byte(content[0]) == frame_type
            &&& content[0] == type_byte
            &&& content[1] == num
            &&& content.subrange(2, content.len() - 2) == data
            &&& spec_u16_from_be(content[content.len() - 2], content[content.len() - 1])
                == spec_crc(spec_header(type_byte, num, data))
        }),
{
    let type_byte = spec_frame_type_to_byte(frame_type);
    let header = spec_header(type_byte, num, data);
    let content = spec_frame_content(type_byte, num, data);
    lemma_stuffing_hides_boundary_flags(content);
    lemma_destuffing_undoes_stuffing(content);
    lemma_stuff_body_len(content);
    lemma_crc_of_checked_data_is_zero(header);
    lemma_frame_type_byte_roundtrip(frame_type, type_byte);
    assert(content[0] == type_byte);
    assert(content[1] == num);
    assert(content.subrange(2, content.len() - 2) == data);
    let r = spec_crc(header);
    assert(((((r >> 8u16) as u8) as u16) << 8u16) | ((r as u8) as u16) == r) by (bit_vector);
}

} // verus!
