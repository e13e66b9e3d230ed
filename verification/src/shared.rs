//! A plain frame record: flag, type, number, data and CRC as given.

use vstd::prelude::*;

verus! {

/// A frame whose fields are given as they are, with the boundary flag set.
#[derive(Debug)]
pub struct Frame {
    pub flag: u8,
    pub frame_type: u8,
    pub num: u8,
    pub data: Vec<u8>,
    /// The CRC, on 2 bytes
    pub crc: u16,
}

impl Frame {
    /// Create a frame from its type, number, data and CRC; its flag is the
    /// boundary flag `0x7E` (`01111110`).
    pub fn new(frame_type: u8, num: u8, data: Vec<u8>, crc: u16) -> (frame: Frame)
        ensures
            frame.flag == 0x7E,
            frame.frame_type == frame_type,
            frame.num == num,
            frame.data@ == data@,
            frame.crc == crc,
    {
        Frame { flag: 0x7E, frame_type, num, data, crc }
    }
}

} // verus!
