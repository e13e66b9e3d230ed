use hdlc::byte_stuffing::byte_stuffing;
use hdlc::frame::{Frame, FrameError, FrameType};

#[test]
fn frame_abort_error_test() {
    let bytes: &[u8] = &[
        0x7E,
        FrameType::ConnectionStart.into(),
        0x02,
        0x03,
        0x04,
        0x8E,
        0xF7,
        Frame::ESCAPE_FLAG,
        Frame::BOUNDARY_FLAG,
        0x7E,
    ];
    let frame = Frame::from_bytes(bytes);
    assert!(frame.is_err());
}

#[test]
fn frame_length_error_test() {
    let bytes: &[u8] = &[0xFF];
    let frame = Frame::from_bytes(bytes);
    assert!(frame.is_err());
}

#[test]
fn frame_flags_error_test() {
    let bytes: &[u8] = &[
        FrameType::ConnectionStart.into(),
        0x02,
        0x03,
        0x04,
        0x8E,
        0xF7,
        0x7E,
    ];
    let frame = Frame::from_bytes(bytes);
    assert!(frame.is_err());

    let bytes: &[u8] = &[
        0x7E,
        FrameType::ConnectionStart.into(),
        0x02,
        0x03,
        0x04,
        0x8E,
        0xF7,
    ];
    let frame = Frame::from_bytes(bytes);
    assert!(frame.is_err());
}

#[test]
fn frame_type_error_test() {
    let bytes: &[u8] = &[0x7E, 0x00, 0x02, 0x03, 0x04, 0x8E, 0xF7, 0x7E];
    let frame = Frame::from_bytes(bytes);
    assert!(frame.is_err());
}

#[test]
fn frame_crc_error_test() {
    let bytes: &[u8] = &[
        0x7E,
        FrameType::ConnectionStart.into(),
        0x02,
        0x03,
        0x04,
        0x8E,
        0xFF, // Should be 0xF7
        0x7E,
    ];
    let frame = Frame::from_bytes(bytes);
    assert!(frame.is_err());
}

#[test]
fn frame_get_bytes_structure_test() {
    let frame = Frame::new(FrameType::ConnectionStart, 0x02, vec![0x03, 0x04]);

    // Set the expected values
    let expected_fcs = 0x8EF7u16;
    let mut expected_content = vec![FrameType::ConnectionStart.into(), 0x02, 0x03, 0x04];
    expected_content.extend_from_slice(&expected_fcs.to_be_bytes());
    let expected_stuffed_content = byte_stuffing(&expected_content);

    // Check that the bytes are correct
    assert_eq!(frame.fcs.unwrap(), expected_fcs);
    assert_eq!(frame.content.unwrap(), expected_content);
    assert_eq!(frame.content_stuffed.unwrap(), expected_stuffed_content);
}

#[test]
fn bytes_to_frame_conversion_test() {
    let bytes: &[u8] = &[
        FrameType::ConnectionStart.into(),
        0x00,
        0x03,
        0x04,
        0xE0,
        0x97,
    ];
    let frame = Frame::from_bytes(bytes);

    // Check that the frame is correct
    assert!(frame.is_ok());
    let frame = frame.unwrap();
    assert_eq!(frame.frame_type, bytes[0]);
    assert_eq!(frame.num, bytes[1]);
    assert_eq!(frame.data, bytes[2..bytes.len() - 2].to_vec());
    assert_eq!(frame.fcs.unwrap(), 0xE097);
    assert_eq!(frame.content.unwrap(), bytes.to_vec());
    assert_eq!(frame.content_stuffed.unwrap(), bytes);
}

#[test]
fn frame_empty_data_test() {
    let frame = Frame::new(FrameType::ConnectionStart, 0x00, vec![]);
    let bytes = frame.to_bytes();

    // Set the expected values
    let expected_fcs = 0x589Fu16;
    let mut expected_bytes = vec![
        Frame::BOUNDARY_FLAG,
        FrameType::ConnectionStart.into(),
        0x00,
    ];
    expected_bytes.extend_from_slice(&expected_fcs.to_be_bytes());
    expected_bytes.push(Frame::BOUNDARY_FLAG);

    // Check that the bytes are correct
    assert_eq!(frame.fcs.unwrap(), expected_fcs);
    assert_eq!(
        frame.content.unwrap(),
        expected_bytes[1..expected_bytes.len() - 1].to_vec()
    );
    assert_eq!(bytes, expected_bytes);

    // Decode the frame from the bytes
    let frame = Frame::from_bytes(&bytes[1..expected_bytes.len() - 1]);

    // Check that the frame is correct
    assert!(frame.is_ok());
    let frame = frame.unwrap();
    assert_eq!(frame.frame_type, expected_bytes[1]);
    assert_eq!(frame.num, expected_bytes[2]);
    assert_eq!(frame.data, vec![]);
    assert_eq!(frame.fcs.unwrap(), expected_fcs);
    assert_eq!(
        frame.content.unwrap(),
        expected_bytes[1..expected_bytes.len() - 1]
    );
    assert_eq!(
        frame.content_stuffed.unwrap(),
        bytes[1..expected_bytes.len() - 1]
    );
}

#[test]
fn frame_error_variants_test() {
    assert_eq!(Frame::from_bytes(&[0x41, 0x00, 0x01]).unwrap_err(), FrameError::InvalidLength(3));
    assert_eq!(
        Frame::from_bytes(&[0x43, 0x02, Frame::ESCAPE_FLAG, Frame::BOUNDARY_FLAG]).unwrap_err(),
        FrameError::AbortSequenceReceived
    );
    assert_eq!(
        Frame::from_bytes(&[0x43, 0x02, 0x03, 0x04, 0x8E, 0xFF]).unwrap_err(),
        FrameError::InvalidFCS
    );
    // A content with a valid CRC but an unknown type byte
    let mut content = vec![0x5A, 0x01, 0x02];
    let crc = hdlc::crc::crc_16_ccitt(&content);
    content.extend_from_slice(&crc.to_be_bytes());
    let stuffed = byte_stuffing(&content);
    assert_eq!(
        Frame::from_bytes(&stuffed[1..stuffed.len() - 1]).unwrap_err(),
        FrameError::InvalidFrameType(0x5A)
    );
}

#[test]
fn frame_roundtrip_with_flag_bytes_test() {
    let data = vec![0x7E, 0x7D, 0x00, 0x20, 0x7E];
    let frame = Frame::new(FrameType::Information, 5, data.clone());
    let bytes = frame.to_bytes();
    let decoded = Frame::from_bytes(&bytes[1..bytes.len() - 1]).unwrap();
    assert_eq!(decoded.frame_type, b'I');
    assert_eq!(decoded.num, 5);
    assert_eq!(decoded.data, data);
    assert_eq!(decoded.fcs, frame.fcs);
    assert_eq!(decoded.content, frame.content);
}

#[test]
fn frame_type_conversion_test() {
    for (frame_type, byte) in [
        (FrameType::Information, b'I'),
        (FrameType::ConnectionStart, b'C'),
        (FrameType::ReceiveReady, b'A'),
        (FrameType::Reject, b'R'),
        (FrameType::ConnectionEnd, b'F'),
        (FrameType::P, b'P'),
    ] {
        let as_byte: u8 = frame_type.into();
        assert_eq!(as_byte, byte);
        assert_eq!(FrameType::from(byte), frame_type);
    }
    assert_eq!(FrameType::from(b'Z'), FrameType::Unknown);
    let unknown: u8 = FrameType::Unknown.into();
    assert_eq!(unknown, 0);
}

#[test]
fn frame_short_content_test() {
    // Destuffs to [0x49, 0xD9, 0xED]: CRC zero, known type, but no room
    // for type, num and FCS
    assert_eq!(
        Frame::from_bytes(&[0x49, 0xD9, 0x7D, 0xCD]).unwrap_err(),
        FrameError::InvalidLength(3)
    );
    // Destuffs to [0x43, 0x78, 0xA7] (the trailing escape is dropped)
    assert_eq!(
        Frame::from_bytes(&[0x43, 0x78, 0xA7, Frame::ESCAPE_FLAG]).unwrap_err(),
        FrameError::InvalidLength(3)
    );
    // Destuffs to [0x00, 0x00]: CRC zero, but no known type
    assert_eq!(
        Frame::from_bytes(&[Frame::ESCAPE_FLAG, 0x20, Frame::ESCAPE_FLAG, 0x20]).unwrap_err(),
        FrameError::InvalidFrameType(0)
    );
}

#[test]
fn shared_frame_new_test() {
    let frame = hdlc::shared::Frame::new(b'I', 3, vec![1, 2], 0xBEEF);
    assert_eq!(frame.flag, 0x7E);
    assert_eq!(frame.frame_type, b'I');
    assert_eq!(frame.num, 3);
    assert_eq!(frame.data, vec![1, 2]);
    assert_eq!(frame.crc, 0xBEEF);
}
