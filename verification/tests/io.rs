use hdlc::frame::{Frame, FrameError, FrameType};
use hdlc::io::{
    finish_connection_request, flip_bit, flip_random_bit, handle_reception, prepare_connection_request, read_byte,
    reception_accepted, ByteOutcome,
};
use hdlc::window::Window;

#[test]
fn read_byte_whole_frame_test() {
    let sent = Frame::new(FrameType::Information, 2, vec![0x7E, 1, 2]);
    let mut buf: Vec<u8> = Vec::new();
    let bytes = sent.to_bytes();
    let mut received = None;
    for (i, byte) in bytes.iter().enumerate() {
        match read_byte(&mut buf, *byte) {
            ByteOutcome::Skipped => assert_eq!(i, 0),
            ByteOutcome::Buffered => assert!(i > 0 && i < bytes.len() - 1),
            ByteOutcome::Received(frame) => received = Some(frame),
            other => panic!("unexpected outcome {:?}", other),
        }
    }
    let frame = received.unwrap();
    assert_eq!(frame.num, 2);
    assert_eq!(frame.data, vec![0x7E, 1, 2]);
    assert!(buf.is_empty());
}

#[test]
fn read_byte_bad_frame_test() {
    let mut buf: Vec<u8> = vec![0x01, 0x02];
    match read_byte(&mut buf, Frame::BOUNDARY_FLAG) {
        ByteOutcome::BadFrame(e) => assert_eq!(e, FrameError::InvalidLength(2)),
        other => panic!("unexpected outcome {:?}", other),
    }
    assert!(buf.is_empty());
}

#[test]
fn read_byte_short_content_test() {
    let mut buf: Vec<u8> = vec![0x43, 0x78, 0xA7, Frame::ESCAPE_FLAG];
    match read_byte(&mut buf, Frame::BOUNDARY_FLAG) {
        ByteOutcome::BadFrame(e) => assert_eq!(e, FrameError::InvalidLength(3)),
        other => panic!("unexpected outcome {:?}", other),
    }
    assert!(buf.is_empty());
}

#[test]
fn handle_reception_dispatch_test() {
    let mut window: Window<u32> = Window::default();
    let mut expected = 0u8;
    let start = Frame::new(FrameType::ConnectionStart, 0, vec![]);
    assert!(reception_accepted(&start, &window));
    let reaction = handle_reception(start, &mut window, &mut expected);
    assert!(window.is_connected);
    assert_eq!(reaction.to_send.len(), 1);

    let reaction = handle_reception(Frame::new(FrameType::Information, 0, vec![9]), &mut window, &mut expected);
    assert_eq!(reaction.to_assembler, Some(vec![9]));
    assert_eq!(expected, 1);

    let reaction = handle_reception(Frame::new(FrameType::P, 0, vec![]), &mut window, &mut expected);
    assert_eq!(reaction.to_send, vec![Frame::new(FrameType::ReceiveReady, 1, vec![]).to_bytes()]);

    let mut unknown = Frame::new(FrameType::P, 0, vec![]);
    unknown.frame_type = 0x5A;
    let reaction = handle_reception(unknown, &mut window, &mut expected);
    assert!(reaction.to_send.is_empty() && !reaction.terminate);

    let reaction = handle_reception(Frame::new(FrameType::ConnectionEnd, 0, vec![]), &mut window, &mut expected);
    assert!(reaction.terminate);
}

#[test]
fn reception_accepted_test() {
    let mut window: Window<u32> = Window::default();
    assert!(!reception_accepted(&Frame::new(FrameType::ConnectionStart, 2, vec![]), &window));
    window.srej = true;
    window.push(Frame::new(FrameType::ConnectionStart, 1, vec![]), 0).unwrap();
    assert!(!reception_accepted(&Frame::new(FrameType::ConnectionStart, 0, vec![]), &window));
    assert!(reception_accepted(&Frame::new(FrameType::ConnectionStart, 1, vec![]), &window));

    let mut window: Window<u32> = Window::default();
    window.is_connected = true;
    window.srej = true;
    window.push(Frame::new(FrameType::Information, 3, vec![]), 0).unwrap();
    assert!(reception_accepted(&Frame::new(FrameType::Reject, 3, vec![]), &window));
    assert!(!reception_accepted(&Frame::new(FrameType::Reject, 5, vec![]), &window));
}

#[test]
fn flip_bit_test() {
    let mut frame = vec![0x10, 0x20, 0x30];
    flip_bit(&mut frame, 4);
    assert_eq!(frame, vec![0x10, 0x21, 0x30]);
    flip_bit(&mut frame, 0);
    assert_eq!(frame, vec![0x11, 0x21, 0x30]);
}

#[test]
fn flip_random_bit_test() {
    let before = vec![0u8; 16];
    let mut frame = before.clone();
    flip_random_bit(&mut frame);
    let changed: Vec<usize> = (0..16).filter(|i| frame[*i] != before[*i]).collect();
    assert_eq!(changed.len(), 1);
    assert_eq!(frame[changed[0]], 1);
}

#[test]
fn prepare_connection_request_test() {
    let mut window: Window<u32> = Window::default();
    assert!(prepare_connection_request(&mut window, true, None).is_none());
    let request = prepare_connection_request(&mut window, true, Some(1)).unwrap();
    assert_eq!(request.frame_type, b'C');
    assert_eq!(request.num, 1);
    assert!(window.srej && !window.sent_disconnect_request);
    let request = prepare_connection_request(&mut window, false, None).unwrap();
    assert_eq!(request.frame_type, b'F');
    assert_eq!(request.num, 0);
    assert!(window.sent_disconnect_request && window.srej);
}

#[test]
fn finish_connection_request_test() {
    let mut window: Window<u32> = Window::default();
    window.srej = true;
    window.push(Frame::new(FrameType::Information, 0, vec![]), 1).unwrap();
    finish_connection_request(&mut window, true);
    assert!(window.is_connected && window.srej);
    assert_eq!(window.frames.len(), 1);
    finish_connection_request(&mut window, false);
    assert!(!window.is_connected);
}
