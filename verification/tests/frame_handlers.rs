use hdlc::frame::{Frame, FrameType};
use hdlc::frame_handlers::{
    handle_connection_end, handle_connection_start, handle_information, handle_p,
    handle_receive_ready, handle_reject,
};
use hdlc::window::Window;

fn control(frame_type: FrameType, num: u8) -> Vec<u8> {
    Frame::new(frame_type, num, Vec::new()).to_bytes()
}

fn info(num: u8) -> Frame {
    Frame::new(FrameType::Information, num, vec![num, num])
}

#[test]
fn test_handle_connection_end() {
    let mut window: Window<u32> = Window::default();
    let reaction = handle_connection_end(&mut window);
    assert!(reaction.terminate);
    assert_eq!(reaction.to_send, vec![control(FrameType::ConnectionEnd, 0)], "Acknowledgment frame not sent");
}

#[test]
fn handle_connection_end_after_request_test() {
    let mut window: Window<u32> = Window::default();
    window.is_connected = true;
    window.sent_disconnect_request = true;
    window.push(Frame::new(FrameType::ConnectionEnd, 0, vec![]), 9).unwrap();
    let reaction = handle_connection_end(&mut window);
    assert!(reaction.terminate);
    assert!(reaction.to_send.is_empty());
    assert_eq!(reaction.released.len(), 1);
    assert!(reaction.notify);
    assert!(window.is_empty());
    assert!(!window.is_connected);
}

#[test]
fn test_handle_receive_ready() {
    let mut window: Window<u32> = Window::default();
    let frame = Frame::new(FrameType::ReceiveReady, 1, vec![]);
    let reaction = handle_receive_ready(&mut window, &frame);
    assert!(!reaction.terminate);
}

#[test]
fn handle_receive_ready_acknowledges_test() {
    let mut window: Window<u32> = Window::default();
    window.is_connected = true;
    for i in 0..4u8 {
        window.push(info(i), i as u32).unwrap();
    }
    // RR 3 acknowledges frames up to 2
    let reaction = handle_receive_ready(&mut window, &Frame::new(FrameType::ReceiveReady, 3, vec![]));
    assert!(!reaction.terminate);
    assert_eq!(reaction.released.iter().map(|(_, t)| *t).collect::<Vec<u32>>(), vec![0, 1, 2]);
    assert!(reaction.notify);
    assert_eq!(window.frames.len(), 1);
    // RR 0 acknowledges frame 7, which is not in the window
    let reaction = handle_receive_ready(&mut window, &Frame::new(FrameType::ReceiveReady, 0, vec![]));
    assert!(reaction.released.is_empty() && !reaction.notify);
    assert_eq!(window.frames.len(), 1);
}

#[test]
fn handle_connection_start_test() {
    // The peer asks for a connection with selective reject
    let mut window: Window<u32> = Window::default();
    let reaction = handle_connection_start(&mut window, &Frame::new(FrameType::ConnectionStart, 1, vec![]));
    assert!(window.is_connected && window.srej);
    assert_eq!(reaction.to_send, vec![control(FrameType::ConnectionStart, 1)]);
    assert!(!reaction.terminate);

    // Our request is acknowledged
    let mut window: Window<u32> = Window::default();
    window.push(Frame::new(FrameType::ConnectionStart, 0, vec![]), 5).unwrap();
    let reaction = handle_connection_start(&mut window, &Frame::new(FrameType::ConnectionStart, 0, vec![]));
    assert!(window.is_connected && !window.srej && window.is_empty());
    assert!(reaction.to_send.is_empty());
    assert_eq!(reaction.released.len(), 1);
    assert!(reaction.notify);
}

#[test]
fn test_handle_reject() {
    let mut window: Window<u32> = Window::default();
    window.push(Frame::new(FrameType::Information, 1, vec![]), 0).unwrap();
    window.is_connected = true;

    let frame = Frame::new(FrameType::Reject, 1, vec![]);
    let reaction = handle_reject(&mut window, &frame);

    assert!(!reaction.terminate, "Handler should not terminate the connection");
    assert_eq!(
        reaction.to_send,
        vec![Frame::new(FrameType::Information, 1, vec![]).to_bytes()],
        "Rejection frame not resent"
    );
}

#[test]
fn handle_selective_reject_test() {
    let mut window: Window<u32> = Window::default();
    window.is_connected = true;
    window.srej = true;
    for i in 2..6u8 {
        window.push(info(i), i as u32).unwrap();
    }
    let reaction = handle_reject(&mut window, &Frame::new(FrameType::Reject, 4, vec![]));
    assert_eq!(reaction.released.len(), 2);
    assert_eq!(reaction.to_send, vec![info(4).to_bytes()]);
    assert_eq!(window.frames.len(), 2);
}

#[test]
fn test_frame_drop() {
    let mut window: Window<u32> = Window::default();
    window.is_connected = true;
    let mut expected = 0u8;

    // Handle the dropped frame
    let reaction = handle_information(&mut window, Frame::new(FrameType::Information, 1, Vec::new()), &mut expected);

    // Check if a reject frame was sent and is to be put in the window
    let expected_bytes = Frame::new(FrameType::Reject, 0, Vec::new()).to_bytes();
    assert_eq!(reaction.to_send, vec![expected_bytes.clone()]);
    let answer = reaction.to_push.expect("Window is empty").to_bytes();
    assert_eq!(answer, expected_bytes);
    assert_eq!(expected, 0);
}

#[test]
fn handle_information_in_order_test() {
    let mut window: Window<u32> = Window::default();
    window.is_connected = true;
    let mut expected = 7u8;
    let reaction = handle_information(&mut window, info(7), &mut expected);
    assert_eq!(expected, 0);
    assert_eq!(reaction.to_assembler, Some(vec![7, 7]));
    assert_eq!(reaction.to_send, vec![control(FrameType::ReceiveReady, 0)]);
    assert!(reaction.to_push.is_none());
}

#[test]
fn handle_information_not_connected_test() {
    let mut window: Window<u32> = Window::default();
    let mut expected = 0u8;
    let reaction = handle_information(&mut window, info(0), &mut expected);
    assert_eq!(expected, 0);
    assert!(reaction.to_send.is_empty() && reaction.to_assembler.is_none());
}

#[test]
fn handle_p_test() {
    let reaction = handle_p::<u32>(3);
    assert_eq!(reaction.to_send, vec![control(FrameType::ReceiveReady, 3)]);
    assert!(!reaction.terminate);
}
