use hdlc::frame::{Frame, FrameType};
use hdlc::window::{Window, WindowError};

fn info(num: u8) -> Frame {
    Frame::new(FrameType::Information, num, vec![num])
}

fn nums(window: &Window<u32>) -> Vec<u8> {
    window.frames.iter().map(|(frame, _)| frame.num).collect()
}

#[test]
fn window_new_test() {
    let window: Window<u32> = Window::new();
    assert!(window.is_empty());
    assert!(!window.is_full());
    assert!(!window.is_connected && !window.srej && !window.resend_all);
    assert!(!window.sent_disconnect_request);
    assert_eq!(window.get_max_size(), 7);
    let default: Window<u32> = Window::default();
    assert!(default.is_empty());
}

#[test]
fn window_max_size_test() {
    let mut window: Window<u32> = Window::new();
    assert_eq!(window.get_max_size(), 7);
    window.srej = true;
    assert_eq!(window.get_max_size(), 4);
    assert_eq!(Window::<u32>::MAX_FRAME_NUM, 8);
}

#[test]
fn window_push_until_full_test() {
    let mut window: Window<u32> = Window::new();
    for i in 0..7u8 {
        assert!(window.push(info(i), i as u32).is_ok());
    }
    assert!(window.is_full());
    assert_eq!(window.push(info(7), 7), Err(WindowError::Full));
    assert_eq!(window.frames.len(), 7);
}

#[test]
fn window_pop_front_test() {
    let mut window: Window<u32> = Window::new();
    assert!(window.pop_front().is_none());
    window.push(info(1), 10).unwrap();
    window.push(info(2), 20).unwrap();
    let (frame, timer) = window.pop_front().unwrap();
    assert_eq!((frame.num, timer), (1, 10));
    assert_eq!(nums(&window), vec![2]);
}

#[test]
fn window_contains_and_pop_test() {
    let mut window: Window<u32> = Window::new();
    for i in [3u8, 4, 5] {
        window.push(info(i), i as u32).unwrap();
    }
    assert!(window.contains(4));
    assert!(!window.contains(6));
    let (frame, timer) = window.pop(4).unwrap();
    assert_eq!((frame.num, timer), (4, 4));
    assert_eq!(nums(&window), vec![3, 5]);
    assert!(window.pop(4).is_none());
}

#[test]
fn window_pop_until_test() {
    let mut window: Window<u32> = Window::new();
    for i in [0u8, 1, 2, 3] {
        window.push(info(i), i as u32).unwrap();
    }
    let popped = window.pop_until(1, false).unwrap();
    assert_eq!(popped.iter().map(|(f, _)| f.num).collect::<Vec<u8>>(), vec![0]);
    let popped = window.pop_until(2, true).unwrap();
    assert_eq!(popped.iter().map(|(f, t)| (f.num, *t)).collect::<Vec<(u8, u32)>>(), vec![(1, 1), (2, 2)]);
    assert_eq!(nums(&window), vec![3]);
    assert!(window.pop_until(7, true).is_none());
    assert_eq!(nums(&window), vec![3]);
}

#[test]
fn window_clear_test() {
    let mut window: Window<u32> = Window::new();
    window.push(info(0), 0).unwrap();
    window.push(info(1), 1).unwrap();
    let popped = window.clear();
    assert_eq!(popped.len(), 2);
    assert!(window.is_empty());
}
