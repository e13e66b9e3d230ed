use hdlc::client::information_frames;
use hdlc::frame::Frame;

#[test]
fn information_frames_test() {
    let data: Vec<u8> = (0..(2 * Frame::MAX_SIZE_DATA + 10)).map(|i| (i % 251) as u8).collect();
    let frames = information_frames(&data);
    assert_eq!(frames.len(), 3);
    assert_eq!(frames[0].data.len(), Frame::MAX_SIZE_DATA);
    assert_eq!(frames[2].data.len(), 10);
    assert_eq!(frames.iter().map(|f| f.num).collect::<Vec<u8>>(), vec![0, 1, 2]);
    assert!(frames.iter().all(|f| f.frame_type == b'I'));
    let joined: Vec<u8> = frames.iter().flat_map(|f| f.data.clone()).collect();
    assert_eq!(joined, data);
}

#[test]
fn information_frames_numbering_wraps_test() {
    let data = vec![1u8; 9 * Frame::MAX_SIZE_DATA];
    let frames = information_frames(&data);
    assert_eq!(frames.len(), 9);
    assert_eq!(frames[7].num, 7);
    assert_eq!(frames[8].num, 0);
}

#[test]
fn information_frames_empty_test() {
    assert!(information_frames(&[]).is_empty());
}
