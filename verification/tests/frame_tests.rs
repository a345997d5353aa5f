use bgfastnet_lib::map::Reading;
use bgfastnet_lib::text::hex_to_bytes;
use bgfastnet_lib::{calculate_checksum, FrameBuffer};

fn test_frame() -> Vec<u8> {
    vec![
        0xFF, 0x05, 0x14, 0x01, 0xE7, 0x8D, 0x81, 0x05, 0x26, 0x3B, 0x31, 0x01, 0xFA, 0x34, 0x47,
        0x00, 0xF3, 0x00, 0xCC, 0x9B, 0x47, 0x00, 0xA0, 0x00, 0x09, 0x9B,
    ]
}

fn with_checksums(mut header: Vec<u8>, body: &[u8]) -> Vec<u8> {
    header.push(calculate_checksum(&header));
    header.extend_from_slice(body);
    header.push(calculate_checksum(body));
    header
}

fn has_key(values: &[(String, Reading)], key: &str) -> bool {
    values.iter().any(|(k, _)| k == key)
}

#[test]
fn test_frame_buffer_basic() {
    let mut fb = FrameBuffer::new_default();
    let frame = test_frame();
    fb.add_to_buffer(&frame);
    fb.get_complete_frames();
    assert_eq!(fb.frame_queue().len(), 1);
    assert!(has_key(&fb.frame_queue()[0].values, "navigation.attitude.roll"));
}

#[test]
fn test_frame_buffer_project_false() {
    let mut fb = FrameBuffer::new(8192, 1000, false);
    let frame = test_frame();
    fb.add_to_buffer(&frame);
    fb.get_complete_frames();
    assert_eq!(fb.frame_queue().len(), 1);
}

#[test]
fn frame_buffer_project_false_keeps_channel_names() {
    let mut fb = FrameBuffer::new(8192, 1000, false);
    fb.add_to_buffer(&test_frame());
    fb.get_complete_frames();
    let f = &fb.frame_queue()[0];
    assert!(has_key(&f.values, "Heel Angle"));
    assert_eq!(f.command, "Broadcast");
}

#[test]
fn frame_buffer_skips_garbage_before_frame() {
    let mut fb = FrameBuffer::new_default();
    // A stray byte whose would-be header fails its checksum is dropped.
    let mut data = vec![0x01];
    data.extend_from_slice(&test_frame());
    fb.add_to_buffer(&data);
    assert!(fb.can_complete_frames());
    fb.get_complete_frames();
    assert_eq!(fb.frame_queue().len(), 1);
    assert_eq!(fb.get_buffer_size(), 0);
}

#[test]
fn frame_buffer_waits_when_garbage_announces_long_frame() {
    // The third byte is read as a body size of 0x22, longer than what is
    // buffered, so the search waits for more bytes.
    let mut fb = FrameBuffer::new_default();
    let mut data = vec![0x00, 0x11, 0x22];
    data.extend_from_slice(&test_frame());
    fb.add_to_buffer(&data);
    fb.get_complete_frames();
    assert_eq!(fb.frame_queue().len(), 0);
    assert_eq!(fb.get_buffer_size(), data.len());
}

#[test]
fn frame_buffer_waits_for_rest_of_frame() {
    let mut fb = FrameBuffer::new_default();
    let frame = test_frame();
    fb.add_to_buffer(&frame[..10]);
    fb.get_complete_frames();
    assert_eq!(fb.frame_queue().len(), 0);
    assert_eq!(fb.get_buffer_size(), 10);
    fb.add_to_buffer(&frame[10..]);
    fb.get_complete_frames();
    assert_eq!(fb.frame_queue().len(), 1);
    assert_eq!(fb.get_buffer_size(), 0);
}

#[test]
fn frame_buffer_bad_body_checksum_is_dropped() {
    let mut fb = FrameBuffer::new_default();
    let mut frame = test_frame();
    let last = frame.len() - 1;
    frame[last] ^= 0xFF;
    fb.add_to_buffer(&frame);
    fb.get_complete_frames();
    assert_eq!(fb.frame_queue().len(), 0);
}

#[test]
fn frame_buffer_keeps_newest_bytes() {
    let mut fb = FrameBuffer::new(4, 10, true);
    fb.add_to_buffer(&[1, 2, 3]);
    fb.add_to_buffer(&[4, 5, 6]);
    assert_eq!(fb.get_buffer_size(), 4);
    assert_eq!(fb.get_buffer_contents(), "03040506");
}

#[test]
fn frame_buffer_contents_hex_reads_back() {
    let mut fb = FrameBuffer::new_default();
    let bytes = vec![0x00, 0xAB, 0x7F, 0x10];
    fb.add_to_buffer(&bytes);
    let text = fb.get_buffer_contents();
    assert_eq!(text, "00AB7F10");
    assert_eq!(hex_to_bytes(&text), Some(bytes));
}

#[test]
fn frame_queue_pop_takes_newest() {
    let mut fb = FrameBuffer::new(8192, 1000, false);
    let light = with_checksums(vec![0xFF, 0x50, 0x01, 0xC9], &[0x04]);
    fb.add_to_buffer(&test_frame());
    fb.add_to_buffer(&light);
    fb.get_complete_frames();
    assert_eq!(fb.frame_queue().len(), 2);
    let newest = fb.frame_queue_pop().unwrap();
    assert_eq!(newest.command, "Light Intensity");
    let older = fb.frame_queue_pop().unwrap();
    assert_eq!(older.command, "Broadcast");
    assert!(fb.frame_queue_pop().is_none());
}

#[test]
fn frame_queue_bounded_by_buffer_size() {
    let light = with_checksums(vec![0xFF, 0x50, 0x01, 0xC9], &[0x04]);
    let mut fb = FrameBuffer::new(16, 1000, false);
    for _ in 0..5 {
        fb.add_to_buffer(&light);
        fb.get_complete_frames();
    }
    assert_eq!(fb.frame_queue().len(), 5);
    let mut fb = FrameBuffer::new(7, 1000, false);
    for _ in 0..3 {
        fb.add_to_buffer(&light);
        fb.get_complete_frames();
    }
    assert!(fb.frame_queue().len() <= 7);
    assert_eq!(fb.frame_queue().len(), 3);
}

#[test]
fn frame_buffer_light_frame_projects_nothing() {
    // The backlight channel is dropped by the projection, so nothing is queued.
    let light = with_checksums(vec![0xFF, 0x50, 0x01, 0xC9], &[0x04]);
    let mut fb = FrameBuffer::new_default();
    fb.add_to_buffer(&light);
    fb.get_complete_frames();
    assert_eq!(fb.frame_queue().len(), 0);
}

#[test]
fn frame_buffer_unknown_command_not_queued() {
    let other = with_checksums(vec![0xFF, 0x05, 0x04, 0x02], &[0x4F, 0x61, 0x00, 0x50]);
    let mut fb = FrameBuffer::new_default();
    fb.add_to_buffer(&other);
    fb.get_complete_frames();
    assert_eq!(fb.frame_queue().len(), 0);
    assert_eq!(fb.get_buffer_size(), 0);
}

fn queue_commands(fb: &FrameBuffer) -> Vec<String> {
    fb.frame_queue().iter().map(|f| f.command.clone()).collect()
}

#[test]
fn feeding_in_pieces_matches_feeding_at_once() {
    let light = with_checksums(vec![0xFF, 0x50, 0x01, 0xC9], &[0x04]);
    let mut all = test_frame();
    all.push(0x42);
    all.extend_from_slice(&light);
    for cut in 0..=all.len() {
        let mut once = FrameBuffer::new(8192, 1000, false);
        once.add_to_buffer(&all);
        once.get_complete_frames();
        let mut pieces = FrameBuffer::new(8192, 1000, false);
        pieces.add_to_buffer(&all[..cut]);
        pieces.get_complete_frames();
        pieces.add_to_buffer(&all[cut..]);
        pieces.get_complete_frames();
        assert_eq!(queue_commands(&once), queue_commands(&pieces));
        assert_eq!(once.get_buffer_contents(), pieces.get_buffer_contents());
    }
}

#[test]
fn frame_buffer_bad_header_checksum_is_skipped() {
    let mut frame = test_frame();
    frame[4] = 0x00;
    let mut fb = FrameBuffer::new(8192, 1000, false);
    fb.add_to_buffer(&frame);
    fb.get_complete_frames();
    assert_eq!(fb.frame_queue().len(), 0);
}
