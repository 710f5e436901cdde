//! End-to-end behaviour of the relay's store, toggles, counters and
//! streaming step, driven exactly as the request handlers drive them.

use frame_relay::mjpeg::mjpeg_chunk;
use frame_relay::mjpeg::stream_content_type;
use frame_relay::mjpeg::stream_step;
use frame_relay::persist::plan_save;
use frame_relay::persist::FrameIndexes;
use frame_relay::store::frame_saved_message;
use frame_relay::store::greeting;
use frame_relay::store::FrameStore;
use frame_relay::store::SaveToggles;

#[test]
fn unwritten_stream_reads_absent() {
    let store = FrameStore::new();
    assert_eq!(store.get(&b"cam1".to_vec()), None);
    assert_eq!(stream_step(&store, &b"cam1".to_vec()), None);
}

#[test]
fn last_write_wins_byte_for_byte() {
    let mut store = FrameStore::new();
    store.put(b"cam1".to_vec(), b"first frame".to_vec());
    store.put(b"cam1".to_vec(), b"second".to_vec());
    store.put(b"cam1".to_vec(), b"third, and latest".to_vec());
    assert_eq!(store.get(&b"cam1".to_vec()), Some(b"third, and latest".to_vec()));
}

#[test]
fn empty_frame_is_stored_and_read_back() {
    let mut store = FrameStore::new();
    store.put(b"cam1".to_vec(), Vec::new());
    assert_eq!(store.get(&b"cam1".to_vec()), Some(Vec::new()));
}

#[test]
fn writes_to_one_name_leave_others_alone() {
    let mut store = FrameStore::new();
    store.put(b"cam1".to_vec(), b"one".to_vec());
    store.put(b"cam2".to_vec(), b"two".to_vec());
    store.put(b"cam1".to_vec(), b"one again".to_vec());
    assert_eq!(store.get(&b"cam2".to_vec()), Some(b"two".to_vec()));
    assert_eq!(store.get(&b"cam3".to_vec()), None);
}

#[test]
fn toggle_off_plans_no_writes() {
    let mut store = FrameStore::new();
    let toggles = SaveToggles::new();
    let indexes = FrameIndexes::new();
    let base = b"/var/frames".to_vec();
    for i in 0..5u8 {
        store.put(b"cam1".to_vec(), vec![i]);
        assert!(plan_save(&toggles, &indexes, &base, &b"cam1".to_vec()).is_none());
    }
}

#[test]
fn toggle_off_after_on_plans_no_writes() {
    let mut toggles = SaveToggles::new();
    let indexes = FrameIndexes::new();
    let base = b"/var/frames".to_vec();
    toggles.set(b"cam1".to_vec(), true);
    toggles.set(b"cam1".to_vec(), false);
    assert!(plan_save(&toggles, &indexes, &base, &b"cam1".to_vec()).is_none());
}

#[test]
fn toggle_on_plans_sequential_indices() {
    let mut toggles = SaveToggles::new();
    let mut indexes = FrameIndexes::new();
    let base = b"/var/frames".to_vec();
    toggles.set(b"cam1".to_vec(), true);
    for i in 0..4u64 {
        let plan = plan_save(&toggles, &indexes, &base, &b"cam1".to_vec()).unwrap();
        assert_eq!(plan.index, i);
        assert_eq!(plan.dir, b"/var/frames/cam1".to_vec());
        let expected_path = format!("/var/frames/cam1/cam1_{:0>7}.jpeg", i);
        assert_eq!(plan.path, expected_path.into_bytes());
        indexes.advance(b"cam1".to_vec());
    }
}

#[test]
fn failed_write_leaves_counter_and_frame() {
    let mut store = FrameStore::new();
    let mut toggles = SaveToggles::new();
    let indexes = FrameIndexes::new();
    let base = b"/var/frames".to_vec();
    toggles.set(b"cam1".to_vec(), true);

    store.put(b"cam1".to_vec(), b"attempted frame".to_vec());
    let plan = plan_save(&toggles, &indexes, &base, &b"cam1".to_vec()).unwrap();
    assert_eq!(plan.index, 0);
    // The write under plan.path fails: the caller does not advance the
    // counter, so the next attempt retries the same index, and the frame
    // just stored is still the latest in memory.
    let retry = plan_save(&toggles, &indexes, &base, &b"cam1".to_vec()).unwrap();
    assert_eq!(retry.index, 0);
    assert_eq!(store.get(&b"cam1".to_vec()), Some(b"attempted frame".to_vec()));
}

#[test]
fn counters_of_different_names_are_independent() {
    let mut indexes = FrameIndexes::new();
    indexes.advance(b"cam1".to_vec());
    indexes.advance(b"cam1".to_vec());
    assert_eq!(indexes.next_index(&b"cam1".to_vec()), 2);
    assert_eq!(indexes.next_index(&b"cam2".to_vec()), 0);
}

#[test]
fn first_chunk_carries_posted_payload() {
    let mut store = FrameStore::new();
    store.put(b"cam1".to_vec(), b"FAKEJPEG01".to_vec());
    let chunk = stream_step(&store, &b"cam1".to_vec()).unwrap();

    let expected =
        b"\r\n--FRAME\r\nContent-Type: image/jpeg\r\nContent-Length: 10\r\n\r\nFAKEJPEG01\r\n";
    assert_eq!(chunk, expected.to_vec());

    // The body between the header's blank line and the closing line break
    // is exactly the posted payload, and Content-Length denotes 10.
    let header_end = chunk
        .windows(4)
        .position(|w| w == b"\r\n\r\n")
        .unwrap();
    let body = &chunk[header_end + 4..chunk.len() - 2];
    assert_eq!(body, b"FAKEJPEG01");
    let header = String::from_utf8(chunk[..header_end].to_vec()).unwrap();
    let length_field = header
        .lines()
        .find_map(|l| l.strip_prefix("Content-Length: "))
        .unwrap();
    assert_eq!(length_field, "10");
}

#[test]
fn chunk_of_empty_frame() {
    let chunk = mjpeg_chunk(&Vec::new());
    let expected = b"\r\n--FRAME\r\nContent-Type: image/jpeg\r\nContent-Length: 0\r\n\r\n\r\n";
    assert_eq!(chunk, expected.to_vec());
}

#[test]
fn toggle_messages() {
    let mut toggles = SaveToggles::new();
    assert_eq!(toggles.set(b"cam1".to_vec(), true), "Frames will be saved");
    assert!(toggles.is_enabled(&b"cam1".to_vec()));
    assert_eq!(toggles.set(b"cam1".to_vec(), false), "Frames will not be saved");
    assert!(!toggles.is_enabled(&b"cam1".to_vec()));
    assert!(!toggles.is_enabled(&b"cam2".to_vec()));
}

#[test]
fn enabled_write_is_planned_at_the_first_path() {
    let mut toggles = SaveToggles::new();
    let indexes = FrameIndexes::new();
    let base = b"/var/frames".to_vec();
    assert_eq!(toggles.set(b"cam1".to_vec(), true), "Frames will be saved");
    let plan = plan_save(&toggles, &indexes, &base, &b"cam1".to_vec()).unwrap();
    assert_eq!(plan.path, b"/var/frames/cam1/cam1_0000000.jpeg".to_vec());
}

#[test]
fn fixed_bodies() {
    assert_eq!(greeting(), "Hello, yiannis!");
    assert_eq!(frame_saved_message(), "Last frame saved");
    assert_eq!(
        stream_content_type(),
        "multipart/x-mixed-replace;boundary=--FRAME"
    );
}
