use gameshare::h264::{forward_opus, is_depacketizable, AccessUnit, VideoTrack};

/// The bytes of a frame that is handed out in base64.
fn decoded(frame: Option<String>) -> Vec<u8> {
    let text = frame.unwrap();
    base64::Engine::decode(&base64::engine::general_purpose::STANDARD, text).unwrap()
}

#[test]
fn single_units_get_a_start_code() {
    let mut track = VideoTrack::new();
    assert_eq!(track.receive(&[0x67, 1, 2], false), None);
    assert_eq!(
        decoded(track.receive(&[0x65, 3, 4, 5], true)),
        vec![0, 0, 0, 1, 0x67, 1, 2, 0, 0, 0, 1, 0x65, 3, 4, 5]
    );
    assert!(track.unit.bytes.is_empty());
}

#[test]
fn frames_are_padded_base64_of_the_standard_alphabet() {
    let mut track = VideoTrack::new();
    assert_eq!(track.receive(&[0x65, 0xff, 0xfe], true), Some("AAAAAWX//g==".to_string()));
}

#[test]
fn fragments_are_put_together() {
    let mut track = VideoTrack::new();
    assert_eq!(track.receive(&[0x7c, 0x85, 1, 2], false), None);
    assert_eq!(track.receive(&[0x7c, 0x05, 3], false), None);
    assert_eq!(
        decoded(track.receive(&[0x7c, 0x45, 4, 5], true)),
        vec![0, 0, 0, 1, 0x65, 1, 2, 3, 4, 5]
    );
    // Nothing of it is left over.
    assert_eq!(decoded(track.receive(&[0x3c, 0xc1, 9], true)), vec![0, 0, 0, 1, 0x21, 9]);
}

#[test]
fn a_marker_in_the_middle_of_fragments_hands_nothing_out() {
    let mut track = VideoTrack::new();
    assert_eq!(track.receive(&[0x7c, 0x85, 1], true), None);
    assert_eq!(decoded(track.receive(&[0x7c, 0x45, 2], true)), vec![0, 0, 0, 1, 0x65, 1, 2]);
}

#[test]
fn empty_packets_are_part_of_a_frame_too() {
    let mut track = VideoTrack::new();
    assert_eq!(track.receive(&[0x67, 1, 2], false), None);
    assert_eq!(track.receive(&[], false), None);
    assert_eq!(decoded(track.receive(&[], true)), vec![0, 0, 0, 1, 0x67, 1, 2]);
}

#[test]
fn aggregates_are_split() {
    let mut track = VideoTrack::new();
    let payload = [0x78, 0, 2, 0x67, 1, 0, 0, 0, 1, 0x68];
    assert!(is_depacketizable(&payload));
    assert_eq!(
        decoded(track.receive(&payload, true)),
        vec![0, 0, 0, 1, 0x67, 1, 0, 0, 0, 1, 0, 0, 0, 1, 0x68]
    );
}

#[test]
fn long_units_in_aggregates() {
    let mut payload = vec![0x78, 1, 2];
    payload.extend(std::iter::repeat(0x41).take(258));
    let mut track = VideoTrack::new();
    let frame = decoded(track.receive(&payload, true));
    assert_eq!(frame.len(), 4 + 258);
    assert!(frame[4..].iter().all(|&b| b == 0x41));
}

#[test]
fn what_cannot_be_read_is_passed_over() {
    let mut track = VideoTrack::new();
    for payload in [
        &[0x65u8][..],
        &[0x65, 1][..],
        &[0x60, 1, 2][..],
        &[0x7d, 1, 2, 3][..],
        &[0x78, 0, 9, 1][..],
    ] {
        assert!(is_depacketizable(payload));
        assert_eq!(track.receive(payload, true), None);
    }
    assert_eq!(track.receive(&[], true), None);
    assert_eq!(decoded(track.receive(&[0x41, 1, 2], true)), vec![0, 0, 0, 1, 0x41, 1, 2]);
}

#[test]
fn cut_aggregates_are_told_apart() {
    assert!(!is_depacketizable(&[0x78, 0, 1, 0x67, 5]));
    assert!(is_depacketizable(&[0x78, 0, 1, 0x67]));
    assert!(is_depacketizable(&[0x78, 0, 1, 0x67, 0, 0]));
    assert!(is_depacketizable(&[0x78, 5]));
    assert!(is_depacketizable(&[0x78]));
    assert!(is_depacketizable(&[]));
    assert!(is_depacketizable(&[0x78, 0xff, 0xff, 1]));
    assert!(is_depacketizable(&[0x61, 0, 1, 0x67, 5]));
}

#[test]
fn access_units_grow_until_the_marker() {
    let mut unit = AccessUnit::new();
    assert_eq!(unit.add_nal(&None, true), None);
    assert_eq!(unit.add_nal(&Some(vec![]), true), None);
    assert_eq!(unit.add_nal(&Some(vec![1]), false), None);
    assert_eq!(unit.add_nal(&None, false), None);
    assert_eq!(unit.add_nal(&Some(vec![2, 3]), true), Some(vec![1, 2, 3]));
    assert_eq!(unit.add_nal(&Some(vec![4]), true), Some(vec![4]));
}

#[test]
fn opus_payloads_are_forwarded() {
    assert_eq!(forward_opus(&[]), None);
    assert_eq!(forward_opus(&[0xF8, 0xFF, 0xFE]), Some("+P/+".to_string()));
    assert_eq!(forward_opus(&[1]), Some("AQ==".to_string()));
}
