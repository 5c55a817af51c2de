use realms::framing::{frame, frame_length, HEADER_LEN, MAX_MESSAGE};

#[test]
fn frame_prefixes_length() {
    let framed = frame(&vec![9, 8, 7]).unwrap();
    assert_eq!(framed, vec![0, 0, 0, 3, 9, 8, 7]);
    assert_eq!(frame_length(&framed[..HEADER_LEN]), Some(3));
}

#[test]
fn frame_empty_payload() {
    assert_eq!(frame(&vec![]).unwrap(), vec![0, 0, 0, 0]);
}

#[test]
fn frame_largest_and_too_large() {
    let largest = vec![1u8; MAX_MESSAGE];
    let framed = frame(&largest).unwrap();
    assert_eq!(&framed[..4], &[0, 1, 0, 0]);
    assert_eq!(frame_length(&framed), Some(MAX_MESSAGE));
    assert_eq!(frame(&vec![0u8; MAX_MESSAGE + 1]), None);
}

#[test]
fn frame_length_rejects_short_or_oversized_headers() {
    assert_eq!(frame_length(&[0, 0, 1]), None);
    assert_eq!(frame_length(&[0, 1, 0, 1]), None);
    assert_eq!(frame_length(&[1, 2, 3, 4, 5]), None);
    assert_eq!(frame_length(&[0, 0, 1, 2]), Some(258));
}
