use spatial_annotation_sync::sync::{encode_frame, frame_length, FrameError, PeerConnection, FRAME_HEADER_LEN};

#[test]
fn frame_carries_big_endian_length_then_payload() {
    let frame = encode_frame(&[7, 8, 9]).expect("a short payload can be framed");
    assert_eq!(frame, vec![0, 0, 0, 3, 7, 8, 9]);
}

#[test]
fn frame_of_empty_payload() {
    assert_eq!(encode_frame(&[]), Ok(vec![0, 0, 0, 0]));
}

#[test]
fn frame_length_reads_big_endian() {
    assert_eq!(frame_length([0, 0, 1, 0]), 256);
    assert_eq!(frame_length([0x12, 0x34, 0x56, 0x78]), 0x1234_5678);
    assert_eq!(frame_length([0xff, 0xff, 0xff, 0xff]), u32::MAX);
}

#[test]
fn frame_roundtrip() {
    let payload: Vec<u8> = (0..1000u32).map(|i| (i * 7) as u8).collect();
    let frame = encode_frame(&payload).expect("framed");
    let mut header = [0u8; FRAME_HEADER_LEN];
    header.copy_from_slice(&frame[..FRAME_HEADER_LEN]);
    assert_eq!(header, (payload.len() as u32).to_be_bytes());
    assert_eq!(frame_length(header) as usize, payload.len());
    assert_eq!(&frame[FRAME_HEADER_LEN..], &payload[..]);
}

#[test]
fn frame_error_is_comparable() {
    assert_eq!(FrameError::PayloadTooLarge, FrameError::PayloadTooLarge);
}

#[test]
fn peer_connection_keeps_its_stream() {
    let mut conn = PeerConnection::new(vec![1u8, 2]);
    conn.stream_mut().push(3);
    assert_eq!(conn.stream_mut(), &vec![1u8, 2, 3]);
}
