use tl_wire::{FrameError, TransportIntermediate, MAXIMUM_DATA};

#[test]
fn pack_writes_length_then_payload() {
    let t = TransportIntermediate::new();
    assert_eq!(t.pack(&[1, 2, 3]), vec![3, 0, 0, 0, 1, 2, 3]);
    assert_eq!(t.pack(&[]), vec![0, 0, 0, 0]);
}

#[test]
fn encode_length_is_little_endian() {
    let t = TransportIntermediate::new();
    assert_eq!(t.encode_length(0x0102_0304), [4, 3, 2, 1]);
    assert_eq!(t.encode_length(0xffff_ffff), [255, 255, 255, 255]);
}

#[test]
fn round_trip() {
    let t = TransportIntermediate::new();
    let payload: Vec<u8> = (0..300u32).map(|i| (i * 7) as u8).collect();
    let frame = t.pack(&payload);
    assert_eq!(t.unpack(&frame), Ok((payload.clone(), 304)));
}

#[test]
fn round_trip_at_maximum() {
    let t = TransportIntermediate::new();
    let payload = vec![0xab; MAXIMUM_DATA as usize];
    let frame = t.pack(&payload);
    let (back, used) = t.unpack(&frame).unwrap();
    assert_eq!(back, payload);
    assert_eq!(used, frame.len());
}

#[test]
fn unpack_leaves_following_bytes() {
    let t = TransportIntermediate::new();
    assert_eq!(t.unpack(&[2, 0, 0, 0, 9, 8, 7, 6]), Ok((vec![9, 8], 6)));
}

#[test]
fn too_large_is_refused_before_body() {
    let t = TransportIntermediate::new();
    let declared = MAXIMUM_DATA + 1;
    let header = t.encode_length(declared as usize);
    assert_eq!(
        t.unpack(&header),
        Err(FrameError::FrameTooLarge { declared_length: declared })
    );
    assert_eq!(
        t.decode_length(header),
        Err(FrameError::FrameTooLarge { declared_length: declared })
    );
    assert_eq!(
        t.decode_length([255, 255, 255, 255]),
        Err(FrameError::FrameTooLarge { declared_length: u32::MAX })
    );
}

#[test]
fn decode_length_accepts_up_to_maximum() {
    let t = TransportIntermediate::new();
    assert_eq!(t.decode_length([5, 1, 0, 0]), Ok(261));
    let header = t.encode_length(MAXIMUM_DATA as usize);
    assert_eq!(t.decode_length(header), Ok(MAXIMUM_DATA as usize));
}

#[test]
fn short_reads() {
    let t = TransportIntermediate::new();
    assert_eq!(t.unpack(&[]), Err(FrameError::ShortRead));
    assert_eq!(t.unpack(&[1, 0, 0]), Err(FrameError::ShortRead));
    assert_eq!(t.unpack(&[3, 0, 0, 0, 1, 2]), Err(FrameError::ShortRead));
}
