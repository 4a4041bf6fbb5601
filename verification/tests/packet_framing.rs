use ssh_transport::errors::FramingError;
use ssh_transport::packet::{check_packet_length, decode_packet, encode_packet};

const MAX: u32 = 262144;

#[test]
fn packet_round_trip_various_sizes() {
    for len in [0usize, 1, 3, 7, 8, 9, 200, 4096] {
        let payload: Vec<u8> = (0..len).map(|i| (i % 251) as u8).collect();
        let framed = encode_packet(&payload, 8, MAX);
        let (decoded, end) = decode_packet(&framed, 0, MAX).unwrap();
        assert_eq!(decoded, payload, "payload of {len} bytes survives framing");
        assert_eq!(end, framed.len());
    }
}

#[test]
fn packet_padding_invariants() {
    for len in [0usize, 1, 2, 3, 4, 5, 6, 7, 8, 15, 16, 17, 100] {
        let payload: Vec<u8> = vec![0x2a; len];
        let framed = encode_packet(&payload, 8, MAX);
        let padding_length = framed[4] as usize;
        assert!(padding_length >= 4);
        assert!(padding_length <= 255);
        assert_eq!((1 + len + padding_length) % 8, 0);
        let packet_length =
            u32::from_be_bytes([framed[0], framed[1], framed[2], framed[3]]) as usize;
        assert_eq!(packet_length, 1 + len + padding_length);
        assert_eq!(framed.len(), 4 + packet_length);
    }
}

#[test]
fn packet_exact_layout_for_three_byte_payload() {
    let payload = vec![0x14, 0x01, 0x02];
    let framed = encode_packet(&payload, 8, MAX);
    // 1 + 3 + 4 == 8: the minimum padding of 4 already aligns the frame.
    assert_eq!(framed[0..4], [0x00, 0x00, 0x00, 0x08]);
    assert_eq!(framed[4], 4);
    assert_eq!(framed[5..8], [0x14, 0x01, 0x02]);
    assert_eq!(framed.len(), 12);
}

#[test]
fn packet_block_size_sixteen() {
    let payload = vec![0x09; 10];
    let framed = encode_packet(&payload, 16, MAX);
    let padding_length = framed[4] as usize;
    assert!(padding_length >= 4);
    assert_eq!((1 + 10 + padding_length) % 16, 0);
}

#[test]
fn oversized_claimed_length_is_rejected_without_allocation() {
    // A tiny buffer claiming a huge packet: the length check fires before
    // any payload buffer could be sized from the claim.
    let bytes = vec![0x7f, 0xff, 0xff, 0xff];
    assert_eq!(
        decode_packet(&bytes, 0, MAX),
        Err(FramingError::OversizedPacket)
    );
    assert_eq!(
        check_packet_length(0x7fff_ffff, MAX),
        Err(FramingError::OversizedPacket)
    );
}

#[test]
fn undersized_claimed_length_is_rejected() {
    let bytes = vec![0x00, 0x00, 0x00, 0x04, 0x04, 0x00, 0x00, 0x00];
    assert_eq!(
        decode_packet(&bytes, 0, MAX),
        Err(FramingError::UndersizedPacket)
    );
    assert_eq!(check_packet_length(4, MAX), Err(FramingError::UndersizedPacket));
    assert_eq!(check_packet_length(5, MAX), Ok(()));
}

#[test]
fn short_read_is_rejected() {
    assert_eq!(decode_packet(&vec![0x00, 0x00], 0, MAX), Err(FramingError::ShortRead));
    let bytes = vec![0x00, 0x00, 0x00, 0x0c, 0x04, 0x01];
    assert_eq!(decode_packet(&bytes, 0, MAX), Err(FramingError::ShortRead));
}

#[test]
fn bad_padding_length_is_rejected() {
    // padding_length below 4
    let bytes = vec![0x00, 0x00, 0x00, 0x08, 0x03, 0, 0, 0, 0, 0, 0, 0];
    assert_eq!(
        decode_packet(&bytes, 0, MAX),
        Err(FramingError::BadPaddingLength)
    );
    // padding_length leaving no room: 1 + padding > packet_length
    let bytes = vec![0x00, 0x00, 0x00, 0x08, 0x08, 0, 0, 0, 0, 0, 0, 0];
    assert_eq!(
        decode_packet(&bytes, 0, MAX),
        Err(FramingError::BadPaddingLength)
    );
}

#[test]
fn decode_consumes_one_frame_of_a_stream() {
    let first = encode_packet(&vec![0x14, 0xaa], 8, MAX);
    let second = encode_packet(&vec![0x15, 0xbb, 0xcc], 8, MAX);
    let mut stream = first.clone();
    stream.extend_from_slice(&second);
    let (first_payload, end1) = decode_packet(&stream, 0, MAX).unwrap();
    assert_eq!(first_payload, vec![0x14, 0xaa]);
    assert_eq!(end1, first.len());
    let (second_payload, end2) = decode_packet(&stream, end1, MAX).unwrap();
    assert_eq!(second_payload, vec![0x15, 0xbb, 0xcc]);
    assert_eq!(end2, stream.len());
}
