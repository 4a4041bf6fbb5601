use ssh_transport::errors::DecodeError;
use ssh_transport::names::{decode_name_list_at, encode_name_list, to_name_list};

fn list(names: &[&str]) -> Vec<Vec<u8>> {
    names.iter().map(|n| n.as_bytes().to_vec()).collect()
}

#[test]
fn empty_list_encodes_to_four_zero_bytes() {
    let e = encode_name_list(&list(&[]));
    assert_eq!(e, vec![0x00, 0x00, 0x00, 0x00]);
}

#[test]
fn single_name_encoding() {
    let e = encode_name_list(&list(&["zlib"]));
    assert_eq!(e, vec![0x00, 0x00, 0x00, 0x04, b'z', b'l', b'i', b'b']);
}

#[test]
fn two_name_encoding() {
    let e = encode_name_list(&list(&["zlib", "none"]));
    assert_eq!(
        e,
        vec![0x00, 0x00, 0x00, 0x09, b'z', b'l', b'i', b'b', b',', b'n', b'o', b'n', b'e']
    );
}

#[test]
fn raw_string_form_matches_examples() {
    assert_eq!(to_name_list(""), vec![0x00, 0x00, 0x00, 0x00]);
    assert_eq!(
        to_name_list("zlib"),
        vec![0x00, 0x00, 0x00, 0x04, 0x7a, 0x6c, 0x69, 0x62]
    );
    assert_eq!(
        to_name_list("zlib,none"),
        vec![0x00, 0x00, 0x00, 0x09, 0x7a, 0x6c, 0x69, 0x62, 0x2c, 0x6e, 0x6f, 0x6e, 0x65]
    );
}

#[test]
fn round_trip_several_lists() {
    for names in [
        vec![],
        vec!["diffie-hellman-group14-sha256"],
        vec!["aes128-ctr", "aes256-ctr", "chacha20-poly1305@openssh.com"],
        vec!["hmac-sha2-256", "hmac-sha2-512", "hmac-sha1", "none"],
    ] {
        let l = list(&names);
        let e = encode_name_list(&l);
        let (decoded, end) = decode_name_list_at(&e, 0).unwrap();
        assert_eq!(decoded, l);
        assert_eq!(end, e.len());
    }
}

#[test]
fn decode_at_offset_and_trailing_bytes() {
    let l = list(&["curve25519-sha256", "ext-info-s"]);
    let mut bytes = vec![0xff, 0xee];
    bytes.extend_from_slice(&encode_name_list(&l));
    bytes.push(0x77);
    let (decoded, end) = decode_name_list_at(&bytes, 2).unwrap();
    assert_eq!(decoded, l);
    assert_eq!(end, bytes.len() - 1);
}

#[test]
fn decode_short_header_is_rejected() {
    let bytes = vec![0x00, 0x00, 0x01];
    assert_eq!(decode_name_list_at(&bytes, 0), Err(DecodeError::ShortInput));
}

#[test]
fn decode_declared_length_past_end_is_rejected() {
    let bytes = vec![0x00, 0x00, 0x00, 0x05, b'a', b'b'];
    assert_eq!(decode_name_list_at(&bytes, 0), Err(DecodeError::ShortInput));
}

#[test]
fn decode_empty_token_is_rejected() {
    for body in ["a,,b", ",ab", "ab,"] {
        let e = to_name_list(body);
        assert_eq!(
            decode_name_list_at(&e, 0),
            Err(DecodeError::MalformedNameList),
            "body {body:?} must be rejected"
        );
    }
}

#[test]
fn decode_unprintable_byte_is_rejected() {
    let bytes = vec![0x00, 0x00, 0x00, 0x02, b'a', 0x07];
    assert_eq!(
        decode_name_list_at(&bytes, 0),
        Err(DecodeError::MalformedNameList)
    );
}

#[test]
fn decode_exactly_empty_body_yields_empty_list() {
    let bytes = vec![0x00, 0x00, 0x00, 0x00];
    let (decoded, end) = decode_name_list_at(&bytes, 0).unwrap();
    assert!(decoded.is_empty());
    assert_eq!(end, 4);
}
