use ssh_transport::rng::fresh_cookie;
use ssh_transport::wire::{read_u32_be, u32_to_be_bytes};

#[test]
fn thousand_cookies_are_sixteen_bytes_and_distinct() {
    let mut seen: Vec<Vec<u8>> = Vec::with_capacity(1000);
    for _ in 0..1000 {
        let cookie = fresh_cookie();
        assert_eq!(cookie.len(), 16);
        assert!(!seen.contains(&cookie), "two equal cookies were generated");
        seen.push(cookie);
    }
}

#[test]
fn big_endian_length_field_round_trips() {
    for x in [0u32, 1, 4, 255, 256, 65535, 65536, 262144, 0xdead_beef, u32::MAX] {
        let bytes = u32_to_be_bytes(x);
        assert_eq!(bytes.len(), 4);
        assert_eq!(bytes, x.to_be_bytes().to_vec());
        assert_eq!(read_u32_be(&bytes, 0), x);
    }
}
