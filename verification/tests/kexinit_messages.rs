use ssh_transport::errors::DecodeError;
use ssh_transport::kexinit::{build_kexinit, parse_kexinit, serialize_kexinit, KexConfig, MSG_KEXINIT};

fn list(names: &[&str]) -> Vec<Vec<u8>> {
    names.iter().map(|n| n.as_bytes().to_vec()).collect()
}

fn sample_config() -> KexConfig {
    KexConfig {
        kex_algorithms: list(&["curve25519-sha256", "diffie-hellman-group14-sha256"]),
        server_host_key_algorithms: list(&["ssh-ed25519", "rsa-sha2-512"]),
        encryption_algorithms_client_to_server: list(&["aes128-ctr", "aes256-ctr"]),
        encryption_algorithms_server_to_client: list(&["aes256-ctr"]),
        mac_algorithms_client_to_server: list(&["hmac-sha2-256"]),
        mac_algorithms_server_to_client: list(&["hmac-sha2-256", "hmac-sha2-512"]),
        compression_algorithms_client_to_server: list(&["none", "zlib"]),
        compression_algorithms_server_to_client: list(&["none"]),
        languages_client_to_server: list(&[]),
        languages_server_to_client: list(&[]),
        first_kex_packet_follows: false,
    }
}

#[test]
fn build_parse_round_trip_reproduces_config() {
    let config = sample_config();
    let built = build_kexinit(&config);
    let bytes = serialize_kexinit(&built);
    assert_eq!(bytes[0], MSG_KEXINIT);
    let parsed = parse_kexinit(&bytes).unwrap();
    assert_eq!(parsed.cookie, built.cookie);
    assert_eq!(parsed.cookie.len(), 16);
    assert_eq!(parsed.kex_algorithms, config.kex_algorithms);
    assert_eq!(parsed.server_host_key_algorithms, config.server_host_key_algorithms);
    assert_eq!(
        parsed.encryption_algorithms_client_to_server,
        config.encryption_algorithms_client_to_server
    );
    assert_eq!(
        parsed.encryption_algorithms_server_to_client,
        config.encryption_algorithms_server_to_client
    );
    assert_eq!(parsed.mac_algorithms_client_to_server, config.mac_algorithms_client_to_server);
    assert_eq!(parsed.mac_algorithms_server_to_client, config.mac_algorithms_server_to_client);
    assert_eq!(
        parsed.compression_algorithms_client_to_server,
        config.compression_algorithms_client_to_server
    );
    assert_eq!(
        parsed.compression_algorithms_server_to_client,
        config.compression_algorithms_server_to_client
    );
    assert_eq!(parsed.languages_client_to_server, config.languages_client_to_server);
    assert_eq!(parsed.languages_server_to_client, config.languages_server_to_client);
    assert_eq!(parsed.first_kex_packet_follows, false);
    assert_eq!(parsed.reserved, 0);
}

#[test]
fn flag_survives_round_trip() {
    let mut config = sample_config();
    config.first_kex_packet_follows = true;
    let bytes = serialize_kexinit(&build_kexinit(&config));
    let parsed = parse_kexinit(&bytes).unwrap();
    assert_eq!(parsed.first_kex_packet_follows, true);
}

#[test]
fn wrong_message_type_is_rejected() {
    let mut bytes = serialize_kexinit(&build_kexinit(&sample_config()));
    bytes[0] = 21;
    assert!(matches!(parse_kexinit(&bytes), Err(DecodeError::WrongMessageType)));
}

#[test]
fn short_payload_is_rejected() {
    let bytes = vec![MSG_KEXINIT; 16];
    assert!(matches!(parse_kexinit(&bytes), Err(DecodeError::ShortInput)));
    let mut full = serialize_kexinit(&build_kexinit(&sample_config()));
    full.truncate(full.len() - 3);
    assert!(matches!(parse_kexinit(&full), Err(DecodeError::ShortInput)));
}

#[test]
fn trailing_bytes_are_rejected() {
    let mut bytes = serialize_kexinit(&build_kexinit(&sample_config()));
    bytes.push(0x00);
    assert!(matches!(parse_kexinit(&bytes), Err(DecodeError::TrailingData)));
}

#[test]
fn malformed_list_is_rejected() {
    let config = sample_config();
    let built = build_kexinit(&config);
    let mut bytes = serialize_kexinit(&built);
    // The first list starts at offset 17; its body begins at 21. A comma as
    // its first body byte makes an empty token.
    bytes[21] = b',';
    assert!(matches!(parse_kexinit(&bytes), Err(DecodeError::MalformedNameList)));
}

#[test]
fn nonzero_reserved_is_tolerated() {
    let mut bytes = serialize_kexinit(&build_kexinit(&sample_config()));
    let n = bytes.len();
    bytes[n - 1] = 0x01;
    let parsed = parse_kexinit(&bytes).unwrap();
    assert_eq!(parsed.reserved, 1);
}
