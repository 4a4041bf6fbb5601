use ssh_transport::errors::AlgorithmCategory;
use ssh_transport::kexinit::{build_kexinit, KexConfig};
use ssh_transport::negotiate::{negotiate, negotiate_category};
use ssh_transport::session::{ConnectionSession, NegotiationState};

fn list(names: &[&str]) -> Vec<Vec<u8>> {
    names.iter().map(|n| n.as_bytes().to_vec()).collect()
}

fn config_with_kex(kex: &[&str]) -> KexConfig {
    KexConfig {
        kex_algorithms: list(kex),
        server_host_key_algorithms: list(&["ssh-ed25519"]),
        encryption_algorithms_client_to_server: list(&["aes128-ctr"]),
        encryption_algorithms_server_to_client: list(&["aes128-ctr"]),
        mac_algorithms_client_to_server: list(&["hmac-sha2-256"]),
        mac_algorithms_server_to_client: list(&["hmac-sha2-256"]),
        compression_algorithms_client_to_server: list(&["none"]),
        compression_algorithms_server_to_client: list(&["none"]),
        languages_client_to_server: list(&[]),
        languages_server_to_client: list(&[]),
        first_kex_packet_follows: false,
    }
}

#[test]
fn first_client_preference_in_server_list_wins() {
    let client = list(&["a-kex", "b-kex", "c-kex"]);
    let server = list(&["b-kex", "c-kex"]);
    let chosen = negotiate_category(&client, &server).unwrap();
    assert_eq!(chosen, b"b-kex".to_vec());
}

#[test]
fn client_order_decides_not_server_order() {
    let client = list(&["x", "y"]);
    let server = list(&["y", "x"]);
    let chosen = negotiate_category(&client, &server).unwrap();
    assert_eq!(chosen, b"x".to_vec());
}

#[test]
fn no_common_name_yields_none() {
    let client = list(&["only-client"]);
    let server = list(&["only-server"]);
    assert_eq!(negotiate_category(&client, &server), None);
}

#[test]
fn full_negotiation_success() {
    let client = build_kexinit(&config_with_kex(&["a-kex", "b-kex", "c-kex"]));
    let server = build_kexinit(&config_with_kex(&["b-kex", "c-kex"]));
    let n = negotiate(&client, &server).unwrap();
    assert_eq!(n.kex_algorithm, b"b-kex".to_vec());
    assert_eq!(n.server_host_key_algorithm, b"ssh-ed25519".to_vec());
    assert_eq!(n.encryption_client_to_server, b"aes128-ctr".to_vec());
    assert_eq!(n.mac_server_to_client, b"hmac-sha2-256".to_vec());
    assert_eq!(n.compression_client_to_server, b"none".to_vec());
    assert_eq!(n.language_client_to_server, None);
    assert_eq!(n.language_server_to_client, None);
}

#[test]
fn mandatory_category_failure_names_the_category() {
    let client = build_kexinit(&config_with_kex(&["x-kex"]));
    let server = build_kexinit(&config_with_kex(&["y-kex"]));
    let e = negotiate(&client, &server).unwrap_err();
    assert_eq!(e.category, AlgorithmCategory::KeyExchange);
}

#[test]
fn empty_language_lists_never_fail() {
    let client = build_kexinit(&config_with_kex(&["k"]));
    let server = build_kexinit(&config_with_kex(&["k"]));
    assert!(negotiate(&client, &server).is_ok());
}

#[test]
fn session_reaches_negotiated_state_on_success() {
    let mut session = ConnectionSession::new();
    assert_eq!(session.state, NegotiationState::Init);
    session.version_exchanged();
    assert_eq!(session.state, NegotiationState::VersionExchanged);
    let local = build_kexinit(&config_with_kex(&["a-kex", "b-kex", "c-kex"]));
    session.local_kex_sent(local);
    assert_eq!(session.state, NegotiationState::LocalKexSent);
    session.awaiting_remote_kex();
    assert_eq!(session.state, NegotiationState::AwaitingRemoteKex);
    let remote = build_kexinit(&config_with_kex(&["b-kex", "c-kex"]));
    session.remote_kex_received(remote).unwrap();
    assert_eq!(session.state, NegotiationState::AlgorithmsNegotiated);
    let negotiated = session.negotiated.as_ref().unwrap();
    assert_eq!(negotiated.kex_algorithm, b"b-kex".to_vec());
}

#[test]
fn session_aborts_on_mandatory_failure() {
    let mut session = ConnectionSession::new();
    session.version_exchanged();
    session.local_kex_sent(build_kexinit(&config_with_kex(&["x-kex"])));
    session.awaiting_remote_kex();
    let e = session
        .remote_kex_received(build_kexinit(&config_with_kex(&["y-kex"])))
        .unwrap_err();
    assert_eq!(session.state, NegotiationState::Aborted);
    assert_eq!(e.category, AlgorithmCategory::KeyExchange);
    assert!(session.negotiated.is_none());
    assert_eq!(session.abort_reason, Some(e));
}
