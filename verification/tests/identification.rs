use ssh_transport::errors::ProtocolError;
use ssh_transport::ident::{
    build_identification_line, is_version_line, parse_identification_line, DEFAULT_MAX_IDENT_LINE,
};

#[test]
fn parse_full_line_with_comments() {
    let line = b"SSH-2.0-openssh_9.6 Ubuntu-3ubuntu13\r\n".to_vec();
    let id = parse_identification_line(&line, DEFAULT_MAX_IDENT_LINE).unwrap();
    assert_eq!(id.protoversion, b"2.0".to_vec());
    assert_eq!(id.softwareversion, b"openssh_9.6".to_vec());
    assert_eq!(id.comments, Some(b"Ubuntu-3ubuntu13".to_vec()));
}

#[test]
fn parse_line_without_comments() {
    let line = b"SSH-2.0-tiny\r\n".to_vec();
    let id = parse_identification_line(&line, DEFAULT_MAX_IDENT_LINE).unwrap();
    assert_eq!(id.protoversion, b"2.0".to_vec());
    assert_eq!(id.softwareversion, b"tiny".to_vec());
    assert_eq!(id.comments, None);
}

#[test]
fn bare_newline_is_tolerated() {
    let line = b"SSH-2.0-tiny\n".to_vec();
    let id = parse_identification_line(&line, DEFAULT_MAX_IDENT_LINE).unwrap();
    assert_eq!(id.softwareversion, b"tiny".to_vec());
}

#[test]
fn overlong_line_is_rejected_as_too_long() {
    let mut line = b"SSH-2.0-".to_vec();
    line.extend(std::iter::repeat(b'x').take(300));
    line.extend_from_slice(b"\r\n");
    assert_eq!(
        parse_identification_line(&line, DEFAULT_MAX_IDENT_LINE),
        Err(ProtocolError::LineTooLong)
    );
}

#[test]
fn malformed_lines_are_rejected() {
    for line in [
        &b"FTP-2.0-x\r\n"[..],
        &b"SSH-2.0-x"[..],
        &b"SSH--x\r\n"[..],
        &b"SSH-2.0\r\n"[..],
        &b"SSH-2.0- comments\r\n"[..],
    ] {
        assert_eq!(
            parse_identification_line(&line.to_vec(), DEFAULT_MAX_IDENT_LINE),
            Err(ProtocolError::MalformedLine),
            "line {line:?} must be rejected"
        );
    }
}

#[test]
fn banner_lines_are_recognizable() {
    assert!(!is_version_line(&b"Welcome to the test server\r\n".to_vec()));
    assert!(is_version_line(&b"SSH-2.0-x\r\n".to_vec()));
}

#[test]
fn built_line_parses_back() {
    let line = build_identification_line(&b"rust_custom_ssh_1.0".to_vec());
    assert_eq!(line, b"SSH-2.0-rust_custom_ssh_1.0\r\n".to_vec());
    let id = parse_identification_line(&line, DEFAULT_MAX_IDENT_LINE).unwrap();
    assert_eq!(id.protoversion, b"2.0".to_vec());
    assert_eq!(id.softwareversion, b"rust_custom_ssh_1.0".to_vec());
    assert_eq!(id.comments, None);
}
