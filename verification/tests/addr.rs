use mcapi::addr::{parse_host_port, unix_timestamp, validate_port, ServerImageRequest, ServerRequest};
use mcapi::error::Error;
use mcapi::resolver::{select_srv, srv_lookup_name, SrvRecord};
use mcapi::text::u16_string;

#[test]
fn test_parse_host_with_embedded_port() {
    let (host, port) = parse_host_port("example.com:25570", None);
    assert_eq!(host, "example.com");
    assert_eq!(port, 25570);
}

#[test]
fn test_parse_host_default_port() {
    let (host, port) = parse_host_port("example.com", None);
    assert_eq!(host, "example.com");
    assert_eq!(port, 25565);
}

#[test]
fn test_parse_host_explicit_port_wins() {
    let (host, port) = parse_host_port("example.com", Some(25570));
    assert_eq!(host, "example.com");
    assert_eq!(port, 25570);
}

#[test]
fn test_parse_host_splits_at_last_colon() {
    let (host, port) = parse_host_port("with:colons:123", None);
    assert_eq!(host, "with:colons");
    assert_eq!(port, 123);
}

#[test]
fn test_parse_host_bad_suffix_keeps_host() {
    let (host, port) = parse_host_port("example.com:notaport", None);
    assert_eq!(host, "example.com:notaport");
    assert_eq!(port, 25565);

    let (host, port) = parse_host_port("example.com:99999", None);
    assert_eq!(host, "example.com:99999");
    assert_eq!(port, 25565);
}

#[test]
fn test_server_request_parse_host() {
    let req = ServerRequest {
        host: "example.com:25570".to_string(),
        port: None,
    };
    assert_eq!(req.parse_host(), ("example.com".to_string(), 25570));

    let img = ServerImageRequest {
        host: "example.com".to_string(),
        port: Some(2000),
        title: None,
        theme: None,
    };
    assert_eq!(img.parse_host(), ("example.com".to_string(), 2000));
}

#[test]
fn test_validate_port() {
    assert!(validate_port(25565).is_ok());
    assert!(validate_port(1024).is_ok());
    assert_eq!(validate_port(80), Err(Error::InvalidPort(80)));
    assert_eq!(validate_port(1023), Err(Error::InvalidPort(1023)));
}

#[test]
fn test_unix_timestamp_is_current_era() {
    let now = unix_timestamp();
    assert!(now > 1_600_000_000);
}

#[test]
fn test_u16_string() {
    assert_eq!(u16_string(0), "0");
    assert_eq!(u16_string(7), "7");
    assert_eq!(u16_string(25565), "25565");
    assert_eq!(u16_string(65535), "65535");
}

#[test]
fn test_error_text() {
    assert_eq!(Error::Varint.text(), "invalid varint");
    assert_eq!(Error::PacketTooLarge.text(), "packet too large");
    assert_eq!(Error::InvalidPort(80).text(), "invalid port: 80");
    assert_eq!(Error::ResolveFailed.text(), "failed to resolve host");
    assert_eq!(Error::Timeout.text(), "timed out");
    assert_eq!(Error::Io("refused".to_string()).text(), "io error: refused");
    assert_eq!(
        Error::Number("invalid challenge token".to_string()).text(),
        "number error: invalid challenge token"
    );
}

#[test]
fn test_select_srv() {
    let records: Vec<SrvRecord> = Vec::new();
    assert_eq!(select_srv(&records), None);

    let records = vec![
        SrvRecord {
            priority: 5,
            weight: 1,
            target: "a.example.com".to_string(),
            port: 25565,
        },
        SrvRecord {
            priority: 1,
            weight: 2,
            target: "b.example.com".to_string(),
            port: 25566,
        },
        SrvRecord {
            priority: 1,
            weight: 9,
            target: "c.example.com".to_string(),
            port: 25567,
        },
    ];
    assert_eq!(select_srv(&records), Some(2));
}

#[test]
fn test_srv_lookup_name() {
    assert_eq!(srv_lookup_name("example.com"), "_minecraft._tcp.example.com");
}

#[test]
fn test_parse_host_plus_signed_suffix() {
    let (host, port) = parse_host_port("example.com:+25570", None);
    assert_eq!(host, "example.com");
    assert_eq!(port, 25570);
}

#[test]
fn test_parse_host_empty_suffix() {
    let (host, port) = parse_host_port("example.com:", None);
    assert_eq!(host, "example.com:");
    assert_eq!(port, 25565);
}
