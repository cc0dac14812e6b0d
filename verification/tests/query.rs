use mcapi::error::Error;
use mcapi::query::{
    build_query_handshake, build_stat_request, parse_challenge, parse_plugins, parse_players,
    parse_stat_body, parse_stat_response, random_session_id,
};
use mcapi::strings::string_until_zero;

#[test]
fn test_string_until_zero() {
    let cursor: Vec<u8> = vec![102, 111, 120, 0, 104, 105, 0];

    let (msg, pos) = string_until_zero(&cursor, 0);
    assert!(!msg.is_none());
    assert_eq!(msg.unwrap(), "fox");

    let (msg, pos) = string_until_zero(&cursor, pos);
    assert!(!msg.is_none());
    assert_eq!(msg.unwrap(), "hi");

    let (msg, _) = string_until_zero(&cursor, pos);
    assert!(msg.is_none());
}

#[test]
fn test_string_until_zero_lossy() {
    // invalid UTF-8 becomes a replacement character, not the raw byte
    let cursor: Vec<u8> = vec![0xFF, 0x61, 0x00];
    let (msg, _) = string_until_zero(&cursor, 0);
    assert_eq!(msg.unwrap(), "\u{FFFD}a");
}

#[test]
fn test_parse_plugins() {
    let plugins = parse_plugins(None);
    assert_eq!(plugins.0, "");
    assert_eq!(plugins.1.len(), 0);

    let plugins = parse_plugins(Some("CraftBukkit on Bukkit 1.2.5-R4.0".to_string()));
    assert_eq!(plugins.0, "CraftBukkit on Bukkit 1.2.5-R4.0");
    assert_eq!(plugins.1.len(), 0);

    let plugins = parse_plugins(Some(
        "CraftBukkit on Bukkit 1.2.5-R4.0: WorldEdit 5.3; CommandBook 2.1".to_string(),
    ));
    assert_eq!(plugins.0, "CraftBukkit on Bukkit 1.2.5-R4.0");
    assert_eq!(plugins.1, vec!["WorldEdit 5.3", "CommandBook 2.1"]);
}

#[test]
fn test_parse_players() {
    let cursor: Vec<u8> = vec![97, 0, 98, 0, 99, 0, 0];
    let players = parse_players(&cursor, 0, false);

    assert_eq!(players, vec!["a", "b", "c"]);
}

#[test]
fn test_parse_players_with_padding() {
    let mut cursor: Vec<u8> = vec![0xAB; 10];
    cursor.extend_from_slice(b"alpha\0beta\0\0");
    let players = parse_players(&cursor, 0, true);

    assert_eq!(players, vec!["alpha", "beta"]);
}

#[test]
fn test_parse_stat_body() {
    let mut body: Vec<u8> = Vec::new();
    body.extend_from_slice(b"hostname\0A Server\0");
    body.extend_from_slice(b"map\0world\0");
    body.extend_from_slice(b"plugins\0CraftBukkit on Bukkit 1.2.5-R4.0: WorldEdit 5.3; CommandBook 2.1\0");
    body.extend_from_slice(b"map\0nether\0");
    body.push(0x00);
    body.extend_from_slice(&[0xAB; 10]);
    body.extend_from_slice(b"alpha\0beta\0");

    let q = parse_stat_body(&body);

    assert_eq!(q.kv.len(), 2);
    let map_val = q
        .kv
        .iter()
        .find(|(k, _)| k == "map")
        .map(|(_, v)| v.clone())
        .unwrap();
    assert_eq!(map_val, "nether");
    let host_val = q
        .kv
        .iter()
        .find(|(k, _)| k == "hostname")
        .map(|(_, v)| v.clone())
        .unwrap();
    assert_eq!(host_val, "A Server");

    assert_eq!(q.server.0, "CraftBukkit on Bukkit 1.2.5-R4.0");
    assert_eq!(q.server.1, vec!["WorldEdit 5.3", "CommandBook 2.1"]);
    assert_eq!(q.players, vec!["alpha", "beta"]);
}

#[test]
fn test_parse_stat_response() {
    let mut datagram: Vec<u8> = vec![0x00; 16];
    datagram.extend_from_slice(b"hostname\0A Server\0\0");
    datagram.extend_from_slice(&[0xAB; 10]);
    datagram.extend_from_slice(b"solo\0\0");
    datagram.push(0x00);
    let len = datagram.len();

    let q = parse_stat_response(&datagram, len).unwrap();
    assert_eq!(q.kv.len(), 1);
    assert_eq!(q.players, vec!["solo"]);
    assert_eq!(q.server.0, "");

    let short: Vec<u8> = vec![0x00; 8];
    assert!(matches!(
        parse_stat_response(&short, 8),
        Err(Error::Io(_))
    ));
}

#[test]
fn test_parse_challenge() {
    let mut buf: Vec<u8> = vec![0x09, 0x01, 0x01, 0x01, 0x01];
    buf.extend_from_slice(b"9513307\0");
    let len = buf.len();
    assert_eq!(parse_challenge(&buf, len).unwrap(), 9513307);

    let mut buf: Vec<u8> = vec![0x09, 0x01, 0x01, 0x01, 0x01];
    buf.extend_from_slice(b"-42\0");
    let len = buf.len();
    assert_eq!(parse_challenge(&buf, len).unwrap(), -42);

    let mut buf: Vec<u8> = vec![0x09, 0x01, 0x01, 0x01, 0x01];
    buf.extend_from_slice(b"12a4\0");
    let len = buf.len();
    assert!(matches!(parse_challenge(&buf, len), Err(Error::Number(_))));

    let mut buf: Vec<u8> = vec![0x09, 0x01, 0x01, 0x01, 0x01];
    buf.extend_from_slice(b"99999999999\0");
    let len = buf.len();
    assert!(matches!(parse_challenge(&buf, len), Err(Error::Number(_))));

    let empty: Vec<u8> = vec![0x09, 0x01];
    assert!(matches!(parse_challenge(&empty, 2), Err(Error::Number(_))));
}

#[test]
fn test_build_query_handshake() {
    let packet = build_query_handshake(0x01020304);
    assert_eq!(packet, vec![0xFE, 0xFD, 0x09, 0x01, 0x02, 0x03, 0x04]);
}

#[test]
fn test_build_stat_request() {
    let packet = build_stat_request(0x01020304, -2);
    assert_eq!(
        packet,
        vec![0xFE, 0xFD, 0x00, 0x01, 0x02, 0x03, 0x04, 0xFF, 0xFF, 0xFF, 0xFE, 0x00, 0x00, 0x00, 0x00]
    );

    let packet = build_stat_request(0, 9513307);
    assert_eq!(
        packet,
        vec![0xFE, 0xFD, 0x00, 0x00, 0x00, 0x00, 0x00, 0x00, 0x91, 0x29, 0x5B, 0x00, 0x00, 0x00, 0x00]
    );
}

#[test]
fn test_random_session_id_mask() {
    for _ in 0..32 {
        let id = random_session_id();
        assert_eq!(id & 0xF0F0_F0F0, 0);
    }
}

#[test]
fn test_parse_players_short_padding() {
    let cursor: Vec<u8> = vec![0xAB, 0xAB, 0xAB];
    let players = parse_players(&cursor, 0, true);
    assert!(players.is_empty());
}

#[test]
fn test_parse_plugins_splits_whole_suffix() {
    let plugins = parse_plugins(Some("Paper on Bukkit: WorldEdit 5.3".to_string()));
    assert_eq!(plugins.0, "Paper on Bukkit");
    assert_eq!(plugins.1, vec!["WorldEdit 5.3"]);
}
