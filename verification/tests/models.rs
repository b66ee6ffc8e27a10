use rust_bittorrent::models::{AnnounceResponse, AnnounceResponseRaw, SocketAddress};

fn v4(ip: [u8; 4], port: u16) -> SocketAddress {
    SocketAddress::V4 { ip, port }
}

fn ip_text(peer: &SocketAddress) -> String {
    match peer {
        SocketAddress::V4 { ip, .. } => format!("{}.{}.{}.{}", ip[0], ip[1], ip[2], ip[3]),
        SocketAddress::V6 { .. } => panic!("expected an IPv4 peer"),
    }
}

#[test]
fn test_announce_response_raw_from_socket_addrs_to_announce_response() {
    let peers = vec![v4([127, 0, 0, 1], 6881), v4([192, 168, 0, 1], 8080)];
    let raw_response = AnnounceResponseRaw::from_socket_addrs(123, &peers);
    let announce_response = AnnounceResponse::from_raw(raw_response);
    assert_eq!(announce_response.interval, 123);
    assert_eq!(announce_response.peers.len(), 2);
    assert_eq!(ip_text(&announce_response.peers[0]), "127.0.0.1");
    assert_eq!(announce_response.peers[0].port(), 6881);
    assert_eq!(ip_text(&announce_response.peers[1]), "192.168.0.1");
    assert_eq!(announce_response.peers[1].port(), 8080);
}

#[test]
fn compact_encoding_bytes() {
    let peers = vec![v4([127, 0, 0, 1], 6881), v4([10, 1, 2, 3], 0x1234)];
    let raw = AnnounceResponseRaw::from_socket_addrs(5, &peers);
    assert_eq!(raw.interval, 5);
    assert_eq!(raw.peers, vec![127, 0, 0, 1, 0x1a, 0xe1, 10, 1, 2, 3, 0x12, 0x34]);
}

#[test]
fn compact_encoding_skips_ipv6_peers() {
    let peers = vec![
        SocketAddress::V6 { segments: [0, 0, 0, 0, 0, 0, 0, 1], port: 80 },
        v4([1, 2, 3, 4], 258),
    ];
    let raw = AnnounceResponseRaw::from_socket_addrs(0, &peers);
    assert_eq!(raw.peers, vec![1, 2, 3, 4, 1, 2]);
    let decoded = AnnounceResponse::from_raw(raw);
    assert_eq!(decoded.peers, vec![v4([1, 2, 3, 4], 258)]);
}

#[test]
fn empty_peer_list_roundtrip() {
    let raw = AnnounceResponseRaw::from_socket_addrs(-7, &[]);
    assert!(raw.peers.is_empty());
    let decoded = AnnounceResponse::from_raw(raw);
    assert_eq!(decoded.interval, -7);
    assert!(decoded.peers.is_empty());
}

#[test]
fn register_request_new_keeps_fields() {
    let r = rust_bittorrent::models::RegisterRequest::new("file", "hash", "peer", "1.2.3.4", 9);
    assert_eq!(r.name, "file");
    assert_eq!(r.info_hash, "hash");
    assert_eq!(r.peer_id, "peer");
    assert_eq!(r.ip, "1.2.3.4");
    assert_eq!(r.port, 9);
}

#[test]
fn compact_list_reencodes_to_its_bytes() {
    let bytes = vec![127, 0, 0, 1, 0x1f, 0x90, 10, 0, 0, 2, 0x1a, 0xe1];
    let decoded = AnnounceResponse::from_raw(AnnounceResponseRaw { interval: 60, peers: bytes.clone() });
    let again = AnnounceResponseRaw::from_socket_addrs(decoded.interval, &decoded.peers);
    assert_eq!(again.interval, 60);
    assert_eq!(again.peers, bytes);
}
