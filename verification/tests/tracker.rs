use trusti::tracker::{
    bytes_to_socket_addr, peer_to_socket_addr, PeerAddress, Tracker, TrackerError,
};

#[test]
fn an_address_is_four_octets_and_a_port() {
    let expected = PeerAddress { octets: [192, 168, 0, 1], port: 6881 };
    let chunk = [192, 168, 0, 1, 0x1a, 0xe1];
    assert_eq!(bytes_to_socket_addr(&chunk), Ok(expected));
    assert_eq!(peer_to_socket_addr(&chunk), expected);
}

#[test]
fn what_follows_an_address_is_ignored() {
    let chunk = [1, 2, 3, 4, 0, 80, 9, 9];
    assert_eq!(peer_to_socket_addr(&chunk), PeerAddress { octets: [1, 2, 3, 4], port: 80 });
    assert_eq!(
        bytes_to_socket_addr(&chunk),
        Ok(PeerAddress { octets: [1, 2, 3, 4], port: 80 })
    );
}

#[test]
fn a_port_that_is_cut_off_is_refused() {
    assert_eq!(bytes_to_socket_addr(&[1, 2, 3, 4]), Err(TrackerError::TruncatedPort));
    assert_eq!(bytes_to_socket_addr(&[1, 2, 3, 4, 5]), Err(TrackerError::TruncatedPort));
}

#[test]
fn peers_come_in_the_order_of_the_reply() {
    let tracker = Tracker { peers: vec![10, 0, 0, 1, 0, 1, 255, 254, 253, 252, 0xff, 0xff] };
    assert_eq!(
        tracker.get_peers(),
        Ok(vec![
            PeerAddress { octets: [10, 0, 0, 1], port: 1 },
            PeerAddress { octets: [255, 254, 253, 252], port: 65535 },
        ])
    );
}

#[test]
fn an_empty_reply_has_no_peers() {
    assert_eq!(Tracker { peers: vec![] }.get_peers(), Ok(vec![]));
}

#[test]
fn a_reply_that_ends_within_a_port_is_refused() {
    let tracker = Tracker { peers: vec![1, 2, 3, 4, 5, 6, 7, 8, 9, 10] };
    assert_eq!(tracker.get_peers(), Err(TrackerError::TruncatedPort));
    let tracker = Tracker { peers: vec![1, 2, 3, 4, 5, 6, 7, 8, 9, 10, 11] };
    assert_eq!(tracker.get_peers(), Err(TrackerError::TruncatedPort));
}

#[test]
fn a_compact_list_reads_back() {
    let peers: Vec<PeerAddress> =
        (0..50u8).map(|i| PeerAddress { octets: [i, 1, 2, 255 - i], port: 300 * i as u16 }).collect();
    let mut bytes = Vec::new();
    for peer in &peers {
        bytes.extend_from_slice(&peer.octets);
        bytes.extend_from_slice(&peer.port.to_be_bytes());
    }
    assert_eq!(Tracker { peers: bytes }.get_peers(), Ok(peers));
}
