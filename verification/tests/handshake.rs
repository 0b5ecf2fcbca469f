use trusti::handshake::{
    advance, compare_handshakes, create_handshake, judge_handshake, protocol, Handshake,
    HandshakeError, HandshakeStage, HandshakeStep, TailOrder,
};

fn ours() -> Handshake {
    Handshake {
        pstr: "BitTorrent protocol".to_string(),
        info_hash: [2u8; 20],
        peer_id: [3u8; 20],
    }
}

fn reply(name: &[u8], info_hash: [u8; 20], peer_id: [u8; 20]) -> Vec<u8> {
    let mut bytes = vec![name.len() as u8];
    bytes.extend_from_slice(name);
    bytes.extend_from_slice(&[0u8; 8]);
    bytes.extend_from_slice(&info_hash);
    bytes.extend_from_slice(&peer_id);
    bytes
}

#[test]
fn test_serialize() {
    let hs = Handshake {
        pstr: "BitTorrent protocol".to_string(),
        info_hash: [2u8; 20],
        peer_id: [3u8; 20],
    };

    let serialized = hs.serialize();
    assert_eq!(serialized[0], 19);
    let pstr = String::from_utf8(serialized[1..20].to_owned()).unwrap();
    assert_eq!(pstr, "BitTorrent protocol");
    assert_eq!(serialized[20..28], [0u8; 8]);
    assert_eq!(serialized[28..48], [2u8; 20]);
    assert_eq!(serialized[48..68], [3u8; 20]);
}

#[test]
fn a_handshake_takes_49_bytes_and_the_name() {
    assert_eq!(ours().serialize().len(), 68);
    let nameless = Handshake { pstr: String::new(), info_hash: [1; 20], peer_id: [1; 20] };
    assert_eq!(nameless.serialize().len(), 49);
    assert_eq!(nameless.serialize()[0], 0);
}

#[test]
fn the_length_byte_of_a_long_name_wraps() {
    let hs = Handshake { pstr: "x".repeat(300), info_hash: [1; 20], peer_id: [1; 20] };
    let serialized = hs.serialize();
    assert_eq!(serialized[0], 44);
    assert_eq!(serialized.len(), 349);
}

#[test]
fn created_and_serialized_handshakes_agree() {
    assert_eq!(protocol(), "BitTorrent protocol");
    assert_eq!(create_handshake(&[2u8; 20], &[3u8; 20]), ours().serialize());
}

#[test]
fn a_matching_handshake_gives_the_peer_id() {
    let said = reply(b"BitTorrent protocol", [2; 20], *b"-DE13F0-abcdefghijkl");
    assert_eq!(compare_handshakes(&said, ours()), Ok("-DE13F0-abcdefghijkl".to_string()));
}

#[test]
fn what_follows_a_handshake_is_not_looked_at() {
    let mut said = reply(b"BitTorrent protocol", [2; 20], *b"-DE13F0-abcdefghijkl");
    said.extend_from_slice(&[255, 254, 253]);
    assert_eq!(compare_handshakes(&said, ours()), Ok("-DE13F0-abcdefghijkl".to_string()));
}

#[test]
fn reserved_bytes_do_not_matter() {
    let mut said = reply(b"BitTorrent protocol", [2; 20], [b'p'; 20]);
    for i in 20..28 {
        said[i] = 0xff;
    }
    assert_eq!(compare_handshakes(&said, ours()), Ok("p".repeat(20)));
}

#[test]
fn a_peer_id_may_be_any_utf8() {
    let mut id = [b'a'; 20];
    id[0..2].copy_from_slice("\u{e9}".as_bytes());
    let said = reply(b"BitTorrent protocol", [2; 20], id);
    let expected = format!("\u{e9}{}", "a".repeat(18));
    assert_eq!(compare_handshakes(&said, ours()), Ok(expected));
}

#[test]
fn an_empty_protocol_is_refused() {
    assert_eq!(compare_handshakes(&[0], ours()), Err(HandshakeError::EmptyProtocol));
    let said = reply(b"", [2; 20], [b'p'; 20]);
    assert_eq!(compare_handshakes(&said, ours()), Err(HandshakeError::EmptyProtocol));
}

#[test]
fn a_protocol_that_is_not_utf8_is_refused() {
    assert_eq!(compare_handshakes(&[1, 0xff], ours()), Err(HandshakeError::ProtocolNotUtf8));
}

#[test]
fn another_protocol_is_refused() {
    let said = reply(b"BitTorrent protocoL", [2; 20], [b'p'; 20]);
    assert_eq!(compare_handshakes(&said, ours()), Err(HandshakeError::WrongProtocol));
    // The name alone is enough to tell.
    assert_eq!(compare_handshakes(&[1, b'x'], ours()), Err(HandshakeError::WrongProtocol));
}

#[test]
fn both_peers_must_name_the_same_protocol() {
    let with_name = |name: &str| Handshake {
        pstr: name.to_string(),
        info_hash: [2u8; 20],
        peer_id: [3u8; 20],
    };
    let said = reply(b"BitTorrent protocol", [2; 20], [3; 20]);
    assert_eq!(compare_handshakes(&said, with_name("X")), Err(HandshakeError::WrongProtocol));
    assert_eq!(compare_handshakes(&said, with_name("")), Err(HandshakeError::WrongProtocol));
    assert!(compare_handshakes(&said, with_name("BitTorrent protocol")).is_ok());
    // To agree on another protocol is not enough.
    let said = reply(b"X", [2; 20], [3; 20]);
    assert_eq!(compare_handshakes(&said, with_name("X")), Err(HandshakeError::WrongProtocol));
}

#[test]
fn another_torrent_is_refused() {
    let mut info_hash = [2; 20];
    info_hash[19] = 3;
    let said = reply(b"BitTorrent protocol", info_hash, [b'p'; 20]);
    assert_eq!(compare_handshakes(&said, ours()), Err(HandshakeError::WrongInfoHash));
    // It is refused before the id of the peer is looked at.
    let said = reply(b"BitTorrent protocol", info_hash, [0xff; 20]);
    assert_eq!(compare_handshakes(&said, ours()), Err(HandshakeError::WrongInfoHash));
}

#[test]
fn the_order_decides_between_two_faults() {
    let judge = |said: &[u8], order| judge_handshake(said, &ours(), order);
    let both = reply(b"BitTorrent protocol", [9; 20], [0xff; 20]);
    let hash = reply(b"BitTorrent protocol", [9; 20], [b'p'; 20]);
    let id = reply(b"BitTorrent protocol", [2; 20], [0xff; 20]);
    let none = reply(b"BitTorrent protocol", [2; 20], [b'p'; 20]);
    assert_eq!(judge(&both, TailOrder::InfoHashFirst), Err(HandshakeError::WrongInfoHash));
    assert_eq!(judge(&both, TailOrder::PeerIdFirst), Err(HandshakeError::PeerIdNotUtf8));
    for order in [TailOrder::InfoHashFirst, TailOrder::PeerIdFirst] {
        assert_eq!(judge(&hash, order), Err(HandshakeError::WrongInfoHash));
        assert_eq!(judge(&id, order), Err(HandshakeError::PeerIdNotUtf8));
        assert_eq!(judge(&none, order), Ok("p".repeat(20)));
    }
}

#[test]
fn a_peer_id_that_is_not_utf8_is_refused() {
    let said = reply(b"BitTorrent protocol", [2; 20], [0xff; 20]);
    assert_eq!(compare_handshakes(&said, ours()), Err(HandshakeError::PeerIdNotUtf8));
}

#[test]
fn half_a_handshake_is_refused() {
    let said = reply(b"BitTorrent protocol", [2; 20], [b'p'; 20]);
    for end in 0..said.len() {
        assert_eq!(
            compare_handshakes(&said[..end], ours()),
            Err(HandshakeError::Truncated),
            "after {} bytes",
            end
        );
    }
    assert!(compare_handshakes(&said, ours()).is_ok());
}

#[test]
fn a_handshake_can_be_read_stage_by_stage() {
    let said = reply(b"BitTorrent protocol", [2; 20], [b'p'; 20]);
    let hs = ours();
    let mut stage = HandshakeStage::Length;
    let mut used = 0;
    let mut counts = Vec::new();
    let id = loop {
        let count = stage.bytes_needed();
        counts.push(count);
        match advance(stage, &said[used..used + count], &hs, TailOrder::InfoHashFirst) {
            Ok(HandshakeStep::Next(next)) => stage = next,
            Ok(HandshakeStep::Accepted(id)) => break id,
            Err(e) => panic!("{:?}", e),
        }
        used += count;
    };
    assert_eq!(counts, vec![1, 19, 48]);
    assert_eq!(id, "p".repeat(20));
}
