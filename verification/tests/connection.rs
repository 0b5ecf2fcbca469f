use trusti::connection::{connect_to_peer, Connection, ConnectionError};
use trusti::handshake::{create_handshake, Handshake, HandshakeError};
use trusti::message::{Message, MessageError, MSG_BITFIELD, MSG_UNCHOKE};

fn ours() -> Handshake {
    Handshake {
        pstr: "BitTorrent protocol".to_string(),
        info_hash: [7u8; 20],
        peer_id: [3u8; 20],
    }
}

fn greeting() -> Vec<u8> {
    create_handshake(&[7u8; 20], b"-DE13F0-abcdefghijkl")
}

#[test]
fn a_peer_that_sends_its_bitfield_is_connected() {
    let mut reply = greeting();
    reply.extend_from_slice(&[0, 0, 0, 3, 5, 0xf0, 0x80]);
    reply.extend_from_slice(&[0, 0, 0, 1, 1]);
    let (conn, used) = connect_to_peer(&reply, ours()).unwrap();
    assert_eq!(conn.peer_id, "-DE13F0-abcdefghijkl");
    assert_eq!(conn.bitfield, vec![0xf0, 0x80]);
    assert!(conn.choked);
    assert_eq!(used, 75);
    assert_eq!(reply[used..], [0, 0, 0, 1, 1]);
}

#[test]
fn a_peer_that_says_something_else_first_is_not() {
    let mut reply = greeting();
    reply.extend_from_slice(&[0, 0, 0, 1, 1]);
    assert_eq!(connect_to_peer(&reply, ours()).err(), Some(ConnectionError::NotABitfield));
    let mut reply = greeting();
    reply.extend_from_slice(&[0, 0, 0, 0]);
    assert_eq!(connect_to_peer(&reply, ours()).err(), Some(ConnectionError::NotABitfield));
}

#[test]
fn a_peer_that_falls_silent_is_not() {
    let expected = Some(ConnectionError::Message(MessageError::Truncated));
    assert_eq!(connect_to_peer(&greeting(), ours()).err(), expected);
    let mut reply = greeting();
    reply.extend_from_slice(&[0, 0, 0, 3, 5, 0xf0]);
    assert_eq!(connect_to_peer(&reply, ours()).err(), expected);
}

#[test]
fn a_peer_with_another_torrent_or_protocol_is_not() {
    let mut reply = create_handshake(&[8u8; 20], b"-DE13F0-abcdefghijkl");
    reply.extend_from_slice(&[0, 0, 0, 2, 5, 0xf0]);
    assert_eq!(
        connect_to_peer(&reply, ours()).err(),
        Some(ConnectionError::Handshake(HandshakeError::WrongInfoHash))
    );
    let mut other = ours();
    other.pstr = "X".to_string();
    assert_eq!(
        connect_to_peer(&greeting(), other).err(),
        Some(ConnectionError::Handshake(HandshakeError::WrongProtocol))
    );
    assert_eq!(
        connect_to_peer(&[], ours()).err(),
        Some(ConnectionError::Handshake(HandshakeError::Truncated))
    );
}

#[test]
fn connections_begin_choked() {
    let first = Message { id: MSG_BITFIELD, payload: vec![1, 2] };
    let conn = Connection::open("peer".to_string(), first).unwrap();
    assert_eq!((conn.peer_id.as_str(), conn.bitfield, conn.choked), ("peer", vec![1, 2], true));
    let first = Message { id: MSG_UNCHOKE, payload: vec![] };
    assert_eq!(
        Connection::open("peer".to_string(), first).err(),
        Some(ConnectionError::NotABitfield)
    );
}

#[test]
fn the_id_of_a_peer_is_read_before_info_hashes_are_compared() {
    let reply = create_handshake(&[8u8; 20], &[0xff; 20]);
    assert_eq!(
        connect_to_peer(&reply, ours()).err(),
        Some(ConnectionError::Handshake(HandshakeError::PeerIdNotUtf8))
    );
    let reply = create_handshake(&[7u8; 20], &[0xff; 20]);
    assert_eq!(
        connect_to_peer(&reply, ours()).err(),
        Some(ConnectionError::Handshake(HandshakeError::PeerIdNotUtf8))
    );
}
