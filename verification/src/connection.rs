//! What a client knows of a peer that it is connected to.
use crate::handshake;
use crate::handshake::{judge_handshake, Handshake, HandshakeError, TailOrder};
use crate::message;
use crate::message::{read_message, Message, MessageError, MSG_BITFIELD};
use vstd::prelude::*;

verus! {

/// A connection to a peer: who the peer is, which pieces it has, and whether it
/// chokes us, so that it would not answer requests.
#[derive(Debug)]
pub struct Connection {
    pub peer_id: String,
    pub bitfield: Vec<u8>,
    pub choked: bool,
}

/// Why there is no connection to a peer.
#[derive(Debug, Clone, Copy, PartialEq, Eq, Structural)]
pub enum ConnectionError {
    /// The handshake was refused.
    Handshake(HandshakeError),
    /// No whole message followed the handshake.
    Message(MessageError),
    /// The first message was not a bitfield.
    NotABitfield,
}

impl Connection {
    /// Opens the connection to the peer `peer_id` with the first message behind
    /// its handshake, which must be a bitfield. Connections begin choked.
    pub fn open(peer_id: String, first: Message) -> (opened: Result<Connection, ConnectionError>)
        ensures
            match opened {
                Ok(conn) => {
                    &&& first.id == MSG_BITFIELD
                    &&& conn.peer_id@ == peer_id@
                    &&& conn.bitfield@ == first.payload@
                    &&& conn.choked
                },
                Err(e) => first.id != MSG_BITFIELD && e == ConnectionError::NotABitfield,
            },
    {
        if first.id != MSG_BITFIELD {
            return Err(ConnectionError::NotABitfield);
        }
        Ok(Connection { peer_id, bitfield: first.payload, choked: true })
    }
}

/// What a peer says behind its handshake.
pub open spec fn after_handshake(reply: Seq<u8>) -> Seq<u8> {
    reply.skip(49 + reply[0])
}

/// Connects to a peer that answers our handshake `hs` with `reply`, which is all
/// that it says: its own handshake, then its bitfield. The id of the peer is read
/// before the info hashes are compared. Says how many bytes both take together.
pub fn connect_to_peer(reply: &[u8], hs: Handshake) -> (connected: Result<
    (Connection, usize),
    ConnectionError,
>)
    ensures
        ({
            let verdict = handshake::verdict(
                reply@,
                hs.pstr@,
                hs.info_hash@,
                TailOrder::PeerIdFirst,
            );
            let rest = after_handshake(reply@);
            let body = message::first_body(rest);
            match connected {
                Ok((conn, used)) => {
                    &&& verdict == Ok::<Seq<char>, HandshakeError>(conn.peer_id@)
                    &&& message::starts_with_frame(rest)
                    &&& message::body_id(body) == MSG_BITFIELD
                    &&& conn.bitfield@ == message::body_payload(body)
                    &&& conn.choked
                    &&& used == 49 + reply@[0] + 4 + body.len()
                },
                Err(ConnectionError::Handshake(e)) => verdict == Err::<
                    Seq<char>,
                    HandshakeError,
                >(e),
                Err(ConnectionError::Message(e)) => verdict is Ok && !message::starts_with_frame(
                    rest,
                ) && e == MessageError::Truncated,
                Err(ConnectionError::NotABitfield) => verdict is Ok && message::starts_with_frame(
                    rest,
                ) && message::body_id(body) != MSG_BITFIELD,
            }
        }),
{
    let peer_id = match judge_handshake(reply, &hs, TailOrder::PeerIdFirst) {
        Ok(id) => id,
        Err(e) => {
            return Err(ConnectionError::Handshake(e));
        },
    };
    let start: usize = 49 + reply[0] as usize;
    let rest = vstd::slice::slice_subrange(reply, start, reply.len());
    assert(rest@ =~= after_handshake(reply@));
    match read_message(rest) {
        Err(e) => Err(ConnectionError::Message(e)),
        Ok((first, used)) => {
            match Connection::open(peer_id, first) {
                Ok(conn) => Ok((conn, start + used)),
                Err(e) => Err(e),
            }
        },
    }
}

/// A peer that speaks the protocol, shares our torrent, has an id in UTF-8 and
/// then sends its bitfield is connected, under its id and with its pieces.
pub proof fn proper_peer_is_connected(
    info_hash: Seq<u8>,
    peer_id: Seq<u8>,
    bits: Seq<u8>,
    rest: Seq<u8>,
)
    requires
        info_hash.len() == 20,
        peer_id.len() == 20,
        vstd::utf8::valid_utf8(peer_id),
        bits.len() < u32::MAX,
    ensures
        ({
            let reply = handshake::wire(handshake::protocol_name(), info_hash, peer_id) + (
            message::frame(seq![MSG_BITFIELD] + bits) + rest);
            let body = message::first_body(after_handshake(reply));
            let verdict = handshake::verdict(
                reply,
                handshake::protocol_name(),
                info_hash,
                TailOrder::PeerIdFirst,
            );
            &&& verdict == Ok::<Seq<char>, HandshakeError>(vstd::utf8::decode_utf8(peer_id))
            &&& message::starts_with_frame(after_handshake(reply))
            &&& message::body_id(body) == MSG_BITFIELD
            &&& message::body_payload(body) == bits
        }),
{
    let name = handshake::protocol_name();
    let opening = handshake::wire(name, info_hash, peer_id);
    let body = seq![MSG_BITFIELD] + bits;
    let said = message::frame(body) + rest;
    let reply = opening + said;
    assert(vstd::utf8::encode_utf8(name).len() == name.len() == 19) by {
        reveal_strlit("BitTorrent protocol");
        vstd::utf8::is_ascii_chars_encode_utf8(name);
    }
    handshake::handshake_is_judged_by_its_fields(
        name,
        info_hash,
        peer_id,
        said,
        name,
        info_hash,
        TailOrder::PeerIdFirst,
    );
    assert(after_handshake(reply) == said) by {
        handshake::wire_length(name, info_hash, peer_id);
        assert(reply[0] == 19);
        assert(after_handshake(reply) =~= said);
    }
    message::frame_reads_back(body, rest);
    assert(message::body_payload(body) =~= bits);
}

/// What a peer says behind a handshake that agrees with ours is read as it was
/// framed, whatever the peer reserves: its id, and the first message with its id and
/// payload, up to where the frame ends.
pub proof fn first_message_is_read_behind_the_handshake(
    name: Seq<u8>,
    reserved: Seq<u8>,
    info_hash: Seq<u8>,
    peer_id: Seq<u8>,
    id: u8,
    payload: Seq<u8>,
    rest: Seq<u8>,
    order: TailOrder,
)
    requires
        0 < name.len() < 256,
        vstd::utf8::valid_utf8(name),
        vstd::utf8::decode_utf8(name) == "BitTorrent protocol"@,
        reserved.len() == 8,
        info_hash.len() == 20,
        peer_id.len() == 20,
        vstd::utf8::valid_utf8(peer_id),
        payload.len() < u32::MAX,
    ensures
        ({
            let said = message::frame(seq![id] + payload) + rest;
            let reply = seq![name.len() as u8] + name + reserved + info_hash + peer_id + said;
            let verdict = handshake::verdict(reply, "BitTorrent protocol"@, info_hash, order);
            let body = message::first_body(after_handshake(reply));
            &&& verdict == Ok::<Seq<char>, HandshakeError>(vstd::utf8::decode_utf8(peer_id))
            &&& after_handshake(reply) == said
            &&& message::starts_with_frame(said)
            &&& message::body_id(body) == id
            &&& message::body_payload(body) == payload
            &&& 49 + reply[0] + 4 + body.len() == reply.len() - rest.len()
        }),
{
    let said = message::frame(seq![id] + payload) + rest;
    let reply = seq![name.len() as u8] + name + reserved + info_hash + peer_id + said;
    handshake::reserved_bytes_do_not_matter(
        name,
        reserved,
        info_hash,
        peer_id,
        said,
        "BitTorrent protocol"@,
        info_hash,
        order,
    );
    assert(after_handshake(reply) == said) by {
        assert(reply[0] == name.len());
        assert(after_handshake(reply) =~= said);
    }
    message::message_reads_back(id, payload, rest);
    message::frame_reads_back(seq![id] + payload, rest);
}

} // verus!
