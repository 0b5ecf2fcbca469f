//! The handshake that opens a connection: the protocol's name behind its length,
//! eight reserved bytes, the info hash, and the peer id.
use crate::bytes::{append, compare_byte_slices, copy_range};
use vstd::prelude::*;

verus! {

/// How many bytes follow the name of the protocol: the reserved ones, the info
/// hash and the peer id.
pub const TAIL_LENGTH: usize = 48;

/// The name of the protocol that both peers must speak.
pub open spec fn protocol_name() -> Seq<char> {
    "BitTorrent protocol"@
}

/// The name of the protocol that both peers must speak.
pub fn protocol() -> (name: &'static str)
    ensures
        name@ == protocol_name(),
{
    "BitTorrent protocol"
}

/// How a client presents itself: the protocol it speaks, the torrent it shares,
/// and who it is.
#[derive(Debug)]
pub struct Handshake {
    pub pstr: String,
    pub info_hash: [u8; 20],
    pub peer_id: [u8; 20],
}

/// Why the handshake of a peer was refused.
#[derive(Debug, Clone, Copy, PartialEq, Eq, Structural)]
pub enum HandshakeError {
    /// The peer said less than a handshake.
    Truncated,
    /// The name of the protocol is empty.
    EmptyProtocol,
    /// The name of the protocol is not UTF-8.
    ProtocolNotUtf8,
    /// The peer speaks another protocol.
    WrongProtocol,
    /// The peer shares another torrent.
    WrongInfoHash,
    /// The id of the peer is not UTF-8.
    PeerIdNotUtf8,
}

/// A handshake as it travels. The length of the name is one byte: of a longer
/// name it tells the remainder only.
pub open spec fn wire(name: Seq<char>, info_hash: Seq<u8>, peer_id: Seq<u8>) -> Seq<u8> {
    let bytes = vstd::utf8::encode_utf8(name);
    seq![(bytes.len() % 256) as u8] + bytes + seq![0u8, 0, 0, 0, 0, 0, 0, 0] + info_hash + peer_id
}

/// The length of a name as the one byte that is sent of it.
fn length_byte(length: usize) -> (byte: u8)
    ensures
        byte == length % 256,
{
    assert(length as u8 == length % 256) by (bit_vector);
    length as u8
}

/// Builds a handshake as it travels.
fn build(name: &str, info_hash: &[u8], peer_id: &[u8]) -> (buf: Vec<u8>)
    ensures
        buf@ == wire(name@, info_hash@, peer_id@),
{
    let mut buf: Vec<u8> = Vec::new();
    let bytes = name.as_bytes();
    buf.push(length_byte(bytes.len()));
    append(&mut buf, bytes);
    append(&mut buf, &[0u8, 0, 0, 0, 0, 0, 0, 0]);
    append(&mut buf, info_hash);
    append(&mut buf, peer_id);
    assert(buf@ =~= wire(name@, info_hash@, peer_id@));
    buf
}

impl Handshake {
    /// The handshake as it travels.
    pub fn serialize(&self) -> (buf: Vec<u8>)
        ensures
            buf@ == wire(self.pstr@, self.info_hash@, self.peer_id@),
    {
        build(self.pstr.as_str(), &self.info_hash, &self.peer_id)
    }
}

/// The handshake of a client that speaks the BitTorrent protocol, as it travels.
pub fn create_handshake(info_hash: &[u8], peer_id: &[u8]) -> (buf: Vec<u8>)
    ensures
        buf@ == wire(protocol_name(), info_hash@, peer_id@),
{
    build(protocol(), info_hash, peer_id)
}

/// What is looked at first behind the name of the protocol: where both the info hash
/// and the id of a peer are wrong, that is what the peer is refused for.
#[derive(Debug, Clone, Copy, PartialEq, Eq, Structural)]
pub enum TailOrder {
    InfoHashFirst,
    PeerIdFirst,
}

/// What is read of the peer's handshake next.
#[derive(Debug, Clone, Copy, PartialEq, Eq, Structural)]
pub enum HandshakeStage {
    /// The byte that tells how long the name of the protocol is.
    Length,
    /// The name of the protocol, with so many bytes.
    Protocol(usize),
    /// Everything behind the name.
    Tail,
}

/// What the bytes of a stage lead to, if the peer is not refused.
#[derive(Debug)]
pub enum HandshakeStep {
    /// The next stage.
    Next(HandshakeStage),
    /// The end: the peer is accepted, under this id.
    Accepted(String),
}

impl HandshakeStage {
    /// How many bytes the stage takes.
    pub open spec fn spec_bytes_needed(self) -> int {
        match self {
            HandshakeStage::Length => 1,
            HandshakeStage::Protocol(length) => length as int,
            HandshakeStage::Tail => 48,
        }
    }

    /// How many bytes the stage takes.
    pub fn bytes_needed(self) -> (count: usize)
        ensures
            count == self.spec_bytes_needed(),
    {
        match self {
            HandshakeStage::Length => 1,
            HandshakeStage::Protocol(length) => length,
            HandshakeStage::Tail => TAIL_LENGTH,
        }
    }
}

/// What a client that speaks the protocol `ours` and shares `info_hash` makes of
/// everything that a peer says, up to where the peer falls silent: the id of the
/// peer, or why it is refused. The parts are looked at in the order in which they
/// come, but for what `order` says of the last two.
pub open spec fn verdict(
    reply: Seq<u8>,
    ours: Seq<char>,
    info_hash: Seq<u8>,
    order: TailOrder,
) -> Result<Seq<char>, HandshakeError> {
    let length = reply[0] as int;
    let name = reply.subrange(1, 1 + length);
    let tail = reply.subrange(1 + length, 49 + length);
    if reply.len() < 1 {
        Err(HandshakeError::Truncated)
    } else if length == 0 {
        Err(HandshakeError::EmptyProtocol)
    } else if reply.len() < 1 + length {
        Err(HandshakeError::Truncated)
    } else if protocol_fault(name, ours) is Some {
        Err(protocol_fault(name, ours)->0)
    } else if reply.len() < 49 + length {
        Err(HandshakeError::Truncated)
    } else {
        tail_verdict(tail, info_hash, order)
    }
}

/// What is wrong with the name of a protocol, for a client that speaks the protocol
/// `ours`: it must be that of BitTorrent, and both peers must give the same.
pub open spec fn protocol_fault(name: Seq<u8>, ours: Seq<char>) -> Option<HandshakeError> {
    if !vstd::utf8::valid_utf8(name) {
        Some(HandshakeError::ProtocolNotUtf8)
    } else if vstd::utf8::decode_utf8(name) != protocol_name() || vstd::utf8::decode_utf8(name)
        != ours {
        Some(HandshakeError::WrongProtocol)
    } else {
        None
    }
}

/// What a client that shares `info_hash` makes of the part behind the name.
pub open spec fn tail_verdict(tail: Seq<u8>, info_hash: Seq<u8>, order: TailOrder) -> Result<
    Seq<char>,
    HandshakeError,
> {
    let peer_id = tail.subrange(28, 48);
    let wrong_hash = tail.subrange(8, 28) != info_hash;
    let wrong_id = !vstd::utf8::valid_utf8(peer_id);
    if wrong_hash && (order is InfoHashFirst || !wrong_id) {
        Err(HandshakeError::WrongInfoHash)
    } else if wrong_id {
        Err(HandshakeError::PeerIdNotUtf8)
    } else {
        Ok(vstd::utf8::decode_utf8(peer_id))
    }
}

/// Judges the bytes of one stage, for a client whose own handshake is `hs`.
pub fn advance(
    stage: HandshakeStage,
    received: &[u8],
    hs: &Handshake,
    order: TailOrder,
) -> (step: Result<HandshakeStep, HandshakeError>)
    requires
        received@.len() == stage.spec_bytes_needed(),
    ensures
        match stage {
            HandshakeStage::Length => match step {
                Ok(s) => received@[0] != 0 && s == HandshakeStep::Next(
                    HandshakeStage::Protocol(received@[0] as usize),
                ),
                Err(e) => received@[0] == 0 && e == HandshakeError::EmptyProtocol,
            },
            HandshakeStage::Protocol(_) => match step {
                Ok(s) => protocol_fault(received@, hs.pstr@) is None && s == HandshakeStep::Next(
                    HandshakeStage::Tail,
                ),
                Err(e) => protocol_fault(received@, hs.pstr@) == Some(e),
            },
            HandshakeStage::Tail => match step {
                Ok(s) => s matches HandshakeStep::Accepted(id) && tail_verdict(
                    received@,
                    hs.info_hash@,
                    order,
                ) == Ok::<Seq<char>, HandshakeError>(id@),
                Err(e) => tail_verdict(received@, hs.info_hash@, order) == Err::<
                    Seq<char>,
                    HandshakeError,
                >(e),
            },
        },
{
    match stage {
        HandshakeStage::Length => {
            if received[0] == 0 {
                return Err(HandshakeError::EmptyProtocol);
            }
            Ok(HandshakeStep::Next(HandshakeStage::Protocol(received[0] as usize)))
        },
        HandshakeStage::Protocol(_) => {
            let bytes = copy_range(received, 0, received.len());
            assert(bytes@ =~= received@);
            match String::from_utf8(bytes) {
                Err(_) => Err(HandshakeError::ProtocolNotUtf8),
                Ok(name) => {
                    if name != protocol().to_owned() || name != hs.pstr {
                        return Err(HandshakeError::WrongProtocol);
                    }
                    Ok(HandshakeStep::Next(HandshakeStage::Tail))
                },
            }
        },
        HandshakeStage::Tail => {
            let same_hash = compare_byte_slices(
                &hs.info_hash,
                vstd::slice::slice_subrange(received, 8, 8 + 20),
            );
            if let TailOrder::InfoHashFirst = order {
                if !same_hash {
                    return Err(HandshakeError::WrongInfoHash);
                }
            }
            match String::from_utf8(copy_range(received, 8 + 20, TAIL_LENGTH)) {
                Err(_) => Err(HandshakeError::PeerIdNotUtf8),
                Ok(id) => {
                    if !same_hash {
                        return Err(HandshakeError::WrongInfoHash);
                    }
                    Ok(HandshakeStep::Accepted(id))
                },
            }
        },
    }
}

/// Whether `stage` is what a peer that says `reply` is asked for next by a client
/// that speaks the protocol `ours`, once the first `used` bytes have been judged and
/// not refused.
pub open spec fn reached(
    stage: HandshakeStage,
    used: int,
    reply: Seq<u8>,
    ours: Seq<char>,
) -> bool {
    let length = reply[0] as int;
    match stage {
        HandshakeStage::Length => used == 0,
        HandshakeStage::Protocol(n) => {
            &&& used == 1 <= reply.len()
            &&& n == length > 0
        },
        HandshakeStage::Tail => {
            &&& used == 1 + length <= reply.len()
            &&& length > 0
            &&& protocol_fault(reply.subrange(1, 1 + length), ours) is None
        },
    }
}

/// Judges the handshake that a peer sent by our own, `hs`. `reply` is all that the
/// peer said; what comes behind its handshake is not looked at. The result is the id
/// of the peer.
pub fn judge_handshake(reply: &[u8], hs: &Handshake, order: TailOrder) -> (peer: Result<
    String,
    HandshakeError,
>)
    ensures
        match peer {
            Ok(id) => verdict(reply@, hs.pstr@, hs.info_hash@, order) == Ok::<
                Seq<char>,
                HandshakeError,
            >(id@),
            Err(e) => verdict(reply@, hs.pstr@, hs.info_hash@, order) == Err::<
                Seq<char>,
                HandshakeError,
            >(e),
        },
{
    let mut stage: HandshakeStage = HandshakeStage::Length;
    let mut used: usize = 0;
    loop
        invariant
            used <= reply@.len(),
            reached(stage, used as int, reply@, hs.pstr@),
        decreases (match stage {
            HandshakeStage::Length => 2int,
            HandshakeStage::Protocol(_) => 1,
            HandshakeStage::Tail => 0,
        }),
    {
        let count: usize = stage.bytes_needed();
        if reply.len() - used < count {
            return Err(HandshakeError::Truncated);
        }
        let received = vstd::slice::slice_subrange(reply, used, used + count);
        match advance(stage, received, hs, order) {
            Err(e) => {
                return Err(e);
            },
            Ok(HandshakeStep::Accepted(id)) => {
                return Ok(id);
            },
            Ok(HandshakeStep::Next(next)) => {
                stage = next;
            },
        }
        used = used + count;
    }
}

/// Compares the handshake that a peer sent with our own: both must name the
/// BitTorrent protocol, and the peer must share the torrent that we share. A peer
/// that shares another is refused for that, whatever its id. The result is the id
/// of the peer.
pub fn compare_handshakes(reply: &[u8], hs: Handshake) -> (peer: Result<String, HandshakeError>)
    ensures
        ({
            let verdict = verdict(reply@, hs.pstr@, hs.info_hash@, TailOrder::InfoHashFirst);
            match peer {
                Ok(id) => verdict == Ok::<Seq<char>, HandshakeError>(id@),
                Err(e) => verdict == Err::<Seq<char>, HandshakeError>(e),
            }
        }),
{
    judge_handshake(reply, &hs, TailOrder::InfoHashFirst)
}

/// A handshake takes one byte, the name, and 48 more.
pub proof fn wire_length(name: Seq<char>, info_hash: Seq<u8>, peer_id: Seq<u8>)
    requires
        info_hash.len() == 20,
        peer_id.len() == 20,
    ensures
        wire(name, info_hash, peer_id).len() == 49 + vstd::utf8::encode_utf8(name).len(),
{
}

/// What a handshake is answered, whatever is said behind it: a peer is refused
/// for another protocol than BitTorrent or than ours first, then for another torrent
/// or for an id that is not UTF-8, whichever is looked at first; and any other is
/// accepted under its id. A name of 256 bytes or more does not fit the byte for its
/// length.
pub proof fn handshake_is_judged_by_its_fields(
    name: Seq<char>,
    info_hash: Seq<u8>,
    peer_id: Seq<u8>,
    rest: Seq<u8>,
    our_name: Seq<char>,
    our_info_hash: Seq<u8>,
    order: TailOrder,
)
    requires
        info_hash.len() == 20,
        peer_id.len() == 20,
        vstd::utf8::encode_utf8(name).len() < 256,
    ensures
        verdict(wire(name, info_hash, peer_id) + rest, our_name, our_info_hash, order) == (
        if name.len() == 0 {
            Err(HandshakeError::EmptyProtocol)
        } else if name != protocol_name() || name != our_name {
            Err(HandshakeError::WrongProtocol)
        } else if info_hash != our_info_hash && (order is InfoHashFirst || vstd::utf8::valid_utf8(
            peer_id,
        )) {
            Err(HandshakeError::WrongInfoHash)
        } else if !vstd::utf8::valid_utf8(peer_id) {
            Err(HandshakeError::PeerIdNotUtf8)
        } else {
            Ok(vstd::utf8::decode_utf8(peer_id))
        }),
{
    let bytes = vstd::utf8::encode_utf8(name);
    let reply = wire(name, info_hash, peer_id) + rest;
    let length = reply[0] as int;
    vstd::utf8::encode_utf8_valid_utf8(name);
    vstd::utf8::encode_utf8_decode_utf8(name);
    assert(length == bytes.len());
    if name.len() > 0 {
        vstd::utf8::encode_utf8_first_scalar(name);
    }
    let tail = reply.subrange(1 + length, 49 + length);
    assert(reply.subrange(1, 1 + length) =~= bytes);
    assert(tail.subrange(8, 28) =~= info_hash);
    assert(tail.subrange(28, 48) =~= peer_id);
}

/// A handshake is laid out as the length of the name in one byte, the name, eight
/// zero bytes, the info hash and the peer id.
pub proof fn handshake_is_laid_out(name: Seq<char>, info_hash: Seq<u8>, peer_id: Seq<u8>)
    requires
        info_hash.len() == 20,
        peer_id.len() == 20,
    ensures
        ({
            let bytes = wire(name, info_hash, peer_id);
            let length = vstd::utf8::encode_utf8(name).len() as int;
            &&& bytes.len() == 49 + length
            &&& bytes[0] == length % 256
            &&& bytes.subrange(1, 1 + length) == vstd::utf8::encode_utf8(name)
            &&& forall|i: int| 1 + length <= i < 9 + length ==> #[trigger] bytes[i] == 0
            &&& bytes.subrange(9 + length, 29 + length) == info_hash
            &&& bytes.subrange(29 + length, 49 + length) == peer_id
        }),
{
    let bytes = wire(name, info_hash, peer_id);
    let length = vstd::utf8::encode_utf8(name).len() as int;
    assert(bytes.subrange(1, 1 + length) =~= vstd::utf8::encode_utf8(name));
    assert(bytes.subrange(9 + length, 29 + length) =~= info_hash);
    assert(bytes.subrange(29 + length, 49 + length) =~= peer_id);
}

/// What a peer is answered rests on the name of its protocol, its info hash and its
/// id alone, whatever it sends in the eight reserved bytes and behind its handshake.
pub proof fn reserved_bytes_do_not_matter(
    name: Seq<u8>,
    reserved: Seq<u8>,
    info_hash: Seq<u8>,
    peer_id: Seq<u8>,
    rest: Seq<u8>,
    ours: Seq<char>,
    our_info_hash: Seq<u8>,
    order: TailOrder,
)
    requires
        name.len() < 256,
        reserved.len() == 8,
        info_hash.len() == 20,
        peer_id.len() == 20,
    ensures
        verdict(
            seq![name.len() as u8] + name + reserved + info_hash + peer_id + rest,
            ours,
            our_info_hash,
            order,
        ) == (if name.len() == 0 {
            Err(HandshakeError::EmptyProtocol)
        } else if !vstd::utf8::valid_utf8(name) {
            Err(HandshakeError::ProtocolNotUtf8)
        } else if vstd::utf8::decode_utf8(name) != "BitTorrent protocol"@
            || vstd::utf8::decode_utf8(name) != ours {
            Err(HandshakeError::WrongProtocol)
        } else if info_hash == our_info_hash && vstd::utf8::valid_utf8(peer_id) {
            Ok(vstd::utf8::decode_utf8(peer_id))
        } else if info_hash == our_info_hash || (order == TailOrder::PeerIdFirst
            && !vstd::utf8::valid_utf8(peer_id)) {
            Err(HandshakeError::PeerIdNotUtf8)
        } else {
            Err(HandshakeError::WrongInfoHash)
        }),
{
    let reply = seq![name.len() as u8] + name + reserved + info_hash + peer_id + rest;
    let length = name.len() as int;
    let tail = reply.subrange(1 + length, 49 + length);
    assert(reply[0] == length);
    assert(reply.subrange(1, 1 + length) =~= name);
    assert(tail.subrange(8, 28) =~= info_hash);
    assert(tail.subrange(28, 48) =~= peer_id);
}

/// The name of the protocol is judged as soon as it has come: for a wrong one the
/// peer is refused whatever it says next, or if it says nothing more.
pub proof fn wrong_protocol_is_refused_at_once(
    name: Seq<u8>,
    rest: Seq<u8>,
    ours: Seq<char>,
    our_info_hash: Seq<u8>,
    order: TailOrder,
)
    requires
        name.len() < 256,
    ensures
        ({
            let verdict = verdict(seq![name.len() as u8] + name + rest, ours, our_info_hash, order);
            &&& name.len() == 0 ==> verdict == Err::<Seq<char>, HandshakeError>(
                HandshakeError::EmptyProtocol,
            )
            &&& name.len() > 0 && !vstd::utf8::valid_utf8(name) ==> verdict == Err::<
                Seq<char>,
                HandshakeError,
            >(HandshakeError::ProtocolNotUtf8)
            &&& name.len() > 0 && vstd::utf8::valid_utf8(name) && (vstd::utf8::decode_utf8(name)
                != "BitTorrent protocol"@ || vstd::utf8::decode_utf8(name) != ours) ==> verdict
                == Err::<Seq<char>, HandshakeError>(HandshakeError::WrongProtocol)
        }),
{
    let reply = seq![name.len() as u8] + name + rest;
    assert(reply[0] == name.len());
    assert(reply.subrange(1, 1 + name.len() as int) =~= name);
}

/// A peer that falls silent before its handshake is whole, and has not been refused
/// for the name of its protocol, has sent too little.
pub proof fn unfinished_handshake_is_truncated(
    length: u8,
    part: Seq<u8>,
    name: Seq<u8>,
    some: Seq<u8>,
    ours: Seq<char>,
    our_info_hash: Seq<u8>,
    order: TailOrder,
)
    requires
        part.len() < length,
        0 < name.len() < 256,
        vstd::utf8::valid_utf8(name),
        vstd::utf8::decode_utf8(name) == "BitTorrent protocol"@,
        ours == "BitTorrent protocol"@,
        some.len() < 48,
    ensures
        verdict(Seq::empty(), ours, our_info_hash, order) == Err::<Seq<char>, HandshakeError>(
            HandshakeError::Truncated,
        ),
        verdict(seq![length] + part, ours, our_info_hash, order) == Err::<
            Seq<char>,
            HandshakeError,
        >(HandshakeError::Truncated),
        verdict(seq![name.len() as u8] + name + some, ours, our_info_hash, order) == Err::<
            Seq<char>,
            HandshakeError,
        >(HandshakeError::Truncated),
{
    let reply = seq![name.len() as u8] + name + some;
    assert((seq![length] + part)[0] == length);
    assert(reply[0] == name.len());
    assert(reply.subrange(1, 1 + name.len() as int) =~= name);
}

} // verus!
