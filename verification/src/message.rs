//! The messages of the peer wire protocol. Every message is framed by its
//! length, four bytes in big-endian order; then come one byte for its id and a
//! payload that fills the rest. A message of length zero keeps the connection
//! alive.
use crate::bytes::{append, copy_range};
use crate::endian;
use vstd::prelude::*;

verus! {

/// The id byte of a message.
pub type MessageId = u8;

pub const MSG_CHOKE: MessageId = 0;

pub const MSG_UNCHOKE: MessageId = 1;

pub const MSG_INTERESTED: MessageId = 2;

pub const MSG_NOT_INTERESTED: MessageId = 3;

pub const MSG_HAVE: MessageId = 4;

pub const MSG_BITFIELD: MessageId = 5;

pub const MSG_REQUEST: MessageId = 6;

pub const MSG_PIECE: MessageId = 7;

pub const MSG_CANCEL: MessageId = 8;

/// The id that stands for a keep-alive, which has no id byte of its own.
pub const MSG_KEEP_ALIVE: MessageId = 255;

/// What a message is about.
#[derive(Debug, Clone, Copy, PartialEq, Eq, Structural)]
pub enum MessageKind {
    Choke,
    Unchoke,
    Interested,
    NotInterested,
    Have,
    Bitfield,
    Request,
    Piece,
    Cancel,
    KeepAlive,
}

impl MessageKind {
    /// The id that stands for this kind.
    pub open spec fn spec_id(self) -> MessageId {
        match self {
            MessageKind::Choke => 0,
            MessageKind::Unchoke => 1,
            MessageKind::Interested => 2,
            MessageKind::NotInterested => 3,
            MessageKind::Have => 4,
            MessageKind::Bitfield => 5,
            MessageKind::Request => 6,
            MessageKind::Piece => 7,
            MessageKind::Cancel => 8,
            MessageKind::KeepAlive => 255,
        }
    }

    /// The id that stands for this kind.
    pub fn id(self) -> (id: MessageId)
        ensures
            id == self.spec_id(),
    {
        match self {
            MessageKind::Choke => MSG_CHOKE,
            MessageKind::Unchoke => MSG_UNCHOKE,
            MessageKind::Interested => MSG_INTERESTED,
            MessageKind::NotInterested => MSG_NOT_INTERESTED,
            MessageKind::Have => MSG_HAVE,
            MessageKind::Bitfield => MSG_BITFIELD,
            MessageKind::Request => MSG_REQUEST,
            MessageKind::Piece => MSG_PIECE,
            MessageKind::Cancel => MSG_CANCEL,
            MessageKind::KeepAlive => MSG_KEEP_ALIVE,
        }
    }

    /// The kind that an id stands for, where there is one.
    pub fn from_id(id: MessageId) -> (kind: Option<MessageKind>)
        ensures
            match kind {
                Some(k) => k.spec_id() == id,
                None => forall|k: MessageKind| #[trigger] k.spec_id() != id,
            },
    {
        match id {
            MSG_CHOKE => Some(MessageKind::Choke),
            MSG_UNCHOKE => Some(MessageKind::Unchoke),
            MSG_INTERESTED => Some(MessageKind::Interested),
            MSG_NOT_INTERESTED => Some(MessageKind::NotInterested),
            MSG_HAVE => Some(MessageKind::Have),
            MSG_BITFIELD => Some(MessageKind::Bitfield),
            MSG_REQUEST => Some(MessageKind::Request),
            MSG_PIECE => Some(MessageKind::Piece),
            MSG_CANCEL => Some(MessageKind::Cancel),
            MSG_KEEP_ALIVE => Some(MessageKind::KeepAlive),
            _ => None,
        }
    }
}

/// No two kinds of message share an id.
pub proof fn ids_tell_kinds_apart(a: MessageKind, b: MessageKind)
    requires
        a.spec_id() == b.spec_id(),
    ensures
        a == b,
{
}

/// A message as it was received.
#[derive(Debug)]
pub struct Message {
    pub id: MessageId,
    pub payload: Vec<u8>,
}

/// Why a message could not be read or built.
#[derive(Debug, Clone, Copy, PartialEq, Eq, Structural)]
pub enum MessageError {
    /// The bytes end before the message does.
    Truncated,
    /// No message is built for this id.
    NotImplemented(MessageId),
}

/// The id of the message whose frame holds `body` behind the length.
pub open spec fn body_id(body: Seq<u8>) -> MessageId {
    if body.len() == 0 {
        MSG_KEEP_ALIVE
    } else {
        body[0]
    }
}

/// The payload of the message whose frame holds `body` behind the length.
pub open spec fn body_payload(body: Seq<u8>) -> Seq<u8> {
    if body.len() == 0 {
        Seq::empty()
    } else {
        body.skip(1)
    }
}

/// The frame that carries `body`.
pub open spec fn frame(body: Seq<u8>) -> Seq<u8> {
    endian::bytes_of_u32(body.len() as u32) + body
}

/// The length that the header of a frame announces: how many bytes of the
/// message are still to come.
pub fn message_length(header: &[u8; 4]) -> (length: usize)
    ensures
        length == endian::u32_of_bytes(header@),
{
    endian::read_u32(header) as usize
}

/// The message that a frame carries, from what came behind its length.
pub fn message_from_body(body: &[u8]) -> (message: Message)
    ensures
        message.id == body_id(body@),
        message.payload@ == body_payload(body@),
{
    if body.len() == 0 {
        return Message { id: MSG_KEEP_ALIVE, payload: Vec::new() };
    }
    let message = Message { id: body[0], payload: copy_range(body, 1, body.len()) };
    assert(message.payload@ =~= body@.skip(1));
    message
}

/// Whether `bytes` starts with a whole frame.
pub open spec fn starts_with_frame(bytes: Seq<u8>) -> bool {
    bytes.len() >= 4 && bytes.len() >= 4 + endian::u32_of_bytes(bytes)
}

/// The bytes behind the length in the frame that `bytes` starts with.
pub open spec fn first_body(bytes: Seq<u8>) -> Seq<u8> {
    bytes.subrange(4, 4 + endian::u32_of_bytes(bytes))
}

/// Reads the message at the start of `bytes`, and says how many bytes its frame
/// takes. What stands behind the frame is not looked at.
pub fn read_message(bytes: &[u8]) -> (read: Result<(Message, usize), MessageError>)
    ensures
        match read {
            Ok((message, used)) => {
                &&& starts_with_frame(bytes@)
                &&& message.id == body_id(first_body(bytes@))
                &&& message.payload@ == body_payload(first_body(bytes@))
                &&& used == 4 + endian::u32_of_bytes(bytes@)
            },
            Err(e) => !starts_with_frame(bytes@) && e == MessageError::Truncated,
        },
{
    if bytes.len() < 4 {
        return Err(MessageError::Truncated);
    }
    let header: [u8; 4] = [bytes[0], bytes[1], bytes[2], bytes[3]];
    let length: usize = message_length(&header);
    if bytes.len() - 4 < length {
        return Err(MessageError::Truncated);
    }
    let body = vstd::slice::slice_subrange(bytes, 4, 4 + length);
    Ok((message_from_body(body), 4 + length))
}

/// What a request message carries behind its length: the piece, where in the
/// piece the block begins, and how long it is.
pub open spec fn request_body(index: u32, begin: u32, length: u32) -> Seq<u8> {
    seq![MSG_REQUEST] + endian::bytes_of_u32(index) + endian::bytes_of_u32(begin)
        + endian::bytes_of_u32(length)
}

/// Builds the message that asks for `block_size` bytes of piece `index`, from
/// offset `num_bytes_requested` on.
pub fn build_request_message(index: u32, num_bytes_requested: u32, block_size: u32) -> (built:
    Result<Vec<u8>, MessageError>)
    ensures
        built is Ok,
        built->Ok_0@ == frame(request_body(index, num_bytes_requested, block_size)),
{
    let mut buf: Vec<u8> = Vec::new();
    append(&mut buf, &endian::write_u32(1 + 4 + 4 + 4));
    buf.push(MSG_REQUEST);
    append(&mut buf, &endian::write_u32(index));
    append(&mut buf, &endian::write_u32(num_bytes_requested));
    append(&mut buf, &endian::write_u32(block_size));
    assert(buf@ =~= frame(request_body(index, num_bytes_requested, block_size)));
    Ok(buf)
}

/// Builds a message that has no payload.
fn build_bare_message(id: MessageId) -> (buf: Vec<u8>)
    ensures
        buf@ == frame(seq![id]),
{
    let mut buf: Vec<u8> = Vec::new();
    append(&mut buf, &endian::write_u32(1));
    buf.push(id);
    assert(buf@ =~= frame(seq![id]));
    buf
}

/// Builds the message that tells a peer of our interest.
fn build_interested_message() -> (buf: Vec<u8>)
    ensures
        buf@ == frame(seq![MSG_INTERESTED]),
{
    build_bare_message(MSG_INTERESTED)
}

/// Builds the message that unchokes a peer.
fn build_unchoke_message() -> (buf: Vec<u8>)
    ensures
        buf@ == frame(seq![MSG_UNCHOKE]),
{
    build_bare_message(MSG_UNCHOKE)
}

/// Builds the message with the given id. Only "interested" and "unchoke" are
/// ever sent this way; any other id is refused.
pub fn build_message(id: MessageId) -> (built: Result<Vec<u8>, MessageError>)
    ensures
        match built {
            Ok(buf) => (id == MSG_INTERESTED || id == MSG_UNCHOKE) && buf@ == frame(seq![id]),
            Err(e) => id != MSG_INTERESTED && id != MSG_UNCHOKE && e
                == MessageError::NotImplemented(id),
        },
{
    match id {
        MSG_INTERESTED => Ok(build_interested_message()),
        MSG_UNCHOKE => Ok(build_unchoke_message()),
        _ => Err(MessageError::NotImplemented(id)),
    }
}

/// Whatever body a frame carries is what a reader finds in it, and the reader
/// stops where the frame ends: the frame can be followed by anything.
pub proof fn frame_reads_back(body: Seq<u8>, rest: Seq<u8>)
    requires
        body.len() <= u32::MAX,
    ensures
        frame(body).len() == 4 + body.len(),
        starts_with_frame(frame(body) + rest),
        first_body(frame(body) + rest) == body,
        endian::u32_of_bytes(frame(body) + rest) == body.len(),
{
    let bytes = frame(body) + rest;
    assert(bytes =~= endian::bytes_of_u32(body.len() as u32) + (body + rest));
    endian::u32_round_trip(body.len() as u32, body + rest);
    assert(first_body(bytes) =~= body);
}

/// Every frame is the frame of the body that a reader finds in it.
pub proof fn frames_are_canonical(bytes: Seq<u8>)
    requires
        starts_with_frame(bytes),
    ensures
        frame(first_body(bytes)) == bytes.take(4 + endian::u32_of_bytes(bytes)),
{
    let header = bytes.take(4);
    endian::u32_bytes_round_trip(header);
    assert(endian::u32_of_bytes(header) == endian::u32_of_bytes(bytes));
    assert(frame(first_body(bytes)) =~= bytes.take(4 + endian::u32_of_bytes(bytes)));
}

/// A message without a payload reads back as such, with its id.
pub proof fn bare_message_reads_back(id: MessageId, rest: Seq<u8>)
    ensures
        starts_with_frame(frame(seq![id]) + rest),
        body_id(first_body(frame(seq![id]) + rest)) == id,
        body_payload(first_body(frame(seq![id]) + rest)).len() == 0,
{
    frame_reads_back(seq![id], rest);
}

/// A request that was built reads back as a request for that very block.
pub proof fn request_reads_back(index: u32, begin: u32, length: u32, rest: Seq<u8>)
    ensures
        ({
            let bytes = frame(request_body(index, begin, length)) + rest;
            let payload = body_payload(first_body(bytes));
            &&& starts_with_frame(bytes)
            &&& body_id(first_body(bytes)) == MSG_REQUEST
            &&& payload.len() == 12
            &&& endian::u32_of_bytes(payload) == index
            &&& endian::u32_of_bytes(payload.skip(4)) == begin
            &&& endian::u32_of_bytes(payload.skip(8)) == length
        }),
{
    let body = request_body(index, begin, length);
    frame_reads_back(body, rest);
    endian::u32_round_trip(index, Seq::empty());
    endian::u32_round_trip(begin, Seq::empty());
    endian::u32_round_trip(length, Seq::empty());
    let payload = body.skip(1);
    assert(forall|i: int| 0 <= i < 4 ==> payload[i] == endian::bytes_of_u32(index)[i]);
    assert(forall|i: int| 0 <= i < 4 ==> payload.skip(4)[i] == endian::bytes_of_u32(begin)[i]);
    assert(forall|i: int| 0 <= i < 4 ==> payload.skip(8)[i] == endian::bytes_of_u32(length)[i]);
}

/// A message reads back as it was framed, whatever its id and its payload are.
pub proof fn message_reads_back(id: MessageId, payload: Seq<u8>, rest: Seq<u8>)
    requires
        payload.len() < u32::MAX,
    ensures
        starts_with_frame(frame(seq![id] + payload) + rest),
        body_id(first_body(frame(seq![id] + payload) + rest)) == id,
        body_payload(first_body(frame(seq![id] + payload) + rest)) == payload,
        frame(seq![id] + payload).len() == 5 + payload.len(),
{
    let body = seq![id] + payload;
    frame_reads_back(body, rest);
    assert(body.skip(1) =~= payload);
}

/// Four zero bytes are a keep-alive: a message with the id 255 and no payload.
pub proof fn empty_frame_is_a_keep_alive(rest: Seq<u8>)
    ensures
        frame(Seq::empty()) == seq![0u8, 0, 0, 0],
        starts_with_frame(seq![0u8, 0, 0, 0] + rest),
        body_id(first_body(seq![0u8, 0, 0, 0] + rest)) == 255,
        body_payload(first_body(seq![0u8, 0, 0, 0] + rest)).len() == 0,
{
    assert(frame(Seq::empty()) =~= seq![0u8, 0, 0, 0]);
    frame_reads_back(Seq::empty(), rest);
}

/// A frame is there only with all its bytes.
pub proof fn frame_needs_all_its_bytes(body: Seq<u8>, count: int)
    requires
        body.len() <= u32::MAX,
        0 <= count < 4 + body.len(),
    ensures
        !starts_with_frame(frame(body).take(count)),
{
    frame_reads_back(body, Seq::empty());
    assert(frame(body) + Seq::<u8>::empty() =~= frame(body));
    if count >= 4 {
        assert(endian::u32_of_bytes(frame(body).take(count)) == endian::u32_of_bytes(frame(body)));
    }
}

} // verus!
