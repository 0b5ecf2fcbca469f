//! Downloading a piece from a peer: which blocks to ask for and when, what the
//! peer's messages change, and how the blocks make up the piece.
use crate::connection::Connection;
use crate::endian;
use crate::message;
use crate::message::{
    build_request_message, Message, MessageError, MSG_CHOKE, MSG_PIECE, MSG_UNCHOKE,
};
use crate::metainfo;
use crate::piece_request::PieceRequest;
use vstd::prelude::*;

verus! {

/// The most bytes that one request asks for.
pub const MAX_BLOCK_SIZE: u32 = 16384;

/// The most requests that wait for an answer at a time.
pub const MAX_PIPELINED_REQUESTS: i8 = 5;

/// A block of a piece that a peer is asked for.
#[derive(Debug, Clone, Copy, PartialEq, Eq, Structural)]
pub struct BlockRequest {
    pub index: u32,
    pub begin: u32,
    pub length: u32,
}

impl BlockRequest {
    /// The message that asks for this block.
    pub fn to_message(&self) -> (built: Result<Vec<u8>, MessageError>)
        ensures
            built is Ok,
            built->Ok_0@ == message::frame(
                message::request_body(self.index, self.begin, self.length),
            ),
    {
        build_request_message(self.index, self.begin, self.length)
    }
}

/// How far the download of a piece has come.
#[derive(Debug)]
pub struct PieceDownload {
    /// Which piece it is.
    pub index: usize,
    /// How many bytes the piece has.
    pub size: usize,
    /// How many bytes have been asked for.
    pub num_bytes_requested: u32,
    /// How many bytes have come.
    pub num_bytes_downloaded: usize,
    /// How many requests have been sent, less the blocks that have come.
    pub num_pipelined_requests: i8,
}

/// What happens while a piece is downloaded.
#[derive(Debug)]
pub enum DownloadEvent {
    /// The peer sent a message.
    Received(Message),
    /// No message could be read.
    ReadFailed,
}

/// What to do when no message can be read.
#[derive(Debug, Clone, Copy, PartialEq, Eq, Structural)]
pub enum OnReadFailure {
    /// Try again.
    Retry,
    /// Give the download up.
    GiveUp,
}

/// How a download goes on.
#[derive(Debug, Clone, Copy, PartialEq, Eq, Structural)]
pub enum DownloadStep {
    /// Ask for the blocks that are due, then read the next message.
    Continue,
    /// All bytes have come.
    Complete,
    /// The download was given up.
    GaveUp,
}

/// The payload of the piece message that an event brings, where it brings one.
pub open spec fn block_of(event: DownloadEvent) -> Option<Seq<u8>> {
    match event {
        DownloadEvent::Received(message) => if message.id == MSG_PIECE {
            Some(message.payload@)
        } else {
            None
        },
        DownloadEvent::ReadFailed => None,
    }
}

/// Where the block in the payload of a piece message begins.
pub open spec fn payload_begin(payload: Seq<u8>) -> int {
    endian::u32_of_bytes(payload.skip(4))
}

/// The bytes of the block in the payload of a piece message. A payload that ends
/// before the block would begin has none.
pub open spec fn payload_block(payload: Seq<u8>) -> Seq<u8> {
    if payload.len() < 8 {
        Seq::empty()
    } else {
        payload.skip(8)
    }
}

/// Whether the peer chokes us once an event has happened: what it said last counts.
pub open spec fn choked_after(choked: bool, event: DownloadEvent) -> bool {
    match event {
        DownloadEvent::Received(message) => if message.id == MSG_CHOKE {
            true
        } else if message.id == MSG_UNCHOKE {
            false
        } else {
            choked
        },
        DownloadEvent::ReadFailed => choked,
    }
}

/// How long the block is that begins at `begin` in a piece of `size` bytes.
pub open spec fn block_length(size: int, begin: int) -> int {
    metainfo::lesser(MAX_BLOCK_SIZE as int, size - begin)
}

/// How many blocks are between `from` and `to`.
pub open spec fn blocks_between(from: int, to: int) -> int {
    if from < to {
        (to - from + MAX_BLOCK_SIZE - 1) / (MAX_BLOCK_SIZE as int)
    } else {
        0
    }
}

impl PieceDownload {
    /// What every download keeps to: whole blocks have been asked for, none behind
    /// the end of the piece, and no more requests wait than the pipeline has room
    /// for.
    pub open spec fn well_formed(&self) -> bool {
        &&& self.num_bytes_requested <= self.size
        &&& self.num_bytes_requested == self.size || self.num_bytes_requested % MAX_BLOCK_SIZE == 0
        &&& self.num_pipelined_requests <= MAX_PIPELINED_REQUESTS
    }

    /// Whether all bytes have come.
    pub open spec fn complete(&self) -> bool {
        self.num_bytes_downloaded >= self.size
    }

    /// The offset up to which blocks are asked for. It is the size of the piece,
    /// as far as the 32 bits that a request has for an offset can tell it.
    pub open spec fn target(&self) -> int {
        self.size as u32 as int
    }

    /// Where the `i`th of the blocks that have not been asked for begins.
    pub open spec fn begin_of(&self, i: int) -> int {
        self.num_bytes_requested + i * MAX_BLOCK_SIZE
    }

    /// How many requests are due: as many as the pipeline has room for, if so
    /// many blocks are left, but none to a peer that chokes us.
    pub open spec fn due(&self, choked: bool) -> int {
        if choked || self.complete() || self.num_pipelined_requests >= MAX_PIPELINED_REQUESTS {
            0
        } else {
            metainfo::lesser(
                MAX_PIPELINED_REQUESTS - self.num_pipelined_requests,
                blocks_between(self.num_bytes_requested as int, self.target()),
            )
        }
    }

    /// The requests that are due, in the order in which they are sent.
    pub open spec fn requests_due(&self, choked: bool) -> Seq<BlockRequest> {
        Seq::new(
            self.due(choked) as nat,
            |i: int|
                BlockRequest {
                    index: self.index as u32,
                    begin: self.begin_of(i) as u32,
                    length: block_length(self.size as int, self.begin_of(i)) as u32,
                },
        )
    }

    /// How many bytes have been asked for once the requests that are due are sent.
    pub open spec fn requested_after(&self, choked: bool) -> int {
        if self.due(choked) == 0 {
            self.num_bytes_requested as int
        } else {
            metainfo::lesser(self.begin_of(self.due(choked)), self.size as int)
        }
    }

    /// The download once the requests that are due have been sent.
    pub open spec fn after_requests(self, choked: bool) -> PieceDownload {
        PieceDownload {
            num_bytes_requested: self.requested_after(choked) as u32,
            num_pipelined_requests: (self.num_pipelined_requests + self.due(choked)) as i8,
            ..self
        }
    }

    /// The download once an event has been taken in. A block counts by its length,
    /// whatever it holds; nothing else counts.
    pub open spec fn after_event(self, event: DownloadEvent) -> PieceDownload {
        match block_of(event) {
            Some(payload) => PieceDownload {
                num_bytes_downloaded: (self.num_bytes_downloaded + payload_block(payload).len())
                    as usize,
                num_pipelined_requests: (self.num_pipelined_requests - 1) as i8,
                ..self
            },
            None => self,
        }
    }

    /// The download of `request` of which nothing has come or been asked for yet.
    pub open spec fn fresh(request: PieceRequest) -> PieceDownload {
        PieceDownload {
            index: request.index,
            size: request.size,
            num_bytes_requested: 0,
            num_bytes_downloaded: 0,
            num_pipelined_requests: 0,
        }
    }

    /// A download of which nothing has come or been asked for yet.
    pub fn new(request: &PieceRequest) -> (download: PieceDownload)
        ensures
            download == PieceDownload::fresh(*request),
            download.well_formed(),
    {
        PieceDownload {
            index: request.index,
            size: request.size,
            num_bytes_requested: 0,
            num_bytes_downloaded: 0,
            num_pipelined_requests: 0,
        }
    }

    /// Whether all bytes have come.
    pub fn is_complete(&self) -> (complete: bool)
        ensures
            complete == self.complete(),
    {
        self.num_bytes_downloaded >= self.size
    }

    /// Whether the offset behind the requests that are due can be counted. It always
    /// can for pieces whose size fits in 32 bits.
    pub fn can_request(&self, conn: &Connection) -> (can: bool)
        ensures
            can == (self.requested_after(conn.choked) <= u32::MAX),
    {
        let target: u32 = self.size as u32;
        if conn.choked || self.is_complete() || self.num_pipelined_requests
            >= MAX_PIPELINED_REQUESTS || self.num_bytes_requested >= target {
            return true;
        }
        let room: u64 = (MAX_PIPELINED_REQUESTS as i16 - self.num_pipelined_requests as i16) as u64;
        let left: u64 = (target - self.num_bytes_requested) as u64;
        let blocks: u64 = (left + MAX_BLOCK_SIZE as u64 - 1) / MAX_BLOCK_SIZE as u64;
        let due: u64 = if room <= blocks {
            room
        } else {
            blocks
        };
        assert(due == self.due(conn.choked));
        let end: u64 = self.num_bytes_requested as u64 + due * MAX_BLOCK_SIZE as u64;
        assert(end == self.begin_of(due as int));
        end <= u32::MAX as u64 || self.size as u64 <= u32::MAX as u64
    }

    /// The requests that are now to be sent. They count as sent from here on.
    pub fn pending_requests(&mut self, conn: &Connection) -> (requests: Vec<BlockRequest>)
        requires
            old(self).requested_after(conn.choked) <= u32::MAX,
        ensures
            requests@ == old(self).requests_due(conn.choked),
            *final(self) == old(self).after_requests(conn.choked),
            old(self).well_formed() ==> final(self).well_formed(),
    {
        let mut requests: Vec<BlockRequest> = Vec::new();
        let ghost start = *self;
        if conn.choked || self.is_complete() {
            assert(requests@ =~= start.requests_due(conn.choked));
            return requests;
        }
        let size: usize = self.size;
        let target: u32 = size as u32;
        assert(target <= size) by (bit_vector)
            requires
                target == size as u32,
        ;
        while self.num_pipelined_requests < MAX_PIPELINED_REQUESTS && self.num_bytes_requested
            < target
            invariant
                !conn.choked,
                !start.complete(),
                start.requested_after(false) <= u32::MAX,
                target == start.target(),
                target <= size,
                size == start.size,
                self.size == start.size,
                self.index == start.index,
                self.num_bytes_downloaded == start.num_bytes_downloaded,
                requests@.len() <= start.due(false),
                start.due(false) <= blocks_between(start.num_bytes_requested as int, target as int)
                    || start.due(false) == 0,
                self.num_pipelined_requests == start.num_pipelined_requests + requests@.len(),
                self.num_bytes_requested == if requests@.len() == 0 {
                    start.num_bytes_requested as int
                } else {
                    metainfo::lesser(start.begin_of(requests@.len() as int), size as int)
                },
                forall|i: int| #![trigger requests@[i]]
                    0 <= i < requests@.len() ==> requests@[i] == start.requests_due(false)[i],
            decreases MAX_PIPELINED_REQUESTS - self.num_pipelined_requests,
        {
            let left: usize = size - self.num_bytes_requested as usize;
            let block_size: u32 = if left < MAX_BLOCK_SIZE as usize {
                left as u32
            } else {
                MAX_BLOCK_SIZE
            };
            let request = BlockRequest {
                index: self.index as u32,
                begin: self.num_bytes_requested,
                length: block_size,
            };
            proof {
                let k = requests@.len() as int;
                assert(self.num_bytes_requested == start.begin_of(k));
                assert(k < start.due(false));
                assert(request == start.requests_due(false)[k]);
                assert(start.begin_of(k + 1) == start.begin_of(k) + MAX_BLOCK_SIZE);
                assert(metainfo::lesser(start.begin_of(k + 1), size as int)
                    <= start.requested_after(false)) by {
                    assert(start.begin_of(k + 1) <= start.begin_of(start.due(false)))
                        by (nonlinear_arith)
                        requires
                            k + 1 <= start.due(false),
                            start.begin_of(k + 1) == start.num_bytes_requested + (k + 1) * 16384,
                            start.begin_of(start.due(false)) == start.num_bytes_requested
                                + start.due(false) * 16384,
                    ;
                }
            }
            requests.push(request);
            self.num_bytes_requested = self.num_bytes_requested + block_size;
            self.num_pipelined_requests = self.num_pipelined_requests + 1;
        }
        assert(requests@.len() == start.due(false));
        assert(requests@ =~= start.requests_due(conn.choked));
        assert(*self == start.after_requests(conn.choked));
        requests
    }

    /// Whether no count runs over when an event is taken in.
    pub open spec fn counts(&self, event: DownloadEvent) -> bool {
        block_of(event) matches Some(payload) ==> {
            &&& self.num_bytes_downloaded + payload_block(payload).len() <= usize::MAX
            &&& self.num_pipelined_requests > i8::MIN
        }
    }

    /// Whether no count runs over when an event is taken in.
    pub fn can_count(&self, event: &DownloadEvent) -> (can: bool)
        ensures
            can == self.counts(*event),
    {
        match event {
            DownloadEvent::ReadFailed => true,
            DownloadEvent::Received(message) => {
                let block: usize = if message.payload.len() < 8 {
                    0
                } else {
                    message.payload.len() - 8
                };
                message.id != MSG_PIECE || (block <= usize::MAX - self.num_bytes_downloaded
                    && self.num_pipelined_requests > i8::MIN)
            },
        }
    }

    /// Whether an event can be taken in: a block says in its first eight bytes
    /// where it belongs, and no count runs over.
    pub open spec fn accepts(&self, event: DownloadEvent) -> bool {
        &&& self.counts(event)
        &&& block_of(event) matches Some(payload) ==> payload.len() >= 8
    }

    /// Whether an event can be taken in.
    pub fn can_take(&self, event: &DownloadEvent) -> (can: bool)
        ensures
            can == self.accepts(*event),
    {
        match event {
            DownloadEvent::ReadFailed => true,
            DownloadEvent::Received(message) => {
                self.can_count(event) && (message.id != MSG_PIECE || message.payload.len() >= 8)
            },
        }
    }

    /// Takes in what has happened: blocks are counted, and a message that chokes or
    /// unchokes is remembered in the connection.
    pub fn step(
        &mut self,
        conn: &mut Connection,
        event: &DownloadEvent,
        on_read_failure: OnReadFailure,
    ) -> (step: DownloadStep)
        requires
            old(self).accepts(*event),
        ensures
            final(conn).peer_id == old(conn).peer_id,
            final(conn).bitfield == old(conn).bitfield,
            final(conn).choked == choked_after(old(conn).choked, *event),
            *final(self) == old(self).after_event(*event),
            step == (if event is ReadFailed && on_read_failure is GiveUp {
                DownloadStep::GaveUp
            } else if final(self).complete() {
                DownloadStep::Complete
            } else {
                DownloadStep::Continue
            }),
            old(self).well_formed() ==> final(self).well_formed(),
    {
        match event {
            DownloadEvent::ReadFailed => {
                if let OnReadFailure::GiveUp = on_read_failure {
                    return DownloadStep::GaveUp;
                }
            },
            DownloadEvent::Received(message) => {
                match message.id {
                    MSG_UNCHOKE => {
                        conn.choked = false;
                    },
                    MSG_CHOKE => {
                        conn.choked = true;
                    },
                    MSG_PIECE => {
                        self.num_bytes_downloaded =
                        self.num_bytes_downloaded + (message.payload.len() - 8);
                        self.num_pipelined_requests = self.num_pipelined_requests - 1;
                    },
                    _ => {},
                }
            },
        }
        if self.is_complete() {
            DownloadStep::Complete
        } else {
            DownloadStep::Continue
        }
    }
}

/// Why a block cannot be put in its place.
#[derive(Debug, Clone, Copy, PartialEq, Eq, Structural)]
pub enum BlockError {
    /// The payload ends before it has said where the block belongs.
    TooShort,
    /// The block belongs to another piece.
    WrongPiece,
    /// The block begins behind the end of the piece.
    BeginsPastEnd,
    /// The block ends behind the end of the piece.
    EndsPastEnd,
}

/// What is wrong with a block for piece `index`, which has `size` bytes.
pub open spec fn block_fault(size: int, index: int, payload: Seq<u8>) -> Option<BlockError> {
    if payload.len() < 8 {
        Some(BlockError::TooShort)
    } else if endian::u32_of_bytes(payload) != index {
        Some(BlockError::WrongPiece)
    } else if payload_begin(payload) >= size {
        Some(BlockError::BeginsPastEnd)
    } else if payload_begin(payload) + payload_block(payload).len() > size {
        Some(BlockError::EndsPastEnd)
    } else {
        None
    }
}

/// `buf` with the bytes from `begin` on replaced by `block`.
pub open spec fn overlaid(buf: Seq<u8>, begin: int, block: Seq<u8>) -> Seq<u8> {
    Seq::new(
        buf.len(),
        |i: int|
            if begin <= i < begin + block.len() {
                block[i - begin]
            } else {
                buf[i]
            },
    )
}

/// Whether `placed` and `after` are what putting the block of `payload` in its
/// place in `before`, which holds piece `index`, comes to: the block lies where it
/// belongs, or the fault is told and nothing has changed.
pub open spec fn placement(
    before: Seq<u8>,
    index: int,
    payload: Seq<u8>,
    after: Seq<u8>,
    placed: Result<(), BlockError>,
) -> bool {
    match placed {
        Ok(()) => {
            &&& block_fault(before.len() as int, index, payload) is None
            &&& after == overlaid(before, payload_begin(payload), payload_block(payload))
        },
        Err(e) => {
            &&& block_fault(before.len() as int, index, payload) == Some(e)
            &&& after == before
        },
    }
}

/// Room for a piece of `size` bytes, none of which has come yet.
pub fn empty_piece(size: usize) -> (buf: Vec<u8>)
    ensures
        buf@ == Seq::new(size as nat, |i: int| 0u8),
{
    let mut buf: Vec<u8> = Vec::new();
    while buf.len() < size
        invariant
            buf@.len() <= size,
            forall|i: int| 0 <= i < buf@.len() ==> buf@[i] == 0,
        decreases size - buf@.len(),
    {
        buf.push(0);
    }
    assert(buf@ =~= Seq::new(size as nat, |i: int| 0u8));
    buf
}

/// Puts the block that a piece message carries in its place in `buf`, which holds
/// piece `index`. A block that does not belong there changes nothing.
pub fn place_block(buf: &mut Vec<u8>, index: usize, payload: &[u8]) -> (placed: Result<
    (),
    BlockError,
>)
    ensures
        placement(old(buf)@, index as int, payload@, final(buf)@, placed),
{
    if payload.len() < 8 {
        return Err(BlockError::TooShort);
    }
    if endian::read_u32(payload) as usize != index {
        return Err(BlockError::WrongPiece);
    }
    let (header, block) = payload.split_at(8);
    assert(block@ =~= payload_block(payload@));
    let position = vstd::slice::slice_subrange(header, 4, 8);
    let begin: usize = endian::read_u32(position) as usize;
    assert(begin == payload_begin(payload@));
    if begin >= buf.len() {
        return Err(BlockError::BeginsPastEnd);
    }
    if block.len() > buf.len() - begin {
        return Err(BlockError::EndsPastEnd);
    }
    let ghost before = buf@;
    let mut i: usize = 0;
    while i < block.len()
        invariant
            i <= block@.len(),
            buf.len() == before.len(),
            begin + block@.len() <= before.len(),
            forall|j: int| 0 <= j < before.len() ==> #[trigger] buf@[j] == (if begin <= j < begin
                + i {
                block@[j - begin]
            } else {
                before[j]
            }),
        decreases block@.len() - i,
    {
        buf.set(begin + i, block[i]);
        i = i + 1;
    }
    assert(buf@ =~= overlaid(before, begin as int, block@));
    Ok(())
}

/// Keeps what an event brings of piece `index`, whose bytes `buf` holds: a block is
/// put in its place, and any other event brings nothing.
pub fn keep_block(buf: &mut Vec<u8>, index: usize, event: &DownloadEvent) -> (kept: Result<
    (),
    BlockError,
>)
    ensures
        match block_of(*event) {
            Some(payload) => placement(old(buf)@, index as int, payload, final(buf)@, kept),
            None => kept is Ok && final(buf)@ == old(buf)@,
        },
{
    match event {
        DownloadEvent::Received(message) => {
            if message.id == MSG_PIECE {
                place_block(buf, index, message.payload.as_slice())
            } else {
                Ok(())
            }
        },
        DownloadEvent::ReadFailed => Ok(()),
    }
}

} // verus!
