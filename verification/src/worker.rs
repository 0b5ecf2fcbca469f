//! What a worker does: it takes requests for pieces from a queue that it shares
//! with other workers, downloads them from its peer, checks them, and delivers
//! them. A request that it cannot serve goes back to the queue.
use crate::bitfield;
use crate::bitfield::bitfield_contains_index;
use crate::bytes::compare_byte_slices;
use crate::digest;
use crate::downloaded_piece::DownloadedPiece;
use crate::message::{MessageId, MSG_INTERESTED, MSG_UNCHOKE};
use crate::piece_request::PieceRequest;
use vstd::multiset::Multiset;
use vstd::prelude::*;

verus! {

/// What a worker is doing.
#[derive(Debug)]
pub enum WorkerState {
    /// It waits for a request from the queue.
    Idle,
    /// It downloads a piece.
    Busy(PieceRequest),
    /// It is done.
    Stopped,
}

/// What happens to a worker.
#[derive(Debug)]
pub enum WorkerEvent {
    /// The queue gave it a request.
    Request(PieceRequest),
    /// The queue is closed.
    QueueClosed,
    /// The piece has come.
    Downloaded(DownloadedPiece),
    /// The piece could not be downloaded.
    DownloadFailed,
}

/// What a worker does next.
#[derive(Debug)]
pub enum WorkerAction {
    /// Put the request back in the queue, then wait for the next.
    Requeue(PieceRequest),
    /// Download the piece.
    Download(PieceRequest),
    /// Deliver the piece, then wait for the next request.
    Deliver(DownloadedPiece),
    /// Close the connection, put the request back in the queue, and fail.
    Abandon(PieceRequest),
    /// End.
    Finish,
}

/// The messages that a worker sends before anything else, in this order.
pub fn greeting() -> (ids: [MessageId; 2])
    ensures
        ids@ == seq![MSG_UNCHOKE, MSG_INTERESTED],
{
    let ids: [MessageId; 2] = [MSG_UNCHOKE, MSG_INTERESTED];
    assert(ids@ =~= seq![MSG_UNCHOKE, MSG_INTERESTED]);
    ids
}

/// Whether a peer with the given bitfield has a piece. An index is looked up as a
/// signed number.
pub open spec fn peer_has(bits: Seq<u8>, index: usize) -> bool {
    index <= isize::MAX && bitfield::has_piece(bits, index as int)
}

/// Whether the bytes of a piece have the hash that was asked for.
pub open spec fn is_intact(request: PieceRequest, piece: DownloadedPiece) -> bool {
    digest::sha1_of(piece.buf@) == request.hash@
}

/// Whether a worker in state `state` can meet with `event`.
pub open spec fn can_meet(state: WorkerState, event: WorkerEvent, bits: Seq<u8>) -> bool {
    match event {
        WorkerEvent::Request(request) => state is Idle && (bits.len() == 0 || request.index
            <= usize::MAX - 7),
        WorkerEvent::QueueClosed => state is Idle,
        WorkerEvent::Downloaded(piece) => state is Busy && piece.buf@.len()
            <= digest::MAX_DIGEST_INPUT,
        WorkerEvent::DownloadFailed => state is Busy,
    }
}

/// Whether a worker whose peer has the pieces `bits` goes from `state` to `next`
/// and does `action` when it meets with `event`.
pub open spec fn transition(
    state: WorkerState,
    event: WorkerEvent,
    bits: Seq<u8>,
    next: WorkerState,
    action: WorkerAction,
) -> bool {
    match event {
        WorkerEvent::Request(request) => if peer_has(bits, request.index) {
            &&& next == WorkerState::Busy(request)
            &&& action matches WorkerAction::Download(copy) && copy.same(request)
        } else {
            &&& next is Idle
            &&& action == WorkerAction::Requeue(request)
        },
        WorkerEvent::QueueClosed => next is Stopped && action is Finish,
        WorkerEvent::Downloaded(piece) => {
            &&& next is Idle
            &&& action == settled(state->Busy_0, piece, digest::sha1_of(piece.buf@))
        },
        WorkerEvent::DownloadFailed => {
            &&& next is Stopped
            &&& action == WorkerAction::Abandon(state->Busy_0)
        },
    }
}

/// What becomes of a piece whose bytes have the digest `found`: it is delivered,
/// or asked for anew.
pub open spec fn settled(request: PieceRequest, piece: DownloadedPiece, found: Seq<u8>) -> WorkerAction {
    if request.hash@ == found {
        WorkerAction::Deliver(piece)
    } else {
        WorkerAction::Requeue(request)
    }
}

/// Whether the peer has a piece.
fn peer_has_piece(bits: &Vec<u8>, index: usize) -> (offered: bool)
    requires
        bits@.len() == 0 || index <= usize::MAX - 7,
    ensures
        offered == peer_has(bits@, index),
{
    if index > isize::MAX as usize {
        return false;
    }
    bitfield_contains_index(bits, index as isize)
}

/// Settles a download, once the digest of its bytes has been found.
pub fn settle(request: PieceRequest, piece: DownloadedPiece, found: &[u8]) -> (action: WorkerAction)
    ensures
        action == settled(request, piece, found@),
{
    if compare_byte_slices(request.hash.as_slice(), found) {
        WorkerAction::Deliver(piece)
    } else {
        WorkerAction::Requeue(request)
    }
}

/// What a worker whose peer has the pieces `bits` makes of an event.
pub fn step(state: WorkerState, event: WorkerEvent, bits: &Vec<u8>) -> (after: (
    WorkerState,
    WorkerAction,
))
    requires
        can_meet(state, event, bits@),
    ensures
        transition(state, event, bits@, after.0, after.1),
{
    match event {
        WorkerEvent::Request(request) => {
            if peer_has_piece(bits, request.index) {
                let copy = request.clone();
                (WorkerState::Busy(request), WorkerAction::Download(copy))
            } else {
                (WorkerState::Idle, WorkerAction::Requeue(request))
            }
        },
        WorkerEvent::QueueClosed => (WorkerState::Stopped, WorkerAction::Finish),
        WorkerEvent::Downloaded(piece) => {
            match state {
                WorkerState::Busy(request) => {
                    let found = digest::sha1_digest(piece.buf.as_slice());
                    (WorkerState::Idle, settle(request, piece, &found))
                },
                _ => (WorkerState::Stopped, WorkerAction::Finish),
            }
        },
        WorkerEvent::DownloadFailed => {
            match state {
                WorkerState::Busy(request) => {
                    (WorkerState::Stopped, WorkerAction::Abandon(request))
                },
                _ => (WorkerState::Stopped, WorkerAction::Finish),
            }
        },
    }
}

/// The request that a worker has in its hands when it meets with an event.
pub open spec fn in_hand(state: WorkerState, event: WorkerEvent) -> Option<PieceRequest> {
    match event {
        WorkerEvent::Request(request) => Some(request),
        _ => match state {
            WorkerState::Busy(request) => Some(request),
            _ => None,
        },
    }
}

/// No request is lost: what a worker has in its hands it keeps to download it, or
/// puts back in the queue, or answers with a piece that has the right hash.
pub proof fn no_request_is_lost(
    state: WorkerState,
    event: WorkerEvent,
    bits: Seq<u8>,
    next: WorkerState,
    action: WorkerAction,
)
    requires
        can_meet(state, event, bits),
        transition(state, event, bits, next, action),
        in_hand(state, event) is Some,
    ensures
        ({
            let request = in_hand(state, event)->0;
            ||| next == WorkerState::Busy(request)
            ||| action == WorkerAction::Requeue(request)
            ||| action == WorkerAction::Abandon(request)
            ||| action matches WorkerAction::Deliver(piece) && is_intact(request, piece)
        }),
{
}

/// The requests that a worker has in its hands.
pub open spec fn held(state: WorkerState) -> Multiset<PieceRequest> {
    match state {
        WorkerState::Busy(request) => Multiset::singleton(request),
        _ => Multiset::empty(),
    }
}

/// The requests that an event takes from the queue.
pub open spec fn taken(event: WorkerEvent) -> Multiset<PieceRequest> {
    match event {
        WorkerEvent::Request(request) => Multiset::singleton(request),
        _ => Multiset::empty(),
    }
}

/// The requests that an action puts back in the queue.
pub open spec fn returned(action: WorkerAction) -> Multiset<PieceRequest> {
    match action {
        WorkerAction::Requeue(request) => Multiset::singleton(request),
        WorkerAction::Abandon(request) => Multiset::singleton(request),
        _ => Multiset::empty(),
    }
}

/// The requests that an action answers with a piece.
pub open spec fn answered(state: WorkerState, action: WorkerAction) -> Multiset<PieceRequest> {
    if action is Deliver {
        held(state)
    } else {
        Multiset::empty()
    }
}

/// Requests are neither lost nor doubled: what a worker held or took from the queue
/// it still holds, has put back, or has answered, and only one of these.
pub proof fn requests_are_conserved(
    state: WorkerState,
    event: WorkerEvent,
    bits: Seq<u8>,
    next: WorkerState,
    action: WorkerAction,
)
    requires
        can_meet(state, event, bits),
        transition(state, event, bits, next, action),
    ensures
        held(state).add(taken(event)) == held(next).add(returned(action)).add(
            answered(state, action),
        ),
        action is Download <==> next is Busy,
{
    assert(held(state).add(taken(event)) =~= held(next).add(returned(action)).add(
        answered(state, action),
    ));
}

/// Only pieces with the right hash are delivered.
pub proof fn delivered_pieces_are_intact(
    state: WorkerState,
    event: WorkerEvent,
    bits: Seq<u8>,
    next: WorkerState,
    action: WorkerAction,
)
    requires
        can_meet(state, event, bits),
        transition(state, event, bits, next, action),
        action is Deliver,
    ensures
        state is Busy,
        is_intact(state->Busy_0, action->Deliver_0),
        event == WorkerEvent::Downloaded(action->Deliver_0),
{
}

/// A peer is only asked for pieces that it has.
pub proof fn only_offered_pieces_are_downloaded(
    state: WorkerState,
    event: WorkerEvent,
    bits: Seq<u8>,
    next: WorkerState,
    action: WorkerAction,
)
    requires
        can_meet(state, event, bits),
        transition(state, event, bits, next, action),
        action is Download,
    ensures
        bitfield::has_piece(bits, action->Download_0.index as int),
{
}

/// Every intact piece is delivered, and every damaged one is asked for anew; either
/// way the worker waits for the next request.
pub proof fn intact_pieces_are_delivered(
    request: PieceRequest,
    piece: DownloadedPiece,
    bits: Seq<u8>,
    next: WorkerState,
    action: WorkerAction,
)
    requires
        transition(
            WorkerState::Busy(request),
            WorkerEvent::Downloaded(piece),
            bits,
            next,
            action,
        ),
    ensures
        next is Idle,
        digest::sha1_of(piece.buf@) == request.hash@ ==> action == WorkerAction::Deliver(piece),
        digest::sha1_of(piece.buf@) != request.hash@ ==> action == WorkerAction::Requeue(request),
{
}

/// The digest alone decides what becomes of a piece.
pub proof fn digest_decides(request: PieceRequest, piece: DownloadedPiece, found: Seq<u8>)
    ensures
        found == request.hash@ ==> settled(request, piece, found) == WorkerAction::Deliver(piece),
        found != request.hash@ ==> settled(request, piece, found) == WorkerAction::Requeue(request),
{
}

/// A request is taken up exactly when the peer has the piece: then it is downloaded
/// just as it was asked for, and else it goes back to the queue.
pub proof fn offered_pieces_are_downloaded(
    request: PieceRequest,
    bits: Seq<u8>,
    next: WorkerState,
    action: WorkerAction,
)
    requires
        transition(WorkerState::Idle, WorkerEvent::Request(request), bits, next, action),
    ensures
        ({
            let offered = request.index <= isize::MAX && bitfield::has_piece(
                bits,
                request.index as int,
            );
            &&& offered ==> {
                &&& next == WorkerState::Busy(request)
                &&& action is Download
                &&& action->Download_0.hash@ == request.hash@
                &&& action->Download_0.index == request.index
                &&& action->Download_0.size == request.size
            }
            &&& !offered ==> next is Idle && action == WorkerAction::Requeue(request)
        }),
{
}

/// A worker ends when the queue is closed, and when a download fails; then the request
/// goes back.
pub proof fn worker_ends(
    request: PieceRequest,
    bits: Seq<u8>,
    next: WorkerState,
    action: WorkerAction,
)
    ensures
        transition(WorkerState::Idle, WorkerEvent::QueueClosed, bits, next, action) ==> next
            is Stopped && action is Finish,
        transition(
            WorkerState::Busy(request),
            WorkerEvent::DownloadFailed,
            bits,
            next,
            action,
        ) ==> next is Stopped && action == WorkerAction::Abandon(request),
{
}

/// An idle worker can meet with the end of the queue and with any request whose index
/// is a signed number, and a busy one with a failed download and with any piece of
/// which a digest can be taken.
pub proof fn worker_meets_what_comes(
    request: PieceRequest,
    piece: DownloadedPiece,
    bits: Seq<u8>,
)
    ensures
        can_meet(WorkerState::Idle, WorkerEvent::QueueClosed, bits),
        request.index <= isize::MAX ==> can_meet(
            WorkerState::Idle,
            WorkerEvent::Request(request),
            bits,
        ),
        can_meet(WorkerState::Busy(request), WorkerEvent::DownloadFailed, bits),
        piece.buf@.len() <= 0x1fff_ffff_ffff_ffff ==> can_meet(
            WorkerState::Busy(request),
            WorkerEvent::Downloaded(piece),
            bits,
        ),
{
}

} // verus!
