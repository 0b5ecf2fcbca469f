use trusti::downloaded_piece::DownloadedPiece;
use trusti::message::{MSG_INTERESTED, MSG_UNCHOKE};
use trusti::piece_request::PieceRequest;
use trusti::worker::{greeting, settle, step, WorkerAction, WorkerEvent, WorkerState};

/// The SHA-1 digest of `Hello World!`.
const HELLO: [u8; 20] = [
    0x2e, 0xf7, 0xbd, 0xe6, 0x08, 0xce, 0x54, 0x04, 0xe9, 0x7d, 0x5f, 0x04, 0x2f, 0x95, 0xf8, 0x9f,
    0x1c, 0x23, 0x28, 0x71,
];

fn request(index: usize) -> PieceRequest {
    PieceRequest { hash: HELLO.to_vec(), index, size: 12 }
}

fn is_request(request: &PieceRequest, index: usize) -> bool {
    request.hash == HELLO && request.index == index && request.size == 12
}

#[test]
fn a_worker_unchokes_and_is_interested() {
    assert_eq!(greeting(), [MSG_UNCHOKE, MSG_INTERESTED]);
}

#[test]
fn a_piece_that_the_peer_has_is_downloaded() {
    let bits = vec![0b0100_0000];
    let (next, action) = step(WorkerState::Idle, WorkerEvent::Request(request(1)), &bits);
    assert!(matches!(&next, WorkerState::Busy(r) if is_request(r, 1)));
    assert!(matches!(&action, WorkerAction::Download(r) if is_request(r, 1)));
}

#[test]
fn a_piece_that_the_peer_lacks_goes_back() {
    let bits = vec![0b0100_0000];
    for index in [0, 2, 8, usize::MAX - 7] {
        let (next, action) = step(WorkerState::Idle, WorkerEvent::Request(request(index)), &bits);
        assert!(matches!(next, WorkerState::Idle));
        assert!(matches!(&action, WorkerAction::Requeue(r) if is_request(r, index)));
    }
}

#[test]
fn an_intact_piece_is_delivered() {
    let piece = DownloadedPiece { buf: b"Hello World!".to_vec(), index: 1 };
    let (next, action) =
        step(WorkerState::Busy(request(1)), WorkerEvent::Downloaded(piece), &vec![0xff]);
    assert!(matches!(next, WorkerState::Idle));
    assert!(matches!(&action, WorkerAction::Deliver(p) if p.buf == b"Hello World!" && p.index == 1));
}

#[test]
fn a_damaged_piece_is_asked_for_anew() {
    let piece = DownloadedPiece { buf: b"Hello World?".to_vec(), index: 1 };
    let (next, action) =
        step(WorkerState::Busy(request(1)), WorkerEvent::Downloaded(piece), &vec![0xff]);
    assert!(matches!(next, WorkerState::Idle));
    assert!(matches!(&action, WorkerAction::Requeue(r) if is_request(r, 1)));
}

#[test]
fn a_failed_download_ends_the_worker() {
    let (next, action) =
        step(WorkerState::Busy(request(1)), WorkerEvent::DownloadFailed, &vec![0xff]);
    assert!(matches!(next, WorkerState::Stopped));
    assert!(matches!(&action, WorkerAction::Abandon(r) if is_request(r, 1)));
}

#[test]
fn a_closed_queue_ends_the_worker() {
    let (next, action) = step(WorkerState::Idle, WorkerEvent::QueueClosed, &vec![]);
    assert!(matches!(next, WorkerState::Stopped));
    assert!(matches!(action, WorkerAction::Finish));
}

#[test]
fn the_digest_decides() {
    let piece = DownloadedPiece { buf: vec![1], index: 4 };
    assert!(matches!(settle(request(4), piece, &HELLO), WorkerAction::Deliver(p) if p.buf == [1]));
    let piece = DownloadedPiece { buf: vec![1], index: 4 };
    assert!(
        matches!(settle(request(4), piece, &HELLO[..19]), WorkerAction::Requeue(r) if is_request(&r, 4))
    );
}
