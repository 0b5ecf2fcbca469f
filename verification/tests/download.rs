use trusti::connection::Connection;
use trusti::download::{
    empty_piece, keep_block, place_block, BlockError, BlockRequest, DownloadEvent, DownloadStep,
    OnReadFailure, PieceDownload, MAX_BLOCK_SIZE, MAX_PIPELINED_REQUESTS,
};
use trusti::download_run::take_event;
use trusti::message::{
    Message, MessageId, MSG_CHOKE, MSG_HAVE, MSG_KEEP_ALIVE, MSG_PIECE, MSG_UNCHOKE,
};
use trusti::piece_request::PieceRequest;

fn connection(choked: bool) -> Connection {
    Connection { peer_id: "peer".to_string(), bitfield: vec![0xff], choked }
}

fn download(index: usize, size: usize) -> PieceDownload {
    PieceDownload::new(&PieceRequest { hash: vec![0; 20], index, size })
}

fn received(id: MessageId, payload: Vec<u8>) -> DownloadEvent {
    DownloadEvent::Received(Message { id, payload })
}

fn answer(request: &BlockRequest, piece: &[u8]) -> Vec<u8> {
    let begin = request.begin as usize;
    let mut payload = request.index.to_be_bytes().to_vec();
    payload.extend_from_slice(&request.begin.to_be_bytes());
    payload.extend_from_slice(&piece[begin..begin + request.length as usize]);
    payload
}

#[test]
fn limits_are_those_of_the_protocol() {
    assert_eq!(MAX_BLOCK_SIZE, 16384);
    assert_eq!(MAX_PIPELINED_REQUESTS, 5);
}

#[test]
fn five_blocks_are_asked_for_at_first() {
    let mut d = download(3, 262144);
    let conn = connection(false);
    assert!(d.can_request(&conn));
    let requests = d.pending_requests(&conn);
    let expected: Vec<BlockRequest> =
        (0..5).map(|i| BlockRequest { index: 3, begin: 16384 * i, length: 16384 }).collect();
    assert_eq!(requests, expected);
    assert_eq!(d.num_bytes_requested, 81920);
    assert_eq!(d.num_pipelined_requests, 5);
    assert_eq!(d.num_bytes_downloaded, 0);
    assert_eq!(d.pending_requests(&conn), vec![]);
}

#[test]
fn the_last_block_may_be_shorter() {
    let mut d = download(0, 20000);
    let requests = d.pending_requests(&connection(false));
    assert_eq!(
        requests,
        vec![
            BlockRequest { index: 0, begin: 0, length: 16384 },
            BlockRequest { index: 0, begin: 16384, length: 3616 },
        ]
    );
    assert_eq!(d.num_bytes_requested, 20000);
    assert_eq!(d.num_pipelined_requests, 2);
}

#[test]
fn nothing_is_asked_of_a_peer_that_chokes() {
    let mut d = download(0, 20000);
    assert_eq!(d.pending_requests(&connection(true)), vec![]);
    assert_eq!(d.num_bytes_requested, 0);
}

#[test]
fn nothing_is_asked_for_an_empty_piece() {
    let mut d = download(0, 0);
    assert!(d.is_complete());
    assert_eq!(d.pending_requests(&connection(false)), vec![]);
}

#[test]
fn offsets_beyond_32_bits_are_noticed() {
    // Only on targets where such a piece can be told of at all.
    if let Ok(size) = usize::try_from(0x1_0000_4000u64) {
        let conn = connection(false);
        let mut d = download(0, size);
        assert!(d.can_request(&conn));
        assert_eq!(
            d.pending_requests(&conn),
            vec![BlockRequest { index: 0, begin: 0, length: 16384 }]
        );
        let mut d = download(0, usize::try_from(0x1_ffff_ffffu64).unwrap());
        d.num_bytes_requested = 0xffff_c000;
        assert!(!d.can_request(&conn));
        assert!(d.can_request(&connection(true)));
        d.size = 0xffff_ffff;
        assert!(d.can_request(&conn));
    }
}

#[test]
fn a_request_becomes_a_message() {
    let request = BlockRequest { index: 1, begin: 16384, length: 3616 };
    assert_eq!(
        request.to_message(),
        Ok(vec![0, 0, 0, 13, 6, 0, 0, 0, 1, 0, 0, 0x40, 0, 0, 0, 0x0e, 0x20])
    );
}

#[test]
fn a_block_counts_by_its_length() {
    let mut d = download(0, 30);
    let mut conn = connection(false);
    d.pending_requests(&conn);
    let event = received(MSG_PIECE, vec![0; 18]);
    assert!(d.can_take(&event));
    assert_eq!(d.step(&mut conn, &event, OnReadFailure::GiveUp), DownloadStep::Continue);
    assert_eq!((d.num_bytes_downloaded, d.num_pipelined_requests), (10, 0));
    let event = received(MSG_PIECE, vec![0; 28]);
    assert_eq!(d.step(&mut conn, &event, OnReadFailure::GiveUp), DownloadStep::Complete);
    assert_eq!((d.num_bytes_downloaded, d.num_pipelined_requests), (30, -1));
}

#[test]
fn choking_is_remembered() {
    let mut d = download(0, 30);
    let mut conn = connection(true);
    let unchoke = received(MSG_UNCHOKE, vec![]);
    assert_eq!(d.step(&mut conn, &unchoke, OnReadFailure::Retry), DownloadStep::Continue);
    assert!(!conn.choked);
    let choke = received(MSG_CHOKE, vec![]);
    assert_eq!(d.step(&mut conn, &choke, OnReadFailure::Retry), DownloadStep::Continue);
    assert!(conn.choked);
    assert_eq!(conn.peer_id, "peer");
    assert_eq!(conn.bitfield, vec![0xff]);
}

#[test]
fn other_messages_change_nothing() {
    for id in [MSG_HAVE, MSG_KEEP_ALIVE, 42] {
        let mut d = download(0, 30);
        let mut conn = connection(false);
        let event = received(id, vec![1, 2, 3]);
        assert!(d.can_take(&event));
        assert_eq!(d.step(&mut conn, &event, OnReadFailure::GiveUp), DownloadStep::Continue);
        assert_eq!((d.num_bytes_downloaded, d.num_pipelined_requests), (0, 0));
        assert!(!conn.choked);
    }
}

#[test]
fn a_failed_read_is_retried_or_ends_the_download() {
    let mut d = download(0, 30);
    let mut conn = connection(false);
    let failed = DownloadEvent::ReadFailed;
    assert!(d.can_take(&failed));
    assert_eq!(d.step(&mut conn, &failed, OnReadFailure::Retry), DownloadStep::Continue);
    assert_eq!(d.step(&mut conn, &failed, OnReadFailure::GiveUp), DownloadStep::GaveUp);
    assert_eq!((d.num_bytes_downloaded, d.num_pipelined_requests), (0, 0));
}

#[test]
fn a_block_must_say_where_it_belongs() {
    let mut d = download(0, 30);
    assert!(!d.can_take(&received(MSG_PIECE, vec![0; 7])));
    assert!(d.can_take(&received(MSG_PIECE, vec![0; 8])));
    assert!(d.can_take(&received(MSG_HAVE, vec![])));
    d.num_pipelined_requests = i8::MIN;
    assert!(!d.can_take(&received(MSG_PIECE, vec![0; 8])));
    d.num_pipelined_requests = 0;
    d.num_bytes_downloaded = usize::MAX;
    assert!(d.can_take(&received(MSG_PIECE, vec![0; 8])));
    assert!(!d.can_take(&received(MSG_PIECE, vec![0; 9])));
    assert!(d.can_count(&received(MSG_PIECE, vec![0; 7])));
    assert!(d.can_count(&received(MSG_HAVE, vec![0; 9])));
    assert!(d.can_count(&DownloadEvent::ReadFailed));
    assert!(!d.can_count(&received(MSG_PIECE, vec![0; 9])));
}

#[test]
fn a_block_that_does_not_belong_ends_the_download() {
    let mut d = download(2, 3);
    let mut conn = connection(false);
    let mut buf = vec![1, 2, 3];
    d.pending_requests(&conn);
    for (payload, fault) in [
        (vec![0, 0, 0, 2, 0, 0, 0], BlockError::TooShort),
        (vec![0, 0, 0, 3, 0, 0, 0, 0, 9], BlockError::WrongPiece),
        (vec![0, 0, 0, 2, 0, 0, 0, 3], BlockError::BeginsPastEnd),
        (vec![0, 0, 0, 2, 0, 0, 0, 2, 9, 9], BlockError::EndsPastEnd),
    ] {
        let event = received(MSG_PIECE, payload);
        assert_eq!(
            take_event(&mut d, &mut conn, &mut buf, &event, OnReadFailure::Retry),
            Err(fault)
        );
        assert_eq!((d.num_bytes_downloaded, d.num_pipelined_requests), (0, 1));
        assert_eq!(buf, vec![1, 2, 3]);
        assert!(!conn.choked);
    }
}

#[test]
fn an_event_is_kept_and_counted_at_once() {
    let mut d = download(2, 3);
    let mut conn = connection(true);
    let mut buf = vec![0; 3];
    let mut take = |event| take_event(&mut d, &mut conn, &mut buf, &event, OnReadFailure::GiveUp);
    assert_eq!(take(received(MSG_UNCHOKE, vec![])), Ok(DownloadStep::Continue));
    let first = vec![0, 0, 0, 2, 0, 0, 0, 0, 7, 8];
    assert_eq!(take(received(MSG_PIECE, first)), Ok(DownloadStep::Continue));
    assert_eq!(take(DownloadEvent::ReadFailed), Ok(DownloadStep::GaveUp));
    let second = vec![0, 0, 0, 2, 0, 0, 0, 2, 9];
    assert_eq!(take(received(MSG_PIECE, second)), Ok(DownloadStep::Complete));
    assert_eq!(buf, vec![7, 8, 9]);
    assert_eq!((d.num_bytes_downloaded, d.num_pipelined_requests), (3, -2));
    assert!(!conn.choked);
}

#[test]
fn blocks_are_put_in_their_places() {
    let mut buf = empty_piece(6);
    assert_eq!(buf, vec![0; 6]);
    assert_eq!(place_block(&mut buf, 2, &[0, 0, 0, 2, 0, 0, 0, 4, 8, 9]), Ok(()));
    assert_eq!(buf, vec![0, 0, 0, 0, 8, 9]);
    assert_eq!(place_block(&mut buf, 2, &[0, 0, 0, 2, 0, 0, 0, 1, 5, 6, 7]), Ok(()));
    assert_eq!(buf, vec![0, 5, 6, 7, 8, 9]);
    assert_eq!(place_block(&mut buf, 2, &[0, 0, 0, 2, 0, 0, 0, 5]), Ok(()));
    assert_eq!(buf, vec![0, 5, 6, 7, 8, 9]);
}

#[test]
fn blocks_that_do_not_belong_change_nothing() {
    let mut buf = vec![1, 2, 3];
    assert_eq!(place_block(&mut buf, 2, &[0, 0, 0, 2, 0, 0, 0]), Err(BlockError::TooShort));
    assert_eq!(
        place_block(&mut buf, 2, &[0, 0, 0, 3, 0, 0, 0, 0, 9]),
        Err(BlockError::WrongPiece)
    );
    assert_eq!(
        place_block(&mut buf, 2, &[0, 0, 0, 2, 0, 0, 0, 3]),
        Err(BlockError::BeginsPastEnd)
    );
    assert_eq!(
        place_block(&mut buf, 2, &[0, 0, 0, 2, 0, 0, 0, 2, 9, 9]),
        Err(BlockError::EndsPastEnd)
    );
    assert_eq!(buf, vec![1, 2, 3]);
}

#[test]
fn only_blocks_are_kept() {
    let payload = vec![0, 0, 0, 2, 0, 0, 0, 1, 9];
    let mut buf = vec![1, 2, 3];
    assert_eq!(keep_block(&mut buf, 2, &received(MSG_HAVE, payload.clone())), Ok(()));
    assert_eq!(keep_block(&mut buf, 2, &DownloadEvent::ReadFailed), Ok(()));
    assert_eq!(buf, vec![1, 2, 3]);
    let event = received(MSG_PIECE, payload);
    assert_eq!(keep_block(&mut buf, 3, &event), Err(BlockError::WrongPiece));
    assert_eq!(buf, vec![1, 2, 3]);
    assert_eq!(keep_block(&mut buf, 2, &event), Ok(()));
    assert_eq!(buf, vec![1, 9, 3]);
}

#[test]
fn a_piece_is_downloaded_whole() {
    let piece: Vec<u8> = (0..200_000u32).map(|i| (i * 7 + i / 256) as u8).collect();
    let mut d = download(9, piece.len());
    let mut conn = connection(true);
    let mut buf = empty_piece(piece.len());
    let mut asked = Vec::new();
    let mut waiting: Vec<BlockRequest> = Vec::new();
    d.step(&mut conn, &received(MSG_UNCHOKE, vec![]), OnReadFailure::GiveUp);
    let mut step = DownloadStep::Continue;
    while step == DownloadStep::Continue {
        assert!(d.can_request(&conn));
        let requests = d.pending_requests(&conn);
        asked.extend_from_slice(&requests);
        waiting.extend_from_slice(&requests);
        assert!(waiting.len() <= 5);
        assert!(!waiting.is_empty());
        // The peer answers the latest request first.
        let payload = answer(&waiting.pop().unwrap(), &piece);
        let event = received(MSG_PIECE, payload);
        assert!(d.can_count(&event));
        step = take_event(&mut d, &mut conn, &mut buf, &event, OnReadFailure::GiveUp).unwrap();
    }
    assert_eq!(step, DownloadStep::Complete);
    assert_eq!(buf, piece);
    assert_eq!(asked.len(), 13);
    let mut next = 0;
    for request in &asked {
        assert_eq!((request.index, request.begin), (9, next));
        next += request.length;
    }
    assert_eq!(next, 200_000);
}
