use trusti::downloaded_piece::DownloadedPiece;
use trusti::piece_request::PieceRequest;

#[test]
fn a_piece_is_written_behind_those_before_it() {
    assert_eq!(DownloadedPiece { buf: vec![0; 10], index: 0 }.get_start(10), 0);
    assert_eq!(DownloadedPiece { buf: vec![0; 10], index: 3 }.get_start(10), 30);
    assert_eq!(DownloadedPiece { buf: vec![], index: usize::MAX }.get_start(0), 0);
}

#[test]
fn a_short_piece_is_written_behind_pieces_of_full_length() {
    assert_eq!(DownloadedPiece { buf: vec![0; 2], index: 2 }.get_start(4), 8);
    assert_eq!(DownloadedPiece { buf: vec![0; 2], index: 0 }.get_start(4), 0);
}

#[test]
fn pieces_lie_side_by_side() {
    for index in 0..20 {
        let a = DownloadedPiece { buf: vec![0; 7], index };
        let b = DownloadedPiece { buf: vec![0; 3], index: index + 1 };
        assert_eq!(a.get_start(7) + a.buf.len(), b.get_start(7));
    }
}

#[test]
fn a_cloned_request_asks_for_the_same() {
    let request = PieceRequest { hash: vec![1, 2, 3], index: 4, size: 5 };
    let copy = request.clone();
    assert_eq!((copy.hash, copy.index, copy.size), (vec![1, 2, 3], 4, 5));
    let mut target = PieceRequest { hash: vec![], index: 0, size: 0 };
    target.clone_from(&request);
    assert_eq!((target.hash, target.index, target.size), (vec![1, 2, 3], 4, 5));
}
