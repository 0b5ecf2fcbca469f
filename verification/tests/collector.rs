use trusti::collector::Collector;
use trusti::downloaded_piece::DownloadedPiece;

#[test]
fn no_pieces_are_complete_at_once() {
    assert!(Collector::new(0, 10).is_complete());
    assert!(!Collector::new(1, 10).is_complete());
}

#[test]
fn pieces_in_any_order_make_up_the_file() {
    let file: Vec<u8> = (0..60).collect();
    let mut copy = vec![0; file.len()];
    let mut collector = Collector::new(6, 10);
    for index in [3, 0, 5, 1, 4, 2] {
        assert!(!collector.is_complete());
        let piece = DownloadedPiece { buf: file[10 * index..10 * index + 10].to_vec(), index };
        let start = collector.collect(&piece);
        copy[start..start + 10].copy_from_slice(&piece.buf);
    }
    assert!(collector.is_complete());
    assert_eq!((collector.num_pieces_downloaded, collector.num_pieces), (6, 6));
    assert_eq!(collector.piece_length, 10);
    assert_eq!(copy, file);
}

#[test]
fn a_single_piece_may_be_short() {
    let mut collector = Collector::new(1, 10);
    let piece = DownloadedPiece { buf: vec![1, 2, 3], index: 0 };
    assert_eq!(collector.collect(&piece), 0);
    assert!(collector.is_complete());
}

#[test]
fn a_short_last_piece_is_written_behind_the_others() {
    let file: Vec<u8> = (1..11).collect();
    let mut copy = vec![0; file.len()];
    let mut collector = Collector::new(3, 4);
    let mut starts = Vec::new();
    for index in [2, 0, 1] {
        let end = file.len().min(4 * index + 4);
        let piece = DownloadedPiece { buf: file[4 * index..end].to_vec(), index };
        let start = collector.collect(&piece);
        copy[start..start + piece.buf.len()].copy_from_slice(&piece.buf);
        starts.push(start);
    }
    assert_eq!(starts, vec![8, 0, 4]);
    assert!(collector.is_complete());
    assert_eq!(copy, file);
}
