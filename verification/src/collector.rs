//! Collecting the pieces that have been downloaded, and writing them to the file.
use crate::download_laws;
use crate::downloaded_piece::DownloadedPiece;
use crate::metainfo;
use vstd::prelude::*;

verus! {

/// How many pieces have been collected, how many there are, and how many bytes each
/// has but the last, which may have fewer.
#[derive(Debug)]
pub struct Collector {
    pub num_pieces_downloaded: usize,
    pub num_pieces: usize,
    pub piece_length: usize,
}

impl Collector {
    /// Whether all pieces have been collected.
    pub open spec fn complete(&self) -> bool {
        self.num_pieces_downloaded >= self.num_pieces
    }

    /// The collector once one more piece has been collected.
    pub open spec fn after_collecting(self) -> Collector {
        Collector { num_pieces_downloaded: (self.num_pieces_downloaded + 1) as usize, ..self }
    }

    /// A collector that waits for `num_pieces` pieces of `piece_length` bytes.
    pub fn new(num_pieces: usize, piece_length: usize) -> (collector: Collector)
        ensures
            collector == (Collector { num_pieces_downloaded: 0, num_pieces, piece_length }),
    {
        Collector { num_pieces_downloaded: 0, num_pieces, piece_length }
    }

    /// Whether all pieces have been collected.
    pub fn is_complete(&self) -> (complete: bool)
        ensures
            complete == self.complete(),
    {
        self.num_pieces_downloaded >= self.num_pieces
    }

    /// Collects a piece, and says where in the file it is written.
    pub fn collect(&mut self, piece: &DownloadedPiece) -> (start: usize)
        requires
            !old(self).complete(),
            piece.start(old(self).piece_length as int) <= usize::MAX,
        ensures
            start == piece.start(old(self).piece_length as int),
            *final(self) == old(self).after_collecting(),
            final(self).num_pieces_downloaded == old(self).num_pieces_downloaded + 1,
            final(self).num_pieces == old(self).num_pieces,
            final(self).piece_length == old(self).piece_length,
    {
        self.num_pieces_downloaded = self.num_pieces_downloaded + 1;
        piece.get_start(self.piece_length)
    }
}

/// What is written to the file when `pieces` are collected, in this order: for each
/// where it begins, and its bytes.
pub open spec fn written(pieces: Seq<DownloadedPiece>, piece_length: int) -> Seq<(int, Seq<u8>)> {
    pieces.map_values(|piece: DownloadedPiece| (piece.start(piece_length), piece.buf@))
}

/// Whether a piece holds the bytes of `file` that belong to it.
pub open spec fn is_piece_of(piece: DownloadedPiece, file: Seq<u8>, piece_length: int) -> bool {
    let begin = piece.index * piece_length;
    let size = metainfo::piece_size(piece.index as int, piece_length, file.len() as int);
    &&& begin <= file.len()
    &&& piece.buf@ == file.subrange(begin, begin + size)
}

/// Collecting the pieces of a file, in whatever order, writes the file.
pub proof fn pieces_rebuild_the_file(
    blank: Seq<u8>,
    pieces: Seq<DownloadedPiece>,
    file: Seq<u8>,
    piece_length: int,
)
    requires
        piece_length > 0,
        blank.len() == file.len(),
        forall|k: int| #![trigger pieces[k]]
            0 <= k < pieces.len() ==> is_piece_of(pieces[k], file, piece_length),
        forall|index: int| #![trigger index * piece_length]
            0 <= index && index * piece_length < file.len() ==> exists|k: int|
                #![trigger pieces[k]]
                0 <= k < pieces.len() && pieces[k].index == index,
    ensures
        download_laws::assembled(blank, written(pieces, piece_length)) == file,
{
    let blocks = written(pieces, piece_length);
    assert forall|k: int| #![trigger blocks[k]] 0 <= k < blocks.len() implies
        download_laws::is_part_of(blocks[k], file) by {
        let piece = pieces[k];
        assert(is_piece_of(piece, file, piece_length));
        assert(piece.index * piece_length >= 0) by (nonlinear_arith)
            requires
                piece.index >= 0,
                piece_length > 0,
        ;
    }
    assert forall|position: int| 0 <= position < file.len() implies
        #[trigger] download_laws::covered(blocks, position) by {
        let index = position / piece_length;
        vstd::arithmetic::div_mod::lemma_fundamental_div_mod(position, piece_length);
        assert(index * piece_length == piece_length * index) by (nonlinear_arith);
        assert(index >= 0) by (nonlinear_arith)
            requires
                index == position / piece_length,
                position >= 0,
                piece_length > 0,
        ;
        let k = choose|k: int| #![trigger pieces[k]]
            0 <= k < pieces.len() && pieces[k].index == index;
        assert(is_piece_of(pieces[k], file, piece_length));
        assert(blocks[k].0 <= position < blocks[k].0 + blocks[k].1.len());
    }
    download_laws::true_blocks_rebuild_the_piece(blank, blocks, file);
}

/// A collector for `num_pieces` pieces that has collected `count` of them.
pub open spec fn having_collected(num_pieces: usize, piece_length: usize, count: nat) -> Collector
    decreases count,
{
    if count == 0 {
        Collector { num_pieces_downloaded: 0, num_pieces, piece_length }
    } else {
        having_collected(num_pieces, piece_length, (count - 1) as nat).after_collecting()
    }
}

/// A collector is complete when as many pieces have been collected as it was made for,
/// and not before.
pub proof fn complete_after_all_pieces(num_pieces: usize, piece_length: usize, count: nat)
    requires
        count <= num_pieces,
    ensures
        having_collected(num_pieces, piece_length, count).complete() <==> count == num_pieces,
        having_collected(num_pieces, piece_length, count).num_pieces_downloaded == count,
        having_collected(num_pieces, piece_length, count).num_pieces == num_pieces,
        having_collected(num_pieces, piece_length, count).piece_length == piece_length,
    decreases count,
{
    if count > 0 {
        complete_after_all_pieces(num_pieces, piece_length, (count - 1) as nat);
    }
}

/// A collector that is complete has written the file, if it was made for as many pieces
/// as the file has, and no piece was collected twice.
pub proof fn complete_collector_has_written_the_file(
    blank: Seq<u8>,
    pieces: Seq<DownloadedPiece>,
    file: Seq<u8>,
    num_pieces: usize,
    piece_length: usize,
)
    requires
        piece_length > 0,
        blank.len() == file.len(),
        file.len() <= num_pieces * piece_length,
        pieces.len() <= num_pieces,
        having_collected(num_pieces, piece_length, pieces.len()).complete(),
        forall|k: int| #![trigger pieces[k]]
            0 <= k < pieces.len() ==> pieces[k].index < num_pieces && is_piece_of(
                pieces[k],
                file,
                piece_length as int,
            ),
        forall|j: int, k: int| #![trigger pieces[j], pieces[k]]
            0 <= j < k < pieces.len() ==> pieces[j].index != pieces[k].index,
    ensures
        download_laws::assembled(blank, written(pieces, piece_length as int)) == file,
{
    complete_after_all_pieces(num_pieces, piece_length, pieces.len());
    let indices = pieces.map_values(|piece: DownloadedPiece| piece.index as int);
    let range = vstd::set_lib::set_int_range(0, num_pieces as int);
    assert(indices.no_duplicates()) by {
        assert forall|i: int, j: int|
            0 <= i < indices.len() && 0 <= j < indices.len() && i != j implies indices[i]
            != indices[j] by {
            if i < j {
                assert(pieces[i].index != pieces[j].index);
            } else {
                assert(pieces[j].index != pieces[i].index);
            }
        }
    }
    indices.unique_seq_to_set();
    vstd::seq_lib::seq_to_set_is_finite(indices);
    vstd::set_lib::lemma_int_range(0, num_pieces as int);
    assert(indices.to_set().subset_of(range)) by {
        assert forall|index: int| indices.to_set().contains(index) implies range.contains(
            index,
        ) by {
            let k = choose|k: int| 0 <= k < indices.len() && indices[k] == index;
            assert(pieces[k].index == index);
        }
    }
    vstd::set_lib::lemma_subset_equality(indices.to_set(), range);
    let length = piece_length as int;
    assert forall|index: int| #![trigger index * length]
        0 <= index && index * length < file.len() implies exists|k: int| #![trigger pieces[k]]
        0 <= k < pieces.len() && pieces[k].index == index by {
        assert(index < num_pieces) by (nonlinear_arith)
            requires
                index * length < num_pieces * length,
                length > 0,
        ;
        assert(range.contains(index));
        assert(indices.to_set().contains(index));
        let k = choose|k: int| 0 <= k < indices.len() && indices[k] == index;
        assert(pieces[k].index == index);
    }
    pieces_rebuild_the_file(blank, pieces, file, length);
}

} // verus!
