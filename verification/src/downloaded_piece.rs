//! A piece that was downloaded whole.
use crate::metainfo;
use vstd::prelude::*;

verus! {

/// The bytes of a piece, and which piece it is.
#[derive(Debug)]
pub struct DownloadedPiece {
    pub buf: Vec<u8>,
    pub index: usize,
}

impl DownloadedPiece {
    /// Where in the file this piece belongs, if the file is cut into pieces of
    /// `piece_length` bytes.
    pub open spec fn start(&self, piece_length: int) -> int {
        self.index * piece_length
    }

    /// Where in the file this piece is written: behind all the pieces before it, each
    /// of which has `piece_length` bytes. The piece itself may be shorter, if it is
    /// the last.
    pub fn get_start(&self, piece_length: usize) -> (start: usize)
        requires
            self.start(piece_length as int) <= usize::MAX,
        ensures
            start == self.start(piece_length as int),
    {
        self.index * piece_length
    }
}

/// A piece that has the size of its place in the file is written within the file.
pub proof fn piece_is_written_within_the_file(
    piece: DownloadedPiece,
    piece_length: int,
    length: int,
)
    requires
        piece.buf@.len() == metainfo::piece_size(piece.index as int, piece_length, length),
    ensures
        piece.start(piece_length) + piece.buf@.len() <= length,
{
}

/// Two pieces that are written do not touch each other's bytes.
pub proof fn pieces_do_not_overlap(a: DownloadedPiece, b: DownloadedPiece, piece_length: int)
    requires
        a.buf@.len() <= piece_length,
        a.index < b.index,
    ensures
        a.start(piece_length) + a.buf@.len() <= b.start(piece_length),
{
    assert(a.index * piece_length + piece_length <= b.index * piece_length) by (nonlinear_arith)
        requires
            a.index + 1 <= b.index,
            piece_length >= 0,
    ;
}

/// The first piece is written at the beginning of the file, and each piece one piece
/// length behind the one before it.
pub proof fn pieces_are_one_piece_length_apart(
    a: DownloadedPiece,
    b: DownloadedPiece,
    piece_length: int,
)
    requires
        b.index == a.index + 1,
    ensures
        a.index == 0 ==> a.start(piece_length) == 0,
        b.start(piece_length) == a.start(piece_length) + piece_length,
{
    assert((a.index + 1) * piece_length == a.index * piece_length + piece_length)
        by (nonlinear_arith);
    assert(0 * piece_length == 0) by (nonlinear_arith);
}

} // verus!
