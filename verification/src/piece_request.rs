//! A piece that is to be downloaded.
use crate::bytes::copy_vec;
use vstd::prelude::*;

verus! {

/// The piece with the given index: the hash that its bytes must have, and how
/// many bytes it has.
#[derive(Debug)]
pub struct PieceRequest {
    pub hash: Vec<u8>,
    pub index: usize,
    pub size: usize,
}

impl PieceRequest {
    /// Whether two requests ask for the same thing.
    pub open spec fn same(self, other: PieceRequest) -> bool {
        self.hash@ == other.hash@ && self.index == other.index && self.size == other.size
    }
}

impl Clone for PieceRequest {
    fn clone(&self) -> (copy: Self)
        ensures
            copy.same(*self),
    {
        let hash = copy_vec(&self.hash);
        PieceRequest { hash, index: self.index, size: self.size }
    }

    fn clone_from(&mut self, source: &Self)
        ensures
            final(self).same(*source),
    {
        self.hash = copy_vec(&source.hash);
        self.size = source.size;
        self.index = source.index;
    }
}

/// Requests that ask for the same thing agree in every field.
pub proof fn same_requests_agree(a: PieceRequest, b: PieceRequest)
    requires
        a.same(b),
    ensures
        a.hash@ == b.hash@,
        a.index == b.index,
        a.size == b.size,
{
}

} // verus!
