//! The metainfo of a torrent: what the file is called, how long it is, and how
//! it is cut into pieces.
use crate::bencode;
use crate::bytes::{copy_range, copy_vec};
use crate::digest;
use crate::piece_request::PieceRequest;
use vstd::prelude::*;

verus! {

/// How many bytes the hash of a piece has.
pub const HASH_LENGTH: usize = 20;

/// The metainfo of a torrent with one file. `pieces` holds the SHA-1 hashes of
/// the pieces, one behind the other.
#[derive(Debug)]
pub struct Info {
    pub name: String,
    pub piece_length: u64,
    pub pieces: Vec<u8>,
    pub length: u64,
}

/// Why metainfo could not be hashed.
#[derive(Debug, Clone, Copy, PartialEq, Eq, Structural)]
pub enum MetainfoError {
    /// The metainfo could not be encoded.
    Encode,
    /// The encoded metainfo is longer than what a digest can be taken of.
    TooLong,
}

/// The lesser of two numbers.
pub open spec fn lesser(a: int, b: int) -> int {
    if a <= b {
        a
    } else {
        b
    }
}

/// How many bytes piece `index` has: as many as any piece, but no more than the
/// file still has from where the piece begins.
pub open spec fn piece_size(index: int, piece_length: int, length: int) -> int {
    lesser(piece_length, length - index * piece_length)
}

/// How many bytes the first `count` pieces have together.
pub open spec fn size_of_first(count: nat, piece_length: int, length: int) -> int
    decreases count,
{
    if count == 0 {
        0
    } else {
        size_of_first((count - 1) as nat, piece_length, length) + piece_size(
            count - 1,
            piece_length,
            length,
        )
    }
}

/// How many hashes `pieces` holds. The last one counts though it may be cut off.
pub open spec fn hash_count(pieces: Seq<u8>) -> nat {
    ((pieces.len() + 19) / 20) as nat
}

/// The hash of piece `index` in `pieces`.
pub open spec fn hash_at(pieces: Seq<u8>, index: int) -> Seq<u8> {
    pieces.subrange(20 * index, lesser(20 * index + 20, pieces.len() as int))
}

/// How many bytes piece `index` has, in a file of `length` bytes that is cut into
/// pieces of `piece_length` bytes.
pub fn calculate_piece_size(index: usize, piece_length: usize, length: usize) -> (size: usize)
    requires
        index * piece_length + piece_length <= usize::MAX,
        index * piece_length <= length,
    ensures
        size == piece_size(index as int, piece_length as int, length as int),
{
    let begin: usize = index * piece_length;
    let mut end: usize = begin + piece_length;
    if end > length {
        end = length;
    }
    end - begin
}

impl Info {
    /// The metainfo in bencoding: a dictionary with its keys in order.
    pub open spec fn spec_bencode(&self) -> Seq<u8> {
        seq![100u8] + bencode::entry("length"@, bencode::integer(self.length as nat))
            + bencode::entry("name"@, bencode::byte_string(vstd::utf8::encode_utf8(self.name@)))
            + bencode::entry("piece length"@, bencode::integer(self.piece_length as nat))
            + bencode::entry("pieces"@, bencode::byte_string(self.pieces@)) + seq![101u8]
    }

    /// The metainfo in bencoding.
    pub fn bencode(&self) -> (encoded: Result<Vec<u8>, MetainfoError>)
        ensures
            encoded is Ok,
            encoded->Ok_0@ == self.spec_bencode(),
    {
        let mut buf: Vec<u8> = Vec::new();
        buf.push(100);
        if bencode::put_integer(&mut buf, "length", self.length).is_err() {
            return Err(MetainfoError::Encode);
        }
        if bencode::put_byte_string(&mut buf, "name", self.name.as_str().as_bytes()).is_err() {
            return Err(MetainfoError::Encode);
        }
        if bencode::put_integer(&mut buf, "piece length", self.piece_length).is_err() {
            return Err(MetainfoError::Encode);
        }
        if bencode::put_byte_string(&mut buf, "pieces", self.pieces.as_slice()).is_err() {
            return Err(MetainfoError::Encode);
        }
        buf.push(101);
        assert(buf@ =~= self.spec_bencode());
        Ok(buf)
    }

    /// The info hash, by which trackers and peers know the torrent: the SHA-1
    /// digest of the bencoded metainfo.
    pub fn hash(&self) -> (hash: Result<[u8; 20], MetainfoError>)
        ensures
            match hash {
                Ok(h) => {
                    &&& self.spec_bencode().len() <= digest::MAX_DIGEST_INPUT
                    &&& h@ == digest::sha1_of(self.spec_bencode())
                },
                Err(e) => {
                    &&& self.spec_bencode().len() > digest::MAX_DIGEST_INPUT
                    &&& e == MetainfoError::TooLong
                },
            },
    {
        match self.bencode() {
            Ok(encoded) => {
                if encoded.len() as u64 > digest::MAX_DIGEST_INPUT {
                    return Err(MetainfoError::TooLong);
                }
                Ok(digest::sha1_digest(encoded.as_slice()))
            },
            Err(e) => Err(e),
        }
    }

    /// The hashes of the pieces, in order.
    pub fn piece_hashes(&self) -> (hashes: Vec<&[u8]>)
        ensures
            hashes@.len() == hash_count(self.pieces@),
            forall|i: int| #![trigger hashes@[i]]
                0 <= i < hashes@.len() ==> hashes@[i]@ == hash_at(self.pieces@, i),
    {
        let pieces = self.pieces.as_slice();
        let mut hashes: Vec<&[u8]> = Vec::new();
        let mut from: usize = 0;
        while from < pieces.len()
            invariant
                pieces@ == self.pieces@,
                from == lesser(20 * hashes@.len() as int, pieces@.len() as int),
                hashes@.len() <= hash_count(self.pieces@),
                forall|i: int| #![trigger hashes@[i]]
                    0 <= i < hashes@.len() ==> hashes@[i]@ == hash_at(self.pieces@, i),
            decreases pieces@.len() - from,
        {
            let to: usize = if pieces.len() - from < HASH_LENGTH {
                pieces.len()
            } else {
                from + HASH_LENGTH
            };
            hashes.push(vstd::slice::slice_subrange(pieces, from, to));
            from = to;
        }
        hashes
    }

    /// How many bytes piece `index` has.
    pub fn calculate_piece_size(self, index: usize) -> (size: usize)
        requires
            self.length <= usize::MAX,
            index * self.piece_length + self.piece_length <= usize::MAX,
            index * self.piece_length <= self.length,
        ensures
            size == piece_size(index as int, self.piece_length as int, self.length as int),
    {
        assert(self.piece_length <= usize::MAX) by (nonlinear_arith)
            requires
                index * self.piece_length + self.piece_length <= usize::MAX,
                index >= 0,
                self.piece_length >= 0,
        ;
        calculate_piece_size(index, self.piece_length as usize, self.length as usize)
    }

    /// Whether every hash has a piece in the file to belong to: no piece begins
    /// behind the end of the file, and all offsets can be counted.
    pub open spec fn has_piece_for_each_hash(&self) -> bool {
        let count = hash_count(self.pieces@);
        &&& self.length <= usize::MAX
        &&& self.piece_length <= usize::MAX
        &&& count > 0 ==> {
            &&& count * self.piece_length <= usize::MAX
            &&& (count - 1) * self.piece_length <= self.length
        }
    }

    /// Whether every hash has a piece in the file to belong to.
    pub fn check_piece_for_each_hash(&self) -> (fits: bool)
        ensures
            fits == self.has_piece_for_each_hash(),
    {
        let whole: usize = self.pieces.len() / HASH_LENGTH;
        let count: usize = if self.pieces.len() % HASH_LENGTH == 0 { whole } else { whole + 1 };
        assert(count == hash_count(self.pieces@));
        if self.length > usize::MAX as u64 || self.piece_length > usize::MAX as u64 {
            return false;
        }
        if count == 0 {
            return true;
        }
        let piece_length: usize = self.piece_length as usize;
        match count.checked_mul(piece_length) {
            None => false,
            Some(end) => {
                assert(end == (count - 1) * piece_length + piece_length) by (nonlinear_arith)
                    requires
                        end == count * piece_length,
                ;
                assert((count - 1) * piece_length >= 0) by (nonlinear_arith)
                    requires
                        count > 0,
                        piece_length >= 0,
                ;
                end - piece_length <= self.length as usize
            },
        }
    }

    /// The requests that together ask for the whole file: one for each hash, in
    /// order.
    pub fn piece_requests(&self) -> (requests: Vec<PieceRequest>)
        requires
            self.has_piece_for_each_hash(),
        ensures
            requests@.len() == hash_count(self.pieces@),
            forall|i: int| #![trigger requests@[i]]
                0 <= i < requests@.len() ==> {
                    &&& requests@[i].index == i
                    &&& requests@[i].hash@ == hash_at(self.pieces@, i)
                    &&& requests@[i].size == piece_size(
                        i,
                        self.piece_length as int,
                        self.length as int,
                    )
                },
    {
        let hashes = self.piece_hashes();
        let mut requests: Vec<PieceRequest> = Vec::new();
        let mut index: usize = 0;
        while index < hashes.len()
            invariant
                self.has_piece_for_each_hash(),
                hashes@.len() == hash_count(self.pieces@),
                forall|i: int| #![trigger hashes@[i]]
                    0 <= i < hashes@.len() ==> hashes@[i]@ == hash_at(self.pieces@, i),
                index == requests@.len(),
                index <= hashes@.len(),
                forall|i: int| #![trigger requests@[i]]
                    0 <= i < requests@.len() ==> {
                        &&& requests@[i].index == i
                        &&& requests@[i].hash@ == hash_at(self.pieces@, i)
                        &&& requests@[i].size == piece_size(
                            i,
                            self.piece_length as int,
                            self.length as int,
                        )
                    },
            decreases hashes@.len() - index,
        {
            proof {
                let count = hashes@.len() as int;
                let piece_length = self.piece_length as int;
                assert(index * piece_length + piece_length <= count * piece_length)
                    by (nonlinear_arith)
                    requires
                        index + 1 <= count,
                        piece_length >= 0,
                ;
                assert(index * piece_length <= (count - 1) * piece_length) by (nonlinear_arith)
                    requires
                        index <= count - 1,
                        piece_length >= 0,
                ;
            }
            let size: usize = self.clone().calculate_piece_size(index);
            let hash = hashes[index];
            requests.push(PieceRequest { hash: copy_range(hash, 0, hash.len()), index, size });
            assert(requests@[index as int].hash@ =~= hash@);
            index = index + 1;
        }
        requests
    }

    /// Whether two metainfos say the same.
    pub open spec fn same(self, other: Info) -> bool {
        &&& self.name@ == other.name@
        &&& self.piece_length == other.piece_length
        &&& self.pieces@ == other.pieces@
        &&& self.length == other.length
    }
}

impl Clone for Info {
    fn clone(&self) -> (copy: Self)
        ensures
            copy.same(*self),
    {
        Info {
            name: self.name.clone(),
            piece_length: self.piece_length,
            pieces: copy_vec(&self.pieces),
            length: self.length,
        }
    }

    fn clone_from(&mut self, source: &Self)
        ensures
            final(self).same(*source),
    {
        self.name = source.name.clone();
        self.pieces = copy_vec(&source.pieces);
        self.piece_length = source.piece_length;
        self.length = source.length;
    }
}

/// The pieces fill the file: up to the first that reaches its end they are
/// together as long as the file, and before that each has its full length.
pub proof fn pieces_fill_the_file(count: nat, piece_length: int, length: int)
    requires
        piece_length >= 0,
        length >= 0,
        count > 0 ==> (count - 1) * piece_length <= length,
    ensures
        size_of_first(count, piece_length, length) == lesser(count * piece_length, length),
        count * piece_length >= length ==> size_of_first(count, piece_length, length) == length,
    decreases count,
{
    if count > 0 {
        let before = (count - 1) as nat;
        assert(count * piece_length == before * piece_length + piece_length) by (nonlinear_arith)
            requires
                count == before + 1,
        ;
        if before > 0 {
            assert((before - 1) * piece_length <= before * piece_length) by (nonlinear_arith)
                requires
                    piece_length >= 0,
            ;
        }
        pieces_fill_the_file(before, piece_length, length);
    } else {
        assert(count * piece_length == 0) by (nonlinear_arith)
            requires
                count == 0,
        ;
    }
}

/// The hashes lie side by side in `pieces`: every byte belongs to the one hash
/// that its position falls to.
pub proof fn hashes_partition_pieces(pieces: Seq<u8>, position: int)
    requires
        0 <= position < pieces.len(),
    ensures
        position / 20 < hash_count(pieces),
        position % 20 < hash_at(pieces, position / 20).len(),
        hash_at(pieces, position / 20)[position % 20] == pieces[position],
{
}

/// Metainfos that differ are encoded differently, so that only a collision of
/// the digest could give two torrents one info hash.
pub proof fn bencoding_tells_infos_apart(a: Info, b: Info)
    requires
        a.spec_bencode() == b.spec_bencode(),
    ensures
        a.same(b),
{
    let end = seq![101u8];
    let length_key = bencode::byte_string(vstd::utf8::encode_utf8("length"@));
    let name_key = bencode::byte_string(vstd::utf8::encode_utf8("name"@));
    let piece_length_key = bencode::byte_string(vstd::utf8::encode_utf8("piece length"@));
    let pieces_key = bencode::byte_string(vstd::utf8::encode_utf8("pieces"@));
    let name_a = vstd::utf8::encode_utf8(a.name@);
    let name_b = vstd::utf8::encode_utf8(b.name@);
    let pieces_a = bencode::byte_string(a.pieces@) + end;
    let pieces_b = bencode::byte_string(b.pieces@) + end;
    let piece_length_a = bencode::integer(a.piece_length as nat) + (pieces_key + pieces_a);
    let piece_length_b = bencode::integer(b.piece_length as nat) + (pieces_key + pieces_b);
    let rest_a = bencode::byte_string(name_a) + (piece_length_key + piece_length_a);
    let rest_b = bencode::byte_string(name_b) + (piece_length_key + piece_length_b);
    let length_a = bencode::integer(a.length as nat) + (name_key + rest_a);
    let length_b = bencode::integer(b.length as nat) + (name_key + rest_b);
    let head = seq![100u8] + length_key;
    from_the_left(
        length_key,
        bencode::integer(a.length as nat),
        name_key,
        bencode::byte_string(name_a),
        piece_length_key,
        bencode::integer(a.piece_length as nat),
        pieces_key,
        bencode::byte_string(a.pieces@),
    );
    from_the_left(
        length_key,
        bencode::integer(b.length as nat),
        name_key,
        bencode::byte_string(name_b),
        piece_length_key,
        bencode::integer(b.piece_length as nat),
        pieces_key,
        bencode::byte_string(b.pieces@),
    );
    same_tail(head, length_a, length_b);
    bencode::integer_is_self_delimiting(
        a.length as nat,
        b.length as nat,
        name_key + rest_a,
        name_key + rest_b,
    );
    same_tail(name_key, rest_a, rest_b);
    bencode::byte_string_is_self_delimiting(
        name_a,
        name_b,
        piece_length_key + piece_length_a,
        piece_length_key + piece_length_b,
    );
    vstd::utf8::encode_utf8_decode_utf8(a.name@);
    vstd::utf8::encode_utf8_decode_utf8(b.name@);
    same_tail(piece_length_key, piece_length_a, piece_length_b);
    bencode::integer_is_self_delimiting(
        a.piece_length as nat,
        b.piece_length as nat,
        pieces_key + pieces_a,
        pieces_key + pieces_b,
    );
    same_tail(pieces_key, pieces_a, pieces_b);
    bencode::byte_string_is_self_delimiting(a.pieces@, b.pieces@, end, end);
}

/// A dictionary of four entries, taken apart from the left.
proof fn from_the_left(
    k1: Seq<u8>,
    v1: Seq<u8>,
    k2: Seq<u8>,
    v2: Seq<u8>,
    k3: Seq<u8>,
    v3: Seq<u8>,
    k4: Seq<u8>,
    v4: Seq<u8>,
)
    ensures
        seq![100u8] + (k1 + v1) + (k2 + v2) + (k3 + v3) + (k4 + v4) + seq![101u8] == (seq![100u8]
            + k1) + (v1 + (k2 + (v2 + (k3 + (v3 + (k4 + (v4 + seq![101u8]))))))),
{
    assert(seq![100u8] + (k1 + v1) + (k2 + v2) + (k3 + v3) + (k4 + v4) + seq![101u8] =~= (seq![100u8]
        + k1) + (v1 + (k2 + (v2 + (k3 + (v3 + (k4 + (v4 + seq![101u8]))))))));
}

/// What follows a common beginning is the same where the whole is.
proof fn same_tail(head: Seq<u8>, a: Seq<u8>, b: Seq<u8>)
    requires
        head + a == head + b,
    ensures
        a == b,
{
    assert(a =~= (head + a).skip(head.len() as int));
    assert(b =~= (head + b).skip(head.len() as int));
}

/// The lesser of two numbers is one of them, and greater than neither.
pub proof fn lesser_is_greater_than_neither(a: int, b: int)
    ensures
        lesser(a, b) == a || lesser(a, b) == b,
        lesser(a, b) <= a,
        lesser(a, b) <= b,
{
}

/// A piece ends where the next one begins or where the file ends, and behind neither.
pub proof fn piece_reaches_the_next_or_the_end(index: int, piece_length: int, length: int)
    requires
        piece_length >= 0,
        index * piece_length <= length,
    ensures
        ({
            let end = index * piece_length + piece_size(index, piece_length, length);
            &&& piece_size(index, piece_length, length) >= 0
            &&& end == (index + 1) * piece_length || end == length
            &&& end <= (index + 1) * piece_length
            &&& end <= length
        }),
{
    assert((index + 1) * piece_length == index * piece_length + piece_length) by (nonlinear_arith);
}

/// The hashes joined are the bytes that hold them, each has 20 bytes but the last,
/// and none is empty.
pub proof fn hashes_joined_are_the_pieces(pieces: Seq<u8>)
    ensures
        ({
            let hashes = Seq::new(hash_count(pieces), |i: int| hash_at(pieces, i));
            &&& hashes.flatten() == pieces
            &&& forall|i: int| #![trigger hashes[i]]
                0 <= i < hashes.len() ==> 0 < hashes[i].len() <= 20
            &&& forall|i: int| #![trigger hashes[i]]
                0 <= i < hashes.len() - 1 ==> hashes[i].len() == 20
        }),
{
    let hashes = Seq::new(hash_count(pieces), |i: int| hash_at(pieces, i));
    first_hashes_joined(pieces, hashes.len());
    assert(hashes.take(hashes.len() as int) =~= hashes);
    assert(pieces.take(pieces.len() as int) =~= pieces);
    hashes.lemma_flatten_and_flatten_alt_are_equivalent();
}

/// The first hashes joined are the bytes that hold them.
proof fn first_hashes_joined(pieces: Seq<u8>, count: nat)
    requires
        count <= hash_count(pieces),
    ensures
        Seq::new(hash_count(pieces), |i: int| hash_at(pieces, i)).take(count as int).flatten_alt()
            == pieces.take(lesser(20 * count as int, pieces.len() as int)),
    decreases count,
{
    let hashes = Seq::new(hash_count(pieces), |i: int| hash_at(pieces, i));
    let first = hashes.take(count as int);
    let end = lesser(20 * count as int, pieces.len() as int);
    if count == 0 {
        assert(first.flatten_alt() =~= pieces.take(end));
    } else {
        let before = lesser(20 * (count - 1), pieces.len() as int);
        first_hashes_joined(pieces, (count - 1) as nat);
        assert(first.drop_last() =~= hashes.take(count - 1));
        assert(first.last() == hash_at(pieces, count - 1));
        assert(pieces.take(end) =~= pieces.take(before) + pieces.subrange(before, end));
        assert(before == 20 * (count - 1));
    }
}

/// Every hash has a piece to belong to exactly when the size of the piece at each
/// index can be told: no piece begins behind the end of the file, and the offset
/// behind it can be counted.
pub proof fn every_piece_is_checked(info: Info)
    ensures
        info.has_piece_for_each_hash() <==> {
            &&& info.length <= usize::MAX
            &&& info.piece_length <= usize::MAX
            &&& forall|index: int| #![trigger index * info.piece_length]
                0 <= index < hash_count(info.pieces@) ==> index * info.piece_length
                    + info.piece_length <= usize::MAX && index * info.piece_length <= info.length
        },
{
    let count = hash_count(info.pieces@) as int;
    let size = info.piece_length as int;
    if count > 0 {
        assert(count * size == (count - 1) * size + size) by (nonlinear_arith);
        assert forall|index: int| #![trigger index * info.piece_length]
            0 <= index < count implies index * info.piece_length <= (count - 1)
            * info.piece_length by {
            assert(index * size <= (count - 1) * size) by (nonlinear_arith)
                requires
                    index <= count - 1,
                    size >= 0,
            ;
        }
        assert((count - 1) * info.piece_length == (count - 1) * size);
    }
}

/// Metainfos that say the same agree in every field, and are encoded alike.
pub proof fn same_infos_agree(a: Info, b: Info)
    requires
        a.same(b),
    ensures
        a.name@ == b.name@,
        a.piece_length == b.piece_length,
        a.pieces@ == b.pieces@,
        a.length == b.length,
        a.spec_bencode() == b.spec_bencode(),
{
}

} // verus!
