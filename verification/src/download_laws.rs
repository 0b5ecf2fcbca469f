//! What holds of the download of a piece as a whole.
use crate::download;
use crate::download::{
    BlockError, BlockRequest, DownloadEvent, PieceDownload, MAX_BLOCK_SIZE, MAX_PIPELINED_REQUESTS,
};
use crate::endian;
use crate::metainfo;
use vstd::prelude::*;

verus! {

/// In how many blocks the first `size` bytes of a piece are asked for.
pub open spec fn block_count(size: int) -> int {
    download::blocks_between(0, size)
}

/// The blocks in which piece `index`, of `size` bytes, is asked for.
pub open spec fn all_blocks(index: usize, size: int) -> Seq<BlockRequest> {
    Seq::new(
        block_count(size) as nat,
        |i: int|
            BlockRequest {
                index: index as u32,
                begin: (i * MAX_BLOCK_SIZE) as u32,
                length: download::block_length(size, i * MAX_BLOCK_SIZE) as u32,
            },
    )
}

/// How many bytes some blocks have together.
pub open spec fn total_length(blocks: Seq<BlockRequest>) -> int
    decreases blocks.len(),
{
    if blocks.len() == 0 {
        0
    } else {
        total_length(blocks.drop_last()) + blocks.last().length
    }
}

/// No request asks for nothing, for more than a block, or for bytes that the
/// piece does not have.
pub proof fn requests_stay_within_the_piece(d: PieceDownload, choked: bool, i: int)
    requires
        d.requested_after(choked) <= u32::MAX,
        0 <= i < d.requests_due(choked).len(),
    ensures
        0 < d.requests_due(choked)[i].length <= MAX_BLOCK_SIZE,
        d.requests_due(choked)[i].begin + d.requests_due(choked)[i].length <= d.size,
{
    let size = d.size;
    assert(size as u32 <= size) by (bit_vector);
    assert(d.begin_of(i) <= d.begin_of(d.due(choked) - 1));
}

/// Nothing is asked of a peer that chokes us, nor for a piece that is complete.
pub proof fn no_requests_while_choked(d: PieceDownload, choked: bool)
    requires
        choked || d.complete(),
    ensures
        d.requests_due(choked).len() == 0,
        d.requested_after(choked) == d.num_bytes_requested,
{
}

/// At no time do more requests wait for an answer than the pipeline has room
/// for: sending what is due keeps to the bound.
pub proof fn pipeline_is_bounded(d: PieceDownload, choked: bool)
    requires
        d.num_pipelined_requests <= MAX_PIPELINED_REQUESTS,
    ensures
        0 <= d.due(choked),
        d.num_pipelined_requests + d.due(choked) <= MAX_PIPELINED_REQUESTS,
{
}

/// A download never stalls: while bytes are missing that were not asked for, and
/// the peer does not choke us, either an answer is still awaited or something is
/// due.
pub proof fn download_does_not_stall(d: PieceDownload)
    requires
        !d.complete(),
        d.size <= u32::MAX,
        d.num_bytes_requested < d.size,
    ensures
        d.num_pipelined_requests > 0 || d.requests_due(false).len() > 0,
{
}

/// What is due is the next part of the blocks of the piece, behind those that were
/// asked for: whoever sends what is due, again and again, asks for every block
/// once and in order.
pub proof fn requests_are_the_next_blocks(d: PieceDownload, choked: bool)
    requires
        d.well_formed(),
        d.size <= u32::MAX,
    ensures
        d.requested_after(choked) <= u32::MAX,
        ({
            let asked = block_count(d.num_bytes_requested as int);
            &&& asked + d.due(choked) <= block_count(d.size as int)
            &&& d.requests_due(choked) == all_blocks(d.index, d.size as int).subrange(
                asked,
                asked + d.due(choked),
            )
            &&& block_count(d.requested_after(choked)) == asked + d.due(choked)
        }),
{
    let size = d.size;
    let asked = block_count(d.num_bytes_requested as int);
    let due = d.due(choked);
    assert(size <= u32::MAX ==> size as u32 == size) by (bit_vector);
    assert(d.target() == size);
    if due > 0 {
        assert(d.num_bytes_requested == asked * MAX_BLOCK_SIZE);
        assert((asked + due) * MAX_BLOCK_SIZE == asked * MAX_BLOCK_SIZE + due * MAX_BLOCK_SIZE);
        assert forall|i: int| 0 <= i < due implies d.begin_of(i) == (asked + i)
            * MAX_BLOCK_SIZE by {}
    }
    assert(d.requests_due(choked) =~= all_blocks(d.index, size as int).subrange(
        asked,
        asked + due,
    ));
}

/// Every byte of a piece lies in one block, and in no other.
pub proof fn blocks_partition_the_piece(index: usize, size: int, position: int, i: int)
    requires
        0 <= position < size <= u32::MAX,
        0 <= i < block_count(size),
    ensures
        0 <= position / (MAX_BLOCK_SIZE as int) < block_count(size),
        ({
            let block = all_blocks(index, size)[i];
            block.begin <= position < block.begin + block.length <==> i == position / (
            MAX_BLOCK_SIZE as int)
        }),
{
}

/// The blocks of a piece are together as long as the piece, so that it is
/// complete when each has come.
pub proof fn blocks_add_up_to_the_piece(index: usize, size: int)
    requires
        0 <= size <= u32::MAX,
    ensures
        total_length(all_blocks(index, size)) == size,
{
    let blocks = all_blocks(index, size);
    first_blocks_add_up(index, size, block_count(size));
    assert(blocks.take(block_count(size)) =~= blocks);
}

/// The first `count` blocks of a piece reach as far as `count` whole blocks would,
/// but not past its end.
proof fn first_blocks_add_up(index: usize, size: int, count: int)
    requires
        0 <= size <= u32::MAX,
        0 <= count <= block_count(size),
    ensures
        total_length(all_blocks(index, size).take(count)) == metainfo::lesser(
            count * MAX_BLOCK_SIZE,
            size,
        ),
    decreases count,
{
    let blocks = all_blocks(index, size);
    if count > 0 {
        first_blocks_add_up(index, size, count - 1);
        assert(blocks.take(count).drop_last() =~= blocks.take(count - 1));
    }
}

/// `buf` after blocks have been put in their places one after the other. A block
/// is given by where it begins and its bytes.
pub open spec fn assembled(buf: Seq<u8>, blocks: Seq<(int, Seq<u8>)>) -> Seq<u8>
    decreases blocks.len(),
{
    if blocks.len() == 0 {
        buf
    } else {
        download::overlaid(
            assembled(buf, blocks.drop_last()),
            blocks.last().0,
            blocks.last().1,
        )
    }
}

/// Whether a block is the part of `piece` that lies where the block begins.
pub open spec fn is_part_of(block: (int, Seq<u8>), piece: Seq<u8>) -> bool {
    &&& 0 <= block.0
    &&& block.0 + block.1.len() <= piece.len()
    &&& block.1 == piece.subrange(block.0, block.0 + block.1.len())
}

/// Whether some block holds the byte at `position`.
pub open spec fn covered(blocks: Seq<(int, Seq<u8>)>, position: int) -> bool {
    exists|k: int| #![trigger blocks[k]]
        0 <= k < blocks.len() && blocks[k].0 <= position < blocks[k].0 + blocks[k].1.len()
}

/// Blocks that are true parts of a piece rebuild it, in whatever order they come
/// and however often, once every byte has come with one of them.
pub proof fn true_blocks_rebuild_the_piece(
    buf: Seq<u8>,
    blocks: Seq<(int, Seq<u8>)>,
    piece: Seq<u8>,
)
    requires
        buf.len() == piece.len(),
        forall|k: int| #![trigger blocks[k]] 0 <= k < blocks.len() ==> is_part_of(blocks[k], piece),
        forall|position: int| 0 <= position < piece.len() ==> #[trigger] covered(blocks, position),
    ensures
        assembled(buf, blocks) == piece,
{
    assembled_holds_what_came(buf, blocks, piece);
    assert forall|position: int| 0 <= position < piece.len() implies assembled(
        buf,
        blocks,
    )[position] == piece[position] by {
        assert(covered(blocks, position));
    }
    assert(assembled(buf, blocks) =~= piece);
}

/// Wherever a block has come, the piece is right.
proof fn assembled_holds_what_came(buf: Seq<u8>, blocks: Seq<(int, Seq<u8>)>, piece: Seq<u8>)
    requires
        buf.len() == piece.len(),
        forall|k: int| #![trigger blocks[k]] 0 <= k < blocks.len() ==> is_part_of(blocks[k], piece),
    ensures
        assembled(buf, blocks).len() == piece.len(),
        forall|position: int|
            0 <= position < piece.len() && #[trigger] covered(blocks, position) ==> assembled(
                buf,
                blocks,
            )[position] == piece[position],
    decreases blocks.len(),
{
    if blocks.len() > 0 {
        let init = blocks.drop_last();
        let last = blocks.last();
        assert(is_part_of(blocks[blocks.len() - 1], piece));
        assert forall|k: int| #![trigger init[k]] 0 <= k < init.len() implies is_part_of(
            init[k],
            piece,
        ) by {
            assert(init[k] == blocks[k]);
        }
        assembled_holds_what_came(buf, init, piece);
        assert forall|position: int|
            0 <= position < piece.len() && #[trigger] covered(blocks, position) implies assembled(
            buf,
            blocks,
        )[position] == piece[position] by {
            if !(last.0 <= position < last.0 + last.1.len()) {
                let k = choose|k: int| #![trigger blocks[k]]
                    0 <= k < blocks.len() && blocks[k].0 <= position < blocks[k].0
                        + blocks[k].1.len();
                assert(init[k] == blocks[k]);
                assert(covered(init, position));
            }
        }
    }
}

/// Answers to all the blocks of a piece leave no byte of it out.
pub proof fn answers_to_all_blocks_cover_the_piece(
    index: usize,
    size: int,
    answers: Seq<(int, Seq<u8>)>,
    position: int,
)
    requires
        0 <= position < size <= u32::MAX,
        forall|i: int| #![trigger all_blocks(index, size)[i]]
            0 <= i < block_count(size) ==> exists|k: int| #![trigger answers[k]]
                0 <= k < answers.len() && answers[k].0 == all_blocks(index, size)[i].begin
                    && answers[k].1.len() == all_blocks(index, size)[i].length,
    ensures
        covered(answers, position),
{
    let i = position / (MAX_BLOCK_SIZE as int);
    let block = all_blocks(index, size)[i];
    blocks_partition_the_piece(index, size, position, i);
    let k = choose|k: int| #![trigger answers[k]]
        0 <= k < answers.len() && answers[k].0 == block.begin && answers[k].1.len() == block.length;
    assert(answers[k].0 <= position < answers[k].0 + answers[k].1.len());
}

/// The low 32 bits of a number.
pub open spec fn low_bits(n: usize) -> int {
    n as int % 0x1_0000_0000
}

/// Casting to 32 bits keeps the low bits.
proof fn cast_keeps_low_bits(n: usize)
    ensures
        n as u32 == low_bits(n),
{
    assert(n as u32 as u64 == (n as u64) % 0x1_0000_0000) by (bit_vector);
}

/// Every request names the piece that is downloaded, in 32 bits.
pub proof fn requests_name_the_piece(d: PieceDownload, choked: bool, i: int)
    requires
        0 <= i < d.requests_due(choked).len(),
    ensures
        d.requests_due(choked)[i].index == low_bits(d.index),
        d.index <= u32::MAX ==> d.requests_due(choked)[i].index == d.index,
{
    cast_keeps_low_bits(d.index);
}

/// Nothing is asked of a peer that chokes us or for a piece of which all bytes have
/// come. Otherwise so much is asked for that five requests wait, or that nothing is
/// left to be asked for, and no more than that.
pub proof fn as_much_as_possible_is_asked_for(d: PieceDownload, choked: bool)
    ensures
        ({
            let count = d.requests_due(choked).len() as int;
            let asked = d.num_bytes_requested as int;
            &&& choked || d.num_bytes_downloaded >= d.size || d.num_pipelined_requests >= 5
                || asked >= low_bits(d.size) ==> count == 0
            &&& !choked && d.num_bytes_downloaded < d.size && d.num_pipelined_requests < 5 && asked
                < low_bits(d.size) ==> {
                &&& count > 0
                &&& count <= 5 - d.num_pipelined_requests
                &&& asked + 16384 * (count - 1) < low_bits(d.size)
                &&& count == 5 - d.num_pipelined_requests || asked + 16384 * count >= low_bits(
                    d.size,
                )
            }
        }),
{
    cast_keeps_low_bits(d.size);
}

/// What has been asked for once the requests that are due are sent reaches up to
/// where the last of them ends: whole blocks, but not past the end of the piece.
pub proof fn requests_reach_up_to_what_was_asked_for(d: PieceDownload, choked: bool)
    ensures
        ({
            let count = d.requests_due(choked).len() as int;
            let end = d.num_bytes_requested + 16384 * count;
            &&& count == 0 ==> d.requested_after(choked) == d.num_bytes_requested
            &&& count > 0 ==> d.requested_after(choked) == (if end <= d.size {
                end
            } else {
                d.size as int
            })
        }),
{
}

/// The requests follow each other without a gap, from what was asked for before.
/// Each is for a whole block, but for one that ends with the piece. Once they are
/// sent, each counts as waiting, and nothing else has changed.
pub proof fn requests_follow_each_other(d: PieceDownload, choked: bool)
    requires
        d.requested_after(choked) <= u32::MAX,
        d.num_pipelined_requests <= 5,
    ensures
        ({
            let requests = d.requests_due(choked);
            let after = d.after_requests(choked);
            let count = requests.len() as int;
            &&& count > 0 ==> requests[0].begin == d.num_bytes_requested
            &&& forall|i: int| #![trigger requests[i]]
                0 <= i < count - 1 ==> requests[i].length == 16384 && requests[i + 1].begin
                    == requests[i].begin + requests[i].length
            &&& count > 0 ==> {
                let last = requests[count - 1];
                &&& 0 < last.length <= 16384
                &&& last.length == 16384 || last.begin + last.length == d.size
                &&& after.num_bytes_requested == last.begin + last.length
            }
            &&& count == 0 ==> after.num_bytes_requested == d.num_bytes_requested
            &&& after.num_pipelined_requests == d.num_pipelined_requests + count
            &&& after.num_bytes_downloaded == d.num_bytes_downloaded
            &&& after.index == d.index
            &&& after.size == d.size
        }),
{
    let requests = d.requests_due(choked);
    let count = requests.len() as int;
    let size = d.size;
    assert(size as u32 <= size) by (bit_vector);
    pipeline_is_bounded(d, choked);
    if count > 0 {
        assert forall|i: int| #![trigger requests[i]] 0 <= i < count implies requests[i].begin
            == d.num_bytes_requested + 16384 * i && requests[i].begin < size && requests[i].length
            == (if size - requests[i].begin < 16384 {
            size - requests[i].begin
        } else {
            16384
        }) by {
            assert(d.begin_of(i) <= d.begin_of(count - 1));
            assert(d.begin_of(count - 1) < d.target());
        }
        assert forall|i: int| #![trigger requests[i]] 0 <= i < count - 1 implies requests[i].length
            == 16384 && requests[i + 1].begin == requests[i].begin + requests[i].length by {
            assert(requests[i + 1].begin < size);
        }
        assert(requests[0].begin == d.num_bytes_requested);
    }
}

/// A block that is put in its place is there, and all other bytes are as they were.
pub proof fn overlay_changes_only_its_place(buf: Seq<u8>, begin: int, block: Seq<u8>, i: int)
    requires
        0 <= i < buf.len(),
    ensures
        download::overlaid(buf, begin, block).len() == buf.len(),
        begin <= i < begin + block.len() ==> download::overlaid(buf, begin, block)[i] == block[i
            - begin],
        i < begin || i >= begin + block.len() ==> download::overlaid(buf, begin, block)[i]
            == buf[i],
{
}

/// A piece message says which piece its block belongs to and where it begins, and
/// carries its bytes. The block is taken if that is the piece that is downloaded and
/// the block lies within it; else the first of these that fails is told.
pub proof fn piece_message_carries_its_block(
    index: u32,
    begin: u32,
    block: Seq<u8>,
    size: int,
    wanted: int,
)
    ensures
        ({
            let payload = endian::bytes_of_u32(index) + endian::bytes_of_u32(begin) + block;
            &&& download::payload_begin(payload) == begin
            &&& download::payload_block(payload) == block
            &&& download::block_fault(size, wanted, payload) == (if index != wanted {
                Some(BlockError::WrongPiece)
            } else if begin >= size {
                Some(BlockError::BeginsPastEnd)
            } else if begin + block.len() > size {
                Some(BlockError::EndsPastEnd)
            } else {
                None
            })
        }),
{
    let payload = endian::bytes_of_u32(index) + endian::bytes_of_u32(begin) + block;
    endian::u32_round_trip(index, endian::bytes_of_u32(begin) + block);
    endian::u32_round_trip(begin, block);
    assert(payload =~= endian::bytes_of_u32(index) + (endian::bytes_of_u32(begin) + block));
    assert(payload.skip(4) =~= endian::bytes_of_u32(begin) + block);
    assert(payload.skip(8) =~= block);
}

/// A payload of fewer than eight bytes is too short for a block.
pub proof fn short_payload_has_no_block(payload: Seq<u8>, size: int, wanted: int)
    requires
        payload.len() < 8,
    ensures
        download::block_fault(size, wanted, payload) == Some(BlockError::TooShort),
{
}

/// Only messages with the id 7 bring blocks, and each of them does.
pub proof fn only_piece_messages_bring_blocks(event: DownloadEvent)
    ensures
        match event {
            DownloadEvent::Received(message) => download::block_of(event) == (if message.id == 7 {
                Some(message.payload@)
            } else {
                None
            }),
            DownloadEvent::ReadFailed => download::block_of(event) is None,
        },
{
}

/// An event that brings no block changes no count. A block adds what it has behind its
/// first eight bytes to the bytes that have come, and takes one from the requests that
/// wait; it can be counted exactly when both numbers can.
pub proof fn counting_is_exact(d: PieceDownload, event: DownloadEvent)
    ensures
        match download::block_of(event) {
            None => d.counts(event) && d.accepts(event) && d.after_event(event) == d,
            Some(payload) => payload.len() >= 8 ==> {
                let after = d.after_event(event);
                let sum = d.num_bytes_downloaded + payload.len() - 8;
                &&& d.counts(event) <==> sum <= usize::MAX && d.num_pipelined_requests - 1 >= -128
                &&& d.accepts(event) == d.counts(event)
                &&& d.counts(event) ==> after.num_bytes_downloaded == sum
                &&& d.counts(event) ==> after.num_pipelined_requests == d.num_pipelined_requests - 1
                &&& after.num_bytes_requested == d.num_bytes_requested
                &&& after.index == d.index
                &&& after.size == d.size
            },
        },
        (download::block_of(event) matches Some(payload) && payload.len() < 8) ==> {
            &&& !d.accepts(event)
            &&& d.counts(event) <==> d.num_pipelined_requests - 1 >= -128
        },
{
}

} // verus!
