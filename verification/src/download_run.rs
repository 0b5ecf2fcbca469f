//! A download from its beginning: where it stands after everything that a peer has
//! said, and that it ends with the piece.
use crate::download;
use crate::connection::Connection;
use crate::download::{
    keep_block, BlockError, BlockRequest, DownloadEvent, DownloadStep, OnReadFailure, PieceDownload,
    MAX_PIPELINED_REQUESTS,
};
use crate::download_laws;
use crate::endian;
use crate::piece_request::PieceRequest;
use vstd::prelude::*;

verus! {

/// Where a download stands.
pub struct Standing {
    /// The counts.
    pub download: PieceDownload,
    /// Whether the peer chokes us.
    pub choked: bool,
    /// The bytes of the piece, as far as they have come.
    pub buf: Seq<u8>,
    /// The blocks that have been asked for, in order.
    pub asked: Seq<BlockRequest>,
    /// The blocks that have come, in order: where each begins, and its bytes.
    pub taken: Seq<(int, Seq<u8>)>,
}

/// Where the download of `request` stands at first.
pub open spec fn beginning(request: PieceRequest, choked: bool) -> Standing {
    Standing {
        download: PieceDownload::fresh(request),
        choked,
        buf: Seq::new(request.size as nat, |i: int| 0u8),
        asked: Seq::empty(),
        taken: Seq::empty(),
    }
}

impl Standing {
    /// Where the download stands once what is due has been asked for.
    pub open spec fn after_asking(self) -> Standing {
        Standing {
            download: self.download.after_requests(self.choked),
            asked: self.asked + self.download.requests_due(self.choked),
            ..self
        }
    }

    /// Where the download stands once an event has been taken in and a block that
    /// it brought has been put in its place.
    pub open spec fn after_event(self, event: DownloadEvent) -> Standing {
        let next = Standing {
            download: self.download.after_event(event),
            choked: download::choked_after(self.choked, event),
            ..self
        };
        match download::block_of(event) {
            Some(payload) => {
                let begin = download::payload_begin(payload);
                let block = download::payload_block(payload);
                Standing {
                    buf: download::overlaid(self.buf, begin, block),
                    taken: self.taken.push((begin, block)),
                    ..next
                }
            },
            None => next,
        }
    }

    /// Whether a block that the event brings belongs to the piece.
    pub open spec fn fits(self, event: DownloadEvent) -> bool {
        download::block_of(event) matches Some(payload) ==> download::block_fault(
            self.buf.len() as int,
            self.download.index as int,
            payload,
        ) is None
    }
}

/// Where a download with these counts and bytes stands, as far as it is known
/// without its past.
pub open spec fn at_hand(download: PieceDownload, choked: bool, buf: Seq<u8>) -> Standing {
    Standing { download, choked, buf, asked: Seq::empty(), taken: Seq::empty() }
}

/// Takes in what has happened in a download: a block that belongs to the piece is
/// put in its place in `buf` and counted, and a message that chokes or unchokes is
/// remembered in the connection. A block that does not belong there ends the
/// download, and changes nothing.
pub fn take_event(
    download: &mut PieceDownload,
    conn: &mut Connection,
    buf: &mut Vec<u8>,
    event: &DownloadEvent,
    on_read_failure: OnReadFailure,
) -> (taken: Result<DownloadStep, BlockError>)
    requires
        at_hand(*old(download), old(conn).choked, old(buf)@).fits(*event) ==> old(download).counts(
            *event,
        ),
    ensures
        final(conn).peer_id == old(conn).peer_id,
        final(conn).bitfield == old(conn).bitfield,
        ({
            let before = at_hand(*old(download), old(conn).choked, old(buf)@);
            let after = before.after_event(*event);
            match taken {
                Ok(step) => {
                    &&& before.fits(*event)
                    &&& *final(download) == after.download
                    &&& final(conn).choked == after.choked
                    &&& final(buf)@ == after.buf
                    &&& step == (if event is ReadFailed && on_read_failure is GiveUp {
                        DownloadStep::GaveUp
                    } else if after.download.complete() {
                        DownloadStep::Complete
                    } else {
                        DownloadStep::Continue
                    })
                },
                Err(e) => {
                    &&& !before.fits(*event)
                    &&& download::block_fault(
                        old(buf)@.len() as int,
                        old(download).index as int,
                        download::block_of(*event)->0,
                    ) == Some(e)
                    &&& *final(download) == *old(download)
                    &&& final(conn).choked == old(conn).choked
                    &&& final(buf)@ == old(buf)@
                },
            }
        }),
        old(download).well_formed() ==> final(download).well_formed(),
{
    match keep_block(buf, download.index, event) {
        Err(e) => Err(e),
        Ok(()) => Ok(download.step(conn, event, on_read_failure)),
    }
}

/// What becomes of the counts and the bytes does not depend on the past.
pub proof fn the_past_does_not_matter(now: Standing, event: DownloadEvent)
    ensures
        ({
            let bare = at_hand(now.download, now.choked, now.buf);
            &&& bare.fits(event) == now.fits(event)
            &&& bare.after_event(event).download == now.after_event(event).download
            &&& bare.after_event(event).choked == now.after_event(event).choked
            &&& bare.after_event(event).buf == now.after_event(event).buf
        }),
{
}

/// Where the download of `request` stands after `events`, if what is due is asked
/// for before each of them.
pub open spec fn standing(
    request: PieceRequest,
    choked: bool,
    events: Seq<DownloadEvent>,
) -> Standing
    decreases events.len(),
{
    if events.len() == 0 {
        beginning(request, choked)
    } else {
        standing(request, choked, events.drop_last()).after_asking().after_event(events.last())
    }
}

/// Whether each of `events` can be taken in by the download of `request`.
pub open spec fn takes_in(request: PieceRequest, choked: bool, events: Seq<DownloadEvent>) -> bool
    decreases events.len(),
{
    events.len() == 0 || {
        &&& takes_in(request, choked, events.drop_last())
        &&& standing(request, choked, events.drop_last()).after_asking().download.accepts(
            events.last(),
        )
    }
}

/// Whether the download of `request` goes on through all of `events`: each can be
/// taken in, and each block that comes belongs to the piece.
pub open spec fn goes_through(
    request: PieceRequest,
    choked: bool,
    events: Seq<DownloadEvent>,
) -> bool
    decreases events.len(),
{
    &&& takes_in(request, choked, events)
    &&& events.len() == 0 || {
        &&& goes_through(request, choked, events.drop_last())
        &&& standing(request, choked, events.drop_last()).after_asking().fits(events.last())
    }
}

/// How many bytes some blocks have together.
pub open spec fn bytes_in(blocks: Seq<(int, Seq<u8>)>) -> int
    decreases blocks.len(),
{
    if blocks.len() == 0 {
        0
    } else {
        bytes_in(blocks.drop_last()) + blocks.last().1.len()
    }
}

/// Whatever a peer says, what it has been asked for are the first blocks of the
/// piece, each once and in order. The requests that wait, which are those that were
/// sent less the blocks that have come, are counted, and never are there more than
/// the pipeline has room for.
pub proof fn blocks_are_asked_for_once_and_in_order(
    request: PieceRequest,
    choked: bool,
    events: Seq<DownloadEvent>,
)
    requires
        request.size <= u32::MAX,
        takes_in(request, choked, events),
    ensures
        ({
            let now = standing(request, choked, events);
            let blocks = download_laws::all_blocks(request.index, request.size as int);
            let count = download_laws::block_count(now.download.num_bytes_requested as int);
            &&& now.download.well_formed()
            &&& now.download.index == request.index
            &&& now.download.size == request.size
            &&& 0 <= count <= blocks.len()
            &&& now.asked == blocks.take(count)
            &&& now.asked.len() - now.taken.len() == now.download.num_pipelined_requests
            &&& now.download.num_pipelined_requests <= MAX_PIPELINED_REQUESTS
        }),
    decreases events.len(),
{
    let blocks = download_laws::all_blocks(request.index, request.size as int);
    if events.len() == 0 {
        assert(beginning(request, choked).asked =~= blocks.take(0));
    } else {
        let before = standing(request, choked, events.drop_last());
        let asked = before.after_asking();
        let count = download_laws::block_count(before.download.num_bytes_requested as int);
        let due = before.download.due(before.choked);
        blocks_are_asked_for_once_and_in_order(request, choked, events.drop_last());
        download_laws::requests_are_the_next_blocks(before.download, before.choked);
        download_laws::pipeline_is_bounded(before.download, before.choked);
        asking_keeps_well_formed(before.download, before.choked);
        assert(asked.asked =~= blocks.take(count + due));
    }
}

/// Sending what is due keeps a download well-formed.
proof fn asking_keeps_well_formed(d: PieceDownload, choked: bool)
    requires
        d.well_formed(),
        d.size <= u32::MAX,
    ensures
        d.after_requests(choked).well_formed(),
        d.after_requests(choked).num_bytes_requested == d.requested_after(choked),
{
    download_laws::requests_are_the_next_blocks(d, choked);
    download_laws::pipeline_is_bounded(d, choked);
}

/// Whatever a peer says, the bytes that have come are those of the blocks that were
/// taken, each in its place, and their number is counted.
pub proof fn blocks_that_came_are_kept_and_counted(
    request: PieceRequest,
    choked: bool,
    events: Seq<DownloadEvent>,
)
    requires
        goes_through(request, choked, events),
    ensures
        ({
            let now = standing(request, choked, events);
            &&& now.buf.len() == request.size
            &&& now.download.size == request.size
            &&& now.buf == download_laws::assembled(beginning(request, choked).buf, now.taken)
            &&& now.download.num_bytes_downloaded == bytes_in(now.taken)
        }),
    decreases events.len(),
{
    if events.len() > 0 {
        let before = standing(request, choked, events.drop_last());
        let now = standing(request, choked, events);
        blocks_that_came_are_kept_and_counted(request, choked, events.drop_last());
        if download::block_of(events.last()) is Some {
            assert(now.taken.drop_last() =~= before.taken);
        }
    }
}

/// A download from a peer that tells the truth ends with the piece: once every byte
/// has come with some block, the download is complete and holds the piece, whatever
/// else the peer has said and in whatever order the blocks came.
pub proof fn download_ends_with_the_piece(
    request: PieceRequest,
    choked: bool,
    events: Seq<DownloadEvent>,
    piece: Seq<u8>,
)
    requires
        goes_through(request, choked, events),
        piece.len() == request.size,
        ({
            let taken = standing(request, choked, events).taken;
            &&& forall|k: int| #![trigger taken[k]]
                0 <= k < taken.len() ==> download_laws::is_part_of(taken[k], piece)
            &&& forall|position: int|
                0 <= position < piece.len() ==> #[trigger] download_laws::covered(taken, position)
        }),
    ensures
        standing(request, choked, events).download.complete(),
        standing(request, choked, events).buf == piece,
{
    let now = standing(request, choked, events);
    blocks_that_came_are_kept_and_counted(request, choked, events);
    download_laws::true_blocks_rebuild_the_piece(
        beginning(request, choked).buf,
        now.taken,
        piece,
    );
    covering_blocks_are_enough(now.taken, piece.len() as int);
}

/// The positions that some blocks hold.
spec fn positions(blocks: Seq<(int, Seq<u8>)>) -> Set<int>
    decreases blocks.len(),
{
    if blocks.len() == 0 {
        Set::empty()
    } else {
        positions(blocks.drop_last()).union(
            vstd::set_lib::set_int_range(
                blocks.last().0,
                blocks.last().0 + blocks.last().1.len() as int,
            ),
        )
    }
}

/// Blocks hold no more positions than bytes.
proof fn positions_are_bounded(blocks: Seq<(int, Seq<u8>)>)
    ensures
        positions(blocks).finite(),
        positions(blocks).len() <= bytes_in(blocks),
    decreases blocks.len(),
{
    if blocks.len() > 0 {
        let first = positions(blocks.drop_last());
        let last = blocks.last();
        let range = vstd::set_lib::set_int_range(last.0, last.0 + last.1.len() as int);
        positions_are_bounded(blocks.drop_last());
        vstd::set_lib::lemma_int_range(last.0, last.0 + last.1.len() as int);
        vstd::set_lib::lemma_len_union(first, range);
    }
}

/// A position that is covered is among those that the blocks hold.
proof fn covered_positions_are_held(blocks: Seq<(int, Seq<u8>)>, position: int)
    requires
        download_laws::covered(blocks, position),
    ensures
        positions(blocks).contains(position),
    decreases blocks.len(),
{
    let k = choose|k: int| #![trigger blocks[k]]
        0 <= k < blocks.len() && blocks[k].0 <= position < blocks[k].0 + blocks[k].1.len();
    if k < blocks.len() - 1 {
        assert(blocks.drop_last()[k] == blocks[k]);
        covered_positions_are_held(blocks.drop_last(), position);
    }
}

/// Blocks that hold every byte of a piece have at least as many bytes as the piece.
proof fn covering_blocks_are_enough(blocks: Seq<(int, Seq<u8>)>, size: int)
    requires
        size >= 0,
        forall|position: int|
            0 <= position < size ==> #[trigger] download_laws::covered(blocks, position),
    ensures
        bytes_in(blocks) >= size,
{
    let range = vstd::set_lib::set_int_range(0, size);
    positions_are_bounded(blocks);
    vstd::set_lib::lemma_int_range(0, size);
    assert forall|position: int| range.contains(position) implies positions(blocks).contains(
        position,
    ) by {
        assert(download_laws::covered(blocks, position));
        covered_positions_are_held(blocks, position);
    }
    vstd::set_lib::lemma_len_subset(range, positions(blocks));
}

/// The payloads of the piece messages among `events`, in order.
pub open spec fn payloads(events: Seq<DownloadEvent>) -> Seq<Seq<u8>>
    decreases events.len(),
{
    if events.len() == 0 {
        Seq::empty()
    } else {
        let before = payloads(events.drop_last());
        match events.last() {
            DownloadEvent::Received(message) => if message.id == 7 {
                before.push(message.payload@)
            } else {
                before
            },
            DownloadEvent::ReadFailed => before,
        }
    }
}

/// The blocks that a download has taken are those of the piece messages that came,
/// one for each, in order.
pub proof fn blocks_taken_are_those_that_came(
    request: PieceRequest,
    choked: bool,
    events: Seq<DownloadEvent>,
)
    ensures
        ({
            let taken = standing(request, choked, events).taken;
            let came = payloads(events);
            &&& taken.len() == came.len()
            &&& forall|k: int| #![trigger taken[k]]
                0 <= k < taken.len() ==> taken[k].0 == endian::u32_of_bytes(came[k].skip(4)) && (
                came[k].len() >= 8 ==> taken[k].1 == came[k].skip(8))
        }),
    decreases events.len(),
{
    if events.len() > 0 {
        blocks_taken_are_those_that_came(request, choked, events.drop_last());
    }
}

/// A further block adds its bytes.
pub proof fn bytes_add_up(blocks: Seq<(int, Seq<u8>)>, block: (int, Seq<u8>))
    ensures
        bytes_in(Seq::empty()) == 0,
        bytes_in(blocks.push(block)) == bytes_in(blocks) + block.1.len(),
{
    assert(blocks.push(block).drop_last() =~= blocks);
}

/// A download is complete exactly when the blocks that have come have, together, at
/// least as many bytes as the piece.
pub proof fn complete_means_all_bytes_came(
    request: PieceRequest,
    choked: bool,
    events: Seq<DownloadEvent>,
)
    requires
        goes_through(request, choked, events),
    ensures
        standing(request, choked, events).download.complete() <==> bytes_in(
            standing(request, choked, events).taken,
        ) >= request.size,
{
    blocks_that_came_are_kept_and_counted(request, choked, events);
}

/// A download of blocks of which no two overlap is complete only when every byte has
/// come with one of them. If they are true parts of the piece, it then holds the piece.
pub proof fn complete_download_holds_the_piece(
    request: PieceRequest,
    choked: bool,
    events: Seq<DownloadEvent>,
    piece: Seq<u8>,
)
    requires
        goes_through(request, choked, events),
        piece.len() == request.size,
        standing(request, choked, events).download.complete(),
        ({
            let taken = standing(request, choked, events).taken;
            &&& forall|k: int| #![trigger taken[k]]
                0 <= k < taken.len() ==> download_laws::is_part_of(taken[k], piece)
            &&& forall|j: int, k: int| #![trigger taken[j], taken[k]]
                0 <= j < k < taken.len() ==> taken[j].0 + taken[j].1.len() <= taken[k].0
                    || taken[k].0 + taken[k].1.len() <= taken[j].0
        }),
    ensures
        forall|position: int|
            0 <= position < piece.len() ==> #[trigger] download_laws::covered(
                standing(request, choked, events).taken,
                position,
            ),
        standing(request, choked, events).buf == piece,
{
    let taken = standing(request, choked, events).taken;
    let range = vstd::set_lib::set_int_range(0, piece.len() as int);
    complete_means_all_bytes_came(request, choked, events);
    positions_of_apart_blocks(taken);
    vstd::set_lib::lemma_int_range(0, piece.len() as int);
    assert forall|position: int| positions(taken).contains(position) implies range.contains(
        position,
    ) by {
        held_positions_are_covered(taken, position);
        let k = choose|k: int| #![trigger taken[k]]
            0 <= k < taken.len() && taken[k].0 <= position < taken[k].0 + taken[k].1.len();
        assert(download_laws::is_part_of(taken[k], piece));
    }
    vstd::set_lib::lemma_len_subset(positions(taken), range);
    vstd::set_lib::lemma_subset_equality(positions(taken), range);
    assert forall|position: int| 0 <= position < piece.len() implies
        #[trigger] download_laws::covered(taken, position) by {
        assert(range.contains(position));
        held_positions_are_covered(taken, position);
    }
    download_ends_with_the_piece(request, choked, events, piece);
}

/// A position that the blocks hold is covered.
proof fn held_positions_are_covered(blocks: Seq<(int, Seq<u8>)>, position: int)
    requires
        positions(blocks).contains(position),
    ensures
        download_laws::covered(blocks, position),
    decreases blocks.len(),
{
    if blocks.len() > 0 {
        let last = blocks.last();
        if last.0 <= position < last.0 + last.1.len() {
            assert(blocks[blocks.len() - 1] == last);
        } else {
            let init = blocks.drop_last();
            held_positions_are_covered(init, position);
            let k = choose|k: int| #![trigger init[k]]
                0 <= k < init.len() && init[k].0 <= position < init[k].0 + init[k].1.len();
            assert(blocks[k] == init[k]);
        }
    }
}

/// Blocks of which no two overlap hold as many positions as bytes.
proof fn positions_of_apart_blocks(blocks: Seq<(int, Seq<u8>)>)
    requires
        forall|j: int, k: int| #![trigger blocks[j], blocks[k]]
            0 <= j < k < blocks.len() ==> blocks[j].0 + blocks[j].1.len() <= blocks[k].0
                || blocks[k].0 + blocks[k].1.len() <= blocks[j].0,
    ensures
        positions(blocks).finite(),
        positions(blocks).len() == bytes_in(blocks),
    decreases blocks.len(),
{
    if blocks.len() > 0 {
        let init = blocks.drop_last();
        let last = blocks.last();
        let range = vstd::set_lib::set_int_range(last.0, last.0 + last.1.len() as int);
        assert forall|j: int, k: int| #![trigger init[j], init[k]]
            0 <= j < k < init.len() implies init[j].0 + init[j].1.len() <= init[k].0 || init[k].0
            + init[k].1.len() <= init[j].0 by {
            assert(init[j] == blocks[j] && init[k] == blocks[k]);
        }
        positions_of_apart_blocks(init);
        vstd::set_lib::lemma_int_range(last.0, last.0 + last.1.len() as int);
        assert forall|position: int| positions(init).contains(position) implies !range.contains(
            position,
        ) by {
            held_positions_are_covered(init, position);
            let j = choose|j: int| #![trigger init[j]]
                0 <= j < init.len() && init[j].0 <= position < init[j].0 + init[j].1.len();
            assert(init[j] == blocks[j] && last == blocks[blocks.len() - 1]);
        }
        assert(positions(init).disjoint(range));
        vstd::set_lib::lemma_set_disjoint_lens(positions(init), range);
    }
}

/// Where a peer sends only blocks that it is asked for, each at most once, a download
/// is complete exactly when every block of the piece has come. If they are true, it
/// then holds the piece.
pub proof fn complete_means_every_block_came(
    request: PieceRequest,
    choked: bool,
    events: Seq<DownloadEvent>,
    piece: Seq<u8>,
)
    requires
        goes_through(request, choked, events),
        piece.len() == request.size,
        ({
            let taken = standing(request, choked, events).taken;
            &&& forall|k: int| #![trigger taken[k]]
                0 <= k < taken.len() ==> {
                    let left = request.size - taken[k].0;
                    &&& download_laws::is_part_of(taken[k], piece)
                    &&& taken[k].0 % 16384 == 0
                    &&& taken[k].1.len() == (if left < 16384 {
                        left
                    } else {
                        16384
                    })
                }
            &&& forall|j: int, k: int| #![trigger taken[j], taken[k]]
                0 <= j < k < taken.len() ==> taken[j].0 != taken[k].0
        }),
    ensures
        ({
            let now = standing(request, choked, events);
            let all_came = forall|i: int| #![trigger i * 16384]
                0 <= i && i * 16384 < request.size ==> exists|k: int| #![trigger now.taken[k]]
                    0 <= k < now.taken.len() && now.taken[k].0 == i * 16384;
            &&& now.download.complete() <==> all_came
            &&& now.download.complete() ==> now.buf == piece
        }),
{
    let now = standing(request, choked, events);
    let taken = now.taken;
    let all_came = forall|i: int| #![trigger i * 16384]
        0 <= i && i * 16384 < request.size ==> exists|k: int| #![trigger taken[k]]
            0 <= k < taken.len() && taken[k].0 == i * 16384;
    if now.download.complete() {
        assert forall|j: int, k: int| #![trigger taken[j], taken[k]]
            0 <= j < k < taken.len() implies taken[j].0 + taken[j].1.len() <= taken[k].0
            || taken[k].0 + taken[k].1.len() <= taken[j].0 by {
            assert(taken[j].0 != taken[k].0);
        }
        complete_download_holds_the_piece(request, choked, events, piece);
        assert forall|i: int| #![trigger i * 16384]
            0 <= i && i * 16384 < request.size implies exists|k: int| #![trigger taken[k]]
            0 <= k < taken.len() && taken[k].0 == i * 16384 by {
            assert(download_laws::covered(taken, i * 16384));
            let k = choose|k: int| #![trigger taken[k]]
                0 <= k < taken.len() && taken[k].0 <= i * 16384 < taken[k].0 + taken[k].1.len();
            assert(taken[k].0 % 16384 == 0);
            assert(taken[k].0 == i * 16384);
        }
    }
    if all_came {
        assert forall|position: int| 0 <= position < piece.len() implies
            #[trigger] download_laws::covered(taken, position) by {
            let i = position / 16384;
            assert(0 <= i && i * 16384 <= position < i * 16384 + 16384);
            let k = choose|k: int| #![trigger taken[k]]
                0 <= k < taken.len() && taken[k].0 == i * 16384;
            assert(taken[k].0 <= position < taken[k].0 + taken[k].1.len());
        }
        download_ends_with_the_piece(request, choked, events, piece);
    }
}

/// Whether an event is a message that chokes or unchokes.
pub open spec fn is_about_choking(event: DownloadEvent) -> bool {
    event matches DownloadEvent::Received(message) && (message.id == 0 || message.id == 1)
}

/// The last message that chokes or unchokes decides whether the peer chokes us.
pub proof fn last_word_on_choking_counts(
    request: PieceRequest,
    choked: bool,
    events: Seq<DownloadEvent>,
    k: int,
)
    requires
        0 <= k < events.len(),
        is_about_choking(events[k]),
        forall|j: int| k < j < events.len() ==> !is_about_choking(#[trigger] events[j]),
    ensures
        standing(request, choked, events).choked == (events[k]->Received_0.id == 0),
    decreases events.len(),
{
    if k < events.len() - 1 {
        let before = events.drop_last();
        assert(before[k] == events[k]);
        assert forall|j: int| k < j < before.len() implies !is_about_choking(
            #[trigger] before[j],
        ) by {
            assert(before[j] == events[j]);
        }
        last_word_on_choking_counts(request, choked, before, k);
        assert(!is_about_choking(events[events.len() - 1]));
    }
}

/// Without such a message, the peer chokes us if it did at first.
pub proof fn nothing_else_chokes(request: PieceRequest, choked: bool, events: Seq<DownloadEvent>)
    requires
        forall|j: int| 0 <= j < events.len() ==> !is_about_choking(#[trigger] events[j]),
    ensures
        standing(request, choked, events).choked == choked,
    decreases events.len(),
{
    if events.len() > 0 {
        let before = events.drop_last();
        assert forall|j: int| 0 <= j < before.len() implies !is_about_choking(
            #[trigger] before[j],
        ) by {
            assert(before[j] == events[j]);
        }
        nothing_else_chokes(request, choked, before);
        assert(!is_about_choking(events[events.len() - 1]));
    }
}

} // verus!
