//! A torrent: the metainfo, and the tracker that knows who serves the file.
use crate::metainfo::Info;
use crate::text;
use vstd::prelude::*;

verus! {

/// What a torrent file says.
#[derive(Debug)]
pub struct Torrent {
    pub info: Info,
    pub announce: String,
}

/// The URL at which the tracker `announce` is asked for peers, by the client
/// `peer_id`, that share the torrent `info_hash` and of which `left` bytes are
/// still missing.
pub open spec fn tracker_url(
    announce: Seq<char>,
    info_hash: Seq<u8>,
    peer_id: Seq<u8>,
    left: nat,
) -> Seq<char> {
    announce + "?compact=1&downloaded=0&port=6881&uploaded=0&info_hash="@ + text::ascii(
        text::percent_encoded(info_hash),
    ) + "&peer_id="@ + text::ascii(text::percent_encoded(peer_id)) + "&left="@ + text::ascii(
        text::decimal(left),
    )
}

/// The URL at which the tracker of `torrent` is asked for peers. Nothing has been
/// downloaded yet, so the whole length of the file is left.
pub fn build_tracker_url(torrent: &Torrent, info_hash: &[u8], peer_id: &[u8]) -> (url: String)
    ensures
        url@ == tracker_url(
            torrent.announce@,
            info_hash@,
            peer_id@,
            torrent.info.length as nat,
        ),
{
    let mut url: String = torrent.announce.clone();
    url.append("?compact=1&downloaded=0&port=6881&uploaded=0&info_hash=");
    url.append(text::percent_encode(info_hash).as_str());
    url.append("&peer_id=");
    url.append(text::percent_encode(peer_id).as_str());
    url.append("&left=");
    text::push_decimal(&mut url, torrent.info.length);
    url
}

impl Torrent {
    /// The URL at which the tracker is asked for peers.
    pub fn build_tracker_url(&self, info_hash: [u8; 20], peer_id: [u8; 20]) -> (url: String)
        ensures
            url@ == tracker_url(
                self.announce@,
                info_hash@,
                peer_id@,
                self.info.length as nat,
            ),
    {
        build_tracker_url(self, &info_hash, &peer_id)
    }
}

/// The parts of `text` between the characters `mark`.
pub open spec fn split(text: Seq<char>, mark: char) -> Seq<Seq<char>>
    decreases text.len(),
{
    if text.len() == 0 {
        seq![Seq::empty()]
    } else {
        let parts = split(text.drop_last(), mark);
        if text.last() == mark {
            parts.push(Seq::empty())
        } else {
            parts.drop_last().push(parts.last().push(text.last()))
        }
    }
}

/// There is always a part.
proof fn split_is_not_empty(text: Seq<char>, mark: char)
    ensures
        split(text, mark).len() > 0,
    decreases text.len(),
{
    if text.len() > 0 {
        split_is_not_empty(text.drop_last(), mark);
    }
}

/// A part without the mark, behind a mark, is the last part.
proof fn last_part(text: Seq<char>, mark: char, part: Seq<char>)
    requires
        forall|i: int| 0 <= i < part.len() ==> part[i] != mark,
    ensures
        split(text + seq![mark] + part, mark) == split(text, mark).push(part),
    decreases part.len(),
{
    let whole = text + seq![mark] + part;
    if part.len() == 0 {
        assert(whole.drop_last() =~= text);
        assert(part =~= Seq::<char>::empty());
    } else {
        let init = part.drop_last();
        last_part(text, mark, init);
        assert(whole.drop_last() =~= text + seq![mark] + init);
        assert(init.push(part.last()) =~= part);
        assert(split(text, mark).push(init).drop_last() =~= split(text, mark));
        assert(whole.last() == part.last());
    }
}

/// Text without the mark is one part.
proof fn only_part(part: Seq<char>, mark: char)
    requires
        forall|i: int| 0 <= i < part.len() ==> part[i] != mark,
    ensures
        split(part, mark) == seq![part],
    decreases part.len(),
{
    if part.len() == 0 {
        assert(part =~= Seq::<char>::empty());
    } else {
        only_part(part.drop_last(), mark);
        assert(part.drop_last().push(part.last()) =~= part);
        assert(seq![part.drop_last()].drop_last().push(part) =~= seq![part]);
    }
}

/// The beginning of the query, cut at its marks.
proof fn fixed_parameters()
    ensures
        "?compact=1&downloaded=0&port=6881&uploaded=0&info_hash="@ == seq!['?'] + "compact=1"@
            + seq!['&'] + "downloaded=0"@ + seq!['&'] + "port=6881"@ + seq!['&'] + "uploaded=0"@
            + seq!['&'] + "info_hash="@,
        "&peer_id="@ == seq!['&'] + "peer_id="@,
        "&left="@ == seq!['&'] + "left="@,
        forall|i: int| 0 <= i < "compact=1"@.len() ==> "compact=1"@[i] != '&',
        forall|i: int| 0 <= i < "downloaded=0"@.len() ==> "downloaded=0"@[i] != '&',
        forall|i: int| 0 <= i < "port=6881"@.len() ==> "port=6881"@[i] != '&',
        forall|i: int| 0 <= i < "uploaded=0"@.len() ==> "uploaded=0"@[i] != '&',
        forall|i: int| 0 <= i < "info_hash="@.len() ==> "info_hash="@[i] != '&',
        forall|i: int| 0 <= i < "peer_id="@.len() ==> "peer_id="@[i] != '&',
        forall|i: int| 0 <= i < "left="@.len() ==> "left="@[i] != '&',
{
    reveal_strlit("?compact=1&downloaded=0&port=6881&uploaded=0&info_hash=");
    reveal_strlit("compact=1");
    reveal_strlit("downloaded=0");
    reveal_strlit("port=6881");
    reveal_strlit("uploaded=0");
    reveal_strlit("info_hash=");
    reveal_strlit("&peer_id=");
    reveal_strlit("peer_id=");
    reveal_strlit("&left=");
    reveal_strlit("left=");
    assert("?compact=1&downloaded=0&port=6881&uploaded=0&info_hash="@ =~= seq!['?']
        + "compact=1"@ + seq!['&'] + "downloaded=0"@ + seq!['&'] + "port=6881"@ + seq!['&']
        + "uploaded=0"@ + seq!['&'] + "info_hash="@);
    assert("&peer_id="@ =~= seq!['&'] + "peer_id="@);
    assert("&left="@ =~= seq!['&'] + "left="@);
}

/// The URL is the announced one and a query of seven parameters behind a `?`: four
/// that are fixed, and the info hash, the peer id and the number of bytes that are
/// left, each of which reads back.
pub proof fn tracker_reads_seven_parameters(
    announce: Seq<char>,
    info_hash: Seq<u8>,
    peer_id: Seq<u8>,
    left: nat,
)
    ensures
        ({
            let url = tracker_url(announce, info_hash, peer_id, left);
            let start = announce.len() as int;
            let hash_text = text::ascii(text::percent_encoded(info_hash));
            let id_text = text::ascii(text::percent_encoded(peer_id));
            let left_text = text::ascii(text::decimal(left));
            &&& url.len() > start
            &&& url.take(start) == announce
            &&& url[start] == '?'
            &&& split(url.skip(start + 1), '&') == seq![
                "compact=1"@,
                "downloaded=0"@,
                "port=6881"@,
                "uploaded=0"@,
                "info_hash="@ + hash_text,
                "peer_id="@ + id_text,
                "left="@ + left_text,
            ]
            &&& text::percent_decoded(text::codes(hash_text)) == info_hash
            &&& text::percent_decoded(text::codes(id_text)) == peer_id
            &&& text::number_of(text::codes(left_text)) == left
        }),
{
    let url = tracker_url(announce, info_hash, peer_id, left);
    let start = announce.len() as int;
    let hash_text = text::ascii(text::percent_encoded(info_hash));
    let id_text = text::ascii(text::percent_encoded(peer_id));
    let left_text = text::ascii(text::decimal(left));
    text::percent_encoding_reads_back(info_hash);
    text::percent_encoding_reads_back(peer_id);
    text::decimal_spells_the_number(left);
    text::ascii_keeps_codes(text::percent_encoded(info_hash));
    text::ascii_keeps_codes(text::percent_encoded(peer_id));
    text::ascii_keeps_codes(text::decimal(left));
    text::encodings_hold_no_ampersand(info_hash, left);
    text::encodings_hold_no_ampersand(peer_id, left);
    fixed_parameters();
    let amp = seq!['&'];
    let p1 = "compact=1"@;
    let p2 = "downloaded=0"@;
    let p3 = "port=6881"@;
    let p4 = "uploaded=0"@;
    let p5 = "info_hash="@ + hash_text;
    let p6 = "peer_id="@ + id_text;
    let p7 = "left="@ + left_text;
    seven_in_a_row(
        announce,
        p1,
        p2,
        p3,
        p4,
        "info_hash="@,
        hash_text,
        "peer_id="@,
        id_text,
        "left="@,
        left_text,
    );
    let q2 = p1 + amp + p2;
    let q3 = q2 + amp + p3;
    let q4 = q3 + amp + p4;
    let q5 = q4 + amp + p5;
    let q6 = q5 + amp + p6;
    only_part(p1, '&');
    last_part(p1, '&', p2);
    last_part(q2, '&', p3);
    last_part(q3, '&', p4);
    last_part(q4, '&', p5);
    last_part(q5, '&', p6);
    last_part(q6, '&', p7);
    assert(seq![p1].push(p2).push(p3).push(p4).push(p5).push(p6).push(p7) =~= seq![
        p1,
        p2,
        p3,
        p4,
        p5,
        p6,
        p7,
    ]);
}

/// The URL, taken apart behind its `?`.
proof fn seven_in_a_row(
    announce: Seq<char>,
    p1: Seq<char>,
    p2: Seq<char>,
    p3: Seq<char>,
    p4: Seq<char>,
    k5: Seq<char>,
    v5: Seq<char>,
    k6: Seq<char>,
    v6: Seq<char>,
    k7: Seq<char>,
    v7: Seq<char>,
)
    ensures
        ({
            let amp = seq!['&'];
            let head = seq!['?'] + p1 + amp + p2 + amp + p3 + amp + p4 + amp + k5;
            let url = announce + head + v5 + (amp + k6) + v6 + (amp + k7) + v7;
            let start = announce.len() as int;
            &&& url.len() > start
            &&& url.take(start) == announce
            &&& url[start] == '?'
            &&& url.skip(start + 1) == p1 + amp + p2 + amp + p3 + amp + p4 + amp + (k5 + v5) + amp
                + (k6 + v6) + amp + (k7 + v7)
        }),
{
    let amp = seq!['&'];
    let head = seq!['?'] + p1 + amp + p2 + amp + p3 + amp + p4 + amp + k5;
    let url = announce + head + v5 + (amp + k6) + v6 + (amp + k7) + v7;
    let start = announce.len() as int;
    assert(head =~= seq!['?'] + (p1 + amp + p2 + amp + p3 + amp + p4 + amp + k5));
    assert(url.take(start) =~= announce);
    assert(url[start] == head[0]);
    assert(url.skip(start + 1) =~= p1 + amp + p2 + amp + p3 + amp + p4 + amp + (k5 + v5) + amp + (k6
        + v6) + amp + (k7 + v7));
}

} // verus!
