use trusti::metainfo::Info;
use trusti::text::push_decimal;
use trusti::torrent::{build_tracker_url, Torrent};

const INFO_HASH: [u8; 20] = [
    40, 197, 81, 150, 245, 119, 83, 196, 10, 206, 182, 251, 88, 97, 126, 105, 149, 167, 237, 219,
];

const PEER_ID: [u8; 20] = [
    53, 20, 215, 191, 191, 89, 91, 126, 86, 16, 45, 140, 75, 67, 107, 22, 229, 146, 135, 170,
];

fn torrent(announce: &str, length: u64) -> Torrent {
    Torrent {
        info: Info { name: "n".to_string(), piece_length: 1, pieces: vec![], length },
        announce: announce.to_string(),
    }
}

#[test]
fn the_tracker_is_asked_for_peers() {
    let torrent = torrent("http://bttracker.debian.org:6969/announce", 396361728);
    let expected = "http://bttracker.debian.org:6969/announce?compact=1&downloaded=0&port=6881&uploaded=0&info_hash=%28%C5Q%96%F5wS%C4%0A%CE%B6%FBXa~i%95%A7%ED%DB&peer_id=5%14%D7%BF%BFY%5B~V%10-%8CKCk%16%E5%92%87%AA&left=396361728";
    assert_eq!(torrent.build_tracker_url(INFO_HASH, PEER_ID), expected);
    assert_eq!(build_tracker_url(&torrent, &INFO_HASH, &PEER_ID), expected);
}

#[test]
fn every_byte_is_percent_encoded_but_the_unreserved() {
    let torrent = torrent("t", 0);
    for byte in 0..=255u8 {
        let url = build_tracker_url(&torrent, &[byte], &[]);
        let encoded = if byte.is_ascii_alphanumeric() || b"-._~".contains(&byte) {
            (byte as char).to_string()
        } else {
            format!("%{:02X}", byte)
        };
        let expected = format!(
            "t?compact=1&downloaded=0&port=6881&uploaded=0&info_hash={}&peer_id=&left=0",
            encoded
        );
        assert_eq!(url, expected);
    }
}

#[test]
fn numbers_are_written_in_decimal() {
    for n in [0, 1, 9, 10, 11, 99, 100, 396361728, u64::MAX] {
        let mut text = "n=".to_string();
        push_decimal(&mut text, n);
        assert_eq!(text, format!("n={}", n));
    }
}

#[test]
fn the_whole_file_is_left() {
    let url = torrent("http://t", u64::MAX).build_tracker_url([b'a'; 20], [b'b'; 20]);
    assert_eq!(
        url,
        "http://t?compact=1&downloaded=0&port=6881&uploaded=0&info_hash=aaaaaaaaaaaaaaaaaaaa&peer_id=bbbbbbbbbbbbbbbbbbbb&left=18446744073709551615"
    );
}
