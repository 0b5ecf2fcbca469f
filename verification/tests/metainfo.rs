use serde_bencode::value::Value;
use std::collections::HashMap;
use trusti::metainfo::{calculate_piece_size, Info};

fn info() -> Info {
    Info {
        name: "debian-11.2.0-amd64-netinst.iso".to_string(),
        piece_length: 262144,
        pieces: (0..40).collect(),
        length: 396361728,
    }
}

fn small(pieces: usize, piece_length: u64, length: u64) -> Info {
    Info { name: "small".to_string(), piece_length, pieces: vec![9; pieces], length }
}

#[test]
fn metainfo_is_bencoded_with_its_keys_in_order() {
    let mut expected =
        b"d6:lengthi396361728e4:name31:debian-11.2.0-amd64-netinst.iso12:piece lengthi262144e6:pieces40:"
            .to_vec();
    expected.extend(0..40u8);
    expected.push(b'e');
    assert_eq!(info().bencode(), Ok(expected));
}

#[test]
fn empty_metainfo_is_bencoded() {
    let empty = Info { name: String::new(), piece_length: 0, pieces: vec![], length: 0 };
    assert_eq!(
        empty.bencode(),
        Ok(b"d6:lengthi0e4:name0:12:piece lengthi0e6:pieces0:e".to_vec())
    );
}

#[test]
fn the_largest_lengths_are_bencoded() {
    let largest =
        Info { name: "\u{e9}".to_string(), piece_length: u64::MAX, pieces: vec![0], length: 10 };
    assert_eq!(
        largest.bencode(),
        Ok(
            b"d6:lengthi10e4:name2:\xc3\xa912:piece lengthi18446744073709551615e6:pieces1:\x00e"
                .to_vec()
        )
    );
}

#[test]
fn bencoding_reads_back() {
    let info = info();
    let mut dict = HashMap::new();
    dict.insert(b"length".to_vec(), Value::Int(396361728));
    dict.insert(b"name".to_vec(), Value::Bytes(info.name.clone().into_bytes()));
    dict.insert(b"piece length".to_vec(), Value::Int(262144));
    dict.insert(b"pieces".to_vec(), Value::Bytes(info.pieces.clone()));
    let encoded = info.bencode().unwrap();
    let value: Value = serde_bencode::from_bytes(&encoded).unwrap();
    assert_eq!(value, Value::Dict(dict));
    assert_eq!(serde_bencode::to_bytes(&value).unwrap(), encoded);
}

#[test]
fn the_info_hash_is_the_digest_of_the_bencoding() {
    assert_eq!(
        info().hash(),
        Ok([
            0xb6, 0xf4, 0x6e, 0x87, 0xf4, 0xe5, 0x42, 0xc1, 0x0d, 0xf9, 0xc3, 0xb5, 0xc8, 0xad,
            0x54, 0xc9, 0x8a, 0x6b, 0x35, 0x56
        ])
    );
}

#[test]
fn different_metainfo_has_a_different_hash() {
    let mut other = info();
    other.length += 1;
    assert_ne!(other.hash(), info().hash());
    assert_ne!(other.bencode(), info().bencode());
}

#[test]
fn hashes_are_cut_every_20_bytes() {
    let info = info();
    let hashes = info.piece_hashes();
    assert_eq!(hashes.len(), 2);
    assert_eq!(hashes[0], (0..20).collect::<Vec<u8>>());
    assert_eq!(hashes[1], (20..40).collect::<Vec<u8>>());
}

#[test]
fn the_last_hash_may_be_cut_off() {
    let info = small(45, 1, 3);
    let lengths: Vec<usize> = info.piece_hashes().iter().map(|h| h.len()).collect();
    assert_eq!(lengths, vec![20, 20, 5]);
    assert_eq!(small(0, 1, 3).piece_hashes().len(), 0);
}

#[test]
fn pieces_have_their_full_size_but_the_last() {
    assert_eq!(calculate_piece_size(0, 10, 25), 10);
    assert_eq!(calculate_piece_size(1, 10, 25), 10);
    assert_eq!(calculate_piece_size(2, 10, 25), 5);
    assert_eq!(calculate_piece_size(1, 10, 10), 0);
    assert_eq!(info().calculate_piece_size(0), 262144);
    assert_eq!(info().calculate_piece_size(1511), 262144);
    assert_eq!(small(60, 10, 25).calculate_piece_size(2), 5);
}

#[test]
fn piece_sizes_add_up_to_the_length() {
    let info = info();
    let total: usize = (0..1512).map(|i| info.clone().calculate_piece_size(i)).sum();
    assert_eq!(total, 396361728);
}

#[test]
fn one_request_is_made_for_each_hash() {
    let info = Info {
        name: "three".to_string(),
        piece_length: 10,
        pieces: (0..60).collect(),
        length: 25,
    };
    assert!(info.check_piece_for_each_hash());
    let requests = info.piece_requests();
    assert_eq!(requests.len(), 3);
    for (i, request) in requests.iter().enumerate() {
        assert_eq!(request.index, i);
        assert_eq!(request.hash, info.pieces[20 * i..20 * i + 20]);
    }
    assert_eq!(requests[0].size, 10);
    assert_eq!(requests[1].size, 10);
    assert_eq!(requests[2].size, 5);
}

#[test]
fn no_hashes_make_no_requests() {
    let info = small(0, 10, 0);
    assert!(info.check_piece_for_each_hash());
    assert_eq!(info.piece_requests().len(), 0);
}

#[test]
fn hashes_without_a_piece_are_noticed() {
    assert!(small(40, 10, 10).check_piece_for_each_hash());
    assert!(!small(40, 10, 9).check_piece_for_each_hash());
    assert!(!small(60, 10, 19).check_piece_for_each_hash());
    assert!(!small(40, u64::MAX, u64::MAX).check_piece_for_each_hash());
    assert!(small(20, u64::MAX, u64::MAX).check_piece_for_each_hash());
}

#[test]
fn a_clone_says_the_same() {
    let original = info();
    let copy = original.clone();
    assert_eq!(copy.name, original.name);
    assert_eq!(copy.piece_length, original.piece_length);
    assert_eq!(copy.pieces, original.pieces);
    assert_eq!(copy.length, original.length);
    let mut target = small(1, 2, 3);
    target.clone_from(&original);
    assert_eq!(target.bencode(), original.bencode());
}
