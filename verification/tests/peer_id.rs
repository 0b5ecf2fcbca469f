use trusti::peer_id::{generate_peer_id, peer_id_from_bytes, PeerIdError};

#[test]
fn twenty_bytes_are_a_peer_id() {
    let bytes: Vec<u8> = (0..20).collect();
    assert_eq!(peer_id_from_bytes(&bytes).unwrap().to_vec(), bytes);
}

#[test]
fn any_other_number_of_bytes_is_none() {
    assert_eq!(peer_id_from_bytes(&[]), Err(PeerIdError::WrongLength));
    assert_eq!(peer_id_from_bytes(&[1; 19]), Err(PeerIdError::WrongLength));
    assert_eq!(peer_id_from_bytes(&[1; 21]), Err(PeerIdError::WrongLength));
}

#[test]
fn peer_ids_are_left_to_chance() {
    // That three ids of 160 random bits agree is out of the question.
    let a = generate_peer_id().unwrap();
    let b = generate_peer_id().unwrap();
    let c = generate_peer_id().unwrap();
    assert!(a != b || b != c);
}
