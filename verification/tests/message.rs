use trusti::message::{
    build_message, build_request_message, message_from_body, message_length, read_message,
    MessageError, MessageKind, MSG_BITFIELD, MSG_CANCEL, MSG_CHOKE, MSG_HAVE, MSG_INTERESTED,
    MSG_KEEP_ALIVE, MSG_NOT_INTERESTED, MSG_PIECE, MSG_REQUEST, MSG_UNCHOKE,
};

#[test]
fn messages_have_their_ids() {
    let kinds = [
        (MessageKind::Choke, MSG_CHOKE, 0),
        (MessageKind::Unchoke, MSG_UNCHOKE, 1),
        (MessageKind::Interested, MSG_INTERESTED, 2),
        (MessageKind::NotInterested, MSG_NOT_INTERESTED, 3),
        (MessageKind::Have, MSG_HAVE, 4),
        (MessageKind::Bitfield, MSG_BITFIELD, 5),
        (MessageKind::Request, MSG_REQUEST, 6),
        (MessageKind::Piece, MSG_PIECE, 7),
        (MessageKind::Cancel, MSG_CANCEL, 8),
        (MessageKind::KeepAlive, MSG_KEEP_ALIVE, 255),
    ];
    for (kind, constant, id) in kinds {
        assert_eq!(constant, id);
        assert_eq!(kind.id(), id);
        assert_eq!(MessageKind::from_id(id), Some(kind));
    }
}

#[test]
fn other_ids_have_no_kind() {
    for id in 9..=254u8 {
        assert_eq!(MessageKind::from_id(id), None);
    }
}

#[test]
fn a_message_is_read_from_its_frame() {
    let (message, used) = read_message(&[0, 0, 0, 3, 5, 0b1000_0101, 0x80]).unwrap();
    assert_eq!(message.id, MSG_BITFIELD);
    assert_eq!(message.payload, vec![0b1000_0101, 0x80]);
    assert_eq!(used, 7);
}

#[test]
fn a_message_without_a_payload_is_read() {
    let (message, used) = read_message(&[0, 0, 0, 1, 1]).unwrap();
    assert_eq!(message.id, MSG_UNCHOKE);
    assert_eq!(message.payload, Vec::<u8>::new());
    assert_eq!(used, 5);
}

#[test]
fn an_empty_frame_is_a_keep_alive() {
    let (message, used) = read_message(&[0, 0, 0, 0, 7, 7]).unwrap();
    assert_eq!(message.id, 255);
    assert_eq!(message.payload, Vec::<u8>::new());
    assert_eq!(used, 4);
}

#[test]
fn what_follows_a_frame_is_left_for_the_next_read() {
    let bytes = [0, 0, 0, 1, 0, 0, 0, 0, 2, 4, 9];
    let (first, used) = read_message(&bytes).unwrap();
    assert_eq!((first.id, used), (MSG_CHOKE, 5));
    let (second, rest) = read_message(&bytes[used..]).unwrap();
    assert_eq!((second.id, rest), (MSG_HAVE, 6));
    assert_eq!(second.payload, vec![9]);
}

#[test]
fn an_unknown_id_is_no_error() {
    let (message, _) = read_message(&[0, 0, 0, 1, 42]).unwrap();
    assert_eq!(message.id, 42);
}

#[test]
fn half_a_frame_is_truncated() {
    let bytes = [0, 0, 0, 3, 5, 1, 2];
    for end in 0..bytes.len() {
        assert_eq!(read_message(&bytes[..end]).err(), Some(MessageError::Truncated));
    }
    assert!(read_message(&bytes).is_ok());
}

#[test]
fn lengths_are_big_endian() {
    assert_eq!(message_length(&[0, 0, 0, 0]), 0);
    assert_eq!(message_length(&[0, 0, 1, 2]), 258);
    assert_eq!(message_length(&[1, 2, 3, 4]), 0x0102_0304);
    assert_eq!(message_length(&[255, 255, 255, 255]), 0xffff_ffff);
}

#[test]
fn a_body_is_split_into_id_and_payload() {
    let message = message_from_body(&[7, 1, 2, 3]);
    assert_eq!((message.id, message.payload), (MSG_PIECE, vec![1, 2, 3]));
    let message = message_from_body(&[]);
    assert_eq!((message.id, message.payload), (MSG_KEEP_ALIVE, vec![]));
}

#[test]
fn a_request_is_17_bytes() {
    let built = build_request_message(0x0102_0304, 16384, 0x8000_00ff).unwrap();
    assert_eq!(
        built,
        vec![0, 0, 0, 13, 6, 1, 2, 3, 4, 0, 0, 0x40, 0, 0x80, 0, 0, 0xff]
    );
}

#[test]
fn a_request_reads_back() {
    let built = build_request_message(7, 32768, 16384).unwrap();
    let (message, used) = read_message(&built).unwrap();
    assert_eq!(used, built.len());
    assert_eq!(message.id, MSG_REQUEST);
    assert_eq!(message.payload, vec![0, 0, 0, 7, 0, 0, 0x80, 0, 0, 0, 0x40, 0]);
}

#[test]
fn only_interested_and_unchoke_are_built() {
    assert_eq!(build_message(MSG_INTERESTED), Ok(vec![0, 0, 0, 1, 2]));
    assert_eq!(build_message(MSG_UNCHOKE), Ok(vec![0, 0, 0, 1, 1]));
    for id in 0..=255u8 {
        if id != MSG_INTERESTED && id != MSG_UNCHOKE {
            assert_eq!(build_message(id), Err(MessageError::NotImplemented(id)));
        }
    }
}

#[test]
fn a_built_message_reads_back() {
    let (message, used) = read_message(&build_message(MSG_INTERESTED).unwrap()).unwrap();
    assert_eq!((message.id, message.payload.len(), used), (MSG_INTERESTED, 0, 5));
}
