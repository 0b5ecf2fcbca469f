//! The id by which a client goes among its peers.
use vstd::prelude::*;

verus! {

/// How many bytes a peer id has.
pub const PEER_ID_LENGTH: usize = 20;

/// Why bytes are no peer id.
#[derive(Debug, Clone, Copy, PartialEq, Eq, Structural)]
pub enum PeerIdError {
    /// There are more or fewer bytes than a peer id has.
    WrongLength,
}

/// `rand::random::<u8>`: some byte. Which one is left to chance. It panics where
/// the system gives no random bytes.
#[verifier::external_body]
fn random_byte() -> u8 {
    rand::random::<u8>()
}

/// The peer id that is made of `bytes`.
pub fn peer_id_from_bytes(bytes: &[u8]) -> (id: Result<[u8; 20], PeerIdError>)
    ensures
        match id {
            Ok(id) => id@ == bytes@,
            Err(e) => bytes@.len() != 20 && e == PeerIdError::WrongLength,
        },
{
    if bytes.len() != PEER_ID_LENGTH {
        return Err(PeerIdError::WrongLength);
    }
    let mut id: [u8; 20] = [0u8; 20];
    let mut i: usize = 0;
    while i < 20
        invariant
            i <= 20,
            bytes@.len() == 20,
            forall|j: int| 0 <= j < i ==> id@[j] == bytes@[j],
        decreases 20 - i,
    {
        id[i] = bytes[i];
        i = i + 1;
    }
    assert(id@ =~= bytes@);
    Ok(id)
}

/// A peer id of random bytes. Which one it is, is left to chance; that one comes is
/// sure, unless the system gives no random bytes, where `rand` panics.
pub fn generate_peer_id() -> (id: Result<[u8; 20], PeerIdError>)
    ensures
        id is Ok,
{
    let mut bytes: Vec<u8> = Vec::new();
    while bytes.len() < PEER_ID_LENGTH
        invariant
            bytes@.len() <= 20,
        decreases 20 - bytes@.len(),
    {
        bytes.push(random_byte());
    }
    peer_id_from_bytes(bytes.as_slice())
}

} // verus!
