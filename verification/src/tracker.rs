//! The reply of a tracker: the peers that share a torrent, six bytes for each.
use crate::endian;
use vstd::prelude::*;

verus! {

/// How many bytes a tracker spends on a peer.
pub const PEER_LENGTH: usize = 6;

/// What a tracker replies: the addresses of peers, one behind the other.
#[derive(Debug)]
pub struct Tracker {
    pub peers: Vec<u8>,
}

/// Where a peer listens: an IPv4 address and a port.
#[derive(Debug, Clone, Copy, PartialEq, Eq)]
pub struct PeerAddress {
    pub octets: [u8; 4],
    pub port: u16,
}

/// Why the peers could not be read.
#[derive(Debug, Clone, Copy, PartialEq, Eq, Structural)]
pub enum TrackerError {
    /// The bytes end before the port of a peer does.
    TruncatedPort,
}

impl PeerAddress {
    /// Whether `bytes` starts with this address: four octets, then the port in
    /// big-endian order.
    pub open spec fn is_at_start_of(self, bytes: Seq<u8>) -> bool {
        &&& bytes.len() >= 6
        &&& self.octets@ == bytes.take(4)
        &&& self.port == endian::u16_of_bytes(bytes.skip(4))
    }

    /// The six bytes that stand for this address.
    pub open spec fn compact(self) -> Seq<u8> {
        self.octets@ + seq![(self.port / 0x100) as u8, (self.port % 0x100) as u8]
    }
}

/// The bytes that stand for `peers`, one behind the other.
pub open spec fn compact_list(peers: Seq<PeerAddress>) -> Seq<u8>
    decreases peers.len(),
{
    if peers.len() == 0 {
        Seq::empty()
    } else {
        compact_list(peers.drop_last()) + peers.last().compact()
    }
}

/// Reads the address at the start of `chunk`.
pub fn bytes_to_socket_addr(chunk: &[u8]) -> (address: Result<PeerAddress, TrackerError>)
    requires
        chunk@.len() >= 4,
    ensures
        match address {
            Ok(a) => a.is_at_start_of(chunk@),
            Err(e) => chunk@.len() < 6 && e == TrackerError::TruncatedPort,
        },
{
    let (ip_octets, port) = chunk.split_at(4);
    let octets: [u8; 4] = [ip_octets[0], ip_octets[1], ip_octets[2], ip_octets[3]];
    if port.len() < 2 {
        return Err(TrackerError::TruncatedPort);
    }
    let address = PeerAddress { octets, port: endian::read_u16(port) };
    assert(octets@ =~= chunk@.take(4));
    assert(port@ =~= chunk@.skip(4));
    Ok(address)
}

/// The address at the start of `chunk`.
pub fn peer_to_socket_addr(chunk: &[u8]) -> (address: PeerAddress)
    requires
        chunk@.len() >= 6,
    ensures
        address.is_at_start_of(chunk@),
{
    let (ip_octets, port) = chunk.split_at(4);
    let octets: [u8; 4] = [ip_octets[0], ip_octets[1], ip_octets[2], ip_octets[3]];
    let address = PeerAddress { octets, port: endian::read_u16(port) };
    assert(octets@ =~= chunk@.take(4));
    assert(port@ =~= chunk@.skip(4));
    address
}

impl Tracker {
    /// The peers, in the order of the reply. A reply that ends within a port is
    /// refused; one that ends within an address is not to be handed in.
    pub fn get_peers(self) -> (peers: Result<Vec<PeerAddress>, TrackerError>)
        requires
            self.peers@.len() % 6 == 0 || self.peers@.len() % 6 >= 4,
        ensures
            match peers {
                Ok(list) => {
                    &&& self.peers@.len() == 6 * list@.len()
                    &&& forall|i: int| #![trigger list@[i]]
                        0 <= i < list@.len() ==> list@[i].is_at_start_of(
                            self.peers@.subrange(6 * i, 6 * i + 6),
                        )
                },
                Err(e) => self.peers@.len() % 6 != 0 && e == TrackerError::TruncatedPort,
            },
    {
        let bytes = self.peers.as_slice();
        let mut peers: Vec<PeerAddress> = Vec::new();
        let mut from: usize = 0;
        while from < bytes.len()
            invariant
                bytes@ == self.peers@,
                bytes@.len() % 6 == 0 || bytes@.len() % 6 >= 4,
                from == 6 * peers@.len(),
                from <= bytes@.len(),
                forall|i: int| #![trigger peers@[i]]
                    0 <= i < peers@.len() ==> peers@[i].is_at_start_of(
                        bytes@.subrange(6 * i, 6 * i + 6),
                    ),
            decreases bytes@.len() - from,
        {
            let to: usize = if bytes.len() - from < PEER_LENGTH {
                bytes.len()
            } else {
                from + PEER_LENGTH
            };
            match bytes_to_socket_addr(vstd::slice::slice_subrange(bytes, from, to)) {
                Ok(address) => {
                    peers.push(address);
                },
                Err(e) => {
                    return Err(e);
                },
            }
            from = to;
        }
        Ok(peers)
    }
}

/// Six bytes stand for one address only.
pub proof fn address_is_unique(a: PeerAddress, b: PeerAddress, bytes: Seq<u8>)
    requires
        a.is_at_start_of(bytes),
        b.is_at_start_of(bytes),
    ensures
        a == b,
{
    assert(a.octets =~= b.octets);
}

/// An address is found at the start of the bytes that stand for it.
pub proof fn compact_reads_back(a: PeerAddress, rest: Seq<u8>)
    ensures
        a.compact().len() == 6,
        a.is_at_start_of(a.compact() + rest),
{
    let bytes = a.compact() + rest;
    assert(bytes.take(4) =~= a.octets@);
    assert(bytes.skip(4)[0] == a.compact()[4]);
    assert(bytes.skip(4)[1] == a.compact()[5]);
}

/// A list of peers is found again, each in its place, in the bytes that stand
/// for the list.
pub proof fn compact_list_reads_back(peers: Seq<PeerAddress>, i: int)
    requires
        0 <= i < peers.len(),
    ensures
        compact_list(peers).len() == 6 * peers.len(),
        peers[i].is_at_start_of(compact_list(peers).subrange(6 * i, 6 * i + 6)),
    decreases peers.len(),
{
    let init = peers.drop_last();
    let bytes = compact_list(peers);
    compact_list_length(peers);
    compact_list_length(init);
    if i == peers.len() - 1 {
        compact_reads_back(peers.last(), Seq::empty());
        assert(bytes.subrange(6 * i, 6 * i + 6) =~= peers.last().compact() + Seq::<u8>::empty());
    } else {
        compact_list_reads_back(init, i);
        assert(bytes.subrange(6 * i, 6 * i + 6) =~= compact_list(init).subrange(6 * i, 6 * i + 6));
        assert(peers[i] == init[i]);
    }
}

/// A list of peers takes six bytes for each.
proof fn compact_list_length(peers: Seq<PeerAddress>)
    ensures
        compact_list(peers).len() == 6 * peers.len(),
    decreases peers.len(),
{
    if peers.len() > 0 {
        compact_list_length(peers.drop_last());
        compact_reads_back(peers.last(), Seq::empty());
    }
}

/// An address is its six bytes: the octets in order, then the port, its high byte
/// first. What stands behind them does not matter.
pub proof fn address_is_its_six_bytes(a: PeerAddress, bytes: Seq<u8>)
    ensures
        a.is_at_start_of(bytes) <==> {
            &&& bytes.len() >= 6
            &&& a.octets@[0] == bytes[0]
            &&& a.octets@[1] == bytes[1]
            &&& a.octets@[2] == bytes[2]
            &&& a.octets@[3] == bytes[3]
            &&& a.port == 256 * bytes[4] + bytes[5]
        },
{
    if bytes.len() >= 6 {
        let octets = bytes.take(4);
        assert(octets[0] == bytes[0] && octets[1] == bytes[1] && octets[2] == bytes[2] && octets[3]
            == bytes[3]);
        assert(bytes.skip(4)[0] == bytes[4] && bytes.skip(4)[1] == bytes[5]);
        if a.octets@[0] == bytes[0] && a.octets@[1] == bytes[1] && a.octets@[2] == bytes[2]
            && a.octets@[3] == bytes[3] {
            assert(a.octets@ =~= octets);
        }
    }
}

} // verus!
