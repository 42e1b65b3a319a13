use vstd::prelude::*;
use crate::model::TrackerResponsePeer;

verus! {

/// A remote peer and the choke and interest flags of the wire protocol.
#[derive(Debug)]
pub struct Peer {
    pub id: String,
    pub ip: String,
    pub port: u16,
    pub am_choking: bool,
    pub am_interested: bool,
    pub peer_choking: bool,
    pub peer_interested: bool,
    pub bitfield: Vec<u8>,
}

/// Two peers are the same peer when their ids are equal, or their address
/// and port are.
pub open spec fn same_peer(a: Peer, b: Peer) -> bool {
    a.id@ == b.id@ || (a.ip@ == b.ip@ && a.port == b.port)
}

impl PartialEq for Peer {
    fn eq(&self, other: &Peer) -> (r: bool)
        ensures
            r == same_peer(*self, *other),
    {
        self.id == other.id || (self.ip == other.ip && self.port == other.port)
    }
}

impl vstd::std_specs::cmp::PartialEqSpecImpl for Peer {
    open spec fn obeys_eq_spec() -> bool {
        true
    }

    open spec fn eq_spec(&self, other: &Peer) -> bool {
        same_peer(*self, *other)
    }
}

impl From<TrackerResponsePeer> for Peer {
    fn from(peer: TrackerResponsePeer) -> (r: Peer)
        ensures
            r.id@ == match peer.peer_id {
                Some(s) => s@,
                None => Seq::<char>::empty(),
            },
            r.ip@ == peer.ip@,
            r.port == peer.port as u16,
            r.am_choking,
            !r.am_interested,
            r.peer_choking,
            !r.peer_interested,
            r.bitfield@.len() == 0,
    {
        let id = match peer.peer_id {
            Some(s) => s,
            None => String::new(),
        };
        Peer {
            id,
            ip: peer.ip,
            port: peer.port as u16,
            am_choking: true,
            am_interested: false,
            peer_choking: true,
            peer_interested: false,
            bitfield: Vec::new(),
        }
    }
}

/// What `from` makes of a report is stated by its own contract: an empty
/// id and an empty bitfield have no single value to name here.
impl vstd::std_specs::convert::FromSpecImpl<TrackerResponsePeer> for Peer {
    open spec fn obeys_from_spec() -> bool {
        false
    }

    open spec fn from_spec(v: TrackerResponsePeer) -> Peer {
        arbitrary()
    }
}

} // verus!
