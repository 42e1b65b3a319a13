use vstd::prelude::*;
use crate::error::TorrentParserError;
use crate::schema::strings_view;
use crate::model::{
    peers_view, tiers_view, PeerInfoV, TorrentMetadata, TrackerResponse,
    TrackerResponsePeer, TrackerResponseV,
};
use crate::peer::Peer;
use crate::response::{parse_tracker_response, tracker_response_spec};
use crate::tracker::{updated, Tracker};

verus! {

/// The announce URLs of a torrent: the primary one, then those of every tier
/// in order.
pub open spec fn announce_urls(
    announce: Seq<char>,
    tiers: Option<Seq<Seq<Seq<char>>>>,
) -> Seq<Seq<char>> {
    seq![announce] + match tiers {
        Some(t) => t.flatten(),
        None => seq![],
    }
}

/// A sequence with each element kept at its first occurrence only.
pub open spec fn dedup_first<A>(s: Seq<A>) -> Seq<A>
    decreases s.len(),
{
    if s.len() == 0 {
        s
    } else if dedup_first(s.drop_last()).contains(s.last()) {
        dedup_first(s.drop_last())
    } else {
        dedup_first(s.drop_last()).push(s.last())
    }
}

pub open spec fn tracker_urls(t: Seq<Tracker>) -> Seq<Seq<char>> {
    t.map_values(|x: Tracker| x.announce@)
}

fn contains_url(trackers: &Vec<Tracker>, url: &String) -> (r: bool)
    ensures
        r == tracker_urls(trackers@).contains(url@),
{
    let mut i: usize = 0;
    while i < trackers.len()
        invariant
            i <= trackers.len(),
            forall|j: int| 0 <= j < i ==> trackers@[j].announce@ != url@,
        decreases trackers.len() - i,
    {
        if trackers[i].announce == *url {
            assert(tracker_urls(trackers@)[i as int] == url@);
            return true;
        }
        i = i + 1;
    }
    assert(!tracker_urls(trackers@).contains(url@)) by {
        if tracker_urls(trackers@).contains(url@) {
            let j = choose|j: int| 0 <= j < trackers@.len() && tracker_urls(trackers@)[j] == url@;
            assert(trackers@[j].announce@ == url@);
        }
    }
    false
}

/// The trackers of a torrent: one per announce URL, the primary first, each
/// URL once, in the order in which the URLs first appear; none contacted yet.
pub fn trackers_for(metadata: &TorrentMetadata) -> (r: Vec<Tracker>)
    ensures
        tracker_urls(r@) == dedup_first(announce_urls(metadata@.announce, metadata@.announce_list)),
        forall|i: int|
            0 <= i < r.len() ==> {
                &&& (#[trigger] r@[i]).state@ is NotContacted
                &&& r@[i].interval == 0
                &&& r@[i].min_interval is None
                &&& r@[i].tracker_id is None
            },
{
    let ghost urls = announce_urls(metadata@.announce, metadata@.announce_list);
    let mut all: Vec<String> = Vec::new();
    all.push(metadata.announce.clone());
    match &metadata.announce_list {
        Some(tiers) => {
            let mut t: usize = 0;
            while t < tiers.len()
                invariant
                    t <= tiers.len(),
                    strings_view(all@) =~= seq![metadata.announce@] + tiers_view(
                        tiers@.subrange(0, t as int),
                    ).flatten(),
                decreases tiers.len() - t,
            {
                let ghost before = strings_view(all@);
                let tier = &tiers[t];
                let mut k: usize = 0;
                while k < tier.len()
                    invariant
                        k <= tier.len(),
                        strings_view(all@) =~= before + strings_view(tier@.subrange(0, k as int)),
                    decreases tier.len() - k,
                {
                    let ghost prev = strings_view(all@);
                    all.push(tier[k].clone());
                    assert(strings_view(tier@.subrange(0, k + 1)) =~= strings_view(
                        tier@.subrange(0, k as int),
                    ).push(tier@[k as int]@));
                    assert(strings_view(all@) =~= prev.push(tier@[k as int]@));
                    k = k + 1;
                }
                proof {
                    assert(tier@.subrange(0, k as int) =~= tier@);
                    assert(tiers_view(tiers@)[t as int] == strings_view(tier@));
                    assert(tiers_view(tiers@.subrange(0, t + 1)) =~= tiers_view(
                        tiers@.subrange(0, t as int),
                    ).push(tiers_view(tiers@)[t as int]));
                    tiers_view(tiers@.subrange(0, t as int)).lemma_flatten_push(
                        tiers_view(tiers@)[t as int],
                    );
                }
                t = t + 1;
            }
            assert(tiers@.subrange(0, t as int) =~= tiers@);
        },
        None => {},
    }
    assert(strings_view(all@) =~= urls);
    let mut out: Vec<Tracker> = Vec::new();
    let mut i: usize = 0;
    while i < all.len()
        invariant
            i <= all.len(),
            strings_view(all@) == urls,
            tracker_urls(out@) == dedup_first(urls.subrange(0, i as int)),
            forall|j: int|
                0 <= j < out.len() ==> {
                    &&& (#[trigger] out@[j]).state@ is NotContacted
                    &&& out@[j].interval == 0
                    &&& out@[j].min_interval is None
                    &&& out@[j].tracker_id is None
                },
        decreases all.len() - i,
    {
        assert(urls.subrange(0, i + 1).drop_last() =~= urls.subrange(0, i as int));
        if !contains_url(&out, &all[i]) {
            let ghost prev = out@;
            out.push(Tracker::new(all[i].clone()));
            assert(tracker_urls(out@) =~= tracker_urls(prev).push(all@[i as int]@));
        }
        i = i + 1;
    }
    assert(urls.subrange(0, i as int) =~= urls);
    out
}

/// A peer as mathematics sees it.
pub struct PeerV {
    pub id: Seq<char>,
    pub ip: Seq<char>,
    pub port: u16,
    pub am_choking: bool,
    pub am_interested: bool,
    pub peer_choking: bool,
    pub peer_interested: bool,
    pub bitfield: Seq<u8>,
}

impl Peer {
    pub open spec fn view(self) -> PeerV {
        PeerV {
            id: self.id@,
            ip: self.ip@,
            port: self.port,
            am_choking: self.am_choking,
            am_interested: self.am_interested,
            peer_choking: self.peer_choking,
            peer_interested: self.peer_interested,
            bitfield: self.bitfield@,
        }
    }
}

pub open spec fn same_peer_v(a: PeerV, b: PeerV) -> bool {
    a.id == b.id || (a.ip == b.ip && a.port == b.port)
}

/// The peer that a tracker's report becomes when first seen.
pub open spec fn new_peer(p: PeerInfoV) -> PeerV {
    PeerV {
        id: match p.peer_id {
            Some(s) => s,
            None => seq![],
        },
        ip: p.ip,
        port: p.port as u16,
        am_choking: true,
        am_interested: false,
        peer_choking: true,
        peer_interested: false,
        bitfield: seq![],
    }
}

pub open spec fn peer_list_view(s: Seq<Peer>) -> Seq<PeerV> {
    s.map_values(|p: Peer| p@)
}

/// The peer list after the reported peers are taken in one by one, each
/// added only when no peer already in the list equals it.
pub open spec fn merged_peers(list: Seq<PeerV>, found: Seq<PeerInfoV>) -> Seq<PeerV>
    decreases found.len(),
{
    if found.len() == 0 {
        list
    } else {
        let l = merged_peers(list, found.drop_last());
        let p = new_peer(found.last());
        if exists|i: int| 0 <= i < l.len() && same_peer_v(#[trigger] l[i], p) {
            l
        } else {
            l.push(p)
        }
    }
}

/// Adds the reported peers to the list, skipping any that equals a peer
/// already there.
pub fn merge_peers(peers: &mut Vec<Peer>, found: Vec<TrackerResponsePeer>)
    ensures
        peer_list_view(final(peers)@) == merged_peers(peer_list_view(old(peers)@), peers_view(found@)),
{
    let ghost start = peer_list_view(peers@);
    let ghost found_v = peers_view(found@);
    let n = found.len();
    let mut rest = found;
    let mut i: usize = 0;
    while i < n
        invariant
            n == found_v.len(),
            i <= n,
            rest.len() == n - i,
            forall|j: int| 0 <= j < rest.len() ==> (#[trigger] rest@[j])@ == found_v[i + j],
            peer_list_view(peers@) == merged_peers(start, found_v.subrange(0, i as int)),
        decreases n - i,
    {
        let ghost before = rest@;
        let r = rest.remove(0);
        assert(r == before[0]);
        assert(forall|j: int| 0 <= j < rest.len() ==> rest@[j] == before[j + 1]);
        let ghost fv = r@;
        assert(fv == found_v[i as int]);
        let p = Peer::from(r);
        assert(p.bitfield@ =~= Seq::<u8>::empty());
        assert(p@ == new_peer(fv));
        let mut k: usize = 0;
        let mut dup = false;
        while k < peers.len()
            invariant
                k <= peers.len(),
                dup ==> exists|j: int| 0 <= j < k && same_peer_v(#[trigger] peers@[j]@, p@),
                !dup ==> forall|j: int| 0 <= j < k ==> !same_peer_v(#[trigger] peers@[j]@, p@),
            decreases peers.len() - k,
        {
            if peers[k] == p {
                assert(same_peer_v(peers@[k as int]@, p@));
                dup = true;
            }
            k = k + 1;
        }
        let ghost l = peer_list_view(peers@);
        assert(found_v.subrange(0, i + 1).drop_last() =~= found_v.subrange(0, i as int));
        assert(found_v.subrange(0, i + 1).last() == fv);
        if dup {
            proof {
                let j = choose|j: int| 0 <= j < k && same_peer_v(#[trigger] peers@[j]@, p@);
                assert(same_peer_v(l[j], p@));
            }
        } else {
            assert forall|j: int| 0 <= j < l.len() implies !same_peer_v(#[trigger] l[j], p@) by {
                assert(l[j] == peers@[j]@);
            }
            peers.push(p);
            assert(peer_list_view(peers@) =~= l.push(p@));
        }
        i = i + 1;
    }
    assert(found_v.subrange(0, n as int) =~= found_v);
}

/// Takes in the body of an announce reply. A body that does not decode as a
/// tracker response changes nothing. Otherwise the tracker is updated, and
/// the peers of a success are merged into the peer list.
pub fn apply_announce(tracker: &mut Tracker, peers: &mut Vec<Peer>, body: Vec<u8>) -> (r: Result<
    (),
    TorrentParserError,
>)
    ensures
        final(tracker).announce@ == old(tracker).announce@,
        match tracker_response_spec(body@) {
            Err(k) => {
                &&& r matches Err(e) && e.kind() == k
                &&& *final(tracker) == *old(tracker)
                &&& *final(peers) == *old(peers)
            },
            Ok(v) => {
                &&& r is Ok
                &&& updated(*old(tracker), v, *final(tracker))
                &&& peer_list_view(final(peers)@) == match v {
                    TrackerResponseV::Success { peers: found, .. } => merged_peers(
                        peer_list_view(old(peers)@),
                        found,
                    ),
                    _ => peer_list_view(old(peers)@),
                }
            },
        },
{
    match parse_tracker_response(body) {
        Err(e) => Err(e),
        Ok(resp) => {
            tracker.update(&resp);
            match resp {
                TrackerResponse::Success(s) => {
                    merge_peers(peers, s.peers);
                },
                _ => {},
            }
            Ok(())
        },
    }
}

} // verus!
