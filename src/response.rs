use vstd::prelude::*;
use crate::error::{structure_error, type_error, ParseFailure, TorrentParserError};
use crate::field::{decode, get_field_type, list_model, Decoded, Field, FieldV};
use crate::model::{
    peers_view, PeerInfoV, TrackerResponse, TrackerResponsePeer, TrackerResponseV,
    TrackerSuccessResponse,
};
use crate::schema::{
    int_field_opt, int_field_req, int_opt, int_req, key, lemma_list_model_prefix, text_field_opt,
    text_field_req, text_opt, text_req,
};
use crate::text::{dotted_quad, ipv4_text};

verus! {

/// A peer given as a dictionary with `ip`, `port` and an optional `peer id`.
pub open spec fn peer_entry_of(v: FieldV) -> Result<PeerInfoV, ParseFailure> {
    match v {
        FieldV::Dict(d) => match text_opt(d, "peer id"@) {
            Err(e) => Err(e),
            Ok(id) => match text_req(d, "ip"@) {
                Err(e) => Err(e),
                Ok(ip) => match int_req(d, "port"@) {
                    Err(e) => Err(e),
                    Ok(port) => Ok(PeerInfoV { peer_id: id, ip, port }),
                },
            },
        },
        _ => Err(ParseFailure::WrongType("Dict"@, v.kind_name())),
    }
}

/// The peers of a list of dictionaries, or the error of the first bad one.
pub open spec fn peer_entries_of(s: Seq<FieldV>) -> Result<Seq<PeerInfoV>, ParseFailure>
    decreases s.len(),
{
    if s.len() == 0 {
        Ok(seq![])
    } else {
        match peer_entries_of(s.drop_last()) {
            Ok(ps) => match peer_entry_of(s.last()) {
                Ok(p) => Ok(ps.push(p)),
                Err(e) => Err(e),
            },
            Err(e) => Err(e),
        }
    }
}

/// The peer of the `i`-th six-byte record: four address octets, then the
/// port in big-endian order.
pub open spec fn compact_peer(b: Seq<u8>, i: int) -> PeerInfoV {
    PeerInfoV {
        peer_id: None,
        ip: dotted_quad(b[6 * i], b[6 * i + 1], b[6 * i + 2], b[6 * i + 3]),
        port: b[6 * i + 4] * 256 + b[6 * i + 5],
    }
}

pub open spec fn compact_peers(b: Seq<u8>) -> Seq<PeerInfoV> {
    Seq::new(b.len() / 6, |i: int| compact_peer(b, i))
}

pub open spec fn peers_of(d: Map<Seq<u8>, FieldV>) -> Result<Seq<PeerInfoV>, ParseFailure> {
    if !d.contains_key(key("peers"@)) {
        Err(ParseFailure::MissingField("peers"@))
    } else {
        match d[key("peers"@)] {
            FieldV::List(s) => peer_entries_of(s),
            FieldV::Bytes(b) => if b.len() % 6 != 0 {
                Err(ParseFailure::Structure)
            } else {
                Ok(compact_peers(b))
            },
            other => Err(ParseFailure::WrongType("List or String"@, other.kind_name())),
        }
    }
}

/// What a decoded tracker response means: a failure reason wins over
/// everything, then a warning, else the fields of a success.
pub open spec fn response_of(v: FieldV) -> Result<TrackerResponseV, ParseFailure> {
    match v {
        FieldV::Dict(d) => match text_opt(d, "failure reason"@) {
            Err(e) => Err(e),
            Ok(Some(m)) => Ok(TrackerResponseV::Failure(m)),
            Ok(None) => match text_opt(d, "warning message"@) {
                Err(e) => Err(e),
                Ok(Some(m)) => Ok(TrackerResponseV::Warning(m)),
                Ok(None) => success_of(d),
            },
        },
        _ => Err(ParseFailure::WrongType("Dict"@, v.kind_name())),
    }
}

pub open spec fn success_of(d: Map<Seq<u8>, FieldV>) -> Result<TrackerResponseV, ParseFailure> {
    match int_req(d, "interval"@) {
        Err(e) => Err(e),
        Ok(interval) => match int_opt(d, "min interval"@) {
            Err(e) => Err(e),
            Ok(min_interval) => match text_opt(d, "tracker id"@) {
                Err(e) => Err(e),
                Ok(tracker_id) => match int_req(d, "complete"@) {
                    Err(e) => Err(e),
                    Ok(complete) => match int_req(d, "incomplete"@) {
                        Err(e) => Err(e),
                        Ok(incomplete) => match peers_of(d) {
                            Err(e) => Err(e),
                            Ok(peers) => Ok(
                                TrackerResponseV::Success {
                                    interval,
                                    min_interval,
                                    tracker_id,
                                    complete,
                                    incomplete,
                                    peers,
                                },
                            ),
                        },
                    },
                },
            },
        },
    }
}

/// What an encoded tracker response means: its first value, mapped.
pub open spec fn tracker_response_spec(b: Seq<u8>) -> Result<TrackerResponseV, ParseFailure> {
    match decode(b, 0, 0) {
        Decoded::End => Err(ParseFailure::Structure),
        Decoded::Fail(k) => Err(k),
        Decoded::Value(v, _) => response_of(v),
    }
}

fn peer_entry(f: &Field) -> (r: Result<TrackerResponsePeer, TorrentParserError>)
    ensures
        match peer_entry_of(f@) {
            Ok(p) => r matches Ok(x) && x@ == p,
            Err(k) => r matches Err(e) && e.kind() == k,
        },
{
    match f {
        Field::Dict(d) => {
            let peer_id = match text_field_opt(d, "peer id") {
                Ok(id) => id,
                Err(e) => {
                    return Err(e);
                },
            };
            let ip = match text_field_req(d, "ip") {
                Ok(ip) => ip,
                Err(e) => {
                    return Err(e);
                },
            };
            let port = match int_field_req(d, "port") {
                Ok(p) => p,
                Err(e) => {
                    return Err(e);
                },
            };
            Ok(TrackerResponsePeer { peer_id, ip, port })
        },
        _ => Err(type_error("Dict", f.field_type())),
    }
}

proof fn lemma_peer_entries_prefix_err(s: Seq<FieldV>, n: int)
    requires
        0 < n <= s.len(),
        peer_entries_of(s.subrange(0, n)) is Err,
    ensures
        peer_entries_of(s) == peer_entries_of(s.subrange(0, n)),
    decreases s.len(),
{
    if n < s.len() {
        assert(s.drop_last().subrange(0, n) =~= s.subrange(0, n));
        lemma_peer_entries_prefix_err(s.drop_last(), n);
    } else {
        assert(s.subrange(0, n) =~= s);
    }
}

fn peer_entries(items: &Vec<Field>) -> (r: Result<Vec<TrackerResponsePeer>, TorrentParserError>)
    ensures
        match peer_entries_of(list_model(items@)) {
            Ok(ps) => r matches Ok(v) && peers_view(v@) == ps,
            Err(k) => r matches Err(e) && e.kind() == k,
        },
{
    let mut out: Vec<TrackerResponsePeer> = Vec::new();
    let mut i: usize = 0;
    proof {
        lemma_list_model_prefix(items@, 0);
        assert(items@.subrange(0, 0) =~= Seq::<Field>::empty());
        assert(peers_view(out@) =~= Seq::<PeerInfoV>::empty());
    }
    while i < items.len()
        invariant
            i <= items.len(),
            list_model(items@).len() == items.len(),
            peer_entries_of(list_model(items@.subrange(0, i as int))) == Ok::<
                Seq<PeerInfoV>,
                ParseFailure,
            >(peers_view(out@)),
        decreases items.len() - i,
    {
        proof {
            lemma_list_model_prefix(items@, i as int + 1);
        }
        match peer_entry(&items[i]) {
            Ok(p) => {
                let ghost prev = out@;
                out.push(p);
                assert(peers_view(out@) =~= peers_view(prev).push(out@.last()@));
            },
            Err(e) => {
                proof {
                    lemma_peer_entries_prefix_err(list_model(items@), i as int + 1);
                }
                return Err(e);
            },
        }
        i = i + 1;
    }
    assert(items@.subrange(0, i as int) =~= items@);
    proof {
        lemma_list_model_prefix(items@, i as int);
    }
    Ok(out)
}

/// Splits a compact peer list into its six-byte records.
fn compact_peer_list(b: &Vec<u8>) -> (r: Vec<TrackerResponsePeer>)
    requires
        b.len() % 6 == 0,
    ensures
        peers_view(r@) == compact_peers(b@),
{
    let n = b.len() / 6;
    let mut out: Vec<TrackerResponsePeer> = Vec::new();
    let mut i: usize = 0;
    while i < n
        invariant
            n == b.len() / 6,
            b.len() % 6 == 0,
            i <= n,
            peers_view(out@) =~= Seq::new(i as nat, |j: int| compact_peer(b@, j)),
        decreases n - i,
    {
        let o = 6 * i;
        assert(o + 5 < b.len()) by (nonlinear_arith)
            requires
                o == 6 * i,
                i < n,
                n == b.len() / 6,
                b.len() % 6 == 0,
        ;
        let ip = ipv4_text(b[o], b[o + 1], b[o + 2], b[o + 3]);
        let port = (b[o + 4] as i64) * 256 + (b[o + 5] as i64);
        let ghost prev = out@;
        out.push(TrackerResponsePeer { peer_id: None, ip, port });
        assert(out@.last()@ == compact_peer(b@, i as int));
        assert(peers_view(out@) =~= peers_view(prev).push(compact_peer(b@, i as int)));
        i = i + 1;
    }
    out
}

pub fn parse_tracker_response(bencoded: Vec<u8>) -> (r: Result<TrackerResponse, TorrentParserError>)
    ensures
        match tracker_response_spec(bencoded@) {
            Ok(v) => r matches Ok(x) && x@ == v,
            Err(k) => r matches Err(e) && e.kind() == k,
        },
{
    let mut pos: usize = 0;
    let root = match get_field_type(&bencoded, &mut pos) {
        Ok(Some(f)) => f,
        Ok(None) => {
            return Err(structure_error("Expected field"));
        },
        Err(e) => {
            return Err(e);
        },
    };
    let d = match root {
        Field::Dict(d) => d,
        other => {
            return Err(type_error("Dict", other.field_type()));
        },
    };
    match text_field_opt(&d, "failure reason") {
        Ok(Some(m)) => {
            return Ok(TrackerResponse::Failure(m));
        },
        Ok(None) => {},
        Err(e) => {
            return Err(e);
        },
    }
    match text_field_opt(&d, "warning message") {
        Ok(Some(m)) => {
            return Ok(TrackerResponse::Warning(m));
        },
        Ok(None) => {},
        Err(e) => {
            return Err(e);
        },
    }
    let interval = match int_field_req(&d, "interval") {
        Ok(i) => i,
        Err(e) => {
            return Err(e);
        },
    };
    let min_interval = match int_field_opt(&d, "min interval") {
        Ok(i) => i,
        Err(e) => {
            return Err(e);
        },
    };
    let tracker_id = match text_field_opt(&d, "tracker id") {
        Ok(t) => t,
        Err(e) => {
            return Err(e);
        },
    };
    let complete = match int_field_req(&d, "complete") {
        Ok(i) => i,
        Err(e) => {
            return Err(e);
        },
    };
    let incomplete = match int_field_req(&d, "incomplete") {
        Ok(i) => i,
        Err(e) => {
            return Err(e);
        },
    };
    let peers = match crate::field::dict_get(&d, "peers".as_bytes()) {
        Some(Field::List(items)) => match peer_entries(items) {
            Ok(ps) => ps,
            Err(e) => {
                return Err(e);
            },
        },
        Some(Field::String(b)) => {
            if b.len() % 6 != 0 {
                return Err(structure_error("Invalid length for peers string"));
            }
            compact_peer_list(b)
        },
        Some(other) => {
            return Err(type_error("List or String", other.field_type()));
        },
        None => {
            return Err(crate::error::missing_field("peers"));
        },
    };
    Ok(
        TrackerResponse::Success(
            TrackerSuccessResponse {
                interval,
                min_interval,
                tracker_id,
                complete,
                incomplete,
                peers,
            },
        ),
    )
}

} // verus!
