use vstd::prelude::*;
use vstd::std_specs::cmp::PartialEqSpec;
use crate::error::ParseFailure;
use crate::field::{
    decode, decode_dict, decode_list, digit_run_end, find_byte, find_marker, info_hash_of, info_span,
    is_digit, marker_at, Decoded, FieldV,
};
use crate::metadata::{announce_tiers, info_of, metadata_of, metadata_spec, piece_chunks};
use crate::model::TrackerResponseV;
use crate::peer::{same_peer, Peer};
use crate::response::response_of;
use crate::schema::{int_opt, key, text_of, text_opt, text_req};
use crate::tracker::{state_after, Tracker};

verus! {

/// Cutting a string whose length is a positive multiple of 20 into its
/// pieces and joining them again gives the string back.
pub proof fn lemma_piece_chunks_round_trip(b: Seq<u8>)
    requires
        b.len() > 0,
        b.len() % 20 == 0,
    ensures
        piece_chunks(b).flatten() == b,
    decreases b.len(),
{
    let n = b.len() / 20;
    if b.len() == 20 {
        assert(piece_chunks(b) =~= seq![b.subrange(0, 20)]);
        piece_chunks(b).lemma_flatten_one_element();
    } else {
        let rest = b.subrange(20, b.len() as int);
        assert(rest.len() / 20 == n - 1);
        lemma_piece_chunks_round_trip(rest);
        assert forall|i: int| 0 <= i < n - 1 implies #[trigger] piece_chunks(b).drop_first()[i]
            == piece_chunks(rest)[i] by {
            assert(piece_chunks(b).drop_first()[i] =~= piece_chunks(rest)[i]);
        }
        assert(piece_chunks(b).drop_first() =~= piece_chunks(rest));
        assert(piece_chunks(b).first() =~= b.subrange(0, 20));
        assert(piece_chunks(b).flatten() =~= b.subrange(0, 20) + rest);
        assert(b.subrange(0, 20) + rest =~= b);
    }
}

proof fn lemma_find_marker_bounds(b: Seq<u8>, i: int)
    requires
        0 <= i,
    ensures
        find_marker(b, i) == b.len() || (i <= find_marker(b, i) && marker_at(b, find_marker(b, i))),
    decreases b.len() - i,
{
    if i + 6 <= b.len() && !marker_at(b, i) {
        lemma_find_marker_bounds(b, i + 1);
    }
}

proof fn lemma_find_byte_bounds(b: Seq<u8>, i: int)
    requires
        0 <= i,
    ensures
        find_byte(b, i, 101) == b.len() || (i <= find_byte(b, i, 101) < b.len() && b[find_byte(
            b,
            i,
            101,
        )] == 101),
    decreases b.len() - i,
{
    if i < b.len() && b[i] != 101 {
        lemma_find_byte_bounds(b, i + 1);
    }
}

proof fn lemma_find_marker_agrees(b1: Seq<u8>, b2: Seq<u8>, i: int, m: int)
    requires
        0 <= i <= m,
        m + 6 <= b1.len(),
        m + 6 <= b2.len(),
        find_marker(b1, i) == m,
        marker_at(b1, m),
        b2.subrange(m, m + 6) == b1.subrange(m, m + 6),
        forall|j: int| i <= j < m ==> !marker_at(b2, j),
    ensures
        find_marker(b2, i) == m,
    decreases m - i,
{
    if i < m {
        lemma_find_marker_agrees(b1, b2, i + 1, m);
    } else {
        assert(b2.subrange(m, m + 6) == crate::field::info_marker());
    }
}

proof fn lemma_find_byte_agrees(b1: Seq<u8>, b2: Seq<u8>, i: int, e: int)
    requires
        0 <= i <= e < b1.len(),
        e < b2.len(),
        find_byte(b1, i, 101) == e,
        b1[e] == 101,
        forall|j: int| i <= j <= e ==> b2[j] == b1[j],
    ensures
        find_byte(b2, i, 101) == e,
    decreases e - i,
{
    if i < e {
        lemma_find_byte_agrees(b1, b2, i + 1, e);
    }
}

proof fn lemma_digit_run_end_ge(b: Seq<u8>, i: int)
    requires
        0 <= i,
    ensures
        i <= digit_run_end(b, i),
        digit_run_end(b, i) < b.len() ==> !is_digit(b[digit_run_end(b, i)]),
    decreases b.len() - i,
{
    if i < b.len() && is_digit(b[i]) {
        lemma_digit_run_end_ge(b, i + 1);
    }
}

proof fn lemma_digit_run_agrees(b1: Seq<u8>, b2: Seq<u8>, i: int, j: int)
    requires
        0 <= i <= j,
        j < b1.len(),
        j < b2.len(),
        digit_run_end(b1, i) == j,
        forall|k: int| i <= k <= j ==> b2[k] == b1[k],
    ensures
        digit_run_end(b2, i) == j,
    decreases j - i,
{
    lemma_digit_run_end_ge(b1, i);
    if i < j {
        lemma_digit_run_agrees(b1, b2, i + 1, j);
    }
}

proof fn lemma_list_bounds(b: Seq<u8>, pos: int, acc: Seq<FieldV>, d: nat)
    requires
        0 <= pos,
    ensures
        decode_list(b, pos, acc, d) matches Decoded::Value(_, q) ==> pos < q <= b.len(),
    decreases b.len() - pos,
{
    if pos < b.len() && b[pos] != 101 {
        match decode(b, pos, d) {
            Decoded::Value(v, p) => if pos < p <= b.len() {
                lemma_list_bounds(b, p, acc.push(v), d);
            },
            _ => {},
        }
    }
}

proof fn lemma_dict_bounds(b: Seq<u8>, pos: int, acc: Map<Seq<u8>, FieldV>, d: nat)
    requires
        0 <= pos,
    ensures
        decode_dict(b, pos, acc, d) matches Decoded::Value(_, q) ==> pos < q <= b.len(),
    decreases b.len() - pos,
{
    if pos < b.len() && b[pos] != 101 {
        match decode(b, pos, d) {
            Decoded::Value(FieldV::Bytes(kb), p) => if pos < p <= b.len() {
                match decode(b, p, d) {
                    Decoded::Value(v, q) => if p < q <= b.len() {
                        lemma_dict_bounds(b, q, acc.insert(kb, v), d);
                    },
                    _ => {},
                }
            },
            _ => {},
        }
    }
}

proof fn lemma_decode_bounds(b: Seq<u8>, pos: int, d: nat)
    requires
        0 <= pos,
    ensures
        decode(b, pos, d) matches Decoded::Value(_, q) ==> pos < q <= b.len(),
{
    if pos < b.len() {
        lemma_digit_run_end_ge(b, pos);
        lemma_find_byte_bounds(b, pos + 1);
        lemma_list_bounds(b, pos + 1, seq![], d + 1);
        lemma_dict_bounds(b, pos + 1, Map::empty(), d + 1);
    }
}

/// A decoded value depends only on the bytes that it spans.
proof fn lemma_decode_local(b1: Seq<u8>, b2: Seq<u8>, pos: int, d: nat)
    requires
        0 <= pos,
        decode(b1, pos, d) is Value,
        decode(b1, pos, d)->Value_1 <= b2.len(),
        forall|j: int| pos <= j < decode(b1, pos, d)->Value_1 ==> b2[j] == b1[j],
    ensures
        decode(b2, pos, d) == decode(b1, pos, d),
    decreases b1.len() - pos, 1int,
{
    let q = decode(b1, pos, d)->Value_1;
    let c = b1[pos];
    if is_digit(c) {
        let j = digit_run_end(b1, pos);
        lemma_digit_run_end_ge(b1, pos);
        lemma_digit_run_agrees(b1, b2, pos, j);
        assert(b2[pos] == b1[pos]);
        assert(b2[j] == b1[j]);
        assert(b2.subrange(pos, j) =~= b1.subrange(pos, j));
        assert(b2.subrange(j + 1, q) =~= b1.subrange(j + 1, q));
    } else if c == 105 {
        let e = find_byte(b1, pos + 1, 101);
        lemma_find_byte_bounds(b1, pos + 1);
        lemma_find_byte_agrees(b1, b2, pos + 1, e);
        assert(b2[pos] == b1[pos]);
        assert(b2.subrange(pos + 1, e) =~= b1.subrange(pos + 1, e));
    } else if c == 108 {
        lemma_list_bounds(b1, pos + 1, seq![], d + 1);
        assert(b2[pos] == b1[pos]);
        lemma_list_local(b1, b2, pos + 1, seq![], d + 1);
    } else if c == 100 {
        lemma_dict_bounds(b1, pos + 1, Map::empty(), d + 1);
        assert(b2[pos] == b1[pos]);
        lemma_dict_local(b1, b2, pos + 1, Map::empty(), d + 1);
    }
}

proof fn lemma_list_local(b1: Seq<u8>, b2: Seq<u8>, pos: int, acc: Seq<FieldV>, d: nat)
    requires
        0 <= pos,
        decode_list(b1, pos, acc, d) is Value,
        decode_list(b1, pos, acc, d)->Value_1 <= b2.len(),
        forall|j: int| pos <= j < decode_list(b1, pos, acc, d)->Value_1 ==> b2[j] == b1[j],
    ensures
        decode_list(b2, pos, acc, d) == decode_list(b1, pos, acc, d),
    decreases b1.len() - pos, 2int,
{
    lemma_list_bounds(b1, pos, acc, d);
    if b1[pos] != 101 {
        let (v, p) = (decode(b1, pos, d)->Value_0, decode(b1, pos, d)->Value_1);
        lemma_list_bounds(b1, p, acc.push(v), d);
        lemma_decode_local(b1, b2, pos, d);
        lemma_list_local(b1, b2, p, acc.push(v), d);
    }
}

proof fn lemma_dict_local(b1: Seq<u8>, b2: Seq<u8>, pos: int, acc: Map<Seq<u8>, FieldV>, d: nat)
    requires
        0 <= pos,
        decode_dict(b1, pos, acc, d) is Value,
        decode_dict(b1, pos, acc, d)->Value_1 <= b2.len(),
        forall|j: int| pos <= j < decode_dict(b1, pos, acc, d)->Value_1 ==> b2[j] == b1[j],
    ensures
        decode_dict(b2, pos, acc, d) == decode_dict(b1, pos, acc, d),
    decreases b1.len() - pos, 2int,
{
    lemma_dict_bounds(b1, pos, acc, d);
    if b1[pos] != 101 {
        let (k, p) = (decode(b1, pos, d)->Value_0, decode(b1, pos, d)->Value_1);
        let kb = k->Bytes_0;
        let (v, q) = (decode(b1, p, d)->Value_0, decode(b1, p, d)->Value_1);
        lemma_dict_bounds(b1, q, acc.insert(kb, v), d);
        lemma_decode_local(b1, b2, pos, d);
        lemma_decode_local(b1, b2, p, d);
        lemma_dict_local(b1, b2, q, acc.insert(kb, v), d);
    }
}

/// The info hash depends only on the marker and the bytes of the info
/// value, its closing `e` included: a document that keeps those bytes, and
/// has no marker earlier, has the same info hash.
pub proof fn lemma_info_hash_ignores_other_bytes(b1: Seq<u8>, b2: Seq<u8>)
    requires
        info_span(b1) is Some,
        ({
            let (lo, hi) = info_span(b1)->0;
            &&& hi < b2.len()
            &&& forall|j: int| lo - 6 <= j <= hi ==> b2[j] == b1[j]
            &&& forall|j: int| 0 <= j < lo - 6 ==> !marker_at(b2, j)
        }),
    ensures
        info_hash_of(b2) == info_hash_of(b1),
{
    let (lo, hi) = info_span(b1)->0;
    let m = lo - 6;
    lemma_find_marker_bounds(b1, 0);
    lemma_decode_bounds(b1, lo, 0);
    assert(lo <= hi);
    assert(b2.subrange(m, m + 6) =~= b1.subrange(m, m + 6));
    lemma_find_marker_agrees(b1, b2, 0, m);
    lemma_decode_local(b1, b2, lo, 0);
    assert(b2.subrange(lo, hi) =~= b1.subrange(lo, hi));
}

/// The info hash is taken from the raw bytes: a document that maps has as
/// its info hash the digest of its span, whatever its decoded tree holds.
pub proof fn lemma_info_hash_from_raw_bytes(b: Seq<u8>)
    requires
        metadata_spec(b) is Ok,
    ensures
        info_hash_of(b) is Some,
        (metadata_spec(b)->Ok_0).info_hash == info_hash_of(b)->0,
{
}

/// Peer equality is reflexive and symmetric.
pub proof fn lemma_peer_eq_reflexive_symmetric(a: Peer, b: Peer)
    ensures
        same_peer(a, a),
        same_peer(a, b) == same_peer(b, a),
{
}

/// Trackers with the same announce URL are equal, whatever their other fields.
pub proof fn lemma_tracker_identity(a: Tracker, b: Tracker)
    requires
        a.announce@ == b.announce@,
    ensures
        a.eq_spec(&b),
        b.eq_spec(&a),
{
}

/// No response brings a tracker back to the not-contacted state.
pub proof fn lemma_update_never_not_contacted(resp: TrackerResponseV)
    ensures
        !(state_after(resp) is NotContacted),
{
}

/// A failure reason decides a tracker response, whatever else it holds.
pub proof fn lemma_failure_reason_wins(d: Map<Seq<u8>, FieldV>, reason: Seq<char>)
    requires
        d.contains_key(key("failure reason"@)),
        text_of(d[key("failure reason"@)]) == Ok::<Seq<char>, ParseFailure>(reason),
    ensures
        response_of(FieldV::Dict(d)) == Ok::<TrackerResponseV, ParseFailure>(
            TrackerResponseV::Failure(reason),
        ),
{
}

/// A metadata dictionary without `announce` fails naming `announce`.
pub proof fn lemma_missing_announce(d: Map<Seq<u8>, FieldV>, hash: Seq<u8>)
    requires
        !d.contains_key(key("announce"@)),
    ensures
        metadata_of(FieldV::Dict(d), hash) == Err::<crate::model::TorrentMetadataV, ParseFailure>(
            ParseFailure::MissingField("announce"@),
        ),
{
}

/// A metadata dictionary without `info` fails naming `info`, where the
/// fields read before it are well formed.
pub proof fn lemma_missing_info(d: Map<Seq<u8>, FieldV>, hash: Seq<u8>)
    requires
        !d.contains_key(key("info"@)),
        text_req(d, "announce"@) is Ok,
        announce_tiers(d) is Ok,
        text_opt(d, "comment"@) is Ok,
        text_opt(d, "created by"@) is Ok,
        int_opt(d, "creation date"@) is Ok,
        text_opt(d, "encoding"@) is Ok,
    ensures
        metadata_of(FieldV::Dict(d), hash) == Err::<crate::model::TorrentMetadataV, ParseFailure>(
            ParseFailure::MissingField("info"@),
        ),
{
}

/// An info dictionary that maps gives a single-file torrent exactly when it
/// has no `files` field.
pub proof fn lemma_single_file_mode(d: Map<Seq<u8>, FieldV>)
    requires
        info_of(d) is Ok,
    ensures
        (info_of(d)->Ok_0).files is None <==> !d.contains_key(key("files"@)),
{
}

} // verus!
