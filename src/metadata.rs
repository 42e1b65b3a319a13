use vstd::prelude::*;
use crate::error::{missing_field, structure_error, type_error, ParseFailure, TorrentParserError};
use crate::field::{
    decode, dict_get, extract_info_hash, get_field_type, info_hash_of, list_model, Decoded, Field,
    FieldV,
};
use crate::model::{
    files_view, pieces_view, tiers_view, Info, InfoFile, InfoFileV, InfoV, TorrentMetadata,
    TorrentMetadataV,
};
use crate::schema::{
    int_field_opt, int_field_req, int_opt, int_req, key, lemma_list_model_prefix, strings_view,
    text_field_opt, text_field_req, text_opt, text_req, text_values, texts_of,
};

verus! {

/// The tiers of an announce list: each a list of texts.
pub open spec fn tiers_of(s: Seq<FieldV>) -> Result<Seq<Seq<Seq<char>>>, ParseFailure>
    decreases s.len(),
{
    if s.len() == 0 {
        Ok(seq![])
    } else {
        match tiers_of(s.drop_last()) {
            Ok(ts) => match s.last() {
                FieldV::List(t) => match texts_of(t) {
                    Ok(t2) => Ok(ts.push(t2)),
                    Err(e) => Err(e),
                },
                _ => Err(ParseFailure::WrongType("List"@, s.last().kind_name())),
            },
            Err(e) => Err(e),
        }
    }
}

pub open spec fn announce_tiers(d: Map<Seq<u8>, FieldV>) -> Result<
    Option<Seq<Seq<Seq<char>>>>,
    ParseFailure,
> {
    if !d.contains_key(key("announce-list"@)) {
        Ok(None)
    } else {
        match d[key("announce-list"@)] {
            FieldV::List(s) => match tiers_of(s) {
                Ok(ts) => Ok(Some(ts)),
                Err(e) => Err(e),
            },
            other => Err(ParseFailure::WrongType("List"@, other.kind_name())),
        }
    }
}

/// Text order: by code points, a prefix before its extensions.
pub open spec fn text_le(a: Seq<char>, b: Seq<char>) -> bool
    decreases a.len(),
{
    if a.len() == 0 {
        true
    } else if b.len() == 0 {
        false
    } else if a[0] != b[0] {
        (a[0] as u32) < (b[0] as u32)
    } else {
        text_le(a.drop_first(), b.drop_first())
    }
}

/// Tier order: lexicographic over texts.
pub open spec fn tier_le(a: Seq<Seq<char>>, b: Seq<Seq<char>>) -> bool
    decreases a.len(),
{
    if a.len() == 0 {
        true
    } else if b.len() == 0 {
        false
    } else if a[0] != b[0] {
        text_le(a[0], b[0])
    } else {
        tier_le(a.drop_first(), b.drop_first())
    }
}

pub open spec fn tiers_sorted(s: Seq<Seq<Seq<char>>>) -> bool {
    forall|i: int, j: int| 0 <= i < j < s.len() ==> tier_le(#[trigger] s[i], #[trigger] s[j])
}

/// A sequence with each run of equal neighbours kept once.
pub open spec fn dedup_seq<A>(s: Seq<A>) -> Seq<A>
    decreases s.len(),
{
    if s.len() <= 1 {
        s
    } else if s.last() == s[s.len() - 2] {
        dedup_seq(s.drop_last())
    } else {
        dedup_seq(s.drop_last()).push(s.last())
    }
}

/// `got` is `raw` sorted, with repeated tiers kept once.
pub open spec fn normalized_tiers(raw: Seq<Seq<Seq<char>>>, got: Seq<Seq<Seq<char>>>) -> bool {
    exists|s: Seq<Seq<Seq<char>>>|
        #[trigger] s.to_multiset() == raw.to_multiset() && tiers_sorted(s) && got == dedup_seq(s)
}

/// Relies on `slice::sort` on `Vec<Vec<String>>`: a stable sort by the
/// derived order, which compares strings by their bytes (so by code points)
/// and lists lexicographically.
#[verifier::external_body]
fn sort_tiers(v: &mut Vec<Vec<String>>)
    ensures
        tiers_view(final(v)@).to_multiset() == tiers_view(old(v)@).to_multiset(),
        tiers_sorted(tiers_view(final(v)@)),
{
    v.sort();
}

/// Relies on `Vec::dedup`: removes consecutive equal elements, keeping the
/// first of each run.
#[verifier::external_body]
fn dedup_tiers(v: &mut Vec<Vec<String>>)
    ensures
        tiers_view(final(v)@) == dedup_seq(tiers_view(old(v)@)),
{
    v.dedup();
}

/// The piece checksums: the string cut into 20-byte pieces.
pub open spec fn piece_chunks(b: Seq<u8>) -> Seq<Seq<u8>> {
    Seq::new(b.len() / 20, |i: int| b.subrange(20 * i, 20 * i + 20))
}

pub open spec fn file_entry_of(v: FieldV) -> Result<InfoFileV, ParseFailure> {
    match v {
        FieldV::Dict(d) => match int_req(d, "length"@) {
            Err(e) => Err(e),
            Ok(length) => match text_opt(d, "md5sum"@) {
                Err(e) => Err(e),
                Ok(md5sum) => if !d.contains_key(key("path"@)) {
                    Err(ParseFailure::MissingField("path"@))
                } else {
                    match d[key("path"@)] {
                        FieldV::List(p) => match texts_of(p) {
                            Ok(path) => Ok(InfoFileV { length, md5sum, path }),
                            Err(e) => Err(e),
                        },
                        other => Err(ParseFailure::WrongType("List"@, other.kind_name())),
                    }
                },
            },
        },
        _ => Err(ParseFailure::WrongType("Dict"@, v.kind_name())),
    }
}

pub open spec fn files_of(s: Seq<FieldV>) -> Result<Seq<InfoFileV>, ParseFailure>
    decreases s.len(),
{
    if s.len() == 0 {
        Ok(seq![])
    } else {
        match files_of(s.drop_last()) {
            Ok(fs) => match file_entry_of(s.last()) {
                Ok(f) => Ok(fs.push(f)),
                Err(e) => Err(e),
            },
            Err(e) => Err(e),
        }
    }
}

pub open spec fn pieces_of(d: Map<Seq<u8>, FieldV>) -> Result<Seq<Seq<u8>>, ParseFailure> {
    if !d.contains_key(key("pieces"@)) {
        Err(ParseFailure::MissingField("pieces"@))
    } else {
        match d[key("pieces"@)] {
            FieldV::Bytes(p) => if p.len() % 20 != 0 {
                Err(ParseFailure::Structure)
            } else {
                Ok(piece_chunks(p))
            },
            other => Err(ParseFailure::WrongType("String"@, other.kind_name())),
        }
    }
}

pub open spec fn file_list_of(d: Map<Seq<u8>, FieldV>) -> Result<
    Option<Seq<InfoFileV>>,
    ParseFailure,
> {
    if !d.contains_key(key("files"@)) {
        Ok(None)
    } else {
        match d[key("files"@)] {
            FieldV::List(s) => match files_of(s) {
                Ok(fs) => Ok(Some(fs)),
                Err(e) => Err(e),
            },
            other => Err(ParseFailure::WrongType("List"@, other.kind_name())),
        }
    }
}

pub open spec fn info_of(d: Map<Seq<u8>, FieldV>) -> Result<InfoV, ParseFailure> {
    match int_req(d, "piece length"@) {
        Err(e) => Err(e),
        Ok(piece_length) => match pieces_of(d) {
            Err(e) => Err(e),
            Ok(pieces) => match int_opt(d, "private"@) {
                Err(e) => Err(e),
                Ok(private) => match text_req(d, "name"@) {
                    Err(e) => Err(e),
                    Ok(name) => match file_list_of(d) {
                        Err(e) => Err(e),
                        Ok(files) => match int_opt(d, "length"@) {
                            Err(e) => Err(e),
                            Ok(length) => match text_opt(d, "md5sum"@) {
                                Err(e) => Err(e),
                                Ok(md5sum) => Ok(
                                    InfoV {
                                        piece_length,
                                        pieces,
                                        private: match private {
                                            Some(p) => Some(p != 0),
                                            None => None,
                                        },
                                        name,
                                        files,
                                        length,
                                        md5sum,
                                    },
                                ),
                            },
                        },
                    },
                },
            },
        },
    }
}

pub open spec fn info_field_of(d: Map<Seq<u8>, FieldV>) -> Result<InfoV, ParseFailure> {
    if !d.contains_key(key("info"@)) {
        Err(ParseFailure::MissingField("info"@))
    } else {
        match d[key("info"@)] {
            FieldV::Dict(i) => info_of(i),
            other => Err(ParseFailure::WrongType("Dict"@, other.kind_name())),
        }
    }
}

/// The metadata that a decoded root value describes. The announce list is
/// given here as read, before it is sorted and deduplicated.
pub open spec fn metadata_of(v: FieldV, hash: Seq<u8>) -> Result<TorrentMetadataV, ParseFailure> {
    match v {
        FieldV::Dict(d) => match text_req(d, "announce"@) {
            Err(e) => Err(e),
            Ok(announce) => match announce_tiers(d) {
                Err(e) => Err(e),
                Ok(announce_list) => match text_opt(d, "comment"@) {
                    Err(e) => Err(e),
                    Ok(comment) => match text_opt(d, "created by"@) {
                        Err(e) => Err(e),
                        Ok(created_by) => match int_opt(d, "creation date"@) {
                            Err(e) => Err(e),
                            Ok(creation_date) => match text_opt(d, "encoding"@) {
                                Err(e) => Err(e),
                                Ok(encoding) => match info_field_of(d) {
                                    Err(e) => Err(e),
                                    Ok(info) => Ok(
                                        TorrentMetadataV {
                                            announce,
                                            announce_list,
                                            comment,
                                            created_by,
                                            creation_date,
                                            encoding,
                                            info,
                                            info_hash: hash,
                                        },
                                    ),
                                },
                            },
                        },
                    },
                },
            },
        },
        _ => Err(ParseFailure::WrongType("Dict"@, v.kind_name())),
    }
}

/// What an encoded metadata document means: its info hash is found first,
/// then its first value is decoded and mapped.
pub open spec fn metadata_spec(b: Seq<u8>) -> Result<TorrentMetadataV, ParseFailure> {
    match info_hash_of(b) {
        None => Err(ParseFailure::Structure),
        Some(h) => match decode(b, 0, 0) {
            Decoded::End => Err(ParseFailure::Structure),
            Decoded::Fail(k) => Err(k),
            Decoded::Value(v, _) => metadata_of(v, h),
        },
    }
}

/// `got` is `want` but for the announce list, which is `want`'s normalized.
pub open spec fn metadata_agrees(got: TorrentMetadataV, want: TorrentMetadataV) -> bool {
    &&& got.announce == want.announce
    &&& got.comment == want.comment
    &&& got.created_by == want.created_by
    &&& got.creation_date == want.creation_date
    &&& got.encoding == want.encoding
    &&& got.info == want.info
    &&& got.info_hash == want.info_hash
    &&& match (got.announce_list, want.announce_list) {
        (None, None) => true,
        (Some(g), Some(w)) => normalized_tiers(w, g),
        _ => false,
    }
}

} // verus!

verus! {

proof fn lemma_tiers_prefix_err(s: Seq<FieldV>, n: int)
    requires
        0 < n <= s.len(),
        tiers_of(s.subrange(0, n)) is Err,
    ensures
        tiers_of(s) == tiers_of(s.subrange(0, n)),
    decreases s.len(),
{
    if n < s.len() {
        assert(s.drop_last().subrange(0, n) =~= s.subrange(0, n));
        lemma_tiers_prefix_err(s.drop_last(), n);
    } else {
        assert(s.subrange(0, n) =~= s);
    }
}

proof fn lemma_files_prefix_err(s: Seq<FieldV>, n: int)
    requires
        0 < n <= s.len(),
        files_of(s.subrange(0, n)) is Err,
    ensures
        files_of(s) == files_of(s.subrange(0, n)),
    decreases s.len(),
{
    if n < s.len() {
        assert(s.drop_last().subrange(0, n) =~= s.subrange(0, n));
        lemma_files_prefix_err(s.drop_last(), n);
    } else {
        assert(s.subrange(0, n) =~= s);
    }
}

fn announce_tier_list(items: &Vec<Field>) -> (r: Result<Vec<Vec<String>>, TorrentParserError>)
    ensures
        match tiers_of(list_model(items@)) {
            Ok(ts) => r matches Ok(v) && tiers_view(v@) == ts,
            Err(k) => r matches Err(e) && e.kind() == k,
        },
{
    let mut out: Vec<Vec<String>> = Vec::new();
    let mut i: usize = 0;
    proof {
        lemma_list_model_prefix(items@, 0);
        assert(items@.subrange(0, 0) =~= Seq::<Field>::empty());
        assert(tiers_view(out@) =~= Seq::<Seq<Seq<char>>>::empty());
    }
    while i < items.len()
        invariant
            i <= items.len(),
            list_model(items@).len() == items.len(),
            tiers_of(list_model(items@.subrange(0, i as int))) == Ok::<
                Seq<Seq<Seq<char>>>,
                ParseFailure,
            >(tiers_view(out@)),
        decreases items.len() - i,
    {
        proof {
            lemma_list_model_prefix(items@, i as int + 1);
        }
        let t = match &items[i] {
            Field::List(t) => text_values(t),
            other => Err(type_error("List", other.field_type())),
        };
        match t {
            Ok(t) => {
                let ghost prev = out@;
                out.push(t);
                assert(tiers_view(out@) =~= tiers_view(prev).push(strings_view(out@.last()@)));
            },
            Err(e) => {
                proof {
                    lemma_tiers_prefix_err(list_model(items@), i as int + 1);
                }
                return Err(e);
            },
        }
        i = i + 1;
    }
    assert(items@.subrange(0, i as int) =~= items@);
    proof {
        lemma_list_model_prefix(items@, i as int);
    }
    Ok(out)
}

fn file_entry(f: &Field) -> (r: Result<InfoFile, TorrentParserError>)
    ensures
        match file_entry_of(f@) {
            Ok(v) => r matches Ok(x) && x@ == v,
            Err(k) => r matches Err(e) && e.kind() == k,
        },
{
    match f {
        Field::Dict(d) => {
            let length = match int_field_req(d, "length") {
                Ok(l) => l,
                Err(e) => {
                    return Err(e);
                },
            };
            let md5sum = match text_field_opt(d, "md5sum") {
                Ok(m) => m,
                Err(e) => {
                    return Err(e);
                },
            };
            let path = match dict_get(d, "path".as_bytes()) {
                Some(Field::List(p)) => match text_values(p) {
                    Ok(p) => p,
                    Err(e) => {
                        return Err(e);
                    },
                },
                Some(other) => {
                    return Err(type_error("List", other.field_type()));
                },
                None => {
                    return Err(missing_field("path"));
                },
            };
            Ok(InfoFile { length, md5sum, path })
        },
        _ => Err(type_error("Dict", f.field_type())),
    }
}

fn file_entries(items: &Vec<Field>) -> (r: Result<Vec<InfoFile>, TorrentParserError>)
    ensures
        match files_of(list_model(items@)) {
            Ok(fs) => r matches Ok(v) && files_view(v@) == fs,
            Err(k) => r matches Err(e) && e.kind() == k,
        },
{
    let mut out: Vec<InfoFile> = Vec::new();
    let mut i: usize = 0;
    proof {
        lemma_list_model_prefix(items@, 0);
        assert(items@.subrange(0, 0) =~= Seq::<Field>::empty());
        assert(files_view(out@) =~= Seq::<InfoFileV>::empty());
    }
    while i < items.len()
        invariant
            i <= items.len(),
            list_model(items@).len() == items.len(),
            files_of(list_model(items@.subrange(0, i as int))) == Ok::<
                Seq<InfoFileV>,
                ParseFailure,
            >(files_view(out@)),
        decreases items.len() - i,
    {
        proof {
            lemma_list_model_prefix(items@, i as int + 1);
        }
        match file_entry(&items[i]) {
            Ok(f) => {
                let ghost prev = out@;
                out.push(f);
                assert(files_view(out@) =~= files_view(prev).push(out@.last()@));
            },
            Err(e) => {
                proof {
                    lemma_files_prefix_err(list_model(items@), i as int + 1);
                }
                return Err(e);
            },
        }
        i = i + 1;
    }
    assert(items@.subrange(0, i as int) =~= items@);
    proof {
        lemma_list_model_prefix(items@, i as int);
    }
    Ok(out)
}

/// Cuts the pieces string into its 20-byte checksums.
fn split_pieces(b: &Vec<u8>) -> (r: Vec<Vec<u8>>)
    requires
        b.len() % 20 == 0,
    ensures
        pieces_view(r@) == piece_chunks(b@),
{
    let n = b.len() / 20;
    let mut out: Vec<Vec<u8>> = Vec::new();
    let mut i: usize = 0;
    while i < n
        invariant
            n == b.len() / 20,
            b.len() % 20 == 0,
            i <= n,
            pieces_view(out@) =~= Seq::new(i as nat, |j: int| b@.subrange(20 * j, 20 * j + 20)),
        decreases n - i,
    {
        let o = 20 * i;
        assert(o + 20 <= b.len()) by (nonlinear_arith)
            requires
                o == 20 * i,
                i < n,
                n == b.len() / 20,
                b.len() % 20 == 0,
        ;
        let mut piece: Vec<u8> = Vec::new();
        let mut k: usize = 0;
        while k < 20
            invariant
                o + 20 <= b.len(),
                k <= 20,
                piece@ == b@.subrange(o as int, o + k),
            decreases 20 - k,
        {
            piece.push(b[o + k]);
            assert(piece@ =~= b@.subrange(o as int, o + k + 1));
            k = k + 1;
        }
        let ghost prev = out@;
        out.push(piece);
        assert(pieces_view(out@) =~= pieces_view(prev).push(b@.subrange(20 * i, 20 * i + 20)));
        i = i + 1;
    }
    out
}

fn info_from_dict(d: &Vec<(Vec<u8>, Field)>) -> (r: Result<Info, TorrentParserError>)
    ensures
        match info_of(crate::field::dict_model(d@)) {
            Ok(v) => r matches Ok(x) && x@ == v,
            Err(k) => r matches Err(e) && e.kind() == k,
        },
{
    let piece_length = match int_field_req(d, "piece length") {
        Ok(p) => p,
        Err(e) => {
            return Err(e);
        },
    };
    let pieces = match dict_get(d, "pieces".as_bytes()) {
        Some(Field::String(p)) => {
            if p.len() % 20 != 0 {
                return Err(structure_error("Pieces length is not a multiple of 20"));
            }
            split_pieces(p)
        },
        Some(other) => {
            return Err(type_error("String", other.field_type()));
        },
        None => {
            return Err(missing_field("pieces"));
        },
    };
    let private = match int_field_opt(d, "private") {
        Ok(Some(p)) => Some(p != 0),
        Ok(None) => None,
        Err(e) => {
            return Err(e);
        },
    };
    let name = match text_field_req(d, "name") {
        Ok(n) => n,
        Err(e) => {
            return Err(e);
        },
    };
    let files = match dict_get(d, "files".as_bytes()) {
        Some(Field::List(items)) => match file_entries(items) {
            Ok(fs) => Some(fs),
            Err(e) => {
                return Err(e);
            },
        },
        Some(other) => {
            return Err(type_error("List", other.field_type()));
        },
        None => None,
    };
    let length = match int_field_opt(d, "length") {
        Ok(l) => l,
        Err(e) => {
            return Err(e);
        },
    };
    let md5sum = match text_field_opt(d, "md5sum") {
        Ok(m) => m,
        Err(e) => {
            return Err(e);
        },
    };
    Ok(Info { piece_length, pieces, private, name, files, length, md5sum })
}

/// Decodes a metadata document and maps it onto the metadata schema. The
/// pieces string must hold whole 20-byte checksums; a remainder is an error.
pub fn parse_torrent_metadata(bencoded: Vec<u8>) -> (r: Result<TorrentMetadata, TorrentParserError>)
    ensures
        match metadata_spec(bencoded@) {
            Ok(v) => r matches Ok(m) && metadata_agrees(m@, v),
            Err(k) => r matches Err(e) && e.kind() == k,
        },
        r matches Ok(m) ==> m.info_hash@.len() == 20,
{
    let info_hash = match extract_info_hash(&bencoded) {
        Ok(h) => h,
        Err(e) => {
            return Err(e);
        },
    };
    let mut pos: usize = 0;
    let root = match get_field_type(&bencoded, &mut pos) {
        Ok(Some(f)) => f,
        Ok(None) => {
            return Err(structure_error("Expected field"));
        },
        Err(e) => {
            return Err(e);
        },
    };
    let d = match root {
        Field::Dict(d) => d,
        other => {
            return Err(type_error("Dict", other.field_type()));
        },
    };
    let announce = match text_field_req(&d, "announce") {
        Ok(a) => a,
        Err(e) => {
            return Err(e);
        },
    };
    let announce_list = match dict_get(&d, "announce-list".as_bytes()) {
        Some(Field::List(items)) => match announce_tier_list(items) {
            Ok(tiers) => {
                let mut tiers = tiers;
                let ghost raw = tiers_view(tiers@);
                sort_tiers(&mut tiers);
                let ghost sorted = tiers_view(tiers@);
                dedup_tiers(&mut tiers);
                assert(sorted.to_multiset() == raw.to_multiset() && tiers_sorted(sorted)
                    && tiers_view(tiers@) == dedup_seq(sorted));
                Some(tiers)
            },
            Err(e) => {
                return Err(e);
            },
        },
        Some(other) => {
            return Err(type_error("List", other.field_type()));
        },
        None => None,
    };
    let comment = match text_field_opt(&d, "comment") {
        Ok(c) => c,
        Err(e) => {
            return Err(e);
        },
    };
    let created_by = match text_field_opt(&d, "created by") {
        Ok(c) => c,
        Err(e) => {
            return Err(e);
        },
    };
    let creation_date = match int_field_opt(&d, "creation date") {
        Ok(c) => c,
        Err(e) => {
            return Err(e);
        },
    };
    let encoding = match text_field_opt(&d, "encoding") {
        Ok(c) => c,
        Err(e) => {
            return Err(e);
        },
    };
    let info = match dict_get(&d, "info".as_bytes()) {
        Some(Field::Dict(i)) => match info_from_dict(i) {
            Ok(info) => info,
            Err(e) => {
                return Err(e);
            },
        },
        Some(other) => {
            return Err(type_error("Dict", other.field_type()));
        },
        None => {
            return Err(missing_field("info"));
        },
    };
    Ok(
        TorrentMetadata {
            announce,
            announce_list,
            comment,
            created_by,
            creation_date,
            encoding,
            info,
            info_hash,
        },
    )
}

} // verus!
