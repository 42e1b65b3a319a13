use vstd::prelude::*;
use crate::error::{integer_error, structure_error, type_error, ParseFailure, TorrentParserError};
use crate::text::{sha1_of, utf8_string};
use vstd::utf8::valid_utf8;

verus! {

broadcast use vstd::seq::axiom_seq_index_decreases, vstd::seq::axiom_seq_subrange_decreases,
    vstd::std_specs::vec::axiom_vec_decreases_to_view;

/// A decoded value as mathematics sees it.
pub enum FieldV {
    Bytes(Seq<u8>),
    Integer(int),
    List(Seq<FieldV>),
    Dict(Map<Seq<u8>, FieldV>),
}

impl FieldV {
    pub open spec fn kind_name(self) -> Seq<char> {
        match self {
            FieldV::Bytes(_) => "String"@,
            FieldV::Integer(_) => "Integer"@,
            FieldV::List(_) => "List"@,
            FieldV::Dict(_) => "Dict"@,
        }
    }
}

/// A decoded value. A dictionary keeps its entries in the order in which they
/// were read; an entry shadows every earlier one with the same key. Entries
/// sit in a vector keyed by raw bytes, so that `dict_get` can be proved
/// against `dict_model`: a map keyed by `String` gives lookups nothing to
/// prove them by.
#[derive(Debug)]
pub enum Field {
    String(Vec<u8>),
    Integer(i64),
    List(Vec<Field>),
    Dict(Vec<(Vec<u8>, Field)>),
}

impl Field {
    pub open spec fn view(self) -> FieldV
        decreases self,
    {
        match self {
            Field::String(s) => FieldV::Bytes(s@),
            Field::Integer(i) => FieldV::Integer(i as int),
            Field::List(v) => FieldV::List(list_model(v@)),
            Field::Dict(v) => FieldV::Dict(dict_model(v@)),
        }
    }

    pub fn field_type(&self) -> (r: String)
        ensures
            r@ == self@.kind_name(),
    {
        match self {
            Field::String(_) => "String".to_owned(),
            Field::Integer(_) => "Integer".to_owned(),
            Field::List(_) => "List".to_owned(),
            Field::Dict(_) => "Dict".to_owned(),
        }
    }
}

pub open spec fn list_model(s: Seq<Field>) -> Seq<FieldV>
    decreases s,
{
    if s.len() == 0 {
        seq![]
    } else {
        list_model(s.drop_last()).push(s.last()@)
    }
}

pub open spec fn dict_model(s: Seq<(Vec<u8>, Field)>) -> Map<Seq<u8>, FieldV>
    decreases s,
{
    if s.len() == 0 {
        Map::empty()
    } else {
        dict_model(s.drop_last()).insert(s.last().0@, s.last().1@)
    }
}

pub open spec fn is_digit(c: u8) -> bool {
    48 <= c <= 57
}

pub open spec fn all_digits(s: Seq<u8>) -> bool {
    forall|i: int| 0 <= i < s.len() ==> is_digit(#[trigger] s[i])
}

/// The number that a run of decimal digits denotes.
pub open spec fn digits_value(s: Seq<u8>) -> nat
    decreases s.len(),
{
    if s.len() == 0 {
        0
    } else {
        digits_value(s.drop_last()) * 10 + (s.last() - 48) as nat
    }
}

/// The first position at or after `i` that holds no digit.
pub open spec fn digit_run_end(b: Seq<u8>, i: int) -> int
    decreases b.len() - i,
{
    if 0 <= i < b.len() && is_digit(b[i]) {
        digit_run_end(b, i + 1)
    } else {
        i
    }
}

/// The first position at or after `i` that holds `c`, or the length.
pub open spec fn find_byte(b: Seq<u8>, i: int, c: u8) -> int
    decreases b.len() - i,
{
    if i < 0 || i >= b.len() {
        b.len() as int
    } else if b[i] == c {
        i
    } else {
        find_byte(b, i + 1, c)
    }
}

/// The value of integer text: an optional minus sign, then one or more
/// digits, within the range of `i64`.
pub open spec fn int_text_value(t: Seq<u8>) -> Option<int> {
    let neg = t.len() > 0 && t[0] == 45;
    let d = if neg { t.drop_first() } else { t };
    let v = if neg { -digits_value(d) } else { digits_value(d) as int };
    if d.len() > 0 && all_digits(d) && i64::MIN <= v <= i64::MAX {
        Some(v)
    } else {
        None
    }
}

/// The outcome of decoding one value at a position.
pub enum Decoded {
    /// The position is at the end of the input.
    End,
    /// A value, and the position just after it.
    Value(FieldV, int),
    Fail(ParseFailure),
}

pub open spec fn decode_string(b: Seq<u8>, pos: int) -> Decoded {
    let j = digit_run_end(b, pos);
    if j >= b.len() || b[j] != 58 {
        Decoded::Fail(ParseFailure::Structure)
    } else {
        let n = digits_value(b.subrange(pos, j));
        if n > usize::MAX {
            Decoded::Fail(ParseFailure::Integer)
        } else if j + 1 + n > b.len() {
            Decoded::Fail(ParseFailure::Structure)
        } else {
            Decoded::Value(FieldV::Bytes(b.subrange(j + 1, j + 1 + n)), j + 1 + n)
        }
    }
}

pub open spec fn decode_integer(b: Seq<u8>, pos: int) -> Decoded {
    let e = find_byte(b, pos + 1, 101);
    if e >= b.len() {
        Decoded::Fail(ParseFailure::Structure)
    } else {
        match int_text_value(b.subrange(pos + 1, e)) {
            Some(v) => Decoded::Value(FieldV::Integer(v), e + 1),
            None => Decoded::Fail(ParseFailure::Integer),
        }
    }
}

/// How deeply lists and dictionaries may nest.
pub const MAX_NESTING: u64 = 256;

/// Decoding of the value that starts at `pos`, inside `depth` enclosing
/// lists and dictionaries.
pub open spec fn decode(b: Seq<u8>, pos: int, depth: nat) -> Decoded
    decreases b.len() - pos, 1int,
{
    if pos < 0 || pos >= b.len() {
        Decoded::End
    } else {
        let c = b[pos];
        if is_digit(c) {
            decode_string(b, pos)
        } else if c == 105 {
            decode_integer(b, pos)
        } else if c == 108 {
            if depth >= MAX_NESTING {
                Decoded::Fail(ParseFailure::Structure)
            } else {
                decode_list(b, pos + 1, seq![], depth + 1)
            }
        } else if c == 100 {
            if depth >= MAX_NESTING {
                Decoded::Fail(ParseFailure::Structure)
            } else {
                decode_dict(b, pos + 1, Map::empty(), depth + 1)
            }
        } else {
            Decoded::Fail(ParseFailure::Specifier(c))
        }
    }
}

/// Decoding of the rest of a list from `pos`, with `acc` already read.
pub open spec fn decode_list(b: Seq<u8>, pos: int, acc: Seq<FieldV>, depth: nat) -> Decoded
    decreases b.len() - pos, 2int,
{
    if pos < 0 || pos >= b.len() {
        Decoded::Fail(ParseFailure::Structure)
    } else if b[pos] == 101 {
        Decoded::Value(FieldV::List(acc), pos + 1)
    } else {
        match decode(b, pos, depth) {
            Decoded::Value(v, p) => if p <= pos || p > b.len() {
                Decoded::Fail(ParseFailure::Structure)
            } else {
                decode_list(b, p, acc.push(v), depth)
            },
            Decoded::Fail(e) => Decoded::Fail(e),
            Decoded::End => Decoded::Fail(ParseFailure::Structure),
        }
    }
}

/// Decoding of the rest of a dictionary from `pos`, with `acc` already read.
pub open spec fn decode_dict(
    b: Seq<u8>,
    pos: int,
    acc: Map<Seq<u8>, FieldV>,
    depth: nat,
) -> Decoded
    decreases b.len() - pos, 2int,
{
    if pos < 0 || pos >= b.len() {
        Decoded::Fail(ParseFailure::Structure)
    } else if b[pos] == 101 {
        Decoded::Value(FieldV::Dict(acc), pos + 1)
    } else {
        match decode(b, pos, depth) {
            Decoded::Value(k, p) => match k {
                FieldV::Bytes(kb) => if !valid_utf8(kb) {
                    Decoded::Fail(ParseFailure::Utf8)
                } else if p <= pos || p > b.len() {
                    Decoded::Fail(ParseFailure::Structure)
                } else {
                    match decode(b, p, depth) {
                        Decoded::Value(v, q) => if q <= p || q > b.len() {
                            Decoded::Fail(ParseFailure::Structure)
                        } else {
                            decode_dict(b, q, acc.insert(kb, v), depth)
                        },
                        Decoded::Fail(e) => Decoded::Fail(e),
                        Decoded::End => Decoded::Fail(ParseFailure::Structure),
                    }
                },
                _ => Decoded::Fail(ParseFailure::WrongType("String"@, k.kind_name())),
            },
            Decoded::Fail(e) => Decoded::Fail(e),
            Decoded::End => Decoded::Fail(ParseFailure::Structure),
        }
    }
}

} // verus!

verus! {

/// Parses the digits of `b[lo..hi]`, after an optional minus sign, as an `i64`.
fn parse_i64(b: &Vec<u8>, lo: usize, hi: usize) -> (r: Option<i64>)
    requires
        lo <= hi <= b.len(),
    ensures
        r is Some <==> int_text_value(b@.subrange(lo as int, hi as int)) is Some,
        r matches Some(v) ==> int_text_value(b@.subrange(lo as int, hi as int)) == Some(v as int),
{
    let ghost t = b@.subrange(lo as int, hi as int);
    let neg = lo < hi && b[lo] == 45u8;
    let d0: usize = if neg { lo + 1 } else { lo };
    let ghost d = b@.subrange(d0 as int, hi as int);
    assert(d =~= if neg { t.drop_first() } else { t });
    assert(neg == (t.len() > 0 && t[0] == 45));
    if d0 == hi {
        return None;
    }
    let mut k: usize = d0;
    let mut mag: u64 = 0;
    let mut over = false;
    while k < hi
        invariant
            d0 <= k <= hi <= b.len(),
            d == b@.subrange(d0 as int, hi as int),
            t == b@.subrange(lo as int, hi as int),
            d == (if neg { t.drop_first() } else { t }),
            neg == (t.len() > 0 && t[0] == 45),
            all_digits(b@.subrange(d0 as int, k as int)),
            over <==> digits_value(b@.subrange(d0 as int, k as int)) > u64::MAX,
            !over ==> mag == digits_value(b@.subrange(d0 as int, k as int)),
        decreases hi - k,
    {
        let c = b[k];
        if c < 48u8 || c > 57u8 {
            assert(d[k - d0] == c);
            return None;
        }
        let ghost prev = b@.subrange(d0 as int, k as int);
        assert(b@.subrange(d0 as int, k + 1).drop_last() =~= prev);
        if !over {
            match mag.checked_mul(10) {
                Some(m) => match m.checked_add((c - 48u8) as u64) {
                    Some(m2) => {
                        mag = m2;
                    },
                    None => {
                        over = true;
                    },
                },
                None => {
                    over = true;
                },
            }
        }
        k = k + 1;
    }
    assert(b@.subrange(d0 as int, k as int) =~= d);
    if over {
        return None;
    }
    if neg {
        if mag > 9223372036854775808u64 {
            None
        } else if mag == 9223372036854775808u64 {
            Some(i64::MIN)
        } else {
            Some(-(mag as i64))
        }
    } else {
        if mag > 9223372036854775807u64 {
            None
        } else {
            Some(mag as i64)
        }
    }
}

/// Reads a length-prefixed byte string whose first digit is at `*pos`.
fn decode_string_at(b: &Vec<u8>, pos: &mut usize) -> (r: Result<Field, TorrentParserError>)
    requires
        *old(pos) < b.len(),
        is_digit(b@[*old(pos) as int]),
    ensures
        match decode_string(b@, *old(pos) as int) {
            Decoded::Value(v, p) => r matches Ok(f) && f@ == v && *final(pos) == p,
            Decoded::Fail(k) => r matches Err(e) && e.kind() == k,
            Decoded::End => false,
        },
        *final(pos) <= b.len(),
        r is Ok ==> *old(pos) < *final(pos),
{
    let start = *pos;
    let mut j: usize = start;
    let mut n: usize = 0;
    let mut over = false;
    loop
        invariant
            start <= j <= b.len(),
            digit_run_end(b@, start as int) == digit_run_end(b@, j as int),
            over <==> digits_value(b@.subrange(start as int, j as int)) > usize::MAX,
            !over ==> n == digits_value(b@.subrange(start as int, j as int)),
        ensures
            start <= j <= b.len(),
            digit_run_end(b@, start as int) == j,
            over <==> digits_value(b@.subrange(start as int, j as int)) > usize::MAX,
            !over ==> n == digits_value(b@.subrange(start as int, j as int)),
        decreases b.len() - j,
    {
        if j >= b.len() {
            break;
        }
        let c = b[j];
        if c < 48u8 || c > 57u8 {
            break;
        }
        assert(b@.subrange(start as int, j + 1).drop_last() =~= b@.subrange(start as int, j as int));
        if !over {
            match n.checked_mul(10) {
                Some(m) => match m.checked_add((c - 48u8) as usize) {
                    Some(m2) => {
                        n = m2;
                    },
                    None => {
                        over = true;
                    },
                },
                None => {
                    over = true;
                },
            }
        }
        j = j + 1;
    }
    if j >= b.len() {
        return Err(structure_error("Unexpected end for string length"));
    }
    if b[j] != 58u8 {
        return Err(structure_error("Expected colon for string"));
    }
    if over {
        return Err(integer_error("String length out of range"));
    }
    if n > b.len() - (j + 1) {
        return Err(structure_error("Unexpected end for string"));
    }
    let lo = j + 1;
    let hi = lo + n;
    let mut out: Vec<u8> = Vec::new();
    let mut k: usize = lo;
    while k < hi
        invariant
            lo <= k <= hi <= b.len(),
            out@ == b@.subrange(lo as int, k as int),
        decreases hi - k,
    {
        out.push(b[k]);
        assert(out@ =~= b@.subrange(lo as int, k + 1));
        k = k + 1;
    }
    *pos = hi;
    Ok(Field::String(out))
}

/// Reads an integer whose `i` marker is at `*pos`.
fn decode_integer_at(b: &Vec<u8>, pos: &mut usize) -> (r: Result<Field, TorrentParserError>)
    requires
        *old(pos) < b.len(),
    ensures
        match decode_integer(b@, *old(pos) as int) {
            Decoded::Value(v, p) => r matches Ok(f) && f@ == v && *final(pos) == p,
            Decoded::Fail(k) => r matches Err(e) && e.kind() == k,
            Decoded::End => false,
        },
        *final(pos) <= b.len(),
        r is Ok ==> *old(pos) < *final(pos),
{
    let start = *pos;
    let mut e: usize = start + 1;
    while e < b.len() && b[e] != 101u8
        invariant
            start + 1 <= e <= b.len(),
            find_byte(b@, start + 1, 101) == find_byte(b@, e as int, 101),
        decreases b.len() - e,
    {
        e = e + 1;
    }
    if e >= b.len() {
        return Err(structure_error("Unexpected end for integer"));
    }
    match parse_i64(b, start + 1, e) {
        Some(v) => {
            *pos = e + 1;
            Ok(Field::Integer(v))
        },
        None => Err(integer_error("Invalid integer")),
    }
}

} // verus!

verus! {

/// Decodes the value that starts at `*pos` and moves `*pos` past it.
/// Gives `None` when `*pos` is at the end of the input. Lists and
/// dictionaries may nest at most `MAX_NESTING` deep.
pub fn get_field_type(buffer: &Vec<u8>, pos: &mut usize) -> (r: Result<
    Option<Field>,
    TorrentParserError,
>)
    requires
        *old(pos) <= buffer.len(),
    ensures
        *final(pos) <= buffer.len(),
        match decode(buffer@, *old(pos) as int, 0) {
            Decoded::End => r matches Ok(None),
            Decoded::Value(v, p) => r matches Ok(Some(f)) && f@ == v && *final(pos) == p,
            Decoded::Fail(k) => r matches Err(e) && e.kind() == k,
        },
        r matches Ok(Some(_)) ==> *old(pos) < *final(pos),
{
    decode_value(buffer, pos, 0)
}

fn decode_value(buffer: &Vec<u8>, pos: &mut usize, depth: u64) -> (r: Result<
    Option<Field>,
    TorrentParserError,
>)
    requires
        *old(pos) <= buffer.len(),
        depth <= MAX_NESTING,
    ensures
        *final(pos) <= buffer.len(),
        match decode(buffer@, *old(pos) as int, depth as nat) {
            Decoded::End => r matches Ok(None),
            Decoded::Value(v, p) => r matches Ok(Some(f)) && f@ == v && *final(pos) == p,
            Decoded::Fail(k) => r matches Err(e) && e.kind() == k,
        },
        r matches Ok(Some(_)) ==> *old(pos) < *final(pos),
    decreases buffer@.len() - *old(pos), 1int,
{
    let start = *pos;
    if start >= buffer.len() {
        return Ok(None);
    }
    let c = buffer[start];
    if 48u8 <= c && c <= 57u8 {
        let r = decode_string_at(buffer, pos);
        match r {
            Ok(f) => Ok(Some(f)),
            Err(e) => Err(e),
        }
    } else if c == 105u8 {
        match decode_integer_at(buffer, pos) {
            Ok(f) => Ok(Some(f)),
            Err(e) => Err(e),
        }
    } else if c == 108u8 {
        if depth >= MAX_NESTING {
            return Err(structure_error("Nesting too deep"));
        }
        *pos = start + 1;
        match decode_list_at(buffer, pos, depth + 1) {
            Ok(f) => Ok(Some(f)),
            Err(e) => Err(e),
        }
    } else if c == 100u8 {
        if depth >= MAX_NESTING {
            return Err(structure_error("Nesting too deep"));
        }
        *pos = start + 1;
        match decode_dict_at(buffer, pos, depth + 1) {
            Ok(f) => Ok(Some(f)),
            Err(e) => Err(e),
        }
    } else {
        Err(TorrentParserError::UnknownSpecifier(c))
    }
}

/// Reads the items of a list, from just after its `l` marker.
fn decode_list_at(buffer: &Vec<u8>, pos: &mut usize, depth: u64) -> (r: Result<
    Field,
    TorrentParserError,
>)
    requires
        *old(pos) <= buffer.len(),
        depth <= MAX_NESTING,
    ensures
        *final(pos) <= buffer.len(),
        match decode_list(buffer@, *old(pos) as int, seq![], depth as nat) {
            Decoded::Value(v, p) => r matches Ok(f) && f@ == v && *final(pos) == p,
            Decoded::Fail(k) => r matches Err(e) && e.kind() == k,
            Decoded::End => false,
        },
        r is Ok ==> *old(pos) < *final(pos),
    decreases buffer@.len() - *old(pos), 2int,
{
    let start = *pos;
    let mut items: Vec<Field> = Vec::new();
    loop
        invariant
            start <= *pos <= buffer.len(),
            start == *old(pos),
            depth <= MAX_NESTING,
            decode_list(buffer@, start as int, seq![], depth as nat) == decode_list(
                buffer@,
                *pos as int,
                list_model(items@),
                depth as nat,
            ),
        decreases buffer.len() - *pos,
    {
        if *pos >= buffer.len() {
            return Err(structure_error("Unexpected end for list"));
        }
        if buffer[*pos] == 101u8 {
            *pos = *pos + 1;
            return Ok(Field::List(items));
        }
        let before = *pos;
        match decode_value(buffer, pos, depth) {
            Ok(Some(f)) => {
                let ghost prev = items@;
                items.push(f);
                assert(items@.drop_last() =~= prev);
            },
            Ok(None) => {
                return Err(structure_error("Unexpected end for list"));
            },
            Err(e) => {
                return Err(e);
            },
        }
    }
}

/// Reads the entries of a dictionary, from just after its `d` marker.
fn decode_dict_at(buffer: &Vec<u8>, pos: &mut usize, depth: u64) -> (r: Result<
    Field,
    TorrentParserError,
>)
    requires
        *old(pos) <= buffer.len(),
        depth <= MAX_NESTING,
    ensures
        *final(pos) <= buffer.len(),
        match decode_dict(buffer@, *old(pos) as int, Map::empty(), depth as nat) {
            Decoded::Value(v, p) => r matches Ok(f) && f@ == v && *final(pos) == p,
            Decoded::Fail(k) => r matches Err(e) && e.kind() == k,
            Decoded::End => false,
        },
        r is Ok ==> *old(pos) < *final(pos),
    decreases buffer@.len() - *old(pos), 2int,
{
    let start = *pos;
    let mut entries: Vec<(Vec<u8>, Field)> = Vec::new();
    loop
        invariant
            start <= *pos <= buffer.len(),
            start == *old(pos),
            depth <= MAX_NESTING,
            decode_dict(buffer@, start as int, Map::empty(), depth as nat) == decode_dict(
                buffer@,
                *pos as int,
                dict_model(entries@),
                depth as nat,
            ),
        decreases buffer.len() - *pos,
    {
        if *pos >= buffer.len() {
            return Err(structure_error("Unexpected end for dict"));
        }
        if buffer[*pos] == 101u8 {
            *pos = *pos + 1;
            return Ok(Field::Dict(entries));
        }
        let key = match decode_value(buffer, pos, depth) {
            Ok(Some(Field::String(k))) => k,
            Ok(Some(other)) => {
                return Err(type_error("String", other.field_type()));
            },
            Ok(None) => {
                return Err(structure_error("Unexpected end for dict"));
            },
            Err(e) => {
                return Err(e);
            },
        };
        if utf8_string(&key).is_none() {
            return Err(TorrentParserError::InvalidUtf8(key));
        }
        match decode_value(buffer, pos, depth) {
            Ok(Some(value)) => {
                let ghost prev = entries@;
                entries.push((key, value));
                assert(entries@.drop_last() =~= prev);
            },
            Ok(None) => {
                return Err(structure_error("Expected value for dictionary"));
            },
            Err(e) => {
                return Err(e);
            },
        }
    }
}

} // verus!

verus! {

pub(crate) fn bytes_eq(a: &Vec<u8>, b: &[u8]) -> (r: bool)
    ensures
        r == (a@ == b@),
{
    if a.len() != b.len() {
        return false;
    }
    let mut i: usize = 0;
    while i < a.len()
        invariant
            a.len() == b@.len(),
            i <= a.len(),
            forall|j: int| 0 <= j < i ==> a@[j] == b@[j],
        decreases a.len() - i,
    {
        if a[i] != b[i] {
            return false;
        }
        i = i + 1;
    }
    assert(a@ =~= b@);
    true
}

/// The value that a dictionary holds under `key`: the last entry with that key.
pub fn dict_get<'a>(entries: &'a Vec<(Vec<u8>, Field)>, key: &[u8]) -> (r: Option<&'a Field>)
    ensures
        r is Some <==> dict_model(entries@).contains_key(key@),
        r matches Some(f) ==> f@ == dict_model(entries@)[key@],
{
    let mut i: usize = entries.len();
    assert(entries@.subrange(0, i as int) =~= entries@);
    while i > 0
        invariant
            i <= entries.len(),
            dict_model(entries@.subrange(0, i as int)).contains_key(key@) == dict_model(
                entries@,
            ).contains_key(key@),
            dict_model(entries@.subrange(0, i as int)).contains_key(key@) ==> dict_model(
                entries@.subrange(0, i as int),
            )[key@] == dict_model(entries@)[key@],
        decreases i,
    {
        let ghost s = entries@.subrange(0, i as int);
        assert(s.drop_last() =~= entries@.subrange(0, i - 1));
        if bytes_eq(&entries[i - 1].0, key) {
            return Some(&entries[i - 1].1);
        }
        i = i - 1;
    }
    assert(entries@.subrange(0, 0) =~= Seq::<(Vec<u8>, Field)>::empty());
    None
}

/// The marker that precedes the `info` value: the byte string `4:info`.
pub open spec fn info_marker() -> Seq<u8> {
    seq![52u8, 58u8, 105u8, 110u8, 102u8, 111u8]
}

pub open spec fn marker_at(b: Seq<u8>, i: int) -> bool {
    0 <= i && i + 6 <= b.len() && b.subrange(i, i + 6) == info_marker()
}

/// The first position at or after `i` where the marker starts, or the length.
pub open spec fn find_marker(b: Seq<u8>, i: int) -> int
    decreases b.len() - i,
{
    if i < 0 || i + 6 > b.len() {
        b.len() as int
    } else if marker_at(b, i) {
        i
    } else {
        find_marker(b, i + 1)
    }
}

/// The span that the info hash covers: the `info` value that follows the
/// first marker, which must decode as a dictionary, from its `d` up to its
/// closing `e`, that `e` excluded.
pub open spec fn info_span(b: Seq<u8>) -> Option<(int, int)> {
    let m = find_marker(b, 0);
    if m + 6 > b.len() {
        None
    } else {
        match decode(b, m + 6, 0) {
            Decoded::Value(FieldV::Dict(_), q) => Some((m + 6, q - 1)),
            _ => None,
        }
    }
}

/// The info hash of an encoded document, where its span can be found.
pub open spec fn info_hash_of(b: Seq<u8>) -> Option<Seq<u8>> {
    match info_span(b) {
        Some((lo, hi)) => Some(sha1_of(b.subrange(lo, hi))),
        None => None,
    }
}

/// Hashes the bytes of the `info` value as they stand in `bencoded`.
pub fn extract_info_hash(bencoded: &Vec<u8>) -> (r: Result<Vec<u8>, TorrentParserError>)
    ensures
        match info_hash_of(bencoded@) {
            Some(h) => r matches Ok(v) && v@ == h,
            None => r matches Err(e) && e.kind() == ParseFailure::Structure,
        },
        r matches Ok(v) ==> v@.len() == 20,
{
    let marker: [u8; 6] = [52u8, 58u8, 105u8, 110u8, 102u8, 111u8];
    let n = bencoded.len();
    let mut i: usize = 0;
    loop
        invariant
            n == bencoded.len(),
            i <= n,
            marker@ == info_marker(),
            find_marker(bencoded@, 0) == find_marker(bencoded@, i as int),
        ensures
            n == bencoded.len(),
            i + 6 <= n,
            find_marker(bencoded@, 0) == i,
        decreases n - i,
    {
        if n < 6 || i > n - 6 {
            return Err(structure_error("Unexpected end for info"));
        }
        let mut k: usize = 0;
        while k < 6 && bencoded[i + k] == marker[k]
            invariant
                i + 6 <= n == bencoded.len(),
                k <= 6,
                marker@ == info_marker(),
                forall|j: int| 0 <= j < k ==> bencoded@[i + j] == info_marker()[j],
            decreases 6 - k,
        {
            k = k + 1;
        }
        if k == 6 {
            assert(bencoded@.subrange(i as int, i + 6) =~= info_marker());
            break;
        }
        assert(bencoded@.subrange(i as int, i + 6)[k as int] != info_marker()[k as int]);
        i = i + 1;
    }
    let lo = i + 6;
    let mut end: usize = lo;
    match get_field_type(bencoded, &mut end) {
        Ok(Some(Field::Dict(_))) => {},
        _ => {
            return Err(structure_error("Expected a dictionary for info"));
        },
    }
    let e = end - 1;
    let mut span: Vec<u8> = Vec::new();
    let mut k: usize = lo;
    while k < e
        invariant
            lo <= k <= e < n == bencoded.len(),
            span@ == bencoded@.subrange(lo as int, k as int),
        decreases e - k,
    {
        span.push(bencoded[k]);
        assert(span@ =~= bencoded@.subrange(lo as int, k + 1));
        k = k + 1;
    }
    Ok(crate::text::sha1_digest(&span))
}

} // verus!
