use vstd::prelude::*;
use vstd::utf8::encode_utf8;
use crate::error::{missing_field, type_error, ParseFailure, TorrentParserError};
use crate::field::{dict_get, dict_model, Field, FieldV};
use crate::text::utf8_string;
use vstd::utf8::{decode_utf8, valid_utf8};

verus! {

/// The bytes under which a dictionary holds the field called `name`.
pub open spec fn key(name: Seq<char>) -> Seq<u8> {
    encode_utf8(name)
}

pub open spec fn text_of(v: FieldV) -> Result<Seq<char>, ParseFailure> {
    match v {
        FieldV::Bytes(b) => if valid_utf8(b) {
            Ok(decode_utf8(b))
        } else {
            Err(ParseFailure::Utf8)
        },
        _ => Err(ParseFailure::WrongType("String"@, v.kind_name())),
    }
}

pub open spec fn int_of(v: FieldV) -> Result<int, ParseFailure> {
    match v {
        FieldV::Integer(i) => Ok(i),
        _ => Err(ParseFailure::WrongType("Integer"@, v.kind_name())),
    }
}

pub open spec fn text_req(d: Map<Seq<u8>, FieldV>, name: Seq<char>) -> Result<Seq<char>, ParseFailure> {
    if !d.contains_key(key(name)) {
        Err(ParseFailure::MissingField(name))
    } else {
        text_of(d[key(name)])
    }
}

pub open spec fn text_opt(d: Map<Seq<u8>, FieldV>, name: Seq<char>) -> Result<
    Option<Seq<char>>,
    ParseFailure,
> {
    if !d.contains_key(key(name)) {
        Ok(None)
    } else {
        match text_of(d[key(name)]) {
            Ok(t) => Ok(Some(t)),
            Err(e) => Err(e),
        }
    }
}

pub open spec fn int_req(d: Map<Seq<u8>, FieldV>, name: Seq<char>) -> Result<int, ParseFailure> {
    if !d.contains_key(key(name)) {
        Err(ParseFailure::MissingField(name))
    } else {
        int_of(d[key(name)])
    }
}

pub open spec fn int_opt(d: Map<Seq<u8>, FieldV>, name: Seq<char>) -> Result<
    Option<int>,
    ParseFailure,
> {
    if !d.contains_key(key(name)) {
        Ok(None)
    } else {
        match int_of(d[key(name)]) {
            Ok(i) => Ok(Some(i)),
            Err(e) => Err(e),
        }
    }
}

/// The texts of a list, or the error of its first element that is no text.
pub open spec fn texts_of(s: Seq<FieldV>) -> Result<Seq<Seq<char>>, ParseFailure>
    decreases s.len(),
{
    if s.len() == 0 {
        Ok(seq![])
    } else {
        match texts_of(s.drop_last()) {
            Ok(ts) => match text_of(s.last()) {
                Ok(t) => Ok(ts.push(t)),
                Err(e) => Err(e),
            },
            Err(e) => Err(e),
        }
    }
}

pub open spec fn strings_view(v: Seq<String>) -> Seq<Seq<char>> {
    v.map_values(|s: String| s@)
}

pub fn text_value(f: &Field) -> (r: Result<String, TorrentParserError>)
    ensures
        match text_of(f@) {
            Ok(t) => r matches Ok(s) && s@ == t,
            Err(k) => r matches Err(e) && e.kind() == k,
        },
{
    match f {
        Field::String(b) => match utf8_string(b) {
            Some(s) => Ok(s),
            None => Err(TorrentParserError::InvalidUtf8(b.clone())),
        },
        _ => Err(type_error("String", f.field_type())),
    }
}

pub fn int_value(f: &Field) -> (r: Result<i64, TorrentParserError>)
    ensures
        match int_of(f@) {
            Ok(i) => r matches Ok(x) && x == i,
            Err(k) => r matches Err(e) && e.kind() == k,
        },
{
    match f {
        Field::Integer(i) => Ok(*i),
        _ => Err(type_error("Integer", f.field_type())),
    }
}

pub fn text_values(items: &Vec<Field>) -> (r: Result<Vec<String>, TorrentParserError>)
    ensures
        match texts_of(crate::field::list_model(items@)) {
            Ok(ts) => r matches Ok(v) && strings_view(v@) == ts,
            Err(k) => r matches Err(e) && e.kind() == k,
        },
{
    let mut out: Vec<String> = Vec::new();
    let mut i: usize = 0;
    proof {
        lemma_list_model_prefix(items@, 0);
        assert(items@.subrange(0, 0) =~= Seq::<Field>::empty());
        assert(strings_view(out@) =~= Seq::<Seq<char>>::empty());
    }
    while i < items.len()
        invariant
            i <= items.len(),
            crate::field::list_model(items@).len() == items.len(),
            texts_of(crate::field::list_model(items@.subrange(0, i as int))) == Ok::<
                Seq<Seq<char>>,
                ParseFailure,
            >(strings_view(out@)),
        decreases items.len() - i,
    {
        proof {
            lemma_list_model_prefix(items@, i as int + 1);
        }
        let t = text_value(&items[i]);
        match t {
            Ok(s) => {
                let ghost prev = out@;
                out.push(s);
                assert(strings_view(out@) =~= strings_view(prev).push(out@.last()@));
            },
            Err(e) => {
                proof {
                    lemma_texts_of_prefix_err(crate::field::list_model(items@), i as int + 1);
                }
                return Err(e);
            },
        }
        i = i + 1;
    }
    assert(items@.subrange(0, i as int) =~= items@);
    proof {
        lemma_list_model_prefix(items@, i as int);
    }
    Ok(out)
}

pub proof fn lemma_list_model_prefix(s: Seq<Field>, n: int)
    requires
        0 <= n <= s.len(),
    ensures
        crate::field::list_model(s.subrange(0, n)) == crate::field::list_model(s).subrange(0, n),
        crate::field::list_model(s).len() == s.len(),
        n > 0 ==> crate::field::list_model(s.subrange(0, n)).last() == s[n - 1]@,
        n > 0 ==> crate::field::list_model(s.subrange(0, n)).drop_last() == crate::field::list_model(s.subrange(0, n - 1)),
    decreases s.len(),
{
    reveal_with_fuel(crate::field::list_model, 2);
    if s.len() > 0 {
        if n == s.len() {
            assert(s.subrange(0, n) =~= s);
        } else {
            lemma_list_model_prefix(s.drop_last(), n);
            assert(s.drop_last().subrange(0, n) =~= s.subrange(0, n));
        }
        lemma_list_model_prefix(s.drop_last(), s.len() - 1);
        assert(crate::field::list_model(s).subrange(0, n) =~= crate::field::list_model(s.drop_last()).push(s.last()@).subrange(0, n));
    }
    if n > 0 {
        assert(s.subrange(0, n).drop_last() =~= s.subrange(0, n - 1));
    }
}

proof fn lemma_texts_of_prefix_err(s: Seq<FieldV>, n: int)
    requires
        0 < n <= s.len(),
        texts_of(s.subrange(0, n)) is Err,
    ensures
        texts_of(s) == texts_of(s.subrange(0, n)),
    decreases s.len(),
{
    if n < s.len() {
        assert(s.drop_last().subrange(0, n) =~= s.subrange(0, n));
        lemma_texts_of_prefix_err(s.drop_last(), n);
    } else {
        assert(s.subrange(0, n) =~= s);
    }
}

pub fn text_field_req(d: &Vec<(Vec<u8>, Field)>, name: &str) -> (r: Result<String, TorrentParserError>)
    ensures
        match text_req(dict_model(d@), name@) {
            Ok(t) => r matches Ok(s) && s@ == t,
            Err(k) => r matches Err(e) && e.kind() == k,
        },
{
    match dict_get(d, name.as_bytes()) {
        Some(f) => text_value(f),
        None => Err(missing_field(name)),
    }
}

pub fn text_field_opt(d: &Vec<(Vec<u8>, Field)>, name: &str) -> (r: Result<
    Option<String>,
    TorrentParserError,
>)
    ensures
        match text_opt(dict_model(d@), name@) {
            Ok(Some(t)) => r matches Ok(Some(s)) && s@ == t,
            Ok(None) => r matches Ok(None),
            Err(k) => r matches Err(e) && e.kind() == k,
        },
{
    match dict_get(d, name.as_bytes()) {
        Some(f) => match text_value(f) {
            Ok(s) => Ok(Some(s)),
            Err(e) => Err(e),
        },
        None => Ok(None),
    }
}

pub fn int_field_req(d: &Vec<(Vec<u8>, Field)>, name: &str) -> (r: Result<i64, TorrentParserError>)
    ensures
        match int_req(dict_model(d@), name@) {
            Ok(i) => r matches Ok(x) && x == i,
            Err(k) => r matches Err(e) && e.kind() == k,
        },
{
    match dict_get(d, name.as_bytes()) {
        Some(f) => int_value(f),
        None => Err(missing_field(name)),
    }
}

pub fn int_field_opt(d: &Vec<(Vec<u8>, Field)>, name: &str) -> (r: Result<
    Option<i64>,
    TorrentParserError,
>)
    ensures
        match int_opt(dict_model(d@), name@) {
            Ok(Some(i)) => r matches Ok(Some(x)) && x == i,
            Ok(None) => r matches Ok(None),
            Err(k) => r matches Err(e) && e.kind() == k,
        },
{
    match dict_get(d, name.as_bytes()) {
        Some(f) => match int_value(f) {
            Ok(i) => Ok(Some(i)),
            Err(e) => Err(e),
        },
        None => Ok(None),
    }
}

} // verus!
