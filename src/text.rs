use vstd::prelude::*;
use vstd::utf8::{decode_utf8, valid_utf8};

verus! {

/// Relies on `String::from_utf8`: it succeeds exactly on valid UTF-8, and
/// then holds the characters that the bytes encode.
#[verifier::external_body]
pub(crate) fn utf8_string(b: &Vec<u8>) -> (r: Option<String>)
    ensures
        r is Some <==> valid_utf8(b@),
        r matches Some(s) ==> s@ == decode_utf8(b@),
{
    String::from_utf8(b.clone()).ok()
}

/// The decimal digits of `n`, most significant first, without leading zeros.
pub open spec fn decimal(n: nat) -> Seq<char>
    decreases n,
{
    if n < 10 {
        seq![(n + 48) as char]
    } else {
        decimal(n / 10).push((n % 10 + 48) as char)
    }
}

/// Dotted-quad text of an IPv4 address.
pub open spec fn dotted_quad(a: u8, b: u8, c: u8, d: u8) -> Seq<char> {
    decimal(a as nat) + seq!['.'] + decimal(b as nat) + seq!['.'] + decimal(c as nat) + seq!['.']
        + decimal(d as nat)
}

fn push_decimal(n: u8, out: &mut Vec<char>)
    ensures
        final(out)@ == old(out)@ + decimal(n as nat),
    decreases n,
{
    if n >= 10 {
        push_decimal(n / 10, out);
    }
    out.push(((n % 10) + 48u8) as char);
    assert(out@ =~= old(out)@ + decimal(n as nat));
}

/// The dotted-quad text of an IPv4 address.
pub(crate) fn ipv4_text(a: u8, b: u8, c: u8, d: u8) -> (r: String)
    ensures
        r@ == dotted_quad(a, b, c, d),
{
    let mut v: Vec<char> = Vec::new();
    push_decimal(a, &mut v);
    v.push('.');
    push_decimal(b, &mut v);
    v.push('.');
    push_decimal(c, &mut v);
    v.push('.');
    push_decimal(d, &mut v);
    assert(v@ =~= dotted_quad(a, b, c, d));
    chars_to_string(&v)
}

/// Relies on `String`'s `FromIterator<char>`: the characters in order.
#[verifier::external_body]
pub(crate) fn chars_to_string(v: &Vec<char>) -> (r: String)
    ensures
        r@ == v@,
{
    v.iter().collect()
}

/// The SHA-1 digest of a byte sequence.
pub uninterp spec fn sha1_of(data: Seq<u8>) -> Seq<u8>;

/// Relies on `sha1::Sha1` through `Digest::digest`: a 20-byte digest that
/// depends on the input bytes alone.
#[verifier::external_body]
pub(crate) fn sha1_digest(data: &Vec<u8>) -> (r: Vec<u8>)
    ensures
        r@ == sha1_of(data@),
        r@.len() == 20,
{
    <sha1::Sha1 as sha1::Digest>::digest(data.as_slice()).to_vec()
}

} // verus!
