use vstd::prelude::*;
use crate::text::chars_to_string;

verus! {

pub open spec fn hex_digit(d: nat) -> char {
    if d < 10 {
        (d + 48) as char
    } else {
        (d + 87) as char
    }
}

/// The lowercase hexadecimal digits of `n`, without leading zeros.
pub open spec fn hex(n: nat) -> Seq<char>
    decreases n,
{
    if n < 16 {
        seq![hex_digit(n)]
    } else {
        hex(n / 16).push(hex_digit(n % 16))
    }
}

fn push_hex(n: u64, out: &mut Vec<char>)
    ensures
        final(out)@ == old(out)@ + hex(n as nat),
    decreases n,
{
    if n >= 16 {
        push_hex(n / 16, out);
    }
    let d = n % 16;
    let c = if d < 10 {
        ((d as u8) + 48u8) as char
    } else {
        ((d as u8) + 87u8) as char
    };
    out.push(c);
    assert(out@ =~= old(out)@ + hex(n as nat));
}

/// The hex digits of a process's id, then those of the time.
pub open spec fn fingerprint(pid: u32, time: u64) -> Seq<char> {
    hex(pid as nat) + hex(time as nat)
}

/// The twelve-character fingerprint: the first twelve of those digits,
/// completed with `0` where there are fewer.
pub open spec fn fingerprint12(pid: u32, time: u64) -> Seq<char> {
    let f = fingerprint(pid, time);
    if f.len() >= 12 {
        f.subrange(0, 12)
    } else {
        f + Seq::new((12 - f.len()) as nat, |i: int| '0')
    }
}

/// The peer id of a client: `-`, the two-character client specifier, the
/// four-character version, `-`, then the twelve-character fingerprint.
pub fn make_peer_id(specifier: &[char; 2], version: &[char; 4], pid: u32, time: u64) -> (r: String)
    ensures
        r@ == seq!['-'] + specifier@ + version@ + seq!['-'] + fingerprint12(pid, time),
        r@.len() == 20,
{
    let mut f: Vec<char> = Vec::new();
    push_hex(pid as u64, &mut f);
    push_hex(time, &mut f);
    assert(f@ =~= fingerprint(pid, time));
    let mut id: Vec<char> = Vec::new();
    id.push('-');
    id.push(specifier[0]);
    id.push(specifier[1]);
    id.push(version[0]);
    id.push(version[1]);
    id.push(version[2]);
    id.push(version[3]);
    id.push('-');
    let ghost head = id@;
    assert(head =~= seq!['-'] + specifier@ + version@ + seq!['-']);
    let mut k: usize = 0;
    while k < 12
        invariant
            k <= 12,
            f@ == fingerprint(pid, time),
            head.len() == 8,
            id@ =~= head + fingerprint12(pid, time).subrange(0, k as int),
        decreases 12 - k,
    {
        if k < f.len() {
            id.push(f[k]);
        } else {
            id.push('0');
        }
        k = k + 1;
    }
    assert(fingerprint12(pid, time).subrange(0, 12) =~= fingerprint12(pid, time));
    chars_to_string(&id)
}

} // verus!
