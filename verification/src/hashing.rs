//! Stable content hashing and number formatting.
//!
//! Content-addressed identifiers must not depend on a per-process or
//! per-build hash seed, so the crate fixes an explicit algorithm: 64-bit
//! FNV-1a over the characters of a canonical input, printed as lowercase
//! hexadecimal.  Decimal formatting is also here; the advertised address of
//! an executor appends a port number in decimal.

use vstd::prelude::*;

verus! {

pub const FNV_OFFSET: u64 = 0xcbf2_9ce4_8422_2325;

pub const FNV_PRIME: u64 = 0x0000_0100_0000_01b3;

/// One FNV-1a round: fold a character's code point into the running hash.
pub open spec fn fnv1a_step(h: u64, c: char) -> u64 {
    (h ^ (c as u64)).wrapping_mul(FNV_PRIME)
}

/// FNV-1a folded over `s[i..]`, starting from hash state `h`.
pub open spec fn fnv1a_from(s: Seq<char>, i: int, h: u64) -> u64
    decreases s.len() - i,
{
    if i < 0 || i >= s.len() {
        h
    } else {
        fnv1a_from(s, i + 1, fnv1a_step(h, s[i]))
    }
}

/// The 64-bit FNV-1a hash of a character sequence.
pub open spec fn fnv1a(s: Seq<char>) -> u64 {
    fnv1a_from(s, 0, FNV_OFFSET)
}

pub fn fnv1a_exec(v: &Vec<char>) -> (r: u64)
    ensures
        r == fnv1a(v@),
{
    let mut h: u64 = FNV_OFFSET;
    let mut i: usize = 0;
    while i < v.len()
        invariant
            0 <= i <= v.len(),
            fnv1a(v@) == fnv1a_from(v@, i as int, h),
        decreases v.len() - i,
    {
        h = (h ^ (v[i] as u64)).wrapping_mul(FNV_PRIME);
        i = i + 1;
    }
    h
}

/// The lowercase hexadecimal digit for a value below 16.
pub open spec fn hex_digit(d: u64) -> char {
    if d == 0 {
        '0'
    } else if d == 1 {
        '1'
    } else if d == 2 {
        '2'
    } else if d == 3 {
        '3'
    } else if d == 4 {
        '4'
    } else if d == 5 {
        '5'
    } else if d == 6 {
        '6'
    } else if d == 7 {
        '7'
    } else if d == 8 {
        '8'
    } else if d == 9 {
        '9'
    } else if d == 10 {
        'a'
    } else if d == 11 {
        'b'
    } else if d == 12 {
        'c'
    } else if d == 13 {
        'd'
    } else if d == 14 {
        'e'
    } else {
        'f'
    }
}

/// Lowercase hexadecimal rendering of `n`, without leading zeros
/// (`0` renders as `"0"`).
pub open spec fn hex_of(n: u64) -> Seq<char>
    decreases n,
{
    if n < 16 {
        seq![hex_digit(n)]
    } else {
        hex_of(n / 16).push(hex_digit(n % 16))
    }
}

fn hex_digit_exec(d: u64) -> (r: char)
    requires
        d < 16,
    ensures
        r == hex_digit(d),
{
    if d == 0 {
        '0'
    } else if d == 1 {
        '1'
    } else if d == 2 {
        '2'
    } else if d == 3 {
        '3'
    } else if d == 4 {
        '4'
    } else if d == 5 {
        '5'
    } else if d == 6 {
        '6'
    } else if d == 7 {
        '7'
    } else if d == 8 {
        '8'
    } else if d == 9 {
        '9'
    } else if d == 10 {
        'a'
    } else if d == 11 {
        'b'
    } else if d == 12 {
        'c'
    } else if d == 13 {
        'd'
    } else if d == 14 {
        'e'
    } else {
        'f'
    }
}

pub fn push_hex(n: u64, out: &mut Vec<char>)
    ensures
        final(out)@ == old(out)@ + hex_of(n),
    decreases n,
{
    if n < 16 {
        out.push(hex_digit_exec(n));
    } else {
        push_hex(n / 16, out);
        out.push(hex_digit_exec(n % 16));
    }
}

/// The decimal digit for a value below 10.
pub open spec fn dec_digit(d: u64) -> char {
    if d == 0 {
        '0'
    } else if d == 1 {
        '1'
    } else if d == 2 {
        '2'
    } else if d == 3 {
        '3'
    } else if d == 4 {
        '4'
    } else if d == 5 {
        '5'
    } else if d == 6 {
        '6'
    } else if d == 7 {
        '7'
    } else if d == 8 {
        '8'
    } else {
        '9'
    }
}

/// Decimal rendering of `n`, without leading zeros (`0` renders as `"0"`).
pub open spec fn dec_of(n: u64) -> Seq<char>
    decreases n,
{
    if n < 10 {
        seq![dec_digit(n)]
    } else {
        dec_of(n / 10).push(dec_digit(n % 10))
    }
}

fn dec_digit_exec(d: u64) -> (r: char)
    requires
        d < 10,
    ensures
        r == dec_digit(d),
{
    if d == 0 {
        '0'
    } else if d == 1 {
        '1'
    } else if d == 2 {
        '2'
    } else if d == 3 {
        '3'
    } else if d == 4 {
        '4'
    } else if d == 5 {
        '5'
    } else if d == 6 {
        '6'
    } else if d == 7 {
        '7'
    } else if d == 8 {
        '8'
    } else {
        '9'
    }
}

pub fn push_dec(n: u64, out: &mut Vec<char>)
    ensures
        final(out)@ == old(out)@ + dec_of(n),
    decreases n,
{
    if n < 10 {
        out.push(dec_digit_exec(n));
    } else {
        push_dec(n / 10, out);
        out.push(dec_digit_exec(n % 10));
    }
}

} // verus!
