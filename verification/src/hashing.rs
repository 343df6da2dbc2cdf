//! A deterministic short hash over character sequences.
//!
//! Exported documents carry a short hex fingerprint of the subject line, and
//! attachment files carry one of the attachment's filename. The hash is a
//! 64-bit FNV-1a fold rendered as 16 hex digits, of which callers keep a
//! prefix. Everything here is pure, so identical inputs always give
//! identical fingerprints — the property the deduplication check relies on.

use vstd::prelude::*;

verus! {

pub const FNV_OFFSET: u64 = 14695981039346656037;

pub const FNV_PRIME: u64 = 1099511628211;

/// One fold step: xor the character in, multiply by the prime (mod 2^64).
pub open spec fn fold_step(h: u64, c: char) -> u64 {
    (((h ^ (c as u64)) * FNV_PRIME) % 0x1_0000_0000_0000_0000) as u64
}

/// The 64-bit fold of a whole character sequence.
pub open spec fn fold_hash(s: Seq<char>) -> u64
    decreases s.len(),
{
    if s.len() == 0 {
        FNV_OFFSET
    } else {
        fold_step(fold_hash(s.drop_last()), s.last())
    }
}

/// The hex digit character for `d < 16`.
pub open spec fn hex_char(d: u64) -> char {
    if d < 10 {
        ((48 + d) as u32) as char
    } else {
        ((87 + d) as u32) as char
    }
}

/// The 16 hex digits of `h`, most significant first.
pub open spec fn hex_of_u64(h: u64) -> Seq<char> {
    Seq::new(16, |i: int| hex_char((h >> ((60 - 4 * i) as u64)) & 0xF))
}

/// The full 16-digit hex fingerprint of a character sequence.
pub open spec fn full_hash_hex(s: Seq<char>) -> Seq<char> {
    hex_of_u64(fold_hash(s))
}

/// The fingerprint prefix of length `n` that callers embed in names.
pub open spec fn hash_prefix(s: Seq<char>, n: nat) -> Seq<char> {
    full_hash_hex(s).take(n as int)
}

fn hex_char_exec(d: u64) -> (r: char)
    requires
        d < 16,
    ensures
        r == hex_char(d),
{
    if d < 10 {
        crate::text::char_from_code(48 + (d as u32))
    } else {
        crate::text::char_from_code(87 + (d as u32))
    }
}

/// The first `n` hex digits (n <= 16) of the fingerprint of `s`.
pub fn hash_hex_prefix(s: &Vec<char>, n: usize) -> (r: Vec<char>)
    requires
        n <= 16,
    ensures
        r@ == hash_prefix(s@, n as nat),
        r@.len() == n,
{
    let mut h: u64 = FNV_OFFSET;
    let mut i: usize = 0;
    let sl: usize = s.len();
    while i < sl
        invariant
            s@.len() == sl,
            0 <= i <= sl,
            h == fold_hash(s@.take(i as int)),
        decreases sl - i,
    {
        proof {
            assert(s@.take(i + 1).drop_last() =~= s@.take(i as int));
            assert(s@.take(i + 1).last() == s@[i as int]);
        }
        h = (h ^ (s[i] as u64)).wrapping_mul(FNV_PRIME);
        i += 1;
    }
    proof {
        assert(s@.take(sl as int) =~= s@);
    }
    let mut r: Vec<char> = Vec::new();
    let mut j: usize = 0;
    while j < n
        invariant
            n <= 16,
            0 <= j <= n,
            h == fold_hash(s@),
            r@ =~= hex_of_u64(h).take(j as int),
        decreases n - j,
    {
        let shift: u64 = 60 - 4 * (j as u64);
        let d: u64 = (h >> shift) & 0xF;
        assert(d < 16) by (bit_vector)
            requires
                d == (h >> shift) & 0xF,
        ;
        r.push(hex_char_exec(d));
        assert(r@ =~= hex_of_u64(h).take(j + 1));
        j += 1;
    }
    r
}

} // verus!
