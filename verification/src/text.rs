//! Character-sequence utilities shared by the whole library.
//!
//! Exec code works on `Vec<char>`, whose view is the same `Seq<char>` that
//! `String` and `&str` views use, so contracts written here compose directly
//! with contracts about strings.

use vstd::prelude::*;

verus! {

/// Relies on str::chars: it yields the characters of the string in order,
/// which is exactly the string's view.
#[verifier::external_body]
pub fn chars_of(s: &str) -> (r: Vec<char>)
    ensures
        r@ == s@,
{
    s.chars().collect()
}

/// Relies on String's FromIterator over char: collecting characters in order
/// builds the string whose view is that character sequence.
#[verifier::external_body]
pub fn string_from_chars(v: &Vec<char>) -> (r: String)
    ensures
        r@ == v@,
{
    v.iter().copied().collect()
}

/// The needle `n` occurs in `h` starting at index `i`.
pub open spec fn occurs_at(h: Seq<char>, n: Seq<char>, i: int) -> bool {
    0 <= i && i + n.len() <= h.len() && h.subrange(i, i + n.len() as int) == n
}

/// The needle `n` occurs somewhere in `h`.
pub open spec fn seq_has(h: Seq<char>, n: Seq<char>) -> bool {
    exists|i: int| occurs_at(h, n, i)
}

/// Whether `h` matches `n` on the window starting at `i`.
pub fn matches_at(h: &Vec<char>, n: &Vec<char>, i: usize) -> (r: bool)
    requires
        i + n@.len() <= h@.len(),
    ensures
        r == occurs_at(h@, n@, i as int),
{
    let hl = h.len();
    let mut j: usize = 0;
    while j < n.len()
        invariant
            i + n@.len() <= h@.len(),
            h@.len() == hl,
            0 <= j <= n@.len(),
            forall|k: int| 0 <= k < j ==> h@[i + k] == n@[k],
        decreases n@.len() - j,
    {
        if h[i + j] != n[j] {
            assert(h@.subrange(i as int, i + n@.len() as int)[j as int] != n@[j as int]);
            return false;
        }
        j += 1;
    }
    assert(h@.subrange(i as int, i + n@.len() as int) =~= n@);
    true
}

/// Substring search: whether `n` occurs anywhere in `h`.
pub fn contains_chars(h: &Vec<char>, n: &Vec<char>) -> (r: bool)
    ensures
        r == seq_has(h@, n@),
{
    if n.len() > h.len() {
        return false;
    }
    if n.len() == 0 {
        assert(occurs_at(h@, n@, 0)) by {
            assert(h@.subrange(0, 0) =~= n@);
        }
        return true;
    }
    let hl = h.len();
    let mut i: usize = 0;
    while i <= hl - n.len()
        invariant
            1 <= n@.len() <= h@.len(),
            h@.len() == hl,
            0 <= i <= h@.len() - n@.len() + 1,
            forall|k: int| 0 <= k < i ==> !occurs_at(h@, n@, k),
        decreases h@.len() - n@.len() - i + 1,
    {
        if matches_at(h, n, i) {
            return true;
        }
        i += 1;
    }
    false
}

/// `s` begins with `p`.
pub open spec fn has_prefix(s: Seq<char>, p: Seq<char>) -> bool {
    p.len() <= s.len() && s.subrange(0, p.len() as int) == p
}

/// `s` ends with `p`.
pub open spec fn has_suffix(s: Seq<char>, p: Seq<char>) -> bool {
    p.len() <= s.len() && s.subrange(s.len() - p.len(), s.len() as int) == p
}

pub fn starts_with_chars(s: &Vec<char>, p: &Vec<char>) -> (r: bool)
    ensures
        r == has_prefix(s@, p@),
{
    if p.len() > s.len() {
        return false;
    }
    matches_at(s, p, 0)
}

pub fn ends_with_chars(s: &Vec<char>, p: &Vec<char>) -> (r: bool)
    ensures
        r == has_suffix(s@, p@),
{
    if p.len() > s.len() {
        return false;
    }
    let start = s.len() - p.len();
    let r = matches_at(s, p, start);
    assert(occurs_at(s@, p@, start as int) == has_suffix(s@, p@));
    r
}

/// What str::to_lowercase returns: a function of the characters alone.
pub uninterp spec fn lower_of(s: Seq<char>) -> Seq<char>;

/// Relies on str::to_lowercase: the result depends on the characters alone,
/// and an empty string stays empty.
#[verifier::external_body]
pub fn lowercase_str(s: &str) -> (r: String)
    ensures
        r@ == lower_of(s@),
        s@.len() == 0 ==> r@.len() == 0,
{
    s.to_lowercase()
}

/// What str::to_uppercase returns: a function of the characters alone.
pub uninterp spec fn upper_of(s: Seq<char>) -> Seq<char>;

/// Relies on str::to_uppercase: the result depends on the characters alone,
/// and an empty string stays empty.
#[verifier::external_body]
pub fn uppercase_str(s: &str) -> (r: String)
    ensures
        r@ == upper_of(s@),
        s@.len() == 0 ==> r@.len() == 0,
{
    s.to_uppercase()
}

/// Equality of two character vectors.
pub fn eq_chars(a: &Vec<char>, b: &Vec<char>) -> (r: bool)
    ensures
        r == (a@ == b@),
{
    if a.len() != b.len() {
        return false;
    }
    let n: usize = a.len();
    let mut i: usize = 0;
    while i < n
        invariant
            a@.len() == n,
            b@.len() == n,
            0 <= i <= n,
            forall|k: int| 0 <= k < i ==> a@[k] == b@[k],
        decreases n - i,
    {
        if a[i] != b[i] {
            return false;
        }
        i += 1;
    }
    assert(a@ =~= b@);
    true
}

/// ASCII lowering of one character; other characters are unchanged.
pub open spec fn lower_ascii_char(c: char) -> char {
    if 'A' <= c && c <= 'Z' {
        ((c as u32) + 32) as char
    } else {
        c
    }
}

/// ASCII lowering of a character sequence.
pub open spec fn lower_ascii(s: Seq<char>) -> Seq<char> {
    s.map_values(|c: char| lower_ascii_char(c))
}

pub fn ascii_lower_char(c: char) -> (r: char)
    ensures
        r == lower_ascii_char(c),
{
    if 'A' <= c && c <= 'Z' {
        let u: u32 = (c as u32) + 32;
        char_from_code(u)
    } else {
        c
    }
}

/// Relies on char::from_u32: for a valid Unicode scalar value it returns the
/// character with that code, which is what the cast means in specifications.
#[verifier::external_body]
pub(crate) fn char_from_code(u: u32) -> (r: char)
    requires
        u < 0xD800 || (0xE000 <= u && u < 0x11_0000),
    ensures
        r == (u as char),
{
    char::from_u32(u).unwrap_or('\u{FFFD}')
}

/// ASCII case-insensitive equality, as str::eq_ignore_ascii_case defines it.
pub fn eq_ignore_ascii_case_chars(a: &Vec<char>, b: &Vec<char>) -> (r: bool)
    ensures
        r == (lower_ascii(a@) == lower_ascii(b@)),
{
    if a.len() != b.len() {
        assert(lower_ascii(a@).len() != lower_ascii(b@).len());
        return false;
    }
    let n: usize = a.len();
    let mut i: usize = 0;
    while i < n
        invariant
            a@.len() == n,
            b@.len() == n,
            0 <= i <= n,
            forall|k: int| 0 <= k < i ==> lower_ascii(a@)[k] == lower_ascii(b@)[k],
        decreases n - i,
    {
        let ca = ascii_lower_char(a[i]);
        let cb = ascii_lower_char(b[i]);
        if ca != cb {
            assert(lower_ascii(a@)[i as int] != lower_ascii(b@)[i as int]);
            return false;
        }
        i += 1;
    }
    assert(lower_ascii(a@) =~= lower_ascii(b@));
    true
}

/// Whitespace for the purposes of header-field trimming.
pub open spec fn is_wsp(c: char) -> bool {
    c == ' ' || c == '\t' || c == '\r' || c == '\n'
}

pub fn is_wsp_char(c: char) -> (r: bool)
    ensures
        r == is_wsp(c),
{
    c == ' ' || c == '\t' || c == '\r' || c == '\n'
}

/// Index of the first non-whitespace character, or `s.len()` if all are.
pub open spec fn ws_start(s: Seq<char>) -> int
    decreases s.len(),
{
    if s.len() == 0 {
        0
    } else if is_wsp(s[0]) {
        1 + ws_start(s.skip(1))
    } else {
        0
    }
}

/// Index one past the last non-whitespace character, or 0 if all are.
pub open spec fn ws_end(s: Seq<char>) -> int
    decreases s.len(),
{
    if s.len() == 0 {
        0
    } else if is_wsp(s.last()) {
        ws_end(s.drop_last())
    } else {
        s.len() as int
    }
}

/// The trimmed form of `s`: both ends stripped of whitespace.
pub open spec fn trimmed(s: Seq<char>) -> Seq<char> {
    if ws_start(s) <= ws_end(s) {
        s.subrange(ws_start(s), ws_end(s))
    } else {
        Seq::empty()
    }
}

proof fn lemma_ws_start_bounds(s: Seq<char>)
    ensures
        0 <= ws_start(s) <= s.len(),
        forall|k: int| 0 <= k < ws_start(s) ==> is_wsp(s[k]),
        ws_start(s) < s.len() ==> !is_wsp(s[ws_start(s)]),
    decreases s.len(),
{
    if s.len() > 0 && is_wsp(s[0]) {
        lemma_ws_start_bounds(s.skip(1));
        assert forall|k: int| 0 <= k < ws_start(s) implies is_wsp(s[k]) by {
            if k > 0 {
                assert(s.skip(1)[k - 1] == s[k]);
            }
        }
        if ws_start(s) < s.len() {
            assert(s.skip(1)[ws_start(s) - 1] == s[ws_start(s)]);
        }
    }
}

proof fn lemma_ws_end_bounds(s: Seq<char>)
    ensures
        0 <= ws_end(s) <= s.len(),
        forall|k: int| ws_end(s) <= k < s.len() ==> is_wsp(s[k]),
        ws_end(s) > 0 ==> !is_wsp(s[ws_end(s) - 1]),
    decreases s.len(),
{
    if s.len() > 0 && is_wsp(s.last()) {
        lemma_ws_end_bounds(s.drop_last());
        assert forall|k: int| ws_end(s) <= k < s.len() implies is_wsp(s[k]) by {
            if k < s.len() - 1 {
                assert(s.drop_last()[k] == s[k]);
            }
        }
        if ws_end(s) > 0 {
            assert(s.drop_last()[ws_end(s) - 1] == s[ws_end(s) - 1]);
        }
    }
}

/// Strip whitespace from both ends.
pub fn trim_chars(s: &Vec<char>) -> (r: Vec<char>)
    ensures
        r@ == trimmed(s@),
{
    proof {
        lemma_ws_start_bounds(s@);
        lemma_ws_end_bounds(s@);
    }
    let n: usize = s.len();
    let mut a: usize = 0;
    while a < n && is_wsp_char(s[a])
        invariant
            s@.len() == n,
            0 <= a <= n,
            forall|k: int| 0 <= k < a ==> is_wsp(s@[k]),
            a <= ws_start(s@),
        decreases n - a,
    {
        proof {
            lemma_ws_start_bounds(s@);
        }
        a += 1;
    }
    proof {
        lemma_ws_start_bounds(s@);
        assert(a == ws_start(s@));
    }
    let mut b: usize = n;
    while b > a && is_wsp_char(s[b - 1])
        invariant
            s@.len() == n,
            a <= b <= n,
            a == ws_start(s@),
            forall|k: int| b <= k < n ==> is_wsp(s@[k]),
            ws_end(s@) <= b || b == n,
            ws_end(s@) <= b || ws_end(s@) <= n,
        decreases b,
    {
        proof {
            lemma_ws_end_bounds(s@);
        }
        b -= 1;
    }
    proof {
        lemma_ws_end_bounds(s@);
        if b > a {
            assert(!is_wsp(s@[b - 1]));
            assert(ws_end(s@) >= b);
            assert(ws_end(s@) <= b);
        }
    }
    let mut r: Vec<char> = Vec::new();
    let mut i: usize = a;
    while i < b
        invariant
            s@.len() == n,
            a <= i <= b <= n,
            r@ == s@.subrange(a as int, i as int),
        decreases b - i,
    {
        r.push(s[i]);
        assert(r@ =~= s@.subrange(a as int, i + 1));
        i += 1;
    }
    proof {
        if b > a {
            assert(r@ =~= trimmed(s@));
        } else {
            assert(r@ =~= trimmed(s@));
        }
    }
    r
}

/// The decimal digit character for `d < 10`.
pub open spec fn digit_char(d: nat) -> char {
    ((48 + d) as u32) as char
}

/// The decimal representation of `n`, most significant digit first.
pub open spec fn dec_digits(n: nat) -> Seq<char>
    decreases n,
{
    if n < 10 {
        seq![digit_char(n)]
    } else {
        dec_digits(n / 10).push(digit_char(n % 10))
    }
}

fn digit_char_exec(d: u64) -> (r: char)
    requires
        d < 10,
    ensures
        r == digit_char(d as nat),
{
    let u: u32 = 48 + (d as u32);
    char_from_code(u)
}

/// Render `n` in decimal.
pub fn u64_to_chars(n: u64) -> (r: Vec<char>)
    ensures
        r@ == dec_digits(n as nat),
    decreases n,
{
    if n < 10 {
        let mut v: Vec<char> = Vec::new();
        v.push(digit_char_exec(n));
        assert(v@ =~= dec_digits(n as nat));
        v
    } else {
        let mut v = u64_to_chars(n / 10);
        v.push(digit_char_exec(n % 10));
        assert(v@ =~= dec_digits(n as nat));
        v
    }
}

/// The numeric value of a digit character (meaningful for '0'..'9').
pub open spec fn digit_val(c: char) -> nat {
    if '0' <= c && c <= '9' {
        (c as u32 - 48) as nat
    } else {
        0
    }
}

pub open spec fn is_digit(c: char) -> bool {
    '0' <= c && c <= '9'
}

pub open spec fn all_digits(s: Seq<char>) -> bool {
    forall|k: int| 0 <= k < s.len() ==> is_digit(s[k])
}

/// The number a digit string denotes.
pub open spec fn dec_value(s: Seq<char>) -> nat
    decreases s.len(),
{
    if s.len() == 0 {
        0
    } else {
        dec_value(s.drop_last()) * 10 + digit_val(s.last())
    }
}

/// Reading back the decimal rendering of `n` gives `n`.
pub proof fn lemma_dec_roundtrip(n: nat)
    ensures
        dec_value(dec_digits(n)) == n,
        dec_digits(n).len() >= 1,
        all_digits(dec_digits(n)),
    decreases n,
{
    if n < 10 {
        let s = dec_digits(n);
        assert(s =~= seq![digit_char(n)]);
        assert(s.last() == digit_char(n));
        assert(s.drop_last() =~= Seq::<char>::empty());
        assert(dec_value(s.drop_last()) == 0);
        assert(('0' as u32) == 48 && ('9' as u32) == 57);
        assert(digit_char(n) as u32 == 48 + n);
        assert(digit_val(digit_char(n)) == n);
        assert(dec_value(s) == dec_value(s.drop_last()) * 10 + digit_val(s.last()));
    } else {
        lemma_dec_roundtrip(n / 10);
        let s = dec_digits(n / 10);
        assert(s.push(digit_char(n % 10)).drop_last() =~= s);
        assert(digit_val(digit_char(n % 10)) == n % 10);
        assert(dec_value(dec_digits(n)) == dec_value(s) * 10 + n % 10);
        assert((n / 10) * 10 + n % 10 == n) by {
            vstd::arithmetic::div_mod::lemma_fundamental_div_mod(n as int, 10);
        }
    }
}

proof fn lemma_dec_value_extend(s: Seq<char>, i: int)
    requires
        0 <= i < s.len(),
    ensures
        dec_value(s.take(i + 1)) == dec_value(s.take(i)) * 10 + digit_val(s[i]),
{
    assert(s.take(i + 1).drop_last() =~= s.take(i));
    assert(s.take(i + 1).last() == s[i]);
}

proof fn lemma_dec_value_monotone(s: Seq<char>, i: int)
    requires
        0 <= i <= s.len(),
    ensures
        dec_value(s) >= dec_value(s.take(i)),
    decreases s.len() - i,
{
    if i < s.len() {
        lemma_dec_value_extend(s, i);
        lemma_dec_value_monotone(s, i + 1);
    } else {
        assert(s.take(i) =~= s);
    }
}

/// What a digit string denotes as a port number, when it is one.
pub open spec fn parsed_u16(s: Seq<char>) -> Option<u16> {
    if s.len() > 0 && all_digits(s) && dec_value(s) <= 65535 {
        Some(dec_value(s) as u16)
    } else {
        None
    }
}

/// Parse a decimal port number; anything but digits in range yields None.
pub fn parse_u16_chars(v: &Vec<char>) -> (r: Option<u16>)
    ensures
        r == parsed_u16(v@),
{
    let n: usize = v.len();
    if n == 0 {
        return None;
    }
    let mut acc: u32 = 0;
    let mut i: usize = 0;
    proof {
        assert(dec_value(v@.take(0)) == 0);
    }
    while i < n
        invariant
            v@.len() == n,
            0 <= i <= n,
            acc == dec_value(v@.take(i as int)),
            acc <= 65535,
            forall|k: int| 0 <= k < i ==> is_digit(v@[k]),
        decreases n - i,
    {
        let c = v[i];
        if !('0' <= c && c <= '9') {
            assert(!is_digit(v@[i as int]));
            assert(!all_digits(v@));
            return None;
        }
        let d: u32 = (c as u32) - 48;
        proof {
            assert(digit_val(v@[i as int]) == d);
            lemma_dec_value_extend(v@, i as int);
        }
        let acc2: u32 = acc * 10 + d;
        if acc2 > 65535 {
            proof {
                lemma_dec_value_monotone(v@, i + 1);
            }
            return None;
        }
        acc = acc2;
        i += 1;
    }
    proof {
        assert(v@.take(n as int) =~= v@);
        assert(all_digits(v@));
    }
    Some(acc as u16)
}

/// Decimal renderings are injective: distinct numbers render distinctly.
pub proof fn lemma_dec_digits_injective(a: nat, b: nat)
    requires
        dec_digits(a) == dec_digits(b),
    ensures
        a == b,
{
    lemma_dec_roundtrip(a);
    lemma_dec_roundtrip(b);
}

} // verus!
