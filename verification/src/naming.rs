//! Document naming and the on-disk deduplication check.
//!
//! A document's filename carries the day, the sender's and the recipient's
//! short names; a disambiguation counter keeps names unique within a folder.
//! The dedup check matches existing filenames against a wildcard pattern and
//! looks for the subject fingerprint inside the matching files.

use vstd::prelude::*;
use crate::classify::{emails_of, extract_emails};
use crate::contacts::local_part;
use crate::mime::sanitized_filename;
use crate::text::{chars_of, string_from_chars, seq_has};

verus! {

/// The short, filesystem-safe name for an address header: the sanitized
/// local part of its first address, or a sentinel.
pub open spec fn short_name_of(field: Seq<char>) -> Seq<char> {
    let es = emails_of(field);
    if es.len() == 0 {
        "unknown"@
    } else if sanitized_filename(local_part(es[0])).len() == 0 {
        "unknown"@
    } else {
        sanitized_filename(local_part(es[0]))
    }
}

/// Derive the short name used in filenames from an address header value.
pub fn get_short_name(field: &str) -> (r: String)
    ensures
        r@ == short_name_of(field@),
{
    let es = extract_emails(field);
    if es.len() == 0 {
        return String::from_str("unknown");
    }
    let first = chars_of(es[0].as_str());
    let at = crate::classify::find_char_exec(&first, 0, '@');
    proof {
        crate::classify::lemma_find_char_bounds(first@, 0, '@');
    }
    let local = crate::classify::copy_range_chars(&first, 0, if at < first.len() {
        at
    } else {
        first.len()
    });
    proof {
        assert(local@ =~= local_part(first@));
    }
    let safe = crate::mime::sanitize_filename(string_from_chars(&local).as_str());
    if safe.as_str().is_empty() {
        return String::from_str("unknown");
    }
    safe
}

/// Wildcard matching: `*` matches any run of characters, `?` any single
/// character, anything else itself.
pub open spec fn wild_matches(p: Seq<char>, s: Seq<char>) -> bool
    decreases p.len() + s.len(),
{
    if p.len() == 0 {
        s.len() == 0
    } else if p[0] == '*' {
        wild_matches(p.skip(1), s) || (s.len() > 0 && wild_matches(p, s.skip(1)))
    } else if p[0] == '?' {
        s.len() > 0 && wild_matches(p.skip(1), s.skip(1))
    } else {
        s.len() > 0 && s[0] == p[0] && wild_matches(p.skip(1), s.skip(1))
    }
}

/// Whether the pattern matches the whole string.
pub fn wildcard_match(pattern: &Vec<char>, s: &Vec<char>) -> (r: bool)
    ensures
        r == wild_matches(pattern@, s@),
{
    let pn: usize = pattern.len();
    let sn: usize = s.len();
    // Row for pattern suffix i+1: prev[j] == wild_matches(p.skip(i+1), s.skip(j)).
    let mut prev: Vec<bool> = Vec::new();
    let mut j: usize = 0;
    while j < sn
        invariant
            s@.len() == sn,
            0 <= j <= sn,
            prev@.len() == j,
            forall|k: int| 0 <= k < j ==> prev@[k] == wild_matches(Seq::<char>::empty(), s@.skip(k)),
        decreases sn - j,
    {
        prev.push(false);
        assert(s@.skip(j as int).len() > 0);
        j += 1;
    }
    prev.push(true);
    proof {
        assert(s@.skip(sn as int).len() == 0);
        assert(pattern@.skip(pn as int) =~= Seq::<char>::empty());
    }
    let mut i: usize = pn;
    while i > 0
        invariant
            pattern@.len() == pn,
            s@.len() == sn,
            0 <= i <= pn,
            prev@.len() == sn + 1,
            forall|k: int|
                0 <= k <= sn ==> prev@[k] == wild_matches(pattern@.skip(i as int), s@.skip(k)),
        decreases i,
    {
        let pi = i - 1;
        let c = pattern[pi];
        let mut cur: Vec<bool> = Vec::new();
        let mut t: usize = 0;
        while t < sn
            invariant
                s@.len() == sn,
                0 <= t <= sn,
                cur@.len() == t,
            decreases sn - t,
        {
            cur.push(false);
            t += 1;
        }
        cur.push(false);
        // The star case reads the same row one column to the right, so the
        // row is filled right to left.
        let mut j2: usize = sn;
        let mut rowdone = false;
        while !rowdone
            invariant
                pattern@.len() == pn,
                s@.len() == sn,
                0 <= pi < pn,
                c == pattern@[pi as int],
                prev@.len() == sn + 1,
                forall|k: int|
                    0 <= k <= sn ==> prev@[k] == wild_matches(pattern@.skip(pi + 1), s@.skip(k)),
                0 <= j2 <= sn,
                cur@.len() == sn + 1,
                forall|k: int|
                    j2 < k <= sn ==> cur@[k] == wild_matches(pattern@.skip(pi as int), s@.skip(k)),
                rowdone ==> j2 == 0 && (forall|k: int|
                    0 <= k <= sn ==> cur@[k] == wild_matches(pattern@.skip(pi as int), s@.skip(k))),
            decreases j2 + (if rowdone { 0int } else { 1int }),
        {
            let j = j2;
            proof {
                assert(pattern@.skip(pi as int)[0] == pattern@[pi as int]);
                assert(pattern@.skip(pi as int).skip(1) =~= pattern@.skip(pi + 1));
                if j < sn {
                    assert(s@.skip(j as int)[0] == s@[j as int]);
                    assert(s@.skip(j as int).skip(1) =~= s@.skip(j + 1));
                } else {
                    assert(s@.skip(j as int).len() == 0);
                }
            }
            let v: bool = if c == '*' {
                prev[j] || (j < sn && cur[j + 1])
            } else if c == '?' {
                j < sn && prev[j + 1]
            } else {
                j < sn && s[j] == c && prev[j + 1]
            };
            cur[j] = v;
            if j2 == 0 {
                rowdone = true;
            } else {
                j2 -= 1;
            }
        }
        prev = cur;
        i -= 1;
    }
    proof {
        assert(pattern@.skip(0) =~= pattern@);
        assert(s@.skip(0) =~= s@);
    }
    prev[0]
}

/// The wildcard pattern the dedup check matches filenames against.
pub open spec fn dedup_pattern(date: Seq<char>, sender: Seq<char>, recipient: Seq<char>) -> Seq<
    char,
> {
    "email_"@ + date + "_"@ + sender + "*to_"@ + recipient + "*.md"@
}

/// One file of the export directory: its name and its text.
#[derive(Debug)]
pub struct ExistingFile {
    pub name: String,
    pub content: String,
}

/// The name/content views of a directory listing.
pub open spec fn file_views(v: Seq<ExistingFile>) -> Seq<(Seq<char>, Seq<char>)> {
    v.map_values(|f: ExistingFile| (f.name@, f.content@))
}

/// A message was already exported: some file matches the day/participants
/// pattern and holds the subject fingerprint in its text.
pub open spec fn already_exported(
    date: Seq<char>,
    sender: Seq<char>,
    recipient: Seq<char>,
    hash: Seq<char>,
    files: Seq<(Seq<char>, Seq<char>)>,
) -> bool {
    exists|i: int|
        {
            &&& 0 <= i < files.len()
            &&& wild_matches(dedup_pattern(date, sender, recipient), (#[trigger] files[i]).0)
            &&& seq_has(files[i].1, hash)
        }
}

pub(crate) fn append_str_chars(out: &mut Vec<char>, s: &str)
    ensures
        final(out)@ == old(out)@ + s@,
{
    let mut cs = chars_of(s);
    out.append(&mut cs);
}

/// Build the dedup pattern for a day and two short names.
fn build_dedup_pattern(date: &str, sender: &str, recipient: &str) -> (r: Vec<char>)
    ensures
        r@ == dedup_pattern(date@, sender@, recipient@),
{
    let mut p: Vec<char> = Vec::new();
    append_str_chars(&mut p, "email_");
    append_str_chars(&mut p, date);
    append_str_chars(&mut p, "_");
    append_str_chars(&mut p, sender);
    append_str_chars(&mut p, "*to_");
    append_str_chars(&mut p, recipient);
    append_str_chars(&mut p, "*.md");
    proof {
        assert(p@ =~= dedup_pattern(date@, sender@, recipient@));
    }
    p
}

/// Decide from a directory listing whether a message was already exported:
/// a filename matching `email_<date>_<sender>*to_<recipient>*.md` whose
/// text holds the subject fingerprint.
pub fn email_already_exported(
    date_str: &str,
    sender_short: &str,
    recipient_short: &str,
    subject_hash: &str,
    files: &Vec<ExistingFile>,
) -> (r: bool)
    ensures
        r == already_exported(
            date_str@,
            sender_short@,
            recipient_short@,
            subject_hash@,
            file_views(files@),
        ),
{
    let pattern = build_dedup_pattern(date_str, sender_short, recipient_short);
    let hash = chars_of(subject_hash);
    let n: usize = files.len();
    let mut i: usize = 0;
    while i < n
        invariant
            files@.len() == n,
            0 <= i <= n,
            pattern@ == dedup_pattern(date_str@, sender_short@, recipient_short@),
            hash@ == subject_hash@,
            forall|j: int|
                0 <= j < i ==> !(wild_matches(pattern@, (#[trigger] file_views(files@)[j]).0)
                    && seq_has(file_views(files@)[j].1, subject_hash@)),
        decreases n - i,
    {
        let name = chars_of(files[i].name.as_str());
        if wildcard_match(&pattern, &name) {
            let content = chars_of(files[i].content.as_str());
            if crate::text::contains_chars(&content, &hash) {
                assert(file_views(files@)[i as int].0 == files@[i as int].name@);
                return true;
            }
        }
        assert(file_views(files@)[i as int].0 == files@[i as int].name@);
        i += 1;
    }
    false
}

/// The base of a document's filename: day, sender and recipient short names.
pub open spec fn doc_base_name(date: Seq<char>, sender: Seq<char>, recipient: Seq<char>) -> Seq<
    char,
> {
    "email_"@ + date + "_"@ + sender + "_to_"@ + recipient
}

/// Build the base filename for a document.
pub fn build_doc_base_name(date: &str, sender: &str, recipient: &str) -> (r: Vec<char>)
    ensures
        r@ == doc_base_name(date@, sender@, recipient@),
{
    let mut p: Vec<char> = Vec::new();
    append_str_chars(&mut p, "email_");
    append_str_chars(&mut p, date);
    append_str_chars(&mut p, "_");
    append_str_chars(&mut p, sender);
    append_str_chars(&mut p, "_to_");
    append_str_chars(&mut p, recipient);
    proof {
        assert(p@ =~= doc_base_name(date@, sender@, recipient@));
    }
    p
}

/// The i-th candidate filename: `<base>.md`, then `<base>_2.md`,
/// `<base>_3.md`, and so on.
pub open spec fn candidate_name(base: Seq<char>, i: nat) -> Seq<char> {
    if i == 0 {
        base + ".md"@
    } else {
        base + "_"@ + crate::text::dec_digits(i + 1) + ".md"@
    }
}

/// The chosen name is the first candidate not yet present.
pub open spec fn is_first_free_candidate(
    base: Seq<char>,
    names: Seq<Seq<char>>,
    r: Seq<char>,
    i: nat,
) -> bool {
    &&& r == candidate_name(base, i)
    &&& !names.contains(candidate_name(base, i))
    &&& forall|j: nat| j < i ==> names.contains(#[trigger] candidate_name(base, j))
}

proof fn lemma_candidate_injective(base: Seq<char>, a: nat, b: nat)
    requires
        candidate_name(base, a) == candidate_name(base, b),
    ensures
        a == b,
{
    reveal_strlit(".md");
    reveal_strlit("_");
    crate::text::lemma_dec_roundtrip(a + 1);
    crate::text::lemma_dec_roundtrip(b + 1);
    if a == 0 && b != 0 {
        assert(candidate_name(base, a).len() == base.len() + 3);
        assert(candidate_name(base, b).len() >= base.len() + 5);
    } else if a != 0 && b == 0 {
        assert(candidate_name(base, a).len() >= base.len() + 5);
        assert(candidate_name(base, b).len() == base.len() + 3);
    } else if a != 0 && b != 0 {
        let da = crate::text::dec_digits(a + 1);
        let db = crate::text::dec_digits(b + 1);
        assert(candidate_name(base, a).len() == base.len() + 1 + da.len() + 3);
        assert(candidate_name(base, b).len() == base.len() + 1 + db.len() + 3);
        assert(da.len() == db.len());
        assert forall|t: int| 0 <= t < da.len() implies da[t] == db[t] by {
            let ca = candidate_name(base, a);
            assert(ca[base.len() + 1 + t] == da[t]);
            assert(candidate_name(base, b)[base.len() + 1 + t] == db[t]);
        }
        assert(da =~= db);
        crate::text::lemma_dec_digits_injective(a + 1, b + 1);
    }
}

/// Among the first `names.len() + 1` candidates, one is always free.
proof fn lemma_free_candidate_exists(base: Seq<char>, names: Seq<Seq<char>>)
    ensures
        exists|j: int|
            0 <= j <= names.len() && !names.contains(#[trigger] candidate_name(base, j as nat)),
{
    if forall|j: int|
        0 <= j <= names.len() ==> names.contains(#[trigger] candidate_name(base, j as nat)) {
        let cs = Seq::new(names.len() + 1, |j: int| candidate_name(base, j as nat));
        assert forall|x: int, y: int| 0 <= x < y < cs.len() implies cs[x] != cs[y] by {
            if cs[x] == cs[y] {
                lemma_candidate_injective(base, x as nat, y as nat);
            }
        }
        assert(cs.no_duplicates());
        cs.unique_seq_to_set();
        assert(cs.to_set().len() == names.len() + 1);
        assert(cs.to_set().subset_of(names.to_set())) by {
            assert forall|x: Seq<char>| cs.to_set().contains(x) implies names.to_set().contains(
                x,
            ) by {
                let j = choose|j: int| 0 <= j < cs.len() && cs[j] == x;
                assert(names.contains(candidate_name(base, j as nat)));
            }
        }
        names.lemma_cardinality_of_set();
        vstd::seq_lib::seq_to_set_is_finite::<Seq<char>>(names);
        vstd::set_lib::lemma_len_subset(cs.to_set(), names.to_set());
        assert(false);
    }
}

/// Choose the first filename, among `<base>.md`, `<base>_2.md`, ..., that
/// is not in the directory listing.
pub fn find_unique_name(base: &Vec<char>, names: &Vec<String>) -> (r: String)
    requires
        names@.len() < usize::MAX,
    ensures
        exists|i: nat| is_first_free_candidate(base@, crate::classify::str_views(names@), r@, i),
{
    proof {
        lemma_free_candidate_exists(base@, crate::classify::str_views(names@));
    }
    let n: usize = names.len();
    let mut i: usize = 0;
    loop
        invariant
            names@.len() == n,
            n < usize::MAX,
            0 <= i <= n,
            exists|j: int|
                0 <= j <= n && !crate::classify::str_views(names@).contains(
                    #[trigger] candidate_name(base@, j as nat),
                ),
            forall|j: nat|
                j < i ==> crate::classify::str_views(names@).contains(
                    #[trigger] candidate_name(base@, j),
                ),
        decreases n - i,
    {
        let cand = build_candidate(base, i);
        if !contains_name(names, &cand) {
            assert(is_first_free_candidate(
                base@,
                crate::classify::str_views(names@),
                cand@,
                i as nat,
            ));
            return cand;
        }
        proof {
            let j = choose|j: int|
                0 <= j <= n && !crate::classify::str_views(names@).contains(
                    #[trigger] candidate_name(base@, j as nat),
                );
            assert(i < j);
        }
        i += 1;
    }
}

/// Render candidate `i` for a base name.
fn build_candidate(base: &Vec<char>, i: usize) -> (r: String)
    requires
        i < usize::MAX,
    ensures
        r@ == candidate_name(base@, i as nat),
{
    let mut v: Vec<char> = Vec::new();
    let mut b = crate::classify::copy_range_chars(base, 0, base.len());
    proof {
        assert(b@ =~= base@);
    }
    v.append(&mut b);
    if i == 0 {
        append_str_chars(&mut v, ".md");
        proof {
            assert(v@ =~= candidate_name(base@, 0));
        }
    } else {
        append_str_chars(&mut v, "_");
        let mut digits = crate::text::u64_to_chars((i as u64) + 1);
        v.append(&mut digits);
        append_str_chars(&mut v, ".md");
        proof {
            assert(v@ =~= candidate_name(base@, i as nat));
        }
    }
    string_from_chars(&v)
}

fn contains_name(names: &Vec<String>, s: &String) -> (r: bool)
    ensures
        r == crate::classify::str_views(names@).contains(s@),
{
    let n: usize = names.len();
    let mut i: usize = 0;
    while i < n
        invariant
            names@.len() == n,
            0 <= i <= n,
            forall|j: int| 0 <= j < i ==> crate::classify::str_views(names@)[j] != s@,
        decreases n - i,
    {
        if names[i].eq(s) {
            assert(crate::classify::str_views(names@)[i as int] == s@);
            return true;
        }
        i += 1;
    }
    assert(forall|j: int|
        0 <= j < crate::classify::str_views(names@).len() ==> crate::classify::str_views(names@)[j]
            != s@);
    false
}

/// A sequence free of wildcard characters.
pub open spec fn no_wild(s: Seq<char>) -> bool {
    forall|k: int| 0 <= k < s.len() ==> s[k] != '*' && s[k] != '?'
}

proof fn lemma_literal_self(l: Seq<char>)
    requires
        no_wild(l),
    ensures
        wild_matches(l, l),
    decreases l.len(),
{
    if l.len() > 0 {
        assert(forall|k: int| 0 <= k < l.len() - 1 ==> l.skip(1)[k] == l[k + 1]);
        lemma_literal_self(l.skip(1));
    }
}

proof fn lemma_literal_prefix_match(l: Seq<char>, p: Seq<char>, s: Seq<char>)
    requires
        no_wild(l),
        wild_matches(p, s),
    ensures
        wild_matches(l + p, l + s),
    decreases l.len(),
{
    if l.len() == 0 {
        assert(l + p =~= p);
        assert(l + s =~= s);
    } else {
        assert(forall|k: int| 0 <= k < l.len() - 1 ==> l.skip(1)[k] == l[k + 1]);
        lemma_literal_prefix_match(l.skip(1), p, s);
        assert((l + p).skip(1) =~= l.skip(1) + p);
        assert((l + s).skip(1) =~= l.skip(1) + s);
        assert((l + p)[0] == l[0]);
        assert((l + s)[0] == l[0]);
        assert((l + s).len() > 0);
    }
}

proof fn lemma_star_absorbs(p: Seq<char>, x: Seq<char>, s: Seq<char>)
    requires
        wild_matches(p, s),
    ensures
        wild_matches(seq!['*'] + p, x + s),
    decreases x.len(),
{
    let sp = seq!['*'] + p;
    assert(sp[0] == '*');
    assert(sp.skip(1) =~= p);
    if x.len() == 0 {
        assert(x + s =~= s);
    } else {
        lemma_star_absorbs(p, x.skip(1), s);
        assert((x + s).skip(1) =~= x.skip(1) + s);
        assert((x + s).len() > 0);
    }
}

/// Any filename of the form `<base><middle>.md` built from the same day and
/// short names matches the dedup pattern, whatever stands in the middle.
pub proof fn lemma_base_tail_matches_pattern(
    date: Seq<char>,
    sender: Seq<char>,
    recipient: Seq<char>,
    tail: Seq<char>,
)
    requires
        no_wild(date),
        no_wild(sender),
        no_wild(recipient),
    ensures
        wild_matches(
            dedup_pattern(date, sender, recipient),
            doc_base_name(date, sender, recipient) + tail + ".md"@,
        ),
{
    reveal_strlit("email_");
    reveal_strlit("_");
    reveal_strlit("_to_");
    reveal_strlit("to_");
    reveal_strlit("*to_");
    reveal_strlit(".md");
    reveal_strlit("*.md");
    let a = "email_"@ + date + "_"@ + sender;
    let b = "to_"@ + recipient;
    let c = ".md"@;
    assert(no_wild(a));
    assert(no_wild(b));
    assert(no_wild(c));
    lemma_literal_self(c);
    lemma_star_absorbs(c, tail, c);
    assert(wild_matches(seq!['*'] + c, tail + c));
    lemma_literal_prefix_match(b, seq!['*'] + c, tail + c);
    lemma_star_absorbs(b + (seq!['*'] + c), seq!['_'], b + (tail + c));
    assert(wild_matches(seq!['*'] + (b + (seq!['*'] + c)), seq!['_'] + (b + (tail + c))));
    lemma_literal_prefix_match(
        a,
        seq!['*'] + (b + (seq!['*'] + c)),
        seq!['_'] + (b + (tail + c)),
    );
    assert(dedup_pattern(date, sender, recipient) =~= a + (seq!['*'] + (b + (seq!['*'] + c))));
    assert(doc_base_name(date, sender, recipient) + tail + ".md"@ =~= a + (seq!['_'] + (b + (tail
        + c))));
}

/// Every candidate filename for a base matches the base's dedup pattern.
pub proof fn lemma_candidate_matches_pattern(
    date: Seq<char>,
    sender: Seq<char>,
    recipient: Seq<char>,
    i: nat,
)
    requires
        no_wild(date),
        no_wild(sender),
        no_wild(recipient),
    ensures
        wild_matches(
            dedup_pattern(date, sender, recipient),
            candidate_name(doc_base_name(date, sender, recipient), i),
        ),
{
    let base = doc_base_name(date, sender, recipient);
    if i == 0 {
        lemma_base_tail_matches_pattern(date, sender, recipient, Seq::empty());
        assert(base + Seq::<char>::empty() + ".md"@ =~= candidate_name(base, 0));
    } else {
        let tail = "_"@ + crate::text::dec_digits(i + 1);
        lemma_base_tail_matches_pattern(date, sender, recipient, tail);
        assert(base + tail + ".md"@ =~= candidate_name(base, i));
    }
}

/// Short names never carry wildcard characters.
pub proof fn lemma_short_name_no_wild(field: Seq<char>)
    ensures
        no_wild(short_name_of(field)),
{
    reveal_strlit("unknown");
    let es = emails_of(field);
    if es.len() > 0 {
        let s = sanitized_filename(local_part(es[0]));
        assert forall|k: int| 0 <= k < s.len() implies s[k] != '*' && s[k] != '?' by {
            assert(!crate::mime::is_safe_filename_char('*'));
            assert(!crate::mime::is_safe_filename_char('?'));
        }
    }
}

/// Two distinct messages sharing day, sender and recipient but with the
/// first candidate name taken get the disambiguation counter: the second
/// document is named `<base>_2.md`.
pub proof fn lemma_disambiguation_counter(
    base: Seq<char>,
    names: Seq<Seq<char>>,
    r: Seq<char>,
    i: nat,
)
    requires
        is_first_free_candidate(base, names, r, i),
        names.contains(candidate_name(base, 0)),
        !names.contains(candidate_name(base, 1)),
    ensures
        i == 1,
        r == base + "_2.md"@,
{
    if i == 0 {
        assert(false);
    }
    if i >= 2 {
        assert(names.contains(candidate_name(base, 1)));
        assert(false);
    }
    assert(i == 1);
    assert(crate::text::dec_digits(2) =~= seq![crate::text::digit_char(2)]);
    assert(crate::text::digit_char(2) as u32 == 50);
    assert(('2' as u32) == 50);
    assert(crate::text::digit_char(2) == '2');
    reveal_strlit("_");
    reveal_strlit(".md");
    reveal_strlit("_2.md");
    assert(r =~= base + "_2.md"@);
}

} // verus!
