//! Message classification: communication type and the contacts involved.
//!
//! Addresses are pulled out of the From/To/Cc header values, tolerating
//! display-name forms (`Name <a@x>`) and comma-separated lists; the message
//! type follows a fixed decision order in which the group check precedes the
//! newsletter keyword check, which precedes the mailing-list and direct
//! checks.

use vstd::prelude::*;
use crate::mime::{MessageTree, first_header, header_or_empty};
use crate::text::{chars_of, lower_of, lowercase_str, seq_has, trimmed, trim_chars};

verus! {

/// Index of the first occurrence of `c` at or after `from`, or `h.len()`.
pub open spec fn find_char_from(h: Seq<char>, from: int, c: char) -> int
    decreases h.len() - from,
{
    if from < 0 || from >= h.len() {
        h.len() as int
    } else if h[from] == c {
        from
    } else {
        find_char_from(h, from + 1, c)
    }
}

pub proof fn lemma_find_char_bounds(h: Seq<char>, from: int, c: char)
    requires
        0 <= from <= h.len(),
    ensures
        from <= find_char_from(h, from, c) <= h.len(),
    decreases h.len() - from,
{
    if from < h.len() && h[from] != c {
        lemma_find_char_bounds(h, from + 1, c);
    }
}

pub fn find_char_exec(h: &Vec<char>, from: usize, c: char) -> (r: usize)
    requires
        from <= h@.len(),
    ensures
        r == find_char_from(h@, from as int, c),
{
    let n: usize = h.len();
    let mut j: usize = from;
    while j < n
        invariant
            h@.len() == n,
            from <= j <= n,
            find_char_from(h@, from as int, c) == find_char_from(h@, j as int, c),
        decreases n - j,
    {
        if h[j] == c {
            return j;
        }
        j += 1;
    }
    n
}

/// The pieces of `s` split on the separator `c`, starting at `pos`.
pub open spec fn split_from(s: Seq<char>, pos: int, c: char) -> Seq<Seq<char>>
    decreases s.len() - pos,
{
    if pos < 0 || pos > s.len() {
        Seq::empty()
    } else {
        let k = find_char_from(s, pos, c);
        if pos <= k < s.len() {
            seq![s.subrange(pos, k)] + split_from(s, k + 1, c)
        } else {
            seq![s.subrange(pos, s.len() as int)]
        }
    }
}

/// The comma-separated pieces of a header value.
pub open spec fn split_commas(s: Seq<char>) -> Seq<Seq<char>> {
    split_from(s, 0, ',')
}

/// The bare address in one piece: the text between the first `<` and the
/// following `>` when both are present, else the piece trimmed.
pub open spec fn piece_address(p: Seq<char>) -> Seq<char> {
    let lt = find_char_from(p, 0, '<');
    if 0 <= lt < p.len() {
        let gt = find_char_from(p, lt + 1, '>');
        if gt < p.len() {
            p.subrange(lt + 1, gt)
        } else {
            trimmed(p)
        }
    } else {
        trimmed(p)
    }
}

/// The non-empty addresses of a piece list, in order.
pub open spec fn addresses_of_pieces(ps: Seq<Seq<char>>) -> Seq<Seq<char>>
    decreases ps.len(),
{
    if ps.len() == 0 {
        Seq::empty()
    } else {
        (if piece_address(ps[0]).len() > 0 {
            seq![piece_address(ps[0])]
        } else {
            Seq::empty()
        }) + addresses_of_pieces(ps.skip(1))
    }
}

/// All bare addresses a header value yields.
pub open spec fn emails_of(field: Seq<char>) -> Seq<Seq<char>> {
    addresses_of_pieces(split_commas(field))
}

/// The views of a list of strings.
pub open spec fn str_views(v: Seq<String>) -> Seq<Seq<char>> {
    v.map_values(|s: String| s@)
}

pub fn copy_range_chars(h: &Vec<char>, a: usize, b: usize) -> (r: Vec<char>)
    requires
        a <= b <= h@.len(),
    ensures
        r@ == h@.subrange(a as int, b as int),
{
    let mut r: Vec<char> = Vec::new();
    let mut i: usize = a;
    proof {
        assert(r@ =~= h@.subrange(a as int, a as int));
    }
    while i < b
        invariant
            a <= i <= b <= h@.len(),
            r@ == h@.subrange(a as int, i as int),
        decreases b - i,
    {
        r.push(h[i]);
        assert(r@ =~= h@.subrange(a as int, i + 1));
        i += 1;
    }
    r
}

fn address_of_piece_exec(p: &Vec<char>) -> (r: Vec<char>)
    ensures
        r@ == piece_address(p@),
{
    let n: usize = p.len();
    let lt = find_char_exec(p, 0, '<');
    proof {
        lemma_find_char_bounds(p@, 0, '<');
    }
    if lt < n {
        let gt = find_char_exec(p, lt + 1, '>');
        proof {
            lemma_find_char_bounds(p@, lt + 1, '>');
        }
        if gt < n {
            return copy_range_chars(p, lt + 1, gt);
        }
        return trim_chars(p);
    }
    trim_chars(p)
}

/// Extract the bare, non-empty email addresses from a header value.
pub fn extract_emails(field: &str) -> (r: Vec<String>)
    ensures
        str_views(r@) == emails_of(field@),
{
    let s = chars_of(field);
    let n: usize = s.len();
    let mut out: Vec<String> = Vec::new();
    let mut pos: usize = 0;
    proof {
        assert(str_views(out@) =~= Seq::<Seq<char>>::empty());
    }
    let mut done = false;
    while !done
        invariant
            s@.len() == n,
            s@ == field@,
            0 <= pos <= n + 1,
            !done ==> pos <= n,
            !done ==> emails_of(field@) =~= str_views(out@) + addresses_of_pieces(
                split_from(s@, pos as int, ','),
            ),
            done ==> str_views(out@) =~= emails_of(field@),
        decreases n + 1 - pos + (if done { 0int } else { 1int }),
    {
        let k = find_char_exec(&s, pos, ',');
        proof {
            lemma_find_char_bounds(s@, pos as int, ',');
        }
        let piece = copy_range_chars(&s, pos, if k < n {
            k
        } else {
            n
        });
        let addr = address_of_piece_exec(&piece);
        let ghost before = out@;
        if addr.len() > 0 {
            out.push(crate::text::string_from_chars(&addr));
        }
        proof {
            let ps = split_from(s@, pos as int, ',');
            assert(ps[0] == piece@);
            if addr@.len() > 0 {
                assert(str_views(out@) =~= str_views(before) + seq![piece_address(ps[0])]);
            } else {
                assert(str_views(out@) =~= str_views(before));
            }
            if k < n {
                assert(ps.skip(1) =~= split_from(s@, k + 1, ','));
            } else {
                assert(ps =~= seq![s@.subrange(pos as int, n as int)]);
                assert(ps.skip(1) =~= Seq::<Seq<char>>::empty());
            }
            assert((str_views(before) + (if piece_address(ps[0]).len() > 0 {
                seq![piece_address(ps[0])]
            } else {
                Seq::<Seq<char>>::empty()
            })) + addresses_of_pieces(ps.skip(1)) =~= str_views(before) + addresses_of_pieces(ps));
        }
        if k < n {
            pos = k + 1;
        } else {
            done = true;
            proof {
                assert(addresses_of_pieces(Seq::<Seq<char>>::empty()) =~= Seq::<Seq<char>>::empty());
                assert(str_views(out@) + Seq::<Seq<char>>::empty() =~= str_views(out@));
            }
        }
    }
    out
}

/// The communication type of a message.
#[derive(Debug, Clone, PartialEq, Eq, Structural)]
pub enum EmailType {
    Direct,
    Group,
    Newsletter,
    MailingList,
    Unknown,
}

impl EmailType {
    /// The lowercase tag used in reports and score tables.
    pub fn label(&self) -> (r: String)
        ensures
            r@ == match *self {
                EmailType::Direct => "direct"@,
                EmailType::Group => "group"@,
                EmailType::Newsletter => "newsletter"@,
                EmailType::MailingList => "mailing_list"@,
                EmailType::Unknown => "unknown"@,
            },
    {
        match self {
            EmailType::Direct => String::from_str("direct"),
            EmailType::Group => String::from_str("group"),
            EmailType::Newsletter => String::from_str("newsletter"),
            EmailType::MailingList => String::from_str("mailing_list"),
            EmailType::Unknown => String::from_str("unknown"),
        }
    }
}

/// What a message's headers say about it, plus the contacts involved.
#[derive(Debug)]
pub struct EmailAnalysis {
    pub email_type: EmailType,
    pub from: String,
    pub to: Vec<String>,
    pub cc: Vec<String>,
    pub contacts: Vec<String>,
    pub subject: String,
}

/// The case-folded subject contains a newsletter keyword.
pub open spec fn newsletter_subject(subject: Seq<char>) -> bool {
    ||| seq_has(lower_of(subject), "newsletter"@)
    ||| seq_has(lower_of(subject), "bulletin"@)
    ||| seq_has(lower_of(subject), "digest"@)
}

/// The classification rule, in decision order: group, newsletter keyword,
/// mailing-list headers, direct, unknown.
pub open spec fn classified_type(t: MessageTree) -> EmailType {
    let from = emails_of(header_or_empty(t.headers@, "From"@));
    let to = emails_of(header_or_empty(t.headers@, "To"@));
    let cc = emails_of(header_or_empty(t.headers@, "Cc"@));
    let subject = header_or_empty(t.headers@, "Subject"@);
    if to.len() > 1 || cc.len() > 1 {
        EmailType::Group
    } else if newsletter_subject(subject) {
        EmailType::Newsletter
    } else if first_header(t.headers@, "List-Id"@) is Some || first_header(
        t.headers@,
        "List-Unsubscribe"@,
    ) is Some {
        EmailType::MailingList
    } else if from.len() == 1 && to.len() == 1 {
        EmailType::Direct
    } else {
        EmailType::Unknown
    }
}

/// First-occurrence deduplication of a list of addresses.
pub open spec fn dedup_first(s: Seq<Seq<char>>) -> Seq<Seq<char>>
    decreases s.len(),
{
    if s.len() == 0 {
        Seq::empty()
    } else {
        dedup_first(s.drop_last()) + if s.drop_last().contains(s.last()) {
            Seq::empty()
        } else {
            seq![s.last()]
        }
    }
}

/// The deduplicated contacts of a message: From, To and Cc addresses in
/// order of first occurrence.
pub open spec fn contacts_of(t: MessageTree) -> Seq<Seq<char>> {
    dedup_first(
        emails_of(header_or_empty(t.headers@, "From"@)) + emails_of(
            header_or_empty(t.headers@, "To"@),
        ) + emails_of(header_or_empty(t.headers@, "Cc"@)),
    )
}

fn contains_string(v: &Vec<String>, s: &String) -> (r: bool)
    ensures
        r == str_views(v@).contains(s@),
{
    let n: usize = v.len();
    let mut i: usize = 0;
    while i < n
        invariant
            v@.len() == n,
            0 <= i <= n,
            forall|j: int| 0 <= j < i ==> str_views(v@)[j] != s@,
        decreases n - i,
    {
        if v[i].eq(s) {
            assert(str_views(v@)[i as int] == s@);
            return true;
        }
        i += 1;
    }
    assert forall|j: int| 0 <= j < str_views(v@).len() implies str_views(v@)[j] != s@ by {}
    false
}

pub(crate) fn push_dedup(out: &mut Vec<String>, items: &Vec<String>)
    requires
        str_views(old(out)@) == dedup_first(str_views(old(out)@)),
    ensures
        str_views(final(out)@) == dedup_first(str_views(old(out)@) + str_views(items@)),
{
    let n: usize = items.len();
    proof {
        assert(str_views(out@) + str_views(items@).take(0) =~= str_views(out@));
    }
    let mut i: usize = 0;
    while i < n
        invariant
            items@.len() == n,
            0 <= i <= n,
            str_views(out@) == dedup_first(str_views(old(out)@) + str_views(items@).take(i as int)),
        decreases n - i,
    {
        let ghost whole = str_views(old(out)@) + str_views(items@).take(i + 1);
        proof {
            assert(whole.drop_last() =~= str_views(old(out)@) + str_views(items@).take(i as int));
            assert(whole.last() == str_views(items@)[i as int]);
        }
        let present = contains_string(out, &items[i]);
        proof {
            lemma_dedup_contains(whole.drop_last());
            assert(present == whole.drop_last().contains(whole.last()));
        }
        if !present {
            let ghost prev = out@;
            out.push(items[i].clone());
            proof {
                assert(str_views(out@) =~= str_views(prev) + seq![whole.last()]);
            }
        } else {
            proof {
                assert(str_views(out@) + Seq::<Seq<char>>::empty() =~= str_views(out@));
            }
        }
        i += 1;
    }
    proof {
        assert(str_views(items@).take(n as int) =~= str_views(items@));
    }
}

/// A deduplicated list and its source contain the same addresses.
proof fn lemma_dedup_contains(s: Seq<Seq<char>>)
    ensures
        forall|x: Seq<char>| dedup_first(s).contains(x) <==> s.contains(x),
    decreases s.len(),
{
    if s.len() > 0 {
        lemma_dedup_contains(s.drop_last());
        assert forall|x: Seq<char>| s.contains(x) implies dedup_first(s).contains(x) by {
            let i = choose|i: int| 0 <= i < s.len() && s[i] == x;
            if i < s.len() - 1 {
                assert(s.drop_last()[i] == x);
                assert(s.drop_last().contains(x));
                let j = choose|j: int| 0 <= j < dedup_first(s.drop_last()).len() && dedup_first(
                    s.drop_last(),
                )[j] == x;
                assert(dedup_first(s)[j] == x);
            } else {
                if s.drop_last().contains(x) {
                    let j = choose|j: int|
                        0 <= j < dedup_first(s.drop_last()).len() && dedup_first(
                            s.drop_last(),
                        )[j] == x;
                    assert(dedup_first(s)[j] == x);
                } else {
                    assert(dedup_first(s)[dedup_first(s).len() - 1] == x);
                }
            }
        }
        assert forall|x: Seq<char>| dedup_first(s).contains(x) implies s.contains(x) by {
            let j = choose|j: int| 0 <= j < dedup_first(s).len() && dedup_first(s)[j] == x;
            if j < dedup_first(s.drop_last()).len() {
                assert(dedup_first(s.drop_last())[j] == x);
                assert(dedup_first(s.drop_last()).contains(x));
                assert(s.drop_last().contains(x));
                let i = choose|i: int| 0 <= i < s.drop_last().len() && s.drop_last()[i] == x;
                assert(s[i] == x);
            } else {
                assert(x == s.last());
                assert(s[s.len() - 1] == x);
            }
        }
    }
}

proof fn lemma_dedup_idempotent_chain(a: Seq<Seq<char>>, b: Seq<Seq<char>>)
    ensures
        dedup_first(dedup_first(a) + b) == dedup_first(a + b),
    decreases b.len(),
{
    if b.len() == 0 {
        assert(dedup_first(a) + b =~= dedup_first(a));
        assert(a + b =~= a);
        lemma_dedup_of_dedup(a);
    } else {
        lemma_dedup_idempotent_chain(a, b.drop_last());
        assert((dedup_first(a) + b).drop_last() =~= dedup_first(a) + b.drop_last());
        assert((a + b).drop_last() =~= a + b.drop_last());
        assert((dedup_first(a) + b).last() == b.last());
        assert((a + b).last() == b.last());
        lemma_dedup_contains(dedup_first(a) + b.drop_last());
        lemma_dedup_contains(a + b.drop_last());
        assert((dedup_first(a) + b.drop_last()).contains(b.last()) == (a + b.drop_last()).contains(
            b.last(),
        )) by {
            lemma_concat_contains(dedup_first(a), b.drop_last(), b.last());
            lemma_concat_contains(a, b.drop_last(), b.last());
            lemma_dedup_contains(a);
        }
    }
}

/// Membership in a concatenation.
proof fn lemma_concat_contains(a: Seq<Seq<char>>, b: Seq<Seq<char>>, x: Seq<char>)
    ensures
        (a + b).contains(x) <==> (a.contains(x) || b.contains(x)),
{
    if (a + b).contains(x) {
        let i = choose|i: int| 0 <= i < (a + b).len() && (a + b)[i] == x;
        if i < a.len() {
            assert(a[i] == x);
        } else {
            assert(b[i - a.len()] == x);
        }
    }
    if a.contains(x) {
        let i = choose|i: int| 0 <= i < a.len() && a[i] == x;
        assert((a + b)[i] == x);
    }
    if b.contains(x) {
        let i = choose|i: int| 0 <= i < b.len() && b[i] == x;
        assert((a + b)[a.len() + i] == x);
    }
}

/// Deduplication is idempotent.
proof fn lemma_dedup_of_dedup(a: Seq<Seq<char>>)
    ensures
        dedup_first(dedup_first(a)) == dedup_first(a),
    decreases a.len(),
{
    if a.len() > 0 {
        lemma_dedup_of_dedup(a.drop_last());
        lemma_dedup_contains(a.drop_last());
        if a.drop_last().contains(a.last()) {
            assert(dedup_first(a) =~= dedup_first(a.drop_last()));
        } else {
            let d = dedup_first(a.drop_last());
            assert(dedup_first(a) =~= d + seq![a.last()]);
            assert((d + seq![a.last()]).drop_last() =~= d);
            assert(!d.contains(a.last()));
            assert(dedup_first(dedup_first(a)) =~= dedup_first(d) + seq![a.last()]);
        }
    }
}

/// Classify a message and collect its contacts.
pub fn analyze_email_type(t: &MessageTree) -> (r: EmailAnalysis)
    ensures
        r.email_type == classified_type(*t),
        r.from@ == (if emails_of(header_or_empty(t.headers@, "From"@)).len() > 0 {
            emails_of(header_or_empty(t.headers@, "From"@))[0]
        } else {
            Seq::<char>::empty()
        }),
        str_views(r.to@) == emails_of(header_or_empty(t.headers@, "To"@)),
        str_views(r.cc@) == emails_of(header_or_empty(t.headers@, "Cc"@)),
        str_views(r.contacts@) == contacts_of(*t),
        r.subject@ == header_or_empty(t.headers@, "Subject"@),
{
    let from_field = t.header_value_or_empty("From");
    let to_field = t.header_value_or_empty("To");
    let cc_field = t.header_value_or_empty("Cc");
    let subject = t.header_value_or_empty("Subject");

    let from_emails = extract_emails(from_field.as_str());
    let to_emails = extract_emails(to_field.as_str());
    let cc_emails = extract_emails(cc_field.as_str());

    let subject_l = chars_of(lowercase_str(subject.as_str()).as_str());
    let kw_newsletter = chars_of("newsletter");
    let kw_bulletin = chars_of("bulletin");
    let kw_digest = chars_of("digest");

    let email_type = if to_emails.len() > 1 || cc_emails.len() > 1 {
        EmailType::Group
    } else if crate::text::contains_chars(&subject_l, &kw_newsletter) || crate::text::contains_chars(
        &subject_l,
        &kw_bulletin,
    ) || crate::text::contains_chars(&subject_l, &kw_digest) {
        EmailType::Newsletter
    } else if t.get_first_header_value("List-Id").is_some() || t.get_first_header_value(
        "List-Unsubscribe",
    ).is_some() {
        EmailType::MailingList
    } else if from_emails.len() == 1 && to_emails.len() == 1 {
        EmailType::Direct
    } else {
        EmailType::Unknown
    };

    let mut contacts: Vec<String> = Vec::new();
    proof {
        assert(str_views(contacts@) =~= Seq::<Seq<char>>::empty());
        assert(dedup_first(Seq::<Seq<char>>::empty()) =~= Seq::<Seq<char>>::empty());
    }
    push_dedup(&mut contacts, &from_emails);
    proof {
        assert(Seq::<Seq<char>>::empty() + str_views(from_emails@) =~= str_views(from_emails@));
        lemma_dedup_of_dedup(str_views(from_emails@));
    }
    push_dedup(&mut contacts, &to_emails);
    proof {
        lemma_dedup_idempotent_chain(str_views(from_emails@), str_views(to_emails@));
        lemma_dedup_of_dedup(str_views(from_emails@) + str_views(to_emails@));
    }
    push_dedup(&mut contacts, &cc_emails);
    proof {
        lemma_dedup_idempotent_chain(
            str_views(from_emails@) + str_views(to_emails@),
            str_views(cc_emails@),
        );
    }

    let from = if from_emails.len() > 0 {
        from_emails[0].clone()
    } else {
        String::new()
    };

    EmailAnalysis { email_type, from, to: to_emails, cc: cc_emails, contacts, subject }
}

/// A message with more than one To address (or more than one Cc address) is
/// always Group: the group check precedes every other check, including the
/// newsletter keyword check.
pub proof fn lemma_group_precedes_newsletter(t: MessageTree)
    requires
        emails_of(header_or_empty(t.headers@, "To"@)).len() > 1 || emails_of(
            header_or_empty(t.headers@, "Cc"@),
        ).len() > 1,
    ensures
        classified_type(t) == EmailType::Group,
{
}

} // verus!
