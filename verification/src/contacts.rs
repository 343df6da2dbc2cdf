//! The contacts ledger: addresses accumulated per communication type over
//! one account export, and their rendering as tabular rows.
//!
//! Each type keeps its addresses in first-insertion order without
//! duplicates; an address classified under two types appears once per type.

use vstd::prelude::*;
use crate::classify::{EmailType, find_char_from, split_from, str_views};
use crate::text::{chars_of, string_from_chars, upper_of, uppercase_str};

verus! {

/// Addresses collected per communication type.
#[derive(Debug)]
pub struct ContactsCollector {
    pub direct: Vec<String>,
    pub group: Vec<String>,
    pub newsletter: Vec<String>,
    pub mailing_list: Vec<String>,
    pub unknown: Vec<String>,
}

/// A list holds no duplicate addresses.
pub open spec fn no_dup_views(v: Seq<String>) -> bool {
    forall|i: int, j: int| 0 <= i < j < v.len() ==> str_views(v)[i] != str_views(v)[j]
}

impl ContactsCollector {
    /// Every list of the collector is duplicate-free.
    pub open spec fn wf(&self) -> bool {
        &&& no_dup_views(self.direct@)
        &&& no_dup_views(self.group@)
        &&& no_dup_views(self.newsletter@)
        &&& no_dup_views(self.mailing_list@)
        &&& no_dup_views(self.unknown@)
    }

    /// The list that a type's contacts go to.
    pub open spec fn list_for(&self, t: EmailType) -> Seq<String> {
        match t {
            EmailType::Direct => self.direct@,
            EmailType::Group => self.group@,
            EmailType::Newsletter => self.newsletter@,
            EmailType::MailingList => self.mailing_list@,
            EmailType::Unknown => self.unknown@,
        }
    }

    pub fn new() -> (r: Self)
        ensures
            r.direct@.len() == 0,
            r.group@.len() == 0,
            r.newsletter@.len() == 0,
            r.mailing_list@.len() == 0,
            r.unknown@.len() == 0,
            r.wf(),
    {
        ContactsCollector {
            direct: Vec::new(),
            group: Vec::new(),
            newsletter: Vec::new(),
            mailing_list: Vec::new(),
            unknown: Vec::new(),
        }
    }

    /// Insert a contact into the list for its type; inserting an address
    /// already present leaves the list unchanged.
    pub fn add(&mut self, email_type: &EmailType, contact: String)
        requires
            old(self).wf(),
        ensures
            final(self).wf(),
            str_views(final(self).list_for(*email_type)) == (if str_views(
                old(self).list_for(*email_type),
            ).contains(contact@) {
                str_views(old(self).list_for(*email_type))
            } else {
                str_views(old(self).list_for(*email_type)).push(contact@)
            }),
            forall|t: EmailType| t != *email_type ==> final(self).list_for(t) == old(
                self,
            ).list_for(t),
    {
        match email_type {
            EmailType::Direct => insert_unique(&mut self.direct, contact),
            EmailType::Group => insert_unique(&mut self.group, contact),
            EmailType::Newsletter => insert_unique(&mut self.newsletter, contact),
            EmailType::MailingList => insert_unique(&mut self.mailing_list, contact),
            EmailType::Unknown => insert_unique(&mut self.unknown, contact),
        }
    }
}

impl Default for ContactsCollector {
    fn default() -> (r: Self)
        ensures
            r.direct@.len() == 0,
            r.group@.len() == 0,
            r.newsletter@.len() == 0,
            r.mailing_list@.len() == 0,
            r.unknown@.len() == 0,
            r.wf(),
    {
        ContactsCollector::new()
    }
}

fn insert_unique(v: &mut Vec<String>, s: String)
    requires
        no_dup_views(old(v)@),
    ensures
        no_dup_views(final(v)@),
        str_views(final(v)@) == (if str_views(old(v)@).contains(s@) {
            str_views(old(v)@)
        } else {
            str_views(old(v)@).push(s@)
        }),
{
    let n: usize = v.len();
    let mut i: usize = 0;
    while i < n
        invariant
            v@.len() == n,
            v@ == old(v)@,
            no_dup_views(v@),
            0 <= i <= n,
            forall|j: int| 0 <= j < i ==> str_views(v@)[j] != s@,
        decreases n - i,
    {
        if v[i].eq(&s) {
            assert(str_views(v@)[i as int] == s@);
            assert(str_views(v@).contains(s@));
            assert(v@ == old(v)@);
            assert(no_dup_views(v@));
            return ;
        }
        i += 1;
    }
    assert(forall|j: int| 0 <= j < str_views(v@).len() ==> str_views(v@)[j] != s@);
    assert(!str_views(v@).contains(s@));
    let ghost prev = v@;
    v.push(s);
    proof {
        assert(str_views(v@) =~= str_views(prev).push(s@));
    }
}

/// The local part of an address: everything before the first `@`, or the
/// whole address when there is none.
pub open spec fn local_part(contact: Seq<char>) -> Seq<char> {
    contact.take(find_char_from(contact, 0, '@'))
}

/// Dots replaced by spaces.
pub open spec fn dotted_to_spaces(s: Seq<char>) -> Seq<char> {
    s.map_values(|c: char| if c == '.' { ' ' } else { c })
}

/// The non-empty tokens of a token list, in order.
pub open spec fn nonempty_tokens(ts: Seq<Seq<char>>) -> Seq<Seq<char>>
    decreases ts.len(),
{
    if ts.len() == 0 {
        Seq::empty()
    } else {
        nonempty_tokens(ts.drop_last()) + if ts.last().len() > 0 {
            seq![ts.last()]
        } else {
            Seq::empty()
        }
    }
}

/// A word with its first character uppercased.
pub open spec fn titled(w: Seq<char>) -> Seq<char> {
    if w.len() == 0 {
        w
    } else {
        upper_of(w.take(1)) + w.skip(1)
    }
}

/// Title-cased tokens joined with single spaces.
pub open spec fn join_titled(ts: Seq<Seq<char>>) -> Seq<char>
    decreases ts.len(),
{
    if ts.len() == 0 {
        Seq::empty()
    } else if ts.len() == 1 {
        titled(ts[0])
    } else {
        join_titled(ts.drop_last()) + " "@ + titled(ts.last())
    }
}

/// The display name derived from an address: the local part, dots as
/// spaces, each word title-cased.
pub open spec fn display_name_of(contact: Seq<char>) -> Seq<char> {
    join_titled(nonempty_tokens(split_from(dotted_to_spaces(local_part(contact)), 0, ' ')))
}

/// The views of a list of character vectors.
pub open spec fn vec_views(v: Seq<Vec<char>>) -> Seq<Seq<char>> {
    v.map_values(|x: Vec<char>| x@)
}

pub(crate) fn copy_prefix(h: &Vec<char>, b: usize) -> (r: Vec<char>)
    requires
        b <= h@.len(),
    ensures
        r@ == h@.take(b as int),
{
    let mut r: Vec<char> = Vec::new();
    let mut i: usize = 0;
    while i < b
        invariant
            0 <= i <= b <= h@.len(),
            r@ =~= h@.take(i as int),
        decreases b - i,
    {
        r.push(h[i]);
        assert(r@ =~= h@.take(i + 1));
        i += 1;
    }
    r
}

pub(crate) fn split_exec(s: &Vec<char>, sep: char) -> (r: Vec<Vec<char>>)
    ensures
        vec_views(r@) == split_from(s@, 0, sep),
{
    let n: usize = s.len();
    let mut out: Vec<Vec<char>> = Vec::new();
    let mut pos: usize = 0;
    let mut done = false;
    proof {
        assert(vec_views(out@) =~= Seq::<Seq<char>>::empty());
        assert(Seq::<Seq<char>>::empty() + split_from(s@, 0, sep) =~= split_from(s@, 0, sep));
    }
    while !done
        invariant
            s@.len() == n,
            0 <= pos <= n + 1,
            !done ==> pos <= n,
            !done ==> split_from(s@, 0, sep) =~= vec_views(out@) + split_from(s@, pos as int, sep),
            done ==> vec_views(out@) =~= split_from(s@, 0, sep),
        decreases n + 1 - pos + (if done { 0int } else { 1int }),
    {
        let k = crate::classify::find_char_exec(s, pos, sep);
        proof {
            crate::classify::lemma_find_char_bounds(s@, pos as int, sep);
        }
        let ghost before = out@;
        let ghost ps = split_from(s@, pos as int, sep);
        if k < n {
            let piece = crate::classify::copy_range_chars(s, pos, k);
            out.push(piece);
            proof {
                assert(vec_views(out@) =~= vec_views(before).push(s@.subrange(pos as int, k as int)));
                assert(ps =~= seq![s@.subrange(pos as int, k as int)] + split_from(s@, k + 1, sep));
                assert(vec_views(before) + ps =~= vec_views(out@) + split_from(s@, k + 1, sep));
            }
            pos = k + 1;
        } else {
            let piece = crate::classify::copy_range_chars(s, pos, n);
            out.push(piece);
            done = true;
            proof {
                assert(ps =~= seq![s@.subrange(pos as int, n as int)]);
                assert(vec_views(out@) =~= vec_views(before) + ps);
            }
        }
    }
    out
}

/// Derive the display name for a contact address.
pub fn display_name(contact: &str) -> (r: String)
    ensures
        r@ == display_name_of(contact@),
{
    let cs = chars_of(contact);
    let at = crate::classify::find_char_exec(&cs, 0, '@');
    proof {
        crate::classify::lemma_find_char_bounds(cs@, 0, '@');
    }
    let local = copy_prefix(&cs, if at < cs.len() {
        at
    } else {
        cs.len()
    });
    proof {
        if at >= cs@.len() {
            assert(cs@.take(cs@.len() as int) =~= cs@.take(find_char_from(cs@, 0, '@')));
        }
    }
    let n: usize = local.len();
    let mut dotted: Vec<char> = Vec::new();
    let mut i: usize = 0;
    while i < n
        invariant
            local@.len() == n,
            0 <= i <= n,
            dotted@ =~= dotted_to_spaces(local@).take(i as int),
        decreases n - i,
    {
        let c = local[i];
        if c == '.' {
            dotted.push(' ');
        } else {
            dotted.push(c);
        }
        assert(dotted@ =~= dotted_to_spaces(local@).take(i + 1));
        i += 1;
    }
    proof {
        assert(dotted@ =~= dotted_to_spaces(local@));
    }
    let pieces = split_exec(&dotted, ' ');
    let m: usize = pieces.len();
    let mut out: Vec<char> = Vec::new();
    let mut any = false;
    let mut j: usize = 0;
    proof {
        assert(vec_views(pieces@).take(0) =~= Seq::<Seq<char>>::empty());
        assert(out@ =~= join_titled(nonempty_tokens(vec_views(pieces@).take(0))));
    }
    while j < m
        invariant
            pieces@.len() == m,
            vec_views(pieces@) == split_from(dotted_to_spaces(local_part(contact@)), 0, ' '),
            0 <= j <= m,
            out@ == join_titled(nonempty_tokens(vec_views(pieces@).take(j as int))),
            any == (nonempty_tokens(vec_views(pieces@).take(j as int)).len() > 0),
        decreases m - j,
    {
        let ghost toks = nonempty_tokens(vec_views(pieces@).take(j as int));
        proof {
            assert(vec_views(pieces@).take(j + 1).drop_last() =~= vec_views(pieces@).take(j as int));
            assert(vec_views(pieces@).take(j + 1).last() == pieces@[j as int]@);
        }
        let piece = &pieces[j];
        if piece.len() > 0 {
            let first = copy_prefix(piece, 1);
            let first_s = string_from_chars(&first);
            let up = uppercase_str(first_s.as_str());
            let up_c = chars_of(up.as_str());
            let ghost prev = out@;
            if any {
                out.push(' ');
            }
            let mut uc = up_c;
            out.append(&mut uc);
            let mut rest: Vec<char> = Vec::new();
            let mut k: usize = 1;
            let pl: usize = piece.len();
            while k < pl
                invariant
                    piece@.len() == pl,
                    1 <= k <= pl,
                    rest@ =~= piece@.subrange(1, k as int),
                decreases pl - k,
            {
                rest.push(piece[k]);
                assert(rest@ =~= piece@.subrange(1, k + 1));
                k += 1;
            }
            out.append(&mut rest);
            proof {
                assert(piece@.take(1) =~= first@);
                assert(piece@.skip(1) =~= piece@.subrange(1, piece@.len() as int));
                let t = titled(piece@);
                assert(t == upper_of(piece@.take(1)) + piece@.skip(1));
                let toks2 = nonempty_tokens(vec_views(pieces@).take(j + 1));
                assert(toks2 =~= toks.push(piece@));
                if toks.len() > 0 {
                    assert(toks2.drop_last() =~= toks);
                    assert(out@ =~= prev + " "@ + t) by {
                        reveal_strlit(" ");
                    }
                    assert(out@ =~= join_titled(toks2));
                } else {
                    assert(toks2 =~= seq![piece@]);
                    assert(out@ =~= t);
                    assert(out@ =~= join_titled(toks2));
                }
            }
            any = true;
        } else {
            proof {
                assert(nonempty_tokens(vec_views(pieces@).take(j + 1)) =~= toks);
            }
        }
        j += 1;
    }
    proof {
        assert(vec_views(pieces@).take(m as int) =~= vec_views(pieces@));
    }
    string_from_chars(&out)
}

/// One rendered row for a contact.
pub open spec fn contact_row(contact: Seq<char>, label: Seq<char>, account: Seq<char>) -> Seq<
    Seq<char>,
> {
    seq![
        display_name_of(contact),
        contact,
        label,
        account,
        "Collected from "@ + account + " emails"@,
    ]
}

/// The rows for one category's contacts, in order.
pub open spec fn rows_for(list: Seq<String>, label: Seq<char>, account: Seq<char>) -> Seq<
    Seq<Seq<char>>,
> {
    str_views(list).map_values(|c: Seq<char>| contact_row(c, label, account))
}

/// The views of rendered rows.
pub open spec fn row_views(v: Seq<Vec<String>>) -> Seq<Seq<Seq<char>>> {
    v.map_values(|r: Vec<String>| str_views(r@))
}

/// The header row of the contacts table.
pub open spec fn header_row() -> Seq<Seq<char>> {
    seq!["Name"@, "Email"@, "Type"@, "Source"@, "Notes"@]
}

fn append_rows(
    out: &mut Vec<Vec<String>>,
    list: &Vec<String>,
    label: &str,
    account: &str,
)
    ensures
        row_views(final(out)@) == row_views(old(out)@) + rows_for(list@, label@, account@),
{
    let n: usize = list.len();
    let mut i: usize = 0;
    proof {
        assert(rows_for(list@, label@, account@).take(0) =~= Seq::<Seq<Seq<char>>>::empty());
        assert(row_views(out@) + rows_for(list@, label@, account@).take(0) =~= row_views(out@));
    }
    while i < n
        invariant
            list@.len() == n,
            0 <= i <= n,
            row_views(out@) == row_views(old(out)@) + rows_for(list@, label@, account@).take(
                i as int,
            ),
        decreases n - i,
    {
        let contact = &list[i];
        let name = display_name(contact.as_str());
        let mut note = String::from_str("Collected from ");
        note.append(account);
        note.append(" emails");
        let mut row: Vec<String> = Vec::new();
        row.push(name);
        row.push(contact.clone());
        row.push(String::from_str(label));
        row.push(String::from_str(account));
        row.push(note);
        let ghost prev = out@;
        out.push(row);
        proof {
            assert(str_views(row@) =~= contact_row(contact@, label@, account@));
            assert(row_views(out@) =~= row_views(prev).push(str_views(row@)));
            assert(rows_for(list@, label@, account@).take(i + 1) =~= rows_for(
                list@,
                label@,
                account@,
            ).take(i as int).push(contact_row(list@[i as int]@, label@, account@)));
        }
        i += 1;
    }
    proof {
        assert(rows_for(list@, label@, account@).take(n as int) =~= rows_for(
            list@,
            label@,
            account@,
        ));
    }
}

impl ContactsCollector {
    /// Render the whole ledger as rows: a header, then one row per contact,
    /// category by category in a fixed order.
    pub fn csv_rows(&self, account_name: &str) -> (r: Vec<Vec<String>>)
        ensures
            row_views(r@) == seq![header_row()] + rows_for(self.direct@, "Direct"@, account_name@)
                + rows_for(self.group@, "Group"@, account_name@) + rows_for(
                self.newsletter@,
                "Newsletter"@,
                account_name@,
            ) + rows_for(self.mailing_list@, "Mailing List"@, account_name@) + rows_for(
                self.unknown@,
                "Unknown"@,
                account_name@,
            ),
    {
        let mut out: Vec<Vec<String>> = Vec::new();
        let mut header: Vec<String> = Vec::new();
        header.push(String::from_str("Name"));
        header.push(String::from_str("Email"));
        header.push(String::from_str("Type"));
        header.push(String::from_str("Source"));
        header.push(String::from_str("Notes"));
        proof {
            assert(str_views(header@) =~= header_row());
        }
        out.push(header);
        proof {
            assert(row_views(out@) =~= seq![header_row()]);
        }
        append_rows(&mut out, &self.direct, "Direct", account_name);
        append_rows(&mut out, &self.group, "Group", account_name);
        append_rows(&mut out, &self.newsletter, "Newsletter", account_name);
        append_rows(&mut out, &self.mailing_list, "Mailing List", account_name);
        append_rows(&mut out, &self.unknown, "Unknown", account_name);
        out
    }
}

} // verus!
