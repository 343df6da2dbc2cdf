//! Assembly of one exported document: metadata block, normalized body and
//! attachment list, plus the quote-depth limit on the body.

use vstd::prelude::*;
use crate::classify::{split_from, str_views};
use crate::contacts::{split_exec, vec_views};
use crate::text::{chars_of, string_from_chars};

verus! {

/// Line-break normalization from position `i`, with `run` newlines already
/// emitted in a row: carriage returns vanish, and a run of blank lines is
/// cut down to one (two newlines in a row).
pub open spec fn norm_from(s: Seq<char>, i: int, run: int) -> Seq<char>
    decreases s.len() - i,
{
    if i < 0 || i >= s.len() {
        Seq::empty()
    } else if s[i] == '\r' {
        norm_from(s, i + 1, run)
    } else if s[i] == '\n' {
        if run >= 2 {
            norm_from(s, i + 1, run)
        } else {
            seq!['\n'] + norm_from(s, i + 1, run + 1)
        }
    } else {
        seq![s[i]] + norm_from(s, i + 1, 0)
    }
}

/// The normalized form of a body: no carriage returns, no more than one
/// blank line in a row.
pub open spec fn normalized_breaks(s: Seq<char>) -> Seq<char> {
    norm_from(s, 0, 0)
}

/// Normalize line breaks in a body string.
pub fn normalize_line_breaks(body: &str) -> (r: String)
    ensures
        r@ == normalized_breaks(body@),
{
    let s = chars_of(body);
    let n: usize = s.len();
    let mut out: Vec<char> = Vec::new();
    let mut run: usize = 0;
    let mut i: usize = 0;
    proof {
        assert(out@ + norm_from(s@, 0, 0) =~= norm_from(s@, 0, 0));
    }
    while i < n
        invariant
            s@.len() == n,
            s@ == body@,
            0 <= i <= n,
            0 <= run <= 2,
            normalized_breaks(body@) == out@ + norm_from(s@, i as int, run as int),
        decreases n - i,
    {
        let c = s[i];
        if c == '\r' {
            // dropped
        } else if c == '\n' {
            if run < 2 {
                out.push('\n');
                run += 1;
                proof {
                    assert(out@ =~= out@.drop_last() + seq!['\n']);
                    assert(out@.drop_last() + (seq!['\n'] + norm_from(s@, i + 1, run as int)) =~= out@
                        + norm_from(s@, i + 1, run as int));
                }
            }
        } else {
            out.push(c);
            run = 0;
            proof {
                assert(out@ =~= out@.drop_last() + seq![s@[i as int]]);
                assert(out@.drop_last() + (seq![s@[i as int]] + norm_from(s@, i + 1, 0)) =~= out@
                    + norm_from(s@, i + 1, 0));
            }
        }
        i += 1;
    }
    proof {
        assert(out@ + Seq::<char>::empty() =~= out@);
    }
    string_from_chars(&out)
}

/// The quote depth of a line: its leading `>` characters.
pub open spec fn leading_gt(p: Seq<char>) -> int
    decreases p.len(),
{
    if p.len() == 0 {
        0
    } else if p[0] == '>' {
        1 + leading_gt(p.skip(1))
    } else {
        0
    }
}

/// The lines kept by the quote-depth limit, in order.
pub open spec fn kept_lines(ts: Seq<Seq<char>>, depth: int) -> Seq<Seq<char>>
    decreases ts.len(),
{
    if ts.len() == 0 {
        Seq::empty()
    } else {
        kept_lines(ts.drop_last(), depth) + if leading_gt(ts.last()) <= depth {
            seq![ts.last()]
        } else {
            Seq::empty()
        }
    }
}

/// Lines joined back with newlines.
pub open spec fn join_lines(ts: Seq<Seq<char>>) -> Seq<char>
    decreases ts.len(),
{
    if ts.len() == 0 {
        Seq::empty()
    } else if ts.len() == 1 {
        ts[0]
    } else {
        join_lines(ts.drop_last()) + "\n"@ + ts.last()
    }
}

/// A body with quoted lines deeper than `depth` removed.
pub open spec fn quote_limited(s: Seq<char>, depth: int) -> Seq<char> {
    join_lines(kept_lines(split_from(s, 0, '\n'), depth))
}

fn leading_gt_exec(p: &Vec<char>) -> (r: usize)
    ensures
        r == leading_gt(p@),
{
    let n: usize = p.len();
    proof {
        assert(p@.skip(0) =~= p@);
    }
    let mut i: usize = 0;
    while i < n && p[i] == '>'
        invariant
            p@.len() == n,
            0 <= i <= n,
            leading_gt(p@) == i + leading_gt(p@.skip(i as int)),
            forall|k: int| 0 <= k < i ==> p@[k] == '>',
        decreases n - i,
    {
        proof {
            assert(p@.skip(i as int)[0] == p@[i as int]);
            assert(p@.skip(i as int).skip(1) =~= p@.skip(i + 1));
        }
        i += 1;
    }
    proof {
        if i < n {
            assert(p@.skip(i as int)[0] == p@[i as int]);
            assert(leading_gt(p@.skip(i as int)) == 0);
        } else {
            assert(p@.skip(i as int).len() == 0);
        }
    }
    i
}

/// Remove every line quoted deeper than `depth`.
pub fn limit_quote_depth(body: &str, depth: usize) -> (r: String)
    ensures
        r@ == quote_limited(body@, depth as int),
{
    let s = chars_of(body);
    let lines = split_exec(&s, '\n');
    let m: usize = lines.len();
    let mut out: Vec<char> = Vec::new();
    let mut any = false;
    let mut j: usize = 0;
    proof {
        assert(vec_views(lines@).take(0) =~= Seq::<Seq<char>>::empty());
        assert(out@ =~= join_lines(kept_lines(vec_views(lines@).take(0), depth as int)));
    }
    while j < m
        invariant
            lines@.len() == m,
            vec_views(lines@) == split_from(body@, 0, '\n'),
            0 <= j <= m,
            out@ == join_lines(kept_lines(vec_views(lines@).take(j as int), depth as int)),
            any == (kept_lines(vec_views(lines@).take(j as int), depth as int).len() > 0),
        decreases m - j,
    {
        let ghost kept = kept_lines(vec_views(lines@).take(j as int), depth as int);
        proof {
            assert(vec_views(lines@).take(j + 1).drop_last() =~= vec_views(lines@).take(j as int));
            assert(vec_views(lines@).take(j + 1).last() == lines@[j as int]@);
        }
        let line = &lines[j];
        let gt = leading_gt_exec(line);
        if gt <= depth {
            let ghost prev = out@;
            if any {
                out.push('\n');
            }
            let mut lc = crate::classify::copy_range_chars(line, 0, line.len());
            proof {
                assert(lc@ =~= line@);
            }
            out.append(&mut lc);
            proof {
                let kept2 = kept_lines(vec_views(lines@).take(j + 1), depth as int);
                assert(kept2 =~= kept.push(line@));
                if kept.len() > 0 {
                    assert(kept2.drop_last() =~= kept);
                    assert(out@ =~= prev + "\n"@ + line@) by {
                        reveal_strlit("\n");
                    }
                    assert(out@ =~= join_lines(kept2));
                } else {
                    assert(kept2 =~= seq![line@]);
                    assert(out@ =~= line@);
                    assert(out@ =~= join_lines(kept2));
                }
            }
            any = true;
        } else {
            proof {
                assert(kept_lines(vec_views(lines@).take(j + 1), depth as int) =~= kept);
            }
        }
        j += 1;
    }
    proof {
        assert(vec_views(lines@).take(m as int) =~= vec_views(lines@));
    }
    string_from_chars(&out)
}

/// One list line per item: `- item`.
pub open spec fn list_items(items: Seq<Seq<char>>) -> Seq<char>
    decreases items.len(),
{
    if items.len() == 0 {
        Seq::empty()
    } else {
        list_items(items.drop_last()) + "- "@ + items.last() + "\n"@
    }
}

/// A metadata list: `key:` followed by `- item` lines, or `key: []`.
pub open spec fn meta_list(key: Seq<char>, items: Seq<Seq<char>>) -> Seq<char> {
    if items.len() == 0 {
        key + ": []\n"@
    } else {
        key + ":\n"@ + list_items(items)
    }
}

/// The metadata block of a document.
pub open spec fn frontmatter_text(
    from: Seq<char>,
    to: Seq<char>,
    date: Seq<char>,
    subject: Seq<char>,
    hash: Seq<char>,
    tags: Seq<Seq<char>>,
    atts: Seq<Seq<char>>,
) -> Seq<char> {
    "from: "@ + from + "\n"@ + "to: "@ + to + "\n"@ + "date: "@ + date + "\n"@ + "subject: "@
        + subject + "\n"@ + "subject_hash: "@ + hash + "\n"@ + meta_list("tags"@, tags) + meta_list(
        "attachments"@,
        atts,
    )
}

fn append_meta_list(out: &mut Vec<char>, key: &str, items: &Vec<String>)
    ensures
        final(out)@ == old(out)@ + meta_list(key@, str_views(items@)),
{
    crate::naming::append_str_chars(out, key);
    if items.len() == 0 {
        crate::naming::append_str_chars(out, ": []\n");
        proof {
            assert(final(out)@ =~= old(out)@ + meta_list(key@, str_views(items@)));
        }
        return ;
    }
    crate::naming::append_str_chars(out, ":\n");
    let ghost head = out@;
    let n: usize = items.len();
    let mut i: usize = 0;
    proof {
        assert(list_items(str_views(items@).take(0)) =~= Seq::<char>::empty());
        assert(out@ =~= head + list_items(str_views(items@).take(0)));
    }
    while i < n
        invariant
            items@.len() == n,
            0 <= i <= n,
            out@ == head + list_items(str_views(items@).take(i as int)),
        decreases n - i,
    {
        proof {
            assert(str_views(items@).take(i + 1).drop_last() =~= str_views(items@).take(i as int));
            assert(str_views(items@).take(i + 1).last() == items@[i as int]@);
        }
        crate::naming::append_str_chars(out, "- ");
        crate::naming::append_str_chars(out, items[i].as_str());
        crate::naming::append_str_chars(out, "\n");
        proof {
            assert(out@ =~= head + list_items(str_views(items@).take(i + 1)));
        }
        i += 1;
    }
    proof {
        assert(str_views(items@).take(n as int) =~= str_views(items@));
        assert(out@ =~= old(out)@ + meta_list(key@, str_views(items@)));
    }
}

/// The index right after the last `/` of a path, or 0.
pub open spec fn after_last_slash(p: Seq<char>) -> int
    decreases p.len(),
{
    if p.len() == 0 {
        0
    } else if p.last() == '/' {
        p.len() as int
    } else {
        after_last_slash(p.drop_last())
    }
}

proof fn lemma_after_last_slash_bounds(p: Seq<char>)
    ensures
        0 <= after_last_slash(p) <= p.len(),
    decreases p.len(),
{
    if p.len() > 0 && p.last() != '/' {
        lemma_after_last_slash_bounds(p.drop_last());
    }
}

/// The filename component of a path: everything after the last `/`.
pub open spec fn file_part(p: Seq<char>) -> Seq<char> {
    p.skip(after_last_slash(p))
}

fn file_part_exec(p: &Vec<char>) -> (r: usize)
    ensures
        r == after_last_slash(p@),
{
    let n: usize = p.len();
    proof {
        assert(p@.take(n as int) =~= p@);
    }
    let mut i: usize = n;
    while i > 0
        invariant
            p@.len() == n,
            0 <= i <= n,
            after_last_slash(p@) == after_last_slash(p@.take(i as int)),
        decreases i,
    {
        if p[i - 1] == '/' {
            proof {
                assert(p@.take(i as int).last() == p@[i - 1]);
            }
            return i;
        }
        proof {
            assert(p@.take(i as int).last() == p@[i - 1]);
            assert(p@.take(i as int).drop_last() =~= p@.take(i - 1));
        }
        i -= 1;
    }
    proof {
        assert(p@.take(0).len() == 0);
    }
    0
}

/// The attachment list appended to a body: a heading and one markdown link
/// per attachment path.
pub open spec fn attachment_links(paths: Seq<Seq<char>>) -> Seq<char>
    decreases paths.len(),
{
    if paths.len() == 0 {
        Seq::empty()
    } else {
        attachment_links(paths.drop_last()) + "- ["@ + file_part(paths.last()) + "]("@
            + paths.last() + ")\n"@
    }
}

/// The body's attachment section: empty when there are no attachments.
pub open spec fn attachments_section(paths: Seq<Seq<char>>) -> Seq<char> {
    if paths.len() == 0 {
        Seq::empty()
    } else {
        "\n\n### Pieces jointes :\n"@ + attachment_links(paths)
    }
}

fn append_attachments_section(out: &mut Vec<char>, paths: &Vec<String>)
    ensures
        final(out)@ == old(out)@ + attachments_section(str_views(paths@)),
{
    if paths.len() == 0 {
        proof {
            assert(out@ =~= old(out)@ + attachments_section(str_views(paths@)));
        }
        return ;
    }
    crate::naming::append_str_chars(out, "\n\n### Pieces jointes :\n");
    let ghost head = out@;
    let n: usize = paths.len();
    let mut i: usize = 0;
    proof {
        assert(attachment_links(str_views(paths@).take(0)) =~= Seq::<char>::empty());
        assert(out@ =~= head + attachment_links(str_views(paths@).take(0)));
    }
    while i < n
        invariant
            paths@.len() == n,
            0 <= i <= n,
            out@ == head + attachment_links(str_views(paths@).take(i as int)),
        decreases n - i,
    {
        proof {
            assert(str_views(paths@).take(i + 1).drop_last() =~= str_views(paths@).take(i as int));
            assert(str_views(paths@).take(i + 1).last() == paths@[i as int]@);
        }
        let pc = chars_of(paths[i].as_str());
        let cut = file_part_exec(&pc);
        proof {
            lemma_after_last_slash_bounds(pc@);
        }
        crate::naming::append_str_chars(out, "- [");
        let name_part = crate::classify::copy_range_chars(&pc, cut, pc.len());
        let mut np = name_part;
        out.append(&mut np);
        crate::naming::append_str_chars(out, "](");
        crate::naming::append_str_chars(out, paths[i].as_str());
        crate::naming::append_str_chars(out, ")\n");
        proof {
            assert(pc@.subrange(after_last_slash(pc@), pc@.len() as int) =~= file_part(pc@));
            assert(out@ =~= head + attachment_links(str_views(paths@).take(i + 1)));
        }
        i += 1;
    }
    proof {
        assert(str_views(paths@).take(n as int) =~= str_views(paths@));
    }
}

/// The metadata block of one exported document.
#[derive(Debug)]
pub struct EmailFrontmatter {
    pub from: String,
    pub to: String,
    pub date: String,
    pub subject: String,
    pub subject_hash: String,
    pub tags: Vec<String>,
    pub attachments: Vec<String>,
}

/// A whole document: delimited metadata block, then the body, then the
/// attachment section.
pub open spec fn document_text(
    from: Seq<char>,
    to: Seq<char>,
    date: Seq<char>,
    subject: Seq<char>,
    hash: Seq<char>,
    tags: Seq<Seq<char>>,
    att_paths: Seq<Seq<char>>,
    body: Seq<char>,
) -> Seq<char> {
    "---\n"@ + frontmatter_text(from, to, date, subject, hash, tags, att_paths) + "---\n\n"@ + body
        + attachments_section(att_paths)
}

/// Render a whole document from its metadata block and body.
pub fn render_document(fm: &EmailFrontmatter, body: &String) -> (r: String)
    ensures
        r@ == document_text(
            fm.from@,
            fm.to@,
            fm.date@,
            fm.subject@,
            fm.subject_hash@,
            str_views(fm.tags@),
            str_views(fm.attachments@),
            body@,
        ),
{
    let from = &fm.from;
    let to = &fm.to;
    let date = &fm.date;
    let subject = &fm.subject;
    let hash = &fm.subject_hash;
    let tags = &fm.tags;
    let att_paths = &fm.attachments;
    let mut out: Vec<char> = Vec::new();
    crate::naming::append_str_chars(&mut out, "---\n");
    crate::naming::append_str_chars(&mut out, "from: ");
    crate::naming::append_str_chars(&mut out, from.as_str());
    crate::naming::append_str_chars(&mut out, "\n");
    crate::naming::append_str_chars(&mut out, "to: ");
    crate::naming::append_str_chars(&mut out, to.as_str());
    crate::naming::append_str_chars(&mut out, "\n");
    crate::naming::append_str_chars(&mut out, "date: ");
    crate::naming::append_str_chars(&mut out, date.as_str());
    crate::naming::append_str_chars(&mut out, "\n");
    crate::naming::append_str_chars(&mut out, "subject: ");
    crate::naming::append_str_chars(&mut out, subject.as_str());
    crate::naming::append_str_chars(&mut out, "\n");
    crate::naming::append_str_chars(&mut out, "subject_hash: ");
    crate::naming::append_str_chars(&mut out, hash.as_str());
    crate::naming::append_str_chars(&mut out, "\n");
    append_meta_list(&mut out, "tags", tags);
    append_meta_list(&mut out, "attachments", att_paths);
    crate::naming::append_str_chars(&mut out, "---\n\n");
    crate::naming::append_str_chars(&mut out, body.as_str());
    append_attachments_section(&mut out, att_paths);
    proof {
        assert(out@ =~= document_text(
            from@,
            to@,
            date@,
            subject@,
            hash@,
            str_views(tags@),
            str_views(att_paths@),
            body@,
        ));
    }
    string_from_chars(&out)
}

/// A message's From header value, or empty.
pub open spec fn from_field(t: crate::mime::MessageTree) -> Seq<char> {
    crate::mime::header_or_empty(t.headers@, "From"@)
}

/// A message's To header value, or empty.
pub open spec fn to_field(t: crate::mime::MessageTree) -> Seq<char> {
    crate::mime::header_or_empty(t.headers@, "To"@)
}

/// A message's Date header value, or empty.
pub open spec fn date_field(t: crate::mime::MessageTree) -> Seq<char> {
    crate::mime::header_or_empty(t.headers@, "Date"@)
}

/// A message's Subject header value, or empty.
pub open spec fn subject_field(t: crate::mime::MessageTree) -> Seq<char> {
    crate::mime::header_or_empty(t.headers@, "Subject"@)
}

/// The subject fingerprint: six hex digits, or a sentinel for an empty
/// subject.
pub open spec fn subject_hash_of(subject: Seq<char>) -> Seq<char> {
    if subject.len() > 0 {
        crate::hashing::hash_prefix(subject, 6)
    } else {
        "no-subject"@
    }
}

/// The base filename a message maps to: day and participant short names.
pub open spec fn plan_base_name(t: crate::mime::MessageTree) -> Seq<char> {
    crate::naming::doc_base_name(
        crate::dates::ymd_or_unknown(date_field(t)),
        crate::naming::short_name_of(from_field(t)),
        crate::naming::short_name_of(to_field(t)),
    )
}

/// The body as written: quote-limited when a limit is set, then normalized.
pub open spec fn final_body_of(t: crate::mime::MessageTree, quote_depth: int) -> Seq<char> {
    if quote_depth > 0 {
        normalized_breaks(quote_limited(crate::mime::body_of(t), quote_depth))
    } else {
        normalized_breaks(crate::mime::body_of(t))
    }
}

/// The repository-relative paths of a message's attachments.
pub open spec fn rel_paths_of(
    t: crate::mime::MessageTree,
    rel_dir: Seq<char>,
    skip_sig: bool,
) -> Seq<Seq<char>> {
    crate::mime::message_attachments(t, plan_base_name(t), skip_sig).map_values(
        |a: (Seq<char>, Seq<u8>)| rel_dir + "/"@ + a.0,
    )
}

/// The whole text of the document a message becomes.
pub open spec fn planned_doc_text(
    t: crate::mime::MessageTree,
    folder: Seq<char>,
    rel_dir: Seq<char>,
    quote_depth: int,
    skip_sig: bool,
) -> Seq<char> {
    document_text(
        from_field(t),
        to_field(t),
        crate::dates::rfc_or_raw(date_field(t)),
        subject_field(t),
        subject_hash_of(subject_field(t)),
        seq![folder],
        rel_paths_of(t, rel_dir, skip_sig),
        final_body_of(t, quote_depth),
    )
}

/// The message is skipped: the skip-existing policy is on and the dedup
/// check finds it in the export directory.
pub open spec fn plan_skipped(
    t: crate::mime::MessageTree,
    skip_existing: bool,
    files: Seq<(Seq<char>, Seq<char>)>,
) -> bool {
    skip_existing && crate::naming::already_exported(
        crate::dates::ymd_or_unknown(date_field(t)),
        crate::naming::short_name_of(from_field(t)),
        crate::naming::short_name_of(to_field(t)),
        subject_hash_of(subject_field(t)),
        files,
    )
}

/// The names of a directory listing.
pub open spec fn file_names(files: Seq<(Seq<char>, Seq<char>)>) -> Seq<Seq<char>> {
    files.map_values(|f: (Seq<char>, Seq<char>)| f.0)
}

/// `name` is the first free candidate for the message among the files.
pub open spec fn good_doc_name(
    t: crate::mime::MessageTree,
    files: Seq<(Seq<char>, Seq<char>)>,
    name: Seq<char>,
) -> bool {
    exists|i: nat|
        crate::naming::is_first_free_candidate(plan_base_name(t), file_names(files), name, i)
}

/// Everything needed to commit one message to disk, or the decision to
/// skip it.
#[derive(Debug)]
pub struct ExportPlan {
    pub skipped: bool,
    pub doc_name: String,
    pub doc_text: String,
    pub attachments: Vec<crate::mime::AttachmentFile>,
    pub attachment_paths: Vec<String>,
}

fn feed_collector(
    collector: &mut crate::contacts::ContactsCollector,
    ty: &crate::classify::EmailType,
    items: &Vec<String>,
)
    requires
        old(collector).wf(),
    ensures
        final(collector).wf(),
        forall|c: Seq<char>|
            str_views(items@).contains(c) ==> str_views(final(collector).list_for(*ty)).contains(c),
        forall|t2: crate::classify::EmailType|
            t2 != *ty ==> final(collector).list_for(t2) == old(collector).list_for(t2),
{
    let n: usize = items.len();
    let mut i: usize = 0;
    while i < n
        invariant
            items@.len() == n,
            0 <= i <= n,
            collector.wf(),
            forall|j: int|
                0 <= j < i ==> str_views(collector.list_for(*ty)).contains(
                    #[trigger] str_views(items@)[j],
                ),
            forall|t2: crate::classify::EmailType|
                t2 != *ty ==> collector.list_for(t2) == old(collector).list_for(t2),
        decreases n - i,
    {
        let ghost before = collector.list_for(*ty);
        collector.add(ty, items[i].clone());
        proof {
            let after = str_views(collector.list_for(*ty));
            assert forall|j: int| 0 <= j < i + 1 implies after.contains(
                #[trigger] str_views(items@)[j],
            ) by {
                if j < i {
                    let k = choose|k: int|
                        0 <= k < str_views(before).len() && str_views(before)[k] == str_views(
                            items@,
                        )[j];
                    assert(after[k] == str_views(items@)[j]);
                } else {
                    if str_views(before).contains(items@[j as int]@) {
                        let k = choose|k: int|
                            0 <= k < str_views(before).len() && str_views(before)[k]
                                == items@[j as int]@;
                        assert(after[k] == str_views(items@)[j]);
                    } else {
                        assert(after[after.len() - 1] == str_views(items@)[j]);
                    }
                }
            }
        }
        i += 1;
    }
    assert forall|c: Seq<char>| str_views(items@).contains(c) implies str_views(
        collector.list_for(*ty),
    ).contains(c) by {
        let j = choose|j: int| 0 <= j < str_views(items@).len() && str_views(items@)[j] == c;
    }
}

/// The strings a message's headers yield for naming and metadata.
pub struct MessageParts {
    pub from_value: String,
    pub to_value: String,
    pub subject_value: String,
    pub date_str: String,
    pub date_rfc: String,
    pub sender_short: String,
    pub recipient_short: String,
    pub subject_hash: String,
}

/// Read the header fields and derive day string, metadata timestamp,
/// participant short names and the subject fingerprint.
pub fn message_parts(t: &crate::mime::MessageTree) -> (r: MessageParts)
    ensures
        r.from_value@ == from_field(*t),
        r.to_value@ == to_field(*t),
        r.subject_value@ == subject_field(*t),
        r.date_str@ == crate::dates::ymd_or_unknown(date_field(*t)),
        r.date_rfc@ == crate::dates::rfc_or_raw(date_field(*t)),
        r.sender_short@ == crate::naming::short_name_of(from_field(*t)),
        r.recipient_short@ == crate::naming::short_name_of(to_field(*t)),
        r.subject_hash@ == subject_hash_of(subject_field(*t)),
{
    let from_value = t.header_value_or_empty("From");
    let to_value = t.header_value_or_empty("To");
    let date_value = t.header_value_or_empty("Date");
    let subject_value = t.header_value_or_empty("Subject");
    let date_parts = crate::dates::export_date_parts(date_value.as_str());
    let sender_short = crate::naming::get_short_name(from_value.as_str());
    let recipient_short = crate::naming::get_short_name(to_value.as_str());
    let subject_hash: String = if !subject_value.as_str().is_empty() {
        let sc = chars_of(subject_value.as_str());
        string_from_chars(&crate::hashing::hash_hex_prefix(&sc, 6))
    } else {
        String::from_str("no-subject")
    };
    MessageParts {
        from_value,
        to_value,
        subject_value,
        date_str: date_parts.0,
        date_rfc: date_parts.1,
        sender_short,
        recipient_short,
        subject_hash,
    }
}

fn existing_names(existing: &Vec<crate::naming::ExistingFile>) -> (r: Vec<String>)
    ensures
        str_views(r@) == file_names(crate::naming::file_views(existing@)),
{
    let mut names: Vec<String> = Vec::new();
    let en: usize = existing.len();
    let mut i: usize = 0;
    proof {
        assert(str_views(names@) =~= file_names(crate::naming::file_views(existing@)).take(0));
    }
    while i < en
        invariant
            existing@.len() == en,
            0 <= i <= en,
            str_views(names@) =~= file_names(crate::naming::file_views(existing@)).take(i as int),
        decreases en - i,
    {
        let ghost prev_names = names@;
        names.push(existing[i].name.clone());
        proof {
            let big = file_names(crate::naming::file_views(existing@));
            assert(crate::naming::file_views(existing@)[i as int].0 == existing@[i as int].name@);
            assert(big[i as int] == existing@[i as int].name@);
            assert(str_views(names@) =~= str_views(prev_names).push(names@[i as int]@));
            assert(big.take(i + 1) =~= big.take(i as int).push(big[i as int]));
            assert(str_views(names@) =~= big.take(i + 1));
        }
        i += 1;
    }
    proof {
        let big = file_names(crate::naming::file_views(existing@));
        assert(big.take(en as int) =~= big);
    }
    names
}

/// Choose the document's filename: the first free candidate over the
/// existing names.
pub fn choose_doc_name(
    t: &crate::mime::MessageTree,
    parts: &MessageParts,
    existing: &Vec<crate::naming::ExistingFile>,
) -> (r: String)
    requires
        existing@.len() < usize::MAX,
        parts.date_str@ == crate::dates::ymd_or_unknown(date_field(*t)),
        parts.sender_short@ == crate::naming::short_name_of(from_field(*t)),
        parts.recipient_short@ == crate::naming::short_name_of(to_field(*t)),
    ensures
        good_doc_name(*t, crate::naming::file_views(existing@), r@),
{
    let base = crate::naming::build_doc_base_name(
        parts.date_str.as_str(),
        parts.sender_short.as_str(),
        parts.recipient_short.as_str(),
    );
    let names = existing_names(existing);
    proof {
        assert(str_views(names@).len() == names@.len());
        assert(file_names(crate::naming::file_views(existing@)).len() == existing@.len());
    }
    let doc_name = crate::naming::find_unique_name(&base, &names);
    proof {
        assert(base@ == plan_base_name(*t));
        let w = choose|w: nat|
            crate::naming::is_first_free_candidate(base@, str_views(names@), doc_name@, w);
        assert(crate::naming::is_first_free_candidate(
            plan_base_name(*t),
            file_names(crate::naming::file_views(existing@)),
            doc_name@,
            w,
        ));
    }
    doc_name
}

fn build_attachment_paths(
    attachments: &Vec<crate::mime::AttachmentFile>,
    rel_dir: &str,
) -> (r: Vec<String>)
    ensures
        str_views(r@) == crate::mime::att_views(attachments@).map_values(
            |a: (Seq<char>, Seq<u8>)| rel_dir@ + "/"@ + a.0,
        ),
{
    let ghost atts = crate::mime::att_views(attachments@);
    let ghost goal = atts.map_values(|a: (Seq<char>, Seq<u8>)| rel_dir@ + "/"@ + a.0);
    let mut out: Vec<String> = Vec::new();
    let an: usize = attachments.len();
    let mut j: usize = 0;
    proof {
        assert(str_views(out@) =~= goal.take(0));
    }
    while j < an
        invariant
            attachments@.len() == an,
            atts == crate::mime::att_views(attachments@),
            goal == atts.map_values(|a: (Seq<char>, Seq<u8>)| rel_dir@ + "/"@ + a.0),
            0 <= j <= an,
            str_views(out@) =~= goal.take(j as int),
        decreases an - j,
    {
        let mut p: Vec<char> = Vec::new();
        crate::naming::append_str_chars(&mut p, rel_dir);
        crate::naming::append_str_chars(&mut p, "/");
        let mut nm = chars_of(attachments[j].name.as_str());
        p.append(&mut nm);
        let ghost prev = out@;
        out.push(string_from_chars(&p));
        proof {
            assert(atts[j as int].0 == attachments@[j as int].name@);
            assert(goal[j as int] == rel_dir@ + "/"@ + atts[j as int].0);
            assert(p@ =~= rel_dir@ + "/"@ + attachments@[j as int].name@);
            assert(str_views(out@) =~= str_views(prev).push(p@));
            assert(goal.take(j + 1) =~= goal.take(j as int).push(goal[j as int]));
            assert(str_views(out@) =~= goal.take(j + 1));
        }
        j += 1;
    }
    proof {
        assert(goal.take(an as int) =~= goal);
    }
    out
}

/// The body as written: quote-limited when a limit is set, then normalized.
pub fn build_final_body(t: &crate::mime::MessageTree, quote_depth: usize) -> (r: String)
    ensures
        r@ == final_body_of(*t, quote_depth as int),
{
    let body_raw = crate::mime::extract_body(t);
    let body_limited: String = if quote_depth > 0 {
        limit_quote_depth(body_raw.as_str(), quote_depth)
    } else {
        body_raw
    };
    normalize_line_breaks(body_limited.as_str())
}

/// Decide everything about one fetched message: whether it is skipped as a
/// duplicate, what its document is named and holds, which attachment files
/// are written, and what the contacts ledger learns from it.
pub fn process_message(
    t: &crate::mime::MessageTree,
    folder_name: &str,
    attachments_rel_dir: &str,
    account: &crate::config::Account,
    existing: &Vec<crate::naming::ExistingFile>,
    collector: &mut crate::contacts::ContactsCollector,
) -> (r: ExportPlan)
    requires
        existing@.len() < usize::MAX,
        old(collector).wf(),
    ensures
        final(collector).wf(),
        r.skipped == plan_skipped(*t, account.skip_existing, crate::naming::file_views(existing@)),
        (!account.collect_contacts || r.skipped) ==> *final(collector) == *old(collector),
        (account.collect_contacts && !r.skipped) ==> (forall|c: Seq<char>|
            crate::classify::contacts_of(*t).contains(c) ==> str_views(
                final(collector).list_for(crate::classify::classified_type(*t)),
            ).contains(c)),
        !r.skipped ==> r.doc_text@ == planned_doc_text(
            *t,
            folder_name@,
            attachments_rel_dir@,
            account.quote_depth as int,
            account.skip_signature_images,
        ),
        !r.skipped ==> good_doc_name(*t, crate::naming::file_views(existing@), r.doc_name@),
        !r.skipped ==> crate::mime::att_views(r.attachments@) == crate::mime::message_attachments(
            *t,
            plan_base_name(*t),
            account.skip_signature_images,
        ),
        !r.skipped ==> str_views(r.attachment_paths@) == rel_paths_of(
            *t,
            attachments_rel_dir@,
            account.skip_signature_images,
        ),
        r.skipped ==> r.attachments@.len() == 0,
{
    let parts = message_parts(t);

    if account.skip_existing && crate::naming::email_already_exported(
        parts.date_str.as_str(),
        parts.sender_short.as_str(),
        parts.recipient_short.as_str(),
        parts.subject_hash.as_str(),
        existing,
    ) {
        return ExportPlan {
            skipped: true,
            doc_name: String::new(),
            doc_text: String::new(),
            attachments: Vec::new(),
            attachment_paths: Vec::new(),
        };
    }

    if account.collect_contacts {
        let analysis = crate::classify::analyze_email_type(t);
        feed_collector(collector, &analysis.email_type, &analysis.contacts);
    }

    let doc_name = choose_doc_name(t, &parts, existing);

    let base = crate::naming::build_doc_base_name(
        parts.date_str.as_str(),
        parts.sender_short.as_str(),
        parts.recipient_short.as_str(),
    );
    proof {
        assert(base@ == plan_base_name(*t));
    }

    let body_final = build_final_body(t, account.quote_depth);

    let mut attachments: Vec<crate::mime::AttachmentFile> = Vec::new();
    crate::mime::extract_attachments(t, &base, account.skip_signature_images, &mut attachments);
    proof {
        assert(crate::mime::att_views(Seq::<crate::mime::AttachmentFile>::empty())
            =~= Seq::<(Seq<char>, Seq<u8>)>::empty());
        assert(Seq::<(Seq<char>, Seq<u8>)>::empty() + crate::mime::message_attachments(
            *t,
            base@,
            account.skip_signature_images,
        ) =~= crate::mime::message_attachments(*t, base@, account.skip_signature_images));
    }

    let attachment_paths = build_attachment_paths(&attachments, attachments_rel_dir);
    proof {
        assert(str_views(attachment_paths@) == rel_paths_of(
            *t,
            attachments_rel_dir@,
            account.skip_signature_images,
        ));
    }

    let mut tags: Vec<String> = Vec::new();
    tags.push(String::from_str(folder_name));
    proof {
        assert(str_views(tags@) =~= seq![folder_name@]);
    }

    let frontmatter = EmailFrontmatter {
        from: parts.from_value,
        to: parts.to_value,
        date: parts.date_rfc,
        subject: parts.subject_value,
        subject_hash: parts.subject_hash,
        tags,
        attachments: attachment_paths,
    };
    let doc_text = render_document(&frontmatter, &body_final);
    let attachment_paths = frontmatter.attachments;

    ExportPlan { skipped: false, doc_name, doc_text, attachments, attachment_paths }
}

proof fn lemma_seq_has_middle(x: Seq<char>, n: Seq<char>, y: Seq<char>)
    ensures
        crate::text::seq_has(x + n + y, n),
{
    let h = x + n + y;
    assert(h.subrange(x.len() as int, x.len() + n.len() as int) =~= n);
    assert(crate::text::occurs_at(h, n, x.len() as int));
}

/// The document written for a message contains the subject fingerprint in
/// its metadata block.
pub proof fn lemma_doc_contains_hash(
    t: crate::mime::MessageTree,
    folder: Seq<char>,
    rel_dir: Seq<char>,
    quote_depth: int,
    skip_sig: bool,
)
    ensures
        crate::text::seq_has(
            planned_doc_text(t, folder, rel_dir, quote_depth, skip_sig),
            subject_hash_of(subject_field(t)),
        ),
{
    let from = from_field(t);
    let to = to_field(t);
    let date = crate::dates::rfc_or_raw(date_field(t));
    let subject = subject_field(t);
    let hash = subject_hash_of(subject);
    let tags: Seq<Seq<char>> = seq![folder];
    let atts = rel_paths_of(t, rel_dir, skip_sig);
    let body = final_body_of(t, quote_depth);
    let x = "---\n"@ + ("from: "@ + from + "\n"@ + "to: "@ + to + "\n"@ + "date: "@ + date + "\n"@
        + "subject: "@ + subject + "\n"@ + "subject_hash: "@);
    let y = "\n"@ + meta_list("tags"@, tags) + meta_list("attachments"@, atts) + ("---\n\n"@ + body
        + attachments_section(atts));
    assert(planned_doc_text(t, folder, rel_dir, quote_depth, skip_sig) =~= x + hash + y);
    lemma_seq_has_middle(x, hash, y);
}

/// Exporting the same message content into the same folder again, with the
/// skip-existing policy on, is reported as skipped: once the document
/// produced for the message stands in the directory listing under any of
/// its candidate names, the dedup check finds it. Holds whenever the
/// rendered day string carries no wildcard characters, which is true of
/// every `YYYY-MM-DD` rendering and of the sentinel.
pub proof fn lemma_reexport_skipped(
    t: crate::mime::MessageTree,
    folder: Seq<char>,
    rel_dir: Seq<char>,
    quote_depth: int,
    skip_sig: bool,
    files: Seq<(Seq<char>, Seq<char>)>,
    w: nat,
)
    requires
        crate::naming::no_wild(crate::dates::ymd_or_unknown(date_field(t))),
    ensures
        plan_skipped(
            t,
            true,
            files.push(
                (
                    crate::naming::candidate_name(plan_base_name(t), w),
                    planned_doc_text(t, folder, rel_dir, quote_depth, skip_sig),
                ),
            ),
        ),
{
    let date = crate::dates::ymd_or_unknown(date_field(t));
    let sender = crate::naming::short_name_of(from_field(t));
    let recipient = crate::naming::short_name_of(to_field(t));
    crate::naming::lemma_short_name_no_wild(from_field(t));
    crate::naming::lemma_short_name_no_wild(to_field(t));
    crate::naming::lemma_candidate_matches_pattern(date, sender, recipient, w);
    lemma_doc_contains_hash(t, folder, rel_dir, quote_depth, skip_sig);
    let entry = (
        crate::naming::candidate_name(plan_base_name(t), w),
        planned_doc_text(t, folder, rel_dir, quote_depth, skip_sig),
    );
    let fs = files.push(entry);
    assert(fs[files.len() as int] == entry);
    assert(crate::naming::already_exported(
        date,
        sender,
        recipient,
        subject_hash_of(subject_field(t)),
        fs,
    ));
}

} // verus!
