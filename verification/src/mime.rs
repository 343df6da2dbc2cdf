//! The message tree: a plain-value model of a parsed MIME message.
//!
//! A message is a node with headers, a decoded text body, the decoded raw
//! body bytes, and an ordered list of child parts. The bridge from raw bytes
//! to this tree goes through mailparse; everything that walks the tree — body
//! selection and attachment discovery — is verified here.

use vstd::prelude::*;
use crate::text::{has_prefix, lower_ascii, lower_of, lowercase_str, chars_of, occurs_at};

verus! {

/// One header field, with the decoded key and value.
#[derive(Debug)]
pub struct HeaderField {
    pub name: String,
    pub value: String,
}

/// A parsed message or message part.
#[derive(Debug)]
pub struct MessageTree {
    pub headers: Vec<HeaderField>,
    pub body_text: String,
    pub body_raw: Vec<u8>,
    pub children: Vec<MessageTree>,
}

#[verifier::external_type_specification]
#[verifier::external_body]
pub struct ExParsedMail<'a>(mailparse::ParsedMail<'a>);

/// What parsing a raw message yields: a function of the bytes alone.
pub uninterp spec fn parsed_message(raw: Seq<u8>) -> Option<MessageTree>;

/// Relies on mailparse::ParsedMail: copies each header's decoded key and
/// value, the transfer-decoded body (as text and as raw bytes), and the
/// subparts, into the library's tree, in order.
#[verifier::external_body]
fn convert_part(m: &mailparse::ParsedMail) -> MessageTree {
    let mut headers: Vec<HeaderField> = Vec::new();
    for h in &m.headers {
        headers.push(HeaderField { name: h.get_key(), value: h.get_value() });
    }
    let mut children: Vec<MessageTree> = Vec::new();
    for sub in &m.subparts {
        children.push(convert_part(sub));
    }
    MessageTree {
        headers,
        body_text: m.get_body().unwrap_or_default(),
        body_raw: m.get_body_raw().unwrap_or_default(),
        children,
    }
}

/// Relies on mailparse::parse_mail: the tree it yields depends on the raw
/// bytes alone; parse failure yields None.
#[verifier::external_body]
pub fn parse_message(raw: &[u8]) -> (r: Option<MessageTree>)
    ensures
        r == parsed_message(raw@),
{
    match mailparse::parse_mail(raw) {
        Ok(m) => Some(convert_part(&m)),
        Err(_) => None,
    }
}

/// A header's key matches a wanted key, ASCII case-insensitively.
pub open spec fn header_key_matches(h: HeaderField, key: Seq<char>) -> bool {
    lower_ascii(h.name@) == lower_ascii(key)
}

/// The value of the first header whose key matches, if any.
pub open spec fn first_header(hs: Seq<HeaderField>, key: Seq<char>) -> Option<Seq<char>>
    decreases hs.len(),
{
    if hs.len() == 0 {
        None
    } else if header_key_matches(hs[0], key) {
        Some(hs[0].value@)
    } else {
        first_header(hs.skip(1), key)
    }
}

/// The first matching header's value, or empty when the header is absent.
pub open spec fn header_or_empty(hs: Seq<HeaderField>, key: Seq<char>) -> Seq<char> {
    match first_header(hs, key) {
        Some(v) => v,
        None => Seq::empty(),
    }
}

proof fn lemma_first_header_step(hs: Seq<HeaderField>, key: Seq<char>, i: int)
    requires
        0 <= i < hs.len(),
        forall|j: int| 0 <= j <= i ==> !header_key_matches(#[trigger] hs[j], key),
    ensures
        first_header(hs.skip(i), key) == first_header(hs.skip(i + 1), key),
{
    assert(hs.skip(i)[0] == hs[i]);
    assert(hs.skip(i).skip(1) =~= hs.skip(i + 1));
}

impl MessageTree {
    /// The first header value under the given key, if present.
    pub fn get_first_header_value(&self, key: &str) -> (r: Option<&String>)
        ensures
            match r {
                Some(v) => first_header(self.headers@, key@) == Some(v@),
                None => first_header(self.headers@, key@) is None,
            },
    {
        let key_chars = chars_of(key);
        let n: usize = self.headers.len();
        proof {
            assert(self.headers@.skip(0) =~= self.headers@);
        }
        let mut i: usize = 0;
        while i < n
            invariant
                self.headers@.len() == n,
                0 <= i <= n,
                key_chars@ == key@,
                first_header(self.headers@, key@) == first_header(self.headers@.skip(i as int), key@),
                forall|j: int| 0 <= j < i ==> !header_key_matches(#[trigger] self.headers@[j], key@),
            decreases n - i,
        {
            let h_name = chars_of(self.headers[i].name.as_str());
            if crate::text::eq_ignore_ascii_case_chars(&h_name, &key_chars) {
                assert(self.headers@.skip(i as int)[0] == self.headers@[i as int]);
                return Some(&self.headers[i].value);
            }
            proof {
                assert(self.headers@.skip(i as int)[0] == self.headers@[i as int]);
                lemma_first_header_step(self.headers@, key@, i as int);
            }
            i += 1;
        }
        proof {
            assert(self.headers@.skip(n as int) =~= Seq::<HeaderField>::empty());
        }
        None
    }

    /// The first matching header's value as an owned string, or empty.
    pub fn header_value_or_empty(&self, key: &str) -> (r: String)
        ensures
            r@ == header_or_empty(self.headers@, key@),
    {
        match self.get_first_header_value(key) {
            Some(v) => v.clone(),
            None => String::new(),
        }
    }
}

/// The case-folded Content-Type of a part.
pub open spec fn content_type_lower(t: MessageTree) -> Seq<char> {
    lower_of(header_or_empty(t.headers@, "Content-Type"@))
}

/// The part's Content-Type begins with `text/plain`.
pub open spec fn is_plain_part(t: MessageTree) -> bool {
    has_prefix(content_type_lower(t), "text/plain"@)
}

/// The part's Content-Type begins with `text/html`.
pub open spec fn is_html_part(t: MessageTree) -> bool {
    has_prefix(content_type_lower(t), "text/html"@)
}

/// The part's Content-Type begins with `multipart/`.
pub open spec fn is_multipart_part(t: MessageTree) -> bool {
    has_prefix(content_type_lower(t), "multipart/"@)
}

/// The body chosen for a message: a leaf's own text; otherwise the children
/// are scanned in order — the first `text/plain` child wins outright, a
/// `text/html` child is kept only while nothing was chosen yet, and a
/// nested multipart's own choice is kept only while nothing was chosen yet.
pub open spec fn body_of(t: MessageTree) -> Seq<char>
    decreases t,
{
    if t.children@.len() == 0 {
        t.body_text@
    } else {
        scan_body(t.children@, Seq::empty())
    }
}

/// The child scan of the body-selection rule, carrying what was chosen so far.
pub open spec fn scan_body(parts: Seq<MessageTree>, acc: Seq<char>) -> Seq<char>
    decreases parts,
{
    if parts.len() == 0 {
        acc
    } else {
        let p = parts[0];
        if is_plain_part(p) {
            p.body_text@
        } else if is_html_part(p) && acc.len() == 0 {
            scan_body(parts.skip(1), p.body_text@)
        } else if is_multipart_part(p) && acc.len() == 0 && body_of(p).len() > 0 {
            scan_body(parts.skip(1), body_of(p))
        } else {
            scan_body(parts.skip(1), acc)
        }
    }
}

/// Whether the part's case-folded Content-Type begins with the given prefix.
fn content_type_starts_with(t: &MessageTree, prefix: &str) -> (r: bool)
    ensures
        r == has_prefix(lower_of(header_or_empty(t.headers@, "Content-Type"@)), prefix@),
{
    let ct = t.header_value_or_empty("Content-Type");
    let ct_l = chars_of(lowercase_str(ct.as_str()).as_str());
    let p = chars_of(prefix);
    crate::text::starts_with_chars(&ct_l, &p)
}

/// Choose the body for a message, by the body-selection rule.
pub fn extract_body(t: &MessageTree) -> (r: String)
    ensures
        r@ == body_of(*t),
    decreases *t,
{
    let n: usize = t.children.len();
    if n == 0 {
        return t.body_text.clone();
    }
    let mut acc: String = String::new();
    proof {
        assert(t.children@.skip(0) =~= t.children@);
        assert(acc@ =~= Seq::<char>::empty());
    }
    let mut i: usize = 0;
    while i < n
        invariant
            t.children@.len() == n,
            n > 0,
            0 <= i <= n,
            scan_body(t.children@, Seq::empty()) == scan_body(t.children@.skip(i as int), acc@),
        decreases n - i,
    {
        proof {
            assert(t.children@.skip(i as int)[0] == t.children@[i as int]);
            assert(t.children@.skip(i as int).skip(1) =~= t.children@.skip(i + 1));
        }
        let part = &t.children[i];
        if content_type_starts_with(part, "text/plain") {
            return part.body_text.clone();
        } else if content_type_starts_with(part, "text/html") {
            if acc.as_str().is_empty() {
                acc = part.body_text.clone();
            }
        } else if content_type_starts_with(part, "multipart/") {
            if acc.as_str().is_empty() {
                proof {
                    assert(decreases_to!(*t => t.children@[i as int]));
                }
                let nested = extract_body(part);
                if !nested.as_str().is_empty() {
                    acc = nested;
                }
            }
        }
        i += 1;
    }
    proof {
        assert(t.children@.skip(n as int) =~= Seq::<MessageTree>::empty());
    }
    acc
}

proof fn lemma_scan_plain_wins(parts: Seq<MessageTree>, acc: Seq<char>, i: int)
    requires
        0 <= i < parts.len(),
        is_plain_part(parts[i]),
        forall|j: int| 0 <= j < i ==> !is_plain_part(#[trigger] parts[j]),
    ensures
        scan_body(parts, acc) == parts[i].body_text@,
    decreases parts.len(),
{
    if i > 0 || !is_plain_part(parts[0]) {
        assert(parts.skip(1)[i - 1] == parts[i]);
        assert(forall|j: int| 0 <= j < i - 1 ==> parts.skip(1)[j] == parts[j + 1]);
        let p = parts[0];
        if is_html_part(p) && acc.len() == 0 {
            lemma_scan_plain_wins(parts.skip(1), p.body_text@, i - 1);
        } else if is_multipart_part(p) && acc.len() == 0 && body_of(p).len() > 0 {
            lemma_scan_plain_wins(parts.skip(1), body_of(p), i - 1);
        } else {
            lemma_scan_plain_wins(parts.skip(1), acc, i - 1);
        }
    }
}

/// Among a message's direct children, the first `text/plain` part decides
/// the body outright, whatever stands before or after it.
pub proof fn lemma_plain_child_wins(t: MessageTree, i: int)
    requires
        t.children@.len() > 0,
        0 <= i < t.children@.len(),
        is_plain_part(t.children@[i]),
        forall|j: int| 0 <= j < i ==> !is_plain_part(#[trigger] t.children@[j]),
    ensures
        body_of(t) == t.children@[i].body_text@,
{
    lemma_scan_plain_wins(t.children@, Seq::empty(), i);
}

proof fn lemma_scan_keeps_nonempty(parts: Seq<MessageTree>, acc: Seq<char>)
    requires
        acc.len() > 0,
        forall|j: int| 0 <= j < parts.len() ==> !is_plain_part(#[trigger] parts[j]),
    ensures
        scan_body(parts, acc) == acc,
    decreases parts.len(),
{
    if parts.len() > 0 {
        assert(forall|j: int| 0 <= j < parts.len() - 1 ==> parts.skip(1)[j] == parts[j + 1]);
        lemma_scan_keeps_nonempty(parts.skip(1), acc);
    }
}

proof fn lemma_scan_html_wins(parts: Seq<MessageTree>, i: int)
    requires
        0 <= i < parts.len(),
        is_html_part(parts[i]),
        parts[i].body_text@.len() > 0,
        forall|j: int| 0 <= j < parts.len() ==> !is_plain_part(#[trigger] parts[j]),
        forall|j: int| 0 <= j < i ==> !is_html_part(#[trigger] parts[j]),
        forall|j: int|
            0 <= j < i ==> !(is_multipart_part(#[trigger] parts[j]) && body_of(parts[j]).len() > 0),
    ensures
        scan_body(parts, Seq::empty()) == parts[i].body_text@,
    decreases parts.len(),
{
    assert(forall|j: int| 0 <= j < parts.len() - 1 ==> parts.skip(1)[j] == parts[j + 1]);
    let p = parts[0];
    if i == 0 {
        lemma_scan_keeps_nonempty(parts.skip(1), p.body_text@);
    } else {
        lemma_scan_html_wins(parts.skip(1), i - 1);
    }
}

/// With no `text/plain` child anywhere and the first `text/html` child
/// carrying a non-empty payload, and no earlier multipart child that yields
/// a body of its own, the chosen body is that first html child's payload.
pub proof fn lemma_html_fallback(t: MessageTree, i: int)
    requires
        t.children@.len() > 0,
        0 <= i < t.children@.len(),
        is_html_part(t.children@[i]),
        t.children@[i].body_text@.len() > 0,
        forall|j: int| 0 <= j < t.children@.len() ==> !is_plain_part(#[trigger] t.children@[j]),
        forall|j: int| 0 <= j < i ==> !is_html_part(#[trigger] t.children@[j]),
        forall|j: int|
            0 <= j < i ==> !(is_multipart_part(#[trigger] t.children@[j]) && body_of(
                t.children@[j],
            ).len() > 0),
    ensures
        body_of(t) == t.children@[i].body_text@,
{
    lemma_scan_html_wins(t.children@, i);
}

proof fn lemma_step_payloads_nonempty(p: MessageTree, base: Seq<char>, skip_sig: bool)
    ensures
        forall|k: int|
            0 <= k < part_step(p, base, skip_sig).len() ==> (#[trigger] part_step(
                p,
                base,
                skip_sig,
            )[k]).1.len() > 0,
    decreases p, 1nat,
{
    if !(cd_of(p).len() == 0 && p.children@.len() == 0) && !sig_skip(p, skip_sig) {
        let e = part_emission(p, base, skip_sig);
        let w = if p.children@.len() > 0 {
            walk_attachments(p.children@, base, skip_sig)
        } else {
            Seq::empty()
        };
        if p.children@.len() > 0 {
            lemma_walk_payloads_nonempty(p.children@, base, skip_sig);
        }
        assert forall|k: int| 0 <= k < part_step(p, base, skip_sig).len() implies (
        #[trigger] part_step(p, base, skip_sig)[k]).1.len() > 0 by {
            assert(part_step(p, base, skip_sig) == e + w);
            if k < e.len() {
                assert(part_step(p, base, skip_sig)[k] == e[k]);
            } else {
                assert(part_step(p, base, skip_sig)[k] == w[k - e.len()]);
            }
        }
    }
}

proof fn lemma_walk_payloads_nonempty(parts: Seq<MessageTree>, base: Seq<char>, skip_sig: bool)
    ensures
        forall|k: int|
            0 <= k < walk_attachments(parts, base, skip_sig).len() ==> (#[trigger] walk_attachments(
                parts,
                base,
                skip_sig,
            )[k]).1.len() > 0,
    decreases parts, 0nat,
{
    if parts.len() > 0 {
        lemma_step_payloads_nonempty(parts[0], base, skip_sig);
        lemma_walk_payloads_nonempty(parts.skip(1), base, skip_sig);
        let e = part_step(parts[0], base, skip_sig);
        let w = walk_attachments(parts.skip(1), base, skip_sig);
        assert forall|k: int| 0 <= k < walk_attachments(parts, base, skip_sig).len() implies (
        #[trigger] walk_attachments(parts, base, skip_sig)[k]).1.len() > 0 by {
            assert(walk_attachments(parts, base, skip_sig) == e + w);
            if k < e.len() {
                assert(walk_attachments(parts, base, skip_sig)[k] == e[k]);
            } else {
                assert(walk_attachments(parts, base, skip_sig)[k] == w[k - e.len()]);
            }
        }
    }
}

/// No attachment with an empty payload is ever collected: every record of
/// the walk carries at least one byte.
pub proof fn lemma_attachments_nonempty(t: MessageTree, base: Seq<char>, skip_sig: bool)
    ensures
        forall|k: int|
            0 <= k < message_attachments(t, base, skip_sig).len() ==> (
            #[trigger] message_attachments(t, base, skip_sig)[k]).1.len() > 0,
{
    lemma_walk_payloads_nonempty(t.children@, base, skip_sig);
}

/// A character that ends an unquoted parameter value.
pub open spec fn is_param_stop(c: char) -> bool {
    c == ';' || crate::text::is_wsp(c)
}

fn is_param_stop_char(c: char) -> (r: bool)
    ensures
        r == is_param_stop(c),
{
    c == ';' || crate::text::is_wsp_char(c)
}

/// Index of the first `"` at or after `from`, or `h.len()`.
pub open spec fn first_quote_from(h: Seq<char>, from: int) -> int
    decreases h.len() - from,
{
    if from < 0 || from >= h.len() {
        h.len() as int
    } else if h[from] == '"' {
        from
    } else {
        first_quote_from(h, from + 1)
    }
}

/// Index of the first value-ending character at or after `from`, or `h.len()`.
pub open spec fn first_stop_from(h: Seq<char>, from: int) -> int
    decreases h.len() - from,
{
    if from < 0 || from >= h.len() {
        h.len() as int
    } else if is_param_stop(h[from]) {
        from
    } else {
        first_stop_from(h, from + 1)
    }
}

/// Position of `=` for a key match at `i`, allowing one `*` after the key.
pub open spec fn eq_pos(h: Seq<char>, key: Seq<char>, i: int) -> int {
    if i + key.len() < h.len() && h[i + key.len()] == '*' {
        i + key.len() + 1
    } else {
        i + key.len()
    }
}

/// The pattern `key[*]?=` followed by a non-empty value starts at `i`.
pub open spec fn param_match_at(h: Seq<char>, key: Seq<char>, i: int) -> bool {
    occurs_at(h, key, i) && {
        let e = eq_pos(h, key, i);
        e < h.len() && h[e] == '=' && e + 1 < h.len() && !is_param_stop(h[e + 1])
    }
}

/// A quoted value at `v` is properly closed and non-empty.
pub open spec fn quoted_ok(h: Seq<char>, v: int) -> bool {
    first_quote_from(h, v + 1) < h.len() && first_quote_from(h, v + 1) > v + 1
}

/// The value that begins at `v`: the quoted text when a closed, non-empty
/// quote follows, else the unquoted run up to the first delimiter.
pub open spec fn value_at(h: Seq<char>, v: int) -> Seq<char> {
    if v < h.len() && h[v] == '"' && quoted_ok(h, v) {
        h.subrange(v + 1, first_quote_from(h, v + 1))
    } else if 0 <= v <= h.len() {
        h.subrange(v, first_stop_from(h, v))
    } else {
        Seq::empty()
    }
}

/// The leftmost position at or after `i` where the parameter pattern matches.
pub open spec fn param_search_from(h: Seq<char>, key: Seq<char>, i: int) -> Option<int>
    decreases h.len() - i,
{
    if i < 0 || i + key.len() > h.len() {
        None
    } else if param_match_at(h, key, i) {
        Some(i)
    } else if i < h.len() {
        param_search_from(h, key, i + 1)
    } else {
        None
    }
}

/// The value of the leftmost `key[*]?=value` occurrence in a header, if any.
pub open spec fn param_value(h: Seq<char>, key: Seq<char>) -> Option<Seq<char>> {
    match param_search_from(h, key, 0) {
        None => None,
        Some(i) => Some(value_at(h, eq_pos(h, key, i) + 1)),
    }
}

/// The filename a single header value yields: its `filename` parameter,
/// else its `name` parameter.
pub open spec fn header_filename(h: Seq<char>) -> Option<Seq<char>> {
    match param_value(h, "filename"@) {
        Some(v) => Some(v),
        None => param_value(h, "name"@),
    }
}

proof fn lemma_quote_from_bounds(h: Seq<char>, from: int)
    requires
        0 <= from <= h.len(),
    ensures
        from <= first_quote_from(h, from) <= h.len(),
    decreases h.len() - from,
{
    if from < h.len() && h[from] != '"' {
        lemma_quote_from_bounds(h, from + 1);
    }
}

proof fn lemma_stop_from_bounds(h: Seq<char>, from: int)
    requires
        0 <= from <= h.len(),
    ensures
        from <= first_stop_from(h, from) <= h.len(),
    decreases h.len() - from,
{
    if from < h.len() && !is_param_stop(h[from]) {
        lemma_stop_from_bounds(h, from + 1);
    }
}

fn find_quote_from(h: &Vec<char>, from: usize) -> (r: usize)
    requires
        from <= h@.len(),
    ensures
        r == first_quote_from(h@, from as int),
{
    let n: usize = h.len();
    let mut j: usize = from;
    while j < n
        invariant
            h@.len() == n,
            from <= j <= n,
            first_quote_from(h@, from as int) == first_quote_from(h@, j as int),
        decreases n - j,
    {
        if h[j] == '"' {
            return j;
        }
        j += 1;
    }
    n
}

fn find_stop_from(h: &Vec<char>, from: usize) -> (r: usize)
    requires
        from <= h@.len(),
    ensures
        r == first_stop_from(h@, from as int),
{
    let n: usize = h.len();
    let mut j: usize = from;
    while j < n
        invariant
            h@.len() == n,
            from <= j <= n,
            first_stop_from(h@, from as int) == first_stop_from(h@, j as int),
        decreases n - j,
    {
        if is_param_stop_char(h[j]) {
            return j;
        }
        j += 1;
    }
    n
}

fn param_match_at_exec(h: &Vec<char>, key: &Vec<char>, i: usize) -> (r: bool)
    requires
        i + key@.len() <= h@.len(),
    ensures
        r == param_match_at(h@, key@, i as int),
{
    let hn: usize = h.len();
    if !crate::text::matches_at(h, key, i) {
        return false;
    }
    let mut e: usize = i + key.len();
    if e < h.len() && h[e] == '*' {
        e += 1;
    }
    assert(e == eq_pos(h@, key@, i as int));
    if e < h.len() && h[e] == '=' {
        e + 1 < h.len() && !is_param_stop_char(h[e + 1])
    } else {
        false
    }
}

fn copy_range(h: &Vec<char>, a: usize, b: usize) -> (r: Vec<char>)
    requires
        a <= b <= h@.len(),
    ensures
        r@ == h@.subrange(a as int, b as int),
{
    let mut r: Vec<char> = Vec::new();
    let mut i: usize = a;
    proof {
        assert(r@ =~= h@.subrange(a as int, a as int));
    }
    while i < b
        invariant
            a <= i <= b <= h@.len(),
            r@ == h@.subrange(a as int, i as int),
        decreases b - i,
    {
        r.push(h[i]);
        assert(r@ =~= h@.subrange(a as int, i + 1));
        i += 1;
    }
    r
}

/// Find the leftmost `key[*]?=value` in `h` and return the value.
fn param_value_exec(h: &Vec<char>, key: &Vec<char>) -> (r: Option<Vec<char>>)
    requires
        key@.len() >= 1,
    ensures
        match r {
            Some(v) => param_value(h@, key@) == Some(v@),
            None => param_value(h@, key@) is None,
        },
{
    let n: usize = h.len();
    let kl: usize = key.len();
    if kl > n {
        return None;
    }
    let mut i: usize = 0;
    while i <= n - kl
        invariant
            h@.len() == n,
            key@.len() == kl,
            1 <= kl <= n,
            0 <= i,
            i + kl <= n + 1,
            param_search_from(h@, key@, 0) == param_search_from(h@, key@, i as int),
        decreases n - i,
    {
        if param_match_at_exec(h, key, i) {
            let mut e: usize = i + kl;
            if e < n && h[e] == '*' {
                e += 1;
            }
            assert(e == eq_pos(h@, key@, i as int));
            let v: usize = e + 1;
            if h[v] == '"' {
                let k = find_quote_from(h, v + 1);
                if k < n && k > v + 1 {
                    return Some(copy_range(h, v + 1, k));
                }
                let m = find_stop_from(h, v);
                proof {
                    lemma_stop_from_bounds(h@, v as int);
                }
                return Some(copy_range(h, v, m));
            }
            let m = find_stop_from(h, v);
            proof {
                lemma_stop_from_bounds(h@, v as int);
            }
            return Some(copy_range(h, v, m));
        }
        i += 1;
    }
    None
}

/// The filename carried by one header value, as the parameter rule gives it.
pub fn extract_filename_from_header(header: &str) -> (r: Option<String>)
    ensures
        match r {
            Some(v) => header_filename(header@) == Some(v@),
            None => header_filename(header@) is None,
        },
{
    let h = chars_of(header);
    proof {
        reveal_strlit("filename");
        reveal_strlit("name");
    }
    let fkey = chars_of("filename");
    match param_value_exec(&h, &fkey) {
        Some(v) => Some(crate::text::string_from_chars(&v)),
        None => {
            let nkey = chars_of("name");
            match param_value_exec(&h, &nkey) {
                Some(v) => Some(crate::text::string_from_chars(&v)),
                None => None,
            }
        },
    }
}

/// Characters kept unchanged by the filename sanitizer.
pub open spec fn is_safe_filename_char(c: char) -> bool {
    ||| ('a' <= c && c <= 'z')
    ||| ('A' <= c && c <= 'Z')
    ||| ('0' <= c && c <= '9')
    ||| c == '.'
    ||| c == '_'
    ||| c == '-'
}

/// The sanitized form of a filename: unsafe characters become `_`.
pub open spec fn sanitized_filename(s: Seq<char>) -> Seq<char> {
    s.map_values(|c: char| if is_safe_filename_char(c) { c } else { '_' })
}

/// Replace every character unsafe for a filesystem name with `_`.
pub fn sanitize_filename(name: &str) -> (r: String)
    ensures
        r@ == sanitized_filename(name@),
{
    let v = chars_of(name);
    let n: usize = v.len();
    let mut out: Vec<char> = Vec::new();
    let mut i: usize = 0;
    while i < n
        invariant
            v@.len() == n,
            v@ == name@,
            0 <= i <= n,
            out@ =~= sanitized_filename(name@).take(i as int),
        decreases n - i,
    {
        let c = v[i];
        let safe = ('a' <= c && c <= 'z') || ('A' <= c && c <= 'Z') || ('0' <= c && c <= '9')
            || c == '.' || c == '_' || c == '-';
        if safe {
            out.push(c);
        } else {
            out.push('_');
        }
        assert(out@ =~= sanitized_filename(name@).take(i + 1));
        i += 1;
    }
    assert(out@ =~= sanitized_filename(name@));
    crate::text::string_from_chars(&out)
}

/// An inline image no larger than this is eligible for the signature-image
/// heuristic.
pub const SIGNATURE_IMAGE_MAX_BYTES: usize = 50000;

/// The signature-image heuristic over already case-folded fields: a small
/// image, inline or without a disposition, whose name is empty or looks like
/// a signature graphic.
pub open spec fn signature_image(
    fname_l: Seq<char>,
    ct_l: Seq<char>,
    size: nat,
    cd_l: Seq<char>,
) -> bool {
    &&& has_prefix(ct_l, "image/"@)
    &&& size < 50000
    &&& (cd_l.len() == 0 || crate::text::seq_has(cd_l, "inline"@))
    &&& (fname_l.len() == 0 || crate::text::seq_has(fname_l, "logo"@) || crate::text::seq_has(
        fname_l,
        "signature"@,
    ) || has_prefix(fname_l, "image"@))
}

/// Decide whether an attachment candidate is a signature image.
pub fn is_signature_image(
    filename: &str,
    content_type: &str,
    payload_len: usize,
    disposition: &str,
) -> (r: bool)
    ensures
        r == signature_image(
            lower_of(filename@),
            lower_of(content_type@),
            payload_len as nat,
            lower_of(disposition@),
        ),
{
    let ct_l = chars_of(lowercase_str(content_type).as_str());
    let image_p = chars_of("image/");
    if !crate::text::starts_with_chars(&ct_l, &image_p) {
        return false;
    }
    if payload_len >= SIGNATURE_IMAGE_MAX_BYTES {
        return false;
    }
    let cd_l = chars_of(lowercase_str(disposition).as_str());
    if cd_l.len() > 0 {
        let inline_n = chars_of("inline");
        if !crate::text::contains_chars(&cd_l, &inline_n) {
            return false;
        }
    }
    let f_l = chars_of(lowercase_str(filename).as_str());
    if f_l.len() == 0 {
        return true;
    }
    let logo_n = chars_of("logo");
    if crate::text::contains_chars(&f_l, &logo_n) {
        return true;
    }
    let sig_n = chars_of("signature");
    if crate::text::contains_chars(&f_l, &sig_n) {
        return true;
    }
    let image_n = chars_of("image");
    crate::text::starts_with_chars(&f_l, &image_n)
}

/// The part's Content-Disposition value, or empty.
pub open spec fn cd_of(p: MessageTree) -> Seq<char> {
    header_or_empty(p.headers@, "Content-Disposition"@)
}

/// The part's Content-Type value, or empty.
pub open spec fn ct_of(p: MessageTree) -> Seq<char> {
    header_or_empty(p.headers@, "Content-Type"@)
}

/// The case-folded disposition marks the part as attachment or inline.
pub open spec fn has_attach_disp(p: MessageTree) -> bool {
    ||| crate::text::seq_has(lower_of(cd_of(p)), "attachment"@)
    ||| crate::text::seq_has(lower_of(cd_of(p)), "inline"@)
}

/// The filename a part yields: from its Content-Disposition header first,
/// else from its Content-Type header.
pub open spec fn part_filename(p: MessageTree) -> Option<Seq<char>> {
    let from_cd = match first_header(p.headers@, "Content-Disposition"@) {
        Some(v) => header_filename(v),
        None => None,
    };
    match from_cd {
        Some(f) => Some(f),
        None => match first_header(p.headers@, "Content-Type"@) {
            Some(v) => header_filename(v),
            None => None,
        },
    }
}

/// The filename of an attachment part, if any header names one.
pub fn extract_attachment_filename(part: &MessageTree) -> (r: Option<String>)
    ensures
        match r {
            Some(v) => part_filename(*part) == Some(v@),
            None => part_filename(*part) is None,
        },
{
    let cd = part.get_first_header_value("Content-Disposition");
    match cd {
        Some(v) => {
            let found = extract_filename_from_header(v.as_str());
            match found {
                Some(f) => {
                    return Some(f);
                },
                None => {},
            }
        },
        None => {},
    }
    let ct = part.get_first_header_value("Content-Type");
    match ct {
        Some(v) => extract_filename_from_header(v.as_str()),
        None => None,
    }
}

/// The on-disk name of an accepted attachment: the message's base name, an
/// 8-digit fingerprint of the original filename, and its sanitized form.
pub open spec fn attachment_name(base: Seq<char>, fname: Seq<char>) -> Seq<char> {
    base + "_"@ + crate::hashing::hash_prefix(fname, 8) + "_"@ + sanitized_filename(fname)
}

/// A part's candidate is dropped as a signature image.
pub open spec fn sig_skip(p: MessageTree, skip_sig: bool) -> bool {
    &&& skip_sig
    &&& part_filename(p) is Some
    &&& (has_attach_disp(p) || part_filename(p)->Some_0.len() > 0)
    &&& signature_image(
        lower_of(part_filename(p)->Some_0),
        lower_of(ct_of(p)),
        p.body_raw@.len(),
        lower_of(cd_of(p)),
    )
}

/// The attachment a part contributes, if any: it must name a file, carry an
/// attachment or inline disposition or a non-empty name, and have a
/// non-empty payload.
pub open spec fn part_emission(p: MessageTree, base: Seq<char>, skip_sig: bool) -> Seq<
    (Seq<char>, Seq<u8>),
> {
    if part_filename(p) is Some && (has_attach_disp(p) || part_filename(p)->Some_0.len() > 0)
        && p.body_raw@.len() > 0 {
        seq![(attachment_name(base, part_filename(p)->Some_0), p.body_raw@)]
    } else {
        Seq::empty()
    }
}

/// What one part contributes to the walk: nothing for a bare leaf without a
/// disposition; nothing at all (and no descent) for a skipped signature
/// image; otherwise its own attachment followed by its children's.
pub open spec fn part_step(p: MessageTree, base: Seq<char>, skip_sig: bool) -> Seq<
    (Seq<char>, Seq<u8>),
>
    decreases p,
{
    if cd_of(p).len() == 0 && p.children@.len() == 0 {
        Seq::empty()
    } else if sig_skip(p, skip_sig) {
        Seq::empty()
    } else {
        part_emission(p, base, skip_sig) + if p.children@.len() > 0 {
            walk_attachments(p.children@, base, skip_sig)
        } else {
            Seq::empty()
        }
    }
}

/// The attachments found under a list of sibling parts, in discovery order.
pub open spec fn walk_attachments(parts: Seq<MessageTree>, base: Seq<char>, skip_sig: bool) -> Seq<
    (Seq<char>, Seq<u8>),
>
    decreases parts,
{
    if parts.len() == 0 {
        Seq::empty()
    } else {
        part_step(parts[0], base, skip_sig) + walk_attachments(parts.skip(1), base, skip_sig)
    }
}

/// All attachments of a message: the walk over its direct children.
pub open spec fn message_attachments(t: MessageTree, base: Seq<char>, skip_sig: bool) -> Seq<
    (Seq<char>, Seq<u8>),
> {
    walk_attachments(t.children@, base, skip_sig)
}

/// One attachment file to be written: its name and its payload bytes.
#[derive(Debug)]
pub struct AttachmentFile {
    pub name: String,
    pub payload: Vec<u8>,
}

/// The name/payload views of a list of attachment files.
pub open spec fn att_views(v: Seq<AttachmentFile>) -> Seq<(Seq<char>, Seq<u8>)> {
    v.map_values(|a: AttachmentFile| (a.name@, a.payload@))
}

fn clone_bytes(v: &Vec<u8>) -> (r: Vec<u8>)
    ensures
        r@ == v@,
{
    let n: usize = v.len();
    let mut r: Vec<u8> = Vec::new();
    let mut i: usize = 0;
    while i < n
        invariant
            v@.len() == n,
            0 <= i <= n,
            r@ =~= v@.take(i as int),
        decreases n - i,
    {
        r.push(v[i]);
        assert(r@ =~= v@.take(i + 1));
        i += 1;
    }
    assert(r@ =~= v@);
    r
}

/// Collect the attachments of `t` into `out`, in discovery order.
pub fn extract_attachments(
    t: &MessageTree,
    base: &Vec<char>,
    skip_sig: bool,
    out: &mut Vec<AttachmentFile>,
)
    ensures
        att_views(final(out)@) == att_views(old(out)@) + message_attachments(*t, base@, skip_sig),
    decreases *t, 0nat,
{
    let n: usize = t.children.len();
    proof {
        assert(t.children@.skip(0) =~= t.children@);
    }
    let mut i: usize = 0;
    while i < n
        invariant
            t.children@.len() == n,
            0 <= i <= n,
            att_views(old(out)@) + walk_attachments(t.children@, base@, skip_sig) == att_views(
                out@,
            ) + walk_attachments(t.children@.skip(i as int), base@, skip_sig),
        decreases n - i,
    {
        proof {
            assert(t.children@.skip(i as int)[0] == t.children@[i as int]);
            assert(t.children@.skip(i as int).skip(1) =~= t.children@.skip(i + 1));
        }
        let ghost prev = out@;
        let part = &t.children[i];
        process_part(part, base, skip_sig, out);
        proof {
            let step = part_step(t.children@[i as int], base@, skip_sig);
            let rest = walk_attachments(t.children@.skip(i + 1), base@, skip_sig);
            assert(att_views(out@) == att_views(prev) + step);
            assert(walk_attachments(t.children@.skip(i as int), base@, skip_sig) == step + rest);
            assert((att_views(prev) + step) + rest =~= att_views(prev) + (step + rest));
        }
        i += 1;
    }
    proof {
        assert(t.children@.skip(n as int) =~= Seq::<MessageTree>::empty());
        assert(walk_attachments(Seq::<MessageTree>::empty(), base@, skip_sig)
            =~= Seq::<(Seq<char>, Seq<u8>)>::empty());
        assert(att_views(out@) + Seq::<(Seq<char>, Seq<u8>)>::empty() =~= att_views(out@));
    }
}

fn clone_chars(v: &Vec<char>) -> (r: Vec<char>)
    ensures
        r@ == v@,
{
    let n: usize = v.len();
    let mut r: Vec<char> = Vec::new();
    let mut i: usize = 0;
    while i < n
        invariant
            v@.len() == n,
            0 <= i <= n,
            r@ =~= v@.take(i as int),
        decreases n - i,
    {
        r.push(v[i]);
        assert(r@ =~= v@.take(i + 1));
        i += 1;
    }
    assert(r@ =~= v@);
    r
}

/// Handle one part of the walk: emit its attachment if accepted, then
/// descend into its children unless the part was skipped.
fn process_part(p: &MessageTree, base: &Vec<char>, skip_sig: bool, out: &mut Vec<AttachmentFile>)
    ensures
        att_views(final(out)@) == att_views(old(out)@) + part_step(*p, base@, skip_sig),
    decreases *p, 1nat,
{
    proof {
        assert(att_views(out@) + Seq::<(Seq<char>, Seq<u8>)>::empty() =~= att_views(out@));
    }
    let cd = p.header_value_or_empty("Content-Disposition");
    if cd.as_str().is_empty() && p.children.len() == 0 {
        return ;
    }
    let fname = extract_attachment_filename(p);
    match fname {
        Some(f) => {
            let fc = chars_of(f.as_str());
            let cd_l = chars_of(lowercase_str(cd.as_str()).as_str());
            let att_n = chars_of("attachment");
            let inl_n = chars_of("inline");
            let disp = crate::text::contains_chars(&cd_l, &att_n) || crate::text::contains_chars(
                &cd_l,
                &inl_n,
            );
            if disp || fc.len() > 0 {
                let ct = p.header_value_or_empty("Content-Type");
                if skip_sig && is_signature_image(
                    f.as_str(),
                    ct.as_str(),
                    p.body_raw.len(),
                    cd.as_str(),
                ) {
                    assert(sig_skip(*p, skip_sig));
                    return ;
                }
                assert(!sig_skip(*p, skip_sig));
                if p.body_raw.len() > 0 {
                    let hash8 = crate::hashing::hash_hex_prefix(&fc, 8);
                    let safe = sanitize_filename(f.as_str());
                    let mut nm: Vec<char> = clone_chars(base);
                    nm.push('_');
                    let mut h = hash8;
                    nm.append(&mut h);
                    nm.push('_');
                    let mut sc = chars_of(safe.as_str());
                    nm.append(&mut sc);
                    let rec = AttachmentFile {
                        name: crate::text::string_from_chars(&nm),
                        payload: clone_bytes(&p.body_raw),
                    };
                    proof {
                        reveal_strlit("_");
                        assert(nm@ =~= attachment_name(base@, part_filename(*p)->Some_0));
                    }
                    let ghost prev = out@;
                    out.push(rec);
                    proof {
                        assert(att_views(out@) =~= att_views(prev) + part_emission(
                            *p,
                            base@,
                            skip_sig,
                        ));
                    }
                } else {
                    assert(part_emission(*p, base@, skip_sig) =~= Seq::<(Seq<char>, Seq<u8>)>::empty());
                }
            } else {
                assert(!sig_skip(*p, skip_sig));
                assert(part_emission(*p, base@, skip_sig) =~= Seq::<(Seq<char>, Seq<u8>)>::empty());
            }
        },
        None => {
            assert(!sig_skip(*p, skip_sig));
            assert(part_emission(*p, base@, skip_sig) =~= Seq::<(Seq<char>, Seq<u8>)>::empty());
        },
    }
    let ghost mid = out@;
    assert(att_views(mid) == att_views(old(out)@) + part_emission(*p, base@, skip_sig));
    if p.children.len() > 0 {
        extract_attachments(p, base, skip_sig, out);
        proof {
            assert(att_views(out@) == att_views(mid) + walk_attachments(
                p.children@,
                base@,
                skip_sig,
            ));
            assert((att_views(old(out)@) + part_emission(*p, base@, skip_sig)) + walk_attachments(
                p.children@,
                base@,
                skip_sig,
            ) =~= att_views(old(out)@) + (part_emission(*p, base@, skip_sig) + walk_attachments(
                p.children@,
                base@,
                skip_sig,
            )));
        }
    } else {
        proof {
            assert(part_emission(*p, base@, skip_sig) + Seq::<(Seq<char>, Seq<u8>)>::empty()
                =~= part_emission(*p, base@, skip_sig));
        }
    }
}

} // verus!
