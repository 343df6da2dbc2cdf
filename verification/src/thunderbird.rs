//! Importing account settings from a desktop mail client's profile:
//! profile records, preference parsing, generated configuration text, and
//! the merge of extracted passwords into environment-file lines. Reading
//! the profile directories and decrypting stored passwords happen outside
//! the library.

use vstd::prelude::*;
use crate::classify::str_views;
use crate::config::Account;
use crate::text::{chars_of, lower_of, lowercase_str, seq_has, string_from_chars, upper_of,
    uppercase_str, lower_ascii};

verus! {

/// One profile of the mail client.
#[derive(Debug, Clone)]
pub struct ThunderbirdProfile {
    pub name: String,
    pub path: String,
    pub is_default: bool,
}

/// Decrypted credentials extracted from the mail client's store.
#[derive(Debug)]
pub struct ThunderbirdPassword {
    pub imap_server: String,
    pub username: String,
    pub password: String,
}

/// Characters kept unchanged when a name becomes a directory name.
pub open spec fn is_safe_name_char(c: char) -> bool {
    ||| ('a' <= c && c <= 'z')
    ||| ('A' <= c && c <= 'Z')
    ||| ('0' <= c && c <= '9')
    ||| c == '_'
    ||| c == '-'
}

/// The sanitized form of an account name.
pub open spec fn sanitized_name(s: Seq<char>) -> Seq<char> {
    s.map_values(|c: char| if is_safe_name_char(c) { c } else { '_' })
}

/// Replace every character unsafe for a directory name with `_`.
pub fn sanitize_name(name: &str) -> (r: String)
    ensures
        r@ == sanitized_name(name@),
{
    let v = chars_of(name);
    let n: usize = v.len();
    let mut out: Vec<char> = Vec::new();
    let mut i: usize = 0;
    while i < n
        invariant
            v@.len() == n,
            v@ == name@,
            0 <= i <= n,
            out@ =~= sanitized_name(name@).take(i as int),
        decreases n - i,
    {
        let c = v[i];
        let safe = ('a' <= c && c <= 'z') || ('A' <= c && c <= 'Z') || ('0' <= c && c <= '9')
            || c == '_' || c == '-';
        if safe {
            out.push(c);
        } else {
            out.push('_');
        }
        assert(out@ =~= sanitized_name(name@).take(i + 1));
        i += 1;
    }
    assert(out@ =~= sanitized_name(name@));
    string_from_chars(&out)
}

/// The stock ignore list for accounts at a large webmail provider.
pub open spec fn is_gmail_ignored(v: Seq<Seq<char>>) -> bool {
    v =~= seq!["[Gmail]/Spam"@, "[Gmail]/Trash"@, "[Gmail]/All Mail"@, "[Gmail]/Drafts"@]
}

/// The stock ignore list for accounts at providers that use `Deleted Items`.
pub open spec fn is_outlook_ignored(v: Seq<Seq<char>>) -> bool {
    v =~= seq!["Junk"@, "Deleted Items"@, "Drafts"@]
}

/// The stock ignore list for every other account.
pub open spec fn is_generic_ignored(v: Seq<Seq<char>>) -> bool {
    v =~= seq!["Spam"@, "Trash"@, "Junk"@, "Drafts"@]
}

/// The case-folded account name mentions the given provider.
pub open spec fn name_mentions(name: Seq<char>, provider: Seq<char>) -> bool {
    seq_has(lower_of(name), provider)
}

/// The stock ignore list an account name selects.
pub open spec fn default_ignored_of(name: Seq<char>) -> Seq<Seq<char>> {
    if name_mentions(name, "gmail"@) {
        seq!["[Gmail]/Spam"@, "[Gmail]/Trash"@, "[Gmail]/All Mail"@, "[Gmail]/Drafts"@]
    } else if name_mentions(name, "outlook"@) || name_mentions(name, "hotmail"@) {
        seq!["Junk"@, "Deleted Items"@, "Drafts"@]
    } else {
        seq!["Spam"@, "Trash"@, "Junk"@, "Drafts"@]
    }
}

/// The default ignored folders for an account, chosen by its provider.
pub fn default_ignored_folders(name: &str) -> (r: Vec<String>)
    ensures
        str_views(r@) == default_ignored_of(name@),
        name_mentions(name@, "gmail"@) ==> is_gmail_ignored(str_views(r@)),
        !name_mentions(name@, "gmail"@) && (name_mentions(name@, "outlook"@) || name_mentions(
            name@,
            "hotmail"@,
        )) ==> is_outlook_ignored(str_views(r@)),
        !name_mentions(name@, "gmail"@) && !name_mentions(name@, "outlook"@) && !name_mentions(
            name@,
            "hotmail"@,
        ) ==> is_generic_ignored(str_views(r@)),
{
    let name_l = chars_of(lowercase_str(name).as_str());
    let gmail = chars_of("gmail");
    let outlook = chars_of("outlook");
    let hotmail = chars_of("hotmail");
    let mut v: Vec<String> = Vec::new();
    if crate::text::contains_chars(&name_l, &gmail) {
        v.push(String::from_str("[Gmail]/Spam"));
        v.push(String::from_str("[Gmail]/Trash"));
        v.push(String::from_str("[Gmail]/All Mail"));
        v.push(String::from_str("[Gmail]/Drafts"));
        proof {
            assert(is_gmail_ignored(str_views(v@)));
            assert(str_views(v@) =~= default_ignored_of(name@));
        }
    } else if crate::text::contains_chars(&name_l, &outlook) || crate::text::contains_chars(
        &name_l,
        &hotmail,
    ) {
        v.push(String::from_str("Junk"));
        v.push(String::from_str("Deleted Items"));
        v.push(String::from_str("Drafts"));
        proof {
            assert(is_outlook_ignored(str_views(v@)));
            assert(str_views(v@) =~= default_ignored_of(name@));
        }
    } else {
        v.push(String::from_str("Spam"));
        v.push(String::from_str("Trash"));
        v.push(String::from_str("Junk"));
        v.push(String::from_str("Drafts"));
        proof {
            assert(is_generic_ignored(str_views(v@)));
            assert(str_views(v@) =~= default_ignored_of(name@));
        }
    }
    v
}

/// The value under a key in a key/value list: the last entry wins, as a
/// map filled by repeated insertion would have it.
pub open spec fn lookup_last(m: Seq<(Seq<char>, Seq<char>)>, key: Seq<char>) -> Option<Seq<char>>
    decreases m.len(),
{
    if m.len() == 0 {
        None
    } else if m.last().0 == key {
        Some(m.last().1)
    } else {
        lookup_last(m.drop_last(), key)
    }
}

/// The key/value views of a pair list.
pub open spec fn pair_views(v: Seq<(String, String)>) -> Seq<(Seq<char>, Seq<char>)> {
    v.map_values(|p: (String, String)| (p.0@, p.1@))
}

/// Look a key up in a key/value list; the last entry wins.
pub fn assoc_get<'a>(m: &'a Vec<(String, String)>, key: &str) -> (r: Option<&'a String>)
    ensures
        match r {
            Some(v) => lookup_last(pair_views(m@), key@) == Some(v@),
            None => lookup_last(pair_views(m@), key@) is None,
        },
{
    let n: usize = m.len();
    let kc = chars_of(key);
    let mut i: usize = n;
    proof {
        assert(pair_views(m@).take(n as int) =~= pair_views(m@));
    }
    while i > 0
        invariant
            m@.len() == n,
            kc@ == key@,
            0 <= i <= n,
            lookup_last(pair_views(m@), key@) == lookup_last(pair_views(m@).take(i as int), key@),
        decreases i,
    {
        proof {
            assert(pair_views(m@).take(i as int).last() == pair_views(m@)[i - 1]);
            assert(pair_views(m@).take(i as int).drop_last() =~= pair_views(m@).take(i - 1));
        }
        let ec = chars_of(m[i - 1].0.as_str());
        if crate::text::eq_chars(&ec, &kc) {
            return Some(&m[i - 1].1);
        }
        i -= 1;
    }
    proof {
        assert(pair_views(m@).take(0).len() == 0);
    }
    None
}

/// Whether a key/value list builds a profile: both a name and a path are
/// present.
pub open spec fn profile_buildable(m: Seq<(Seq<char>, Seq<char>)>) -> bool {
    lookup_last(m, "name"@) is Some && lookup_last(m, "path"@) is Some
}

/// The profile a key/value section describes, over an already-known base
/// directory: a relative path (the default) is joined under the base.
pub open spec fn built_profile_path(
    m: Seq<(Seq<char>, Seq<char>)>,
    base_dir: Seq<char>,
) -> Seq<char> {
    let path = match lookup_last(m, "path"@) {
        Some(p) => p,
        None => Seq::empty(),
    };
    let relative = match lookup_last(m, "isrelative"@) {
        Some(v) => v == "1"@,
        None => true,
    };
    if relative {
        base_dir + "/"@ + path
    } else {
        path
    }
}

/// Build a profile record from one section's key/value pairs, or nothing
/// when name or path is missing.
pub fn build_profile_from_map(m: &Vec<(String, String)>, base_dir: &str) -> (r: Option<
    ThunderbirdProfile,
>)
    ensures
        (r is Some) <==> profile_buildable(pair_views(m@)),
        r matches Some(p) ==> {
            &&& Some(p.name@) == lookup_last(pair_views(m@), "name"@)
            &&& p.path@ == built_profile_path(pair_views(m@), base_dir@)
            &&& p.is_default == (lookup_last(pair_views(m@), "default"@) == Some("1"@))
        },
{
    proof {
        reveal_strlit("name");
        reveal_strlit("path");
        reveal_strlit("isrelative");
        reveal_strlit("default");
        reveal_strlit("1");
    }
    let name = match assoc_get(m, "name") {
        Some(v) => v.clone(),
        None => {
            return None;
        },
    };
    let path_val = match assoc_get(m, "path") {
        Some(v) => v.clone(),
        None => {
            return None;
        },
    };
    let one = String::from_str("1");
    let relative = match assoc_get(m, "isrelative") {
        Some(v) => v.eq(&one),
        None => true,
    };
    let is_default = match assoc_get(m, "default") {
        Some(v) => v.eq(&one),
        None => false,
    };
    let path: String = if relative {
        let mut v: Vec<char> = Vec::new();
        crate::naming::append_str_chars(&mut v, base_dir);
        crate::naming::append_str_chars(&mut v, "/");
        crate::naming::append_str_chars(&mut v, path_val.as_str());
        string_from_chars(&v)
    } else {
        path_val
    };
    Some(ThunderbirdProfile { name, path, is_default })
}

/// The name, endpoint and directory lines of one account block.
pub open spec fn block_head(a: Account) -> Seq<char> {
    "  - name: \""@ + a.name@ + "\"\n"@ + "    server: \""@ + a.server@ + "\"\n"@ + "    port: "@
        + crate::text::dec_digits(a.port as nat) + "\n"@ + "    username: \""@ + a.username@
        + "\"\n"@ + "    export_directory: \""@ + a.export_directory@ + "\"\n"@
        + "    ignored_folders:\n"@
}

/// The policy lines of one account block.
pub open spec fn block_flags(a: Account) -> Seq<char> {
    "    quote_depth: "@ + crate::text::dec_digits(a.quote_depth as nat) + "\n"@
        + "    skip_existing: "@ + bool_text(a.skip_existing) + "\n"@ + "    collect_contacts: "@
        + bool_text(a.collect_contacts) + "\n"@ + "    skip_signature_images: "@ + bool_text(
        a.skip_signature_images,
    ) + "\n"@ + "    delete_after_export: "@ + bool_text(a.delete_after_export) + "\n"@ + "\n"@
}

/// One generated configuration block per account; the exact text the
/// import writes.
pub open spec fn account_yaml_block(a: Account) -> Seq<char> {
    block_head(a) + folder_lines(str_views(a.ignored_folders@)) + block_flags(a)
}

/// The text of a boolean in generated configuration.
pub open spec fn bool_text(b: bool) -> Seq<char> {
    if b {
        "true"@
    } else {
        "false"@
    }
}

/// One quoted list line per ignored folder.
pub open spec fn folder_lines(folders: Seq<Seq<char>>) -> Seq<char>
    decreases folders.len(),
{
    if folders.len() == 0 {
        Seq::empty()
    } else {
        folder_lines(folders.drop_last()) + "      - \""@ + folders.last() + "\"\n"@
    }
}

/// The environment-variable reminder line for one account.
pub open spec fn env_reminder_line(a: Account) -> Seq<char> {
    "# "@ + upper_of(a.name@).map_values(|c: char| if c == ' ' { '_' } else { c })
        + "_PASSWORD=your_password\n"@
}

/// The generated account blocks, in order.
pub open spec fn yaml_blocks(accounts: Seq<Account>) -> Seq<char>
    decreases accounts.len(),
{
    if accounts.len() == 0 {
        Seq::empty()
    } else {
        yaml_blocks(accounts.drop_last()) + account_yaml_block(accounts.last())
    }
}

/// The generated reminder lines, in order.
pub open spec fn reminder_lines(accounts: Seq<Account>) -> Seq<char>
    decreases accounts.len(),
{
    if accounts.len() == 0 {
        Seq::empty()
    } else {
        reminder_lines(accounts.drop_last()) + env_reminder_line(accounts.last())
    }
}

/// The whole generated accounts file.
pub open spec fn accounts_yaml_text(accounts: Seq<Account>) -> Seq<char> {
    "# Auto-generated from Thunderbird configuration\n"@
        + "# Review and adjust settings as needed\n"@
        + "# Passwords must be added to .env file\n\n"@ + "accounts:\n"@ + yaml_blocks(accounts)
        + "# Add passwords to .env file:\n"@ + reminder_lines(accounts)
}

fn append_bool(out: &mut Vec<char>, b: bool)
    ensures
        final(out)@ == old(out)@ + bool_text(b),
{
    if b {
        crate::naming::append_str_chars(out, "true");
    } else {
        crate::naming::append_str_chars(out, "false");
    }
}

fn append_folder_lines(out: &mut Vec<char>, folders: &Vec<String>)
    ensures
        final(out)@ == old(out)@ + folder_lines(str_views(folders@)),
{
    let n: usize = folders.len();
    let mut i: usize = 0;
    proof {
        assert(folder_lines(str_views(folders@).take(0)) =~= Seq::<char>::empty());
        assert(out@ + folder_lines(str_views(folders@).take(0)) =~= out@);
    }
    while i < n
        invariant
            folders@.len() == n,
            0 <= i <= n,
            out@ == old(out)@ + folder_lines(str_views(folders@).take(i as int)),
        decreases n - i,
    {
        proof {
            assert(str_views(folders@).take(i + 1).drop_last() =~= str_views(folders@).take(
                i as int,
            ));
            assert(str_views(folders@).take(i + 1).last() == folders@[i as int]@);
        }
        crate::naming::append_str_chars(out, "      - \"");
        crate::naming::append_str_chars(out, folders[i].as_str());
        crate::naming::append_str_chars(out, "\"\n");
        proof {
            assert(out@ =~= old(out)@ + folder_lines(str_views(folders@).take(i + 1)));
        }
        i += 1;
    }
    proof {
        assert(str_views(folders@).take(n as int) =~= str_views(folders@));
    }
}

fn append_block_head(out: &mut Vec<char>, a: &Account)
    ensures
        final(out)@ == old(out)@ + block_head(*a),
{
    crate::naming::append_str_chars(out, "  - name: \"");
    crate::naming::append_str_chars(out, a.name.as_str());
    crate::naming::append_str_chars(out, "\"\n");
    crate::naming::append_str_chars(out, "    server: \"");
    crate::naming::append_str_chars(out, a.server.as_str());
    crate::naming::append_str_chars(out, "\"\n");
    crate::naming::append_str_chars(out, "    port: ");
    let mut d = crate::text::u64_to_chars(a.port as u64);
    out.append(&mut d);
    crate::naming::append_str_chars(out, "\n");
    crate::naming::append_str_chars(out, "    username: \"");
    crate::naming::append_str_chars(out, a.username.as_str());
    crate::naming::append_str_chars(out, "\"\n");
    crate::naming::append_str_chars(out, "    export_directory: \"");
    crate::naming::append_str_chars(out, a.export_directory.as_str());
    crate::naming::append_str_chars(out, "\"\n");
    crate::naming::append_str_chars(out, "    ignored_folders:\n");
    proof {
        assert(out@ =~= old(out)@ + block_head(*a));
    }
}

#[verifier::rlimit(60)]
#[verifier::spinoff_prover]
fn append_block_flags(out: &mut Vec<char>, a: &Account)
    ensures
        final(out)@ == old(out)@ + block_flags(*a),
{
    crate::naming::append_str_chars(out, "    quote_depth: ");
    let mut q = crate::text::u64_to_chars(a.quote_depth as u64);
    out.append(&mut q);
    crate::naming::append_str_chars(out, "\n");
    crate::naming::append_str_chars(out, "    skip_existing: ");
    append_bool(out, a.skip_existing);
    crate::naming::append_str_chars(out, "\n");
    crate::naming::append_str_chars(out, "    collect_contacts: ");
    append_bool(out, a.collect_contacts);
    crate::naming::append_str_chars(out, "\n");
    crate::naming::append_str_chars(out, "    skip_signature_images: ");
    append_bool(out, a.skip_signature_images);
    crate::naming::append_str_chars(out, "\n");
    crate::naming::append_str_chars(out, "    delete_after_export: ");
    append_bool(out, a.delete_after_export);
    crate::naming::append_str_chars(out, "\n");
    crate::naming::append_str_chars(out, "\n");
    proof {
        assert(out@ =~= old(out)@ + block_flags(*a));
    }
}

fn append_account_block(out: &mut Vec<char>, a: &Account)
    ensures
        final(out)@ == old(out)@ + account_yaml_block(*a),
{
    append_block_head(out, a);
    append_folder_lines(out, &a.ignored_folders);
    append_block_flags(out, a);
    proof {
        assert(out@ =~= old(out)@ + account_yaml_block(*a));
    }
}

/// The environment key for an account name: uppercased, spaces as
/// underscores.
fn env_key_chars(name: &str) -> (r: Vec<char>)
    ensures
        r@ == upper_of(name@).map_values(|c: char| if c == ' ' { '_' } else { c }),
{
    let up = uppercase_str(name);
    let uc = chars_of(up.as_str());
    let n: usize = uc.len();
    let mut out: Vec<char> = Vec::new();
    let mut i: usize = 0;
    while i < n
        invariant
            uc@.len() == n,
            uc@ == upper_of(name@),
            0 <= i <= n,
            out@ =~= upper_of(name@).map_values(|c: char| if c == ' ' { '_' } else { c }).take(
                i as int,
            ),
        decreases n - i,
    {
        let c = uc[i];
        if c == ' ' {
            out.push('_');
        } else {
            out.push(c);
        }
        assert(out@ =~= upper_of(name@).map_values(|c: char| if c == ' ' { '_' } else { c }).take(
            i + 1,
        ));
        i += 1;
    }
    proof {
        assert(out@ =~= upper_of(name@).map_values(|c: char| if c == ' ' { '_' } else { c }));
    }
    out
}

/// Generate the accounts configuration text for a list of imported
/// accounts, with the password reminders at the end.
pub fn generate_accounts_yaml(accounts: &Vec<Account>) -> (r: String)
    ensures
        r@ == accounts_yaml_text(accounts@),
{
    let mut out: Vec<char> = Vec::new();
    crate::naming::append_str_chars(&mut out, "# Auto-generated from Thunderbird configuration\n");
    crate::naming::append_str_chars(&mut out, "# Review and adjust settings as needed\n");
    crate::naming::append_str_chars(&mut out, "# Passwords must be added to .env file\n\n");
    crate::naming::append_str_chars(&mut out, "accounts:\n");
    let ghost head = out@;
    let n: usize = accounts.len();
    let mut i: usize = 0;
    proof {
        assert(yaml_blocks(accounts@.take(0)) =~= Seq::<char>::empty());
        assert(out@ =~= head + yaml_blocks(accounts@.take(0)));
    }
    while i < n
        invariant
            accounts@.len() == n,
            0 <= i <= n,
            out@ == head + yaml_blocks(accounts@.take(i as int)),
        decreases n - i,
    {
        proof {
            assert(accounts@.take(i + 1).drop_last() =~= accounts@.take(i as int));
            assert(accounts@.take(i + 1).last() == accounts@[i as int]);
        }
        append_account_block(&mut out, &accounts[i]);
        proof {
            assert(out@ =~= head + yaml_blocks(accounts@.take(i + 1)));
        }
        i += 1;
    }
    proof {
        assert(accounts@.take(n as int) =~= accounts@);
    }
    crate::naming::append_str_chars(&mut out, "# Add passwords to .env file:\n");
    let ghost head2 = out@;
    let mut j: usize = 0;
    proof {
        assert(reminder_lines(accounts@.take(0)) =~= Seq::<char>::empty());
        assert(out@ =~= head2 + reminder_lines(accounts@.take(0)));
    }
    while j < n
        invariant
            accounts@.len() == n,
            0 <= j <= n,
            out@ == head2 + reminder_lines(accounts@.take(j as int)),
        decreases n - j,
    {
        proof {
            assert(accounts@.take(j + 1).drop_last() =~= accounts@.take(j as int));
            assert(accounts@.take(j + 1).last() == accounts@[j as int]);
        }
        crate::naming::append_str_chars(&mut out, "# ");
        let mut key = env_key_chars(accounts[j].name.as_str());
        out.append(&mut key);
        crate::naming::append_str_chars(&mut out, "_PASSWORD=your_password\n");
        proof {
            assert(out@ =~= head2 + reminder_lines(accounts@.take(j + 1)));
        }
        j += 1;
    }
    proof {
        assert(accounts@.take(n as int) =~= accounts@);
    }
    string_from_chars(&out)
}

/// The environment key for an account: uppercased, with spaces and dashes
/// as underscores.
pub open spec fn env_key_of(name: Seq<char>) -> Seq<char> {
    upper_of(name).map_values(|c: char| if c == ' ' || c == '-' { '_' } else { c })
}

fn env_key_full(name: &str) -> (r: Vec<char>)
    ensures
        r@ == env_key_of(name@),
{
    let up = uppercase_str(name);
    let uc = chars_of(up.as_str());
    let n: usize = uc.len();
    let mut out: Vec<char> = Vec::new();
    let mut i: usize = 0;
    while i < n
        invariant
            uc@.len() == n,
            uc@ == upper_of(name@),
            0 <= i <= n,
            out@ =~= env_key_of(name@).take(i as int),
        decreases n - i,
    {
        let c = uc[i];
        if c == ' ' || c == '-' {
            out.push('_');
        } else {
            out.push(c);
        }
        assert(out@ =~= env_key_of(name@).take(i + 1));
        i += 1;
    }
    proof {
        assert(out@ =~= env_key_of(name@));
    }
    out
}

/// The template lines for one account: a password line, and an
/// app-password line when the server names the webmail provider.
pub open spec fn template_line(a: Account) -> Seq<char> {
    env_key_of(a.name@) + "_PASSWORD=your_password\n"@ + if seq_has(a.server@, "gmail"@) {
        env_key_of(a.name@) + "_APPLICATION_PASSWORD=your_app_password\n"@
    } else {
        Seq::empty()
    }
}

/// The template lines of all accounts, in order.
pub open spec fn template_lines(accounts: Seq<Account>) -> Seq<char>
    decreases accounts.len(),
{
    if accounts.len() == 0 {
        Seq::empty()
    } else {
        template_lines(accounts.drop_last()) + template_line(accounts.last())
    }
}

/// The whole generated environment template.
pub open spec fn env_template_text(accounts: Seq<Account>) -> Seq<char> {
    "# Email passwords\n"@ + "# Replace 'your_password' with actual passwords\n"@
        + "# For Gmail with 2FA, use App Password\n\n"@ + template_lines(accounts)
}

/// Generate the environment-file template for a list of accounts.
pub fn generate_env_template(accounts: &Vec<Account>) -> (r: String)
    ensures
        r@ == env_template_text(accounts@),
{
    let mut out: Vec<char> = Vec::new();
    crate::naming::append_str_chars(&mut out, "# Email passwords\n");
    crate::naming::append_str_chars(&mut out, "# Replace 'your_password' with actual passwords\n");
    crate::naming::append_str_chars(&mut out, "# For Gmail with 2FA, use App Password\n\n");
    let ghost head = out@;
    let n: usize = accounts.len();
    let mut i: usize = 0;
    proof {
        assert(template_lines(accounts@.take(0)) =~= Seq::<char>::empty());
        assert(out@ =~= head + template_lines(accounts@.take(0)));
    }
    while i < n
        invariant
            accounts@.len() == n,
            0 <= i <= n,
            out@ == head + template_lines(accounts@.take(i as int)),
        decreases n - i,
    {
        proof {
            assert(accounts@.take(i + 1).drop_last() =~= accounts@.take(i as int));
            assert(accounts@.take(i + 1).last() == accounts@[i as int]);
        }
        let a = &accounts[i];
        let mut key = env_key_full(a.name.as_str());
        out.append(&mut key);
        crate::naming::append_str_chars(&mut out, "_PASSWORD=your_password\n");
        let server_c = chars_of(a.server.as_str());
        let gm = chars_of("gmail");
        if crate::text::contains_chars(&server_c, &gm) {
            let mut key2 = env_key_full(a.name.as_str());
            out.append(&mut key2);
            crate::naming::append_str_chars(&mut out, "_APPLICATION_PASSWORD=your_app_password\n");
        }
        proof {
            assert(out@ =~= head + template_lines(accounts@.take(i + 1)));
        }
        i += 1;
    }
    proof {
        assert(accounts@.take(n as int) =~= accounts@);
    }
    string_from_chars(&out)
}

/// The server/password views of extracted credentials.
pub open spec fn pw_views(v: Seq<ThunderbirdPassword>) -> Seq<(Seq<char>, Seq<char>)> {
    v.map_values(|p: ThunderbirdPassword| (p.imap_server@, p.password@))
}

/// The password of the first credential whose server matches, ASCII
/// case-insensitively.
pub open spec fn find_password(
    pws: Seq<(Seq<char>, Seq<char>)>,
    server: Seq<char>,
) -> Option<Seq<char>>
    decreases pws.len(),
{
    if pws.len() == 0 {
        None
    } else if lower_ascii(pws[0].0) == lower_ascii(server) {
        Some(pws[0].1)
    } else {
        find_password(pws.skip(1), server)
    }
}

/// A line list with `line` at the first entry beginning `key=`, or with
/// `line` appended when no entry does.
pub open spec fn upsert_line(
    lines: Seq<Seq<char>>,
    keyeq: Seq<char>,
    line: Seq<char>,
) -> Seq<Seq<char>>
    decreases lines.len(),
{
    if lines.len() == 0 {
        seq![line]
    } else if crate::text::has_prefix(lines[0], keyeq) {
        seq![line] + lines.skip(1)
    } else {
        seq![lines[0]] + upsert_line(lines.skip(1), keyeq, line)
    }
}

/// The merged line list and the number of passwords written, over all
/// accounts in order: an account without a matching credential is left
/// out, one with a match has its `KEY=password` line replaced or appended.
pub open spec fn merged_env(
    accounts: Seq<Account>,
    pws: Seq<(Seq<char>, Seq<char>)>,
    lines: Seq<Seq<char>>,
) -> (Seq<Seq<char>>, int)
    decreases accounts.len(),
{
    if accounts.len() == 0 {
        (lines, 0)
    } else {
        let a = accounts[0];
        let step = match find_password(pws, a.server@) {
            Some(pw) => (
                upsert_line(lines, env_key_of(a.name@) + "="@, env_key_of(a.name@) + "="@ + pw),
                1int,
            ),
            None => (lines, 0int),
        };
        let rest = merged_env(accounts.skip(1), pws, step.0);
        (rest.0, step.1 + rest.1)
    }
}

fn find_password_exec<'a>(pws: &'a Vec<ThunderbirdPassword>, server: &str) -> (r: Option<
    &'a String,
>)
    ensures
        match r {
            Some(p) => find_password(pw_views(pws@), server@) == Some(p@),
            None => find_password(pw_views(pws@), server@) is None,
        },
{
    let n: usize = pws.len();
    let sc = chars_of(server);
    proof {
        assert(pw_views(pws@).skip(0) =~= pw_views(pws@));
    }
    let mut i: usize = 0;
    while i < n
        invariant
            pws@.len() == n,
            sc@ == server@,
            0 <= i <= n,
            find_password(pw_views(pws@), server@) == find_password(
                pw_views(pws@).skip(i as int),
                server@,
            ),
        decreases n - i,
    {
        proof {
            assert(pw_views(pws@).skip(i as int)[0] == pw_views(pws@)[i as int]);
            assert(pw_views(pws@).skip(i as int).skip(1) =~= pw_views(pws@).skip(i + 1));
        }
        let pc = chars_of(pws[i].imap_server.as_str());
        if crate::text::eq_ignore_ascii_case_chars(&pc, &sc) {
            return Some(&pws[i].password);
        }
        i += 1;
    }
    proof {
        assert(pw_views(pws@).skip(n as int).len() == 0);
    }
    None
}

fn upsert_line_exec(lines: &mut Vec<String>, keyeq: &Vec<char>, line: String)
    ensures
        str_views(final(lines)@) == upsert_line(str_views(old(lines)@), keyeq@, line@),
{
    let n: usize = lines.len();
    proof {
        assert(str_views(lines@).skip(0) =~= str_views(lines@));
        assert(str_views(lines@).take(0) + upsert_line(str_views(lines@), keyeq@, line@)
            =~= upsert_line(str_views(lines@), keyeq@, line@));
    }
    let mut i: usize = 0;
    while i < n
        invariant
            lines@.len() == n,
            lines@ == old(lines)@,
            0 <= i <= n,
            forall|j: int|
                0 <= j < i ==> !crate::text::has_prefix(str_views(lines@)[j], keyeq@),
            upsert_line(str_views(lines@), keyeq@, line@) == str_views(lines@).take(i as int)
                + upsert_line(str_views(lines@).skip(i as int), keyeq@, line@),
        decreases n - i,
    {
        proof {
            assert(str_views(lines@).skip(i as int)[0] == str_views(lines@)[i as int]);
            assert(str_views(lines@).skip(i as int).skip(1) =~= str_views(lines@).skip(i + 1));
        }
        let lc = chars_of(lines[i].as_str());
        if crate::text::starts_with_chars(&lc, keyeq) {
            let ghost before = lines@;
            lines[i] = line;
            proof {
                assert(str_views(lines@) =~= str_views(before).update(i as int, lines@[i as int]@));
                assert(upsert_line(str_views(before).skip(i as int), keyeq@, line@) =~= seq![line@]
                    + str_views(before).skip(i + 1));
                assert(str_views(lines@) =~= str_views(before).take(i as int) + (seq![line@]
                    + str_views(before).skip(i + 1)));
            }
            return ;
        }
        proof {
            assert(upsert_line(str_views(lines@).skip(i as int), keyeq@, line@) =~= seq![
                str_views(lines@)[i as int],
            ] + upsert_line(str_views(lines@).skip(i + 1), keyeq@, line@));
            assert(str_views(lines@).take(i as int) + (seq![str_views(lines@)[i as int]]
                + upsert_line(str_views(lines@).skip(i + 1), keyeq@, line@)) =~= str_views(
                lines@,
            ).take(i + 1) + upsert_line(str_views(lines@).skip(i + 1), keyeq@, line@));
        }
        i += 1;
    }
    let ghost before = lines@;
    proof {
        assert(str_views(before).skip(n as int).len() == 0);
        assert(upsert_line(str_views(before).skip(n as int), keyeq@, line@) =~= seq![line@]);
    }
    lines.push(line);
    proof {
        assert(str_views(lines@) =~= str_views(before).take(n as int) + seq![
            str_views(lines@)[n as int],
        ]);
    }
}

/// Merge extracted passwords into environment-file lines: for each account
/// with a matching credential, set or append its `KEY=password` line.
/// Returns how many passwords were written.
pub fn merge_env_lines(
    accounts: &Vec<Account>,
    passwords: &Vec<ThunderbirdPassword>,
    lines: &mut Vec<String>,
) -> (written: usize)
    ensures
        str_views(final(lines)@) == merged_env(
            accounts@,
            pw_views(passwords@),
            str_views(old(lines)@),
        ).0,
        written == merged_env(accounts@, pw_views(passwords@), str_views(old(lines)@)).1,
{
    let n: usize = accounts.len();
    let mut written: usize = 0;
    let mut i: usize = 0;
    proof {
        assert(accounts@.skip(0) =~= accounts@);
    }
    while i < n
        invariant
            accounts@.len() == n,
            0 <= i <= n,
            written <= i,
            merged_env(accounts@, pw_views(passwords@), str_views(old(lines)@)).0 == merged_env(
                accounts@.skip(i as int),
                pw_views(passwords@),
                str_views(lines@),
            ).0,
            merged_env(accounts@, pw_views(passwords@), str_views(old(lines)@)).1 == written
                + merged_env(accounts@.skip(i as int), pw_views(passwords@), str_views(lines@)).1,
        decreases n - i,
    {
        proof {
            assert(accounts@.skip(i as int)[0] == accounts@[i as int]);
            assert(accounts@.skip(i as int).skip(1) =~= accounts@.skip(i + 1));
        }
        let a = &accounts[i];
        match find_password_exec(passwords, a.server.as_str()) {
            Some(pw) => {
                let mut keyeq = env_key_full(a.name.as_str());
                keyeq.push('=');
                let mut linev = crate::classify::copy_range_chars(&keyeq, 0, keyeq.len());
                let mut pwc = chars_of(pw.as_str());
                linev.append(&mut pwc);
                proof {
                    reveal_strlit("=");
                    assert(keyeq@ =~= env_key_of(a.name@) + "="@);
                    assert(linev@ =~= env_key_of(a.name@) + "="@ + pw@);
                }
                upsert_line_exec(lines, &keyeq, string_from_chars(&linev));
                written += 1;
            },
            None => {},
        }
        i += 1;
    }
    proof {
        assert(accounts@.skip(n as int).len() == 0);
    }
    written
}

/// One preference entry: `user_pref("mail.server.<id>.<prop>", <value>);`.
#[derive(Debug)]
pub struct PrefEntry {
    pub server_id: String,
    pub prop: String,
    pub value: String,
}

/// The id/prop/value views of a preference list.
pub open spec fn entry_views(v: Seq<PrefEntry>) -> Seq<(Seq<char>, Seq<char>, Seq<char>)> {
    v.map_values(|e: PrefEntry| (e.server_id@, e.prop@, e.value@))
}

/// The literal that opens a server preference line.
pub open spec fn pref_prefix() -> Seq<char> {
    "user_pref(\"mail.server."@
}

/// Index of the first non-whitespace character at or after `from`.
pub open spec fn skip_wsp_from(h: Seq<char>, from: int) -> int
    decreases h.len() - from,
{
    if from < 0 || from >= h.len() {
        h.len() as int
    } else if crate::text::is_wsp(h[from]) {
        skip_wsp_from(h, from + 1)
    } else {
        from
    }
}

/// Index of the first `"` or `)` at or after `from`.
pub open spec fn value_end_from(h: Seq<char>, from: int) -> int
    decreases h.len() - from,
{
    if from < 0 || from >= h.len() {
        h.len() as int
    } else if h[from] == '"' || h[from] == ')' {
        from
    } else {
        value_end_from(h, from + 1)
    }
}

/// The id of a preference match at `i` ends here (the dot).
pub open spec fn pref_id_end(h: Seq<char>, i: int) -> int {
    crate::classify::find_char_from(h, i + pref_prefix().len(), '.')
}

/// The property of a preference match at `i` ends here (the quote).
pub open spec fn pref_prop_end(h: Seq<char>, i: int) -> int {
    crate::classify::find_char_from(h, pref_id_end(h, i) + 1, '"')
}

/// The value of a preference match at `i` starts here.
pub open spec fn pref_value_start(h: Seq<char>, i: int) -> int {
    skip_wsp_from(h, pref_prop_end(h, i) + 2)
}

/// The value of a match at `i` is quoted.
pub open spec fn pref_value_quoted(h: Seq<char>, i: int) -> bool {
    pref_value_start(h, i) < h.len() && h[pref_value_start(h, i)] == '"'
}

/// Where the value text of a match at `i` begins.
pub open spec fn pref_vtext_start(h: Seq<char>, i: int) -> int {
    if pref_value_quoted(h, i) {
        pref_value_start(h, i) + 1
    } else {
        pref_value_start(h, i)
    }
}

/// Where the value text of a match at `i` ends.
pub open spec fn pref_vtext_end(h: Seq<char>, i: int) -> int {
    value_end_from(h, pref_vtext_start(h, i))
}

/// A whole preference line matches at `i`: the opening literal, a non-empty
/// id up to a dot, a non-empty property up to `",`, optional whitespace, a
/// non-empty value — quoted and then closed by `");`, or bare and closed by
/// `);`.
pub open spec fn pref_match_at(h: Seq<char>, i: int) -> bool {
    let a = i + pref_prefix().len();
    let d = pref_id_end(h, i);
    let q = pref_prop_end(h, i);
    let e = pref_vtext_end(h, i);
    &&& crate::text::occurs_at(h, pref_prefix(), i)
    &&& a < d < h.len()
    &&& d + 1 < q < h.len()
    &&& q + 1 < h.len() && h[q + 1] == ','
    &&& e < h.len()
    &&& e > pref_vtext_start(h, i)
    &&& if pref_value_quoted(h, i) {
        h[e] == '"' && e + 2 < h.len() && h[e + 1] == ')' && h[e + 2] == ';'
    } else {
        pref_value_start(h, i) < h.len() && h[e] == ')' && e + 1 < h.len() && h[e + 1] == ';'
    }
}

/// Where scanning resumes after a match at `i`.
pub open spec fn pref_match_end(h: Seq<char>, i: int) -> int {
    if pref_value_quoted(h, i) {
        pref_vtext_end(h, i) + 3
    } else {
        pref_vtext_end(h, i) + 2
    }
}

/// The entry a match at `i` yields.
pub open spec fn pref_entry_at(h: Seq<char>, i: int) -> (Seq<char>, Seq<char>, Seq<char>) {
    (
        h.subrange(i + pref_prefix().len(), pref_id_end(h, i)),
        h.subrange(pref_id_end(h, i) + 1, pref_prop_end(h, i)),
        h.subrange(pref_vtext_start(h, i), pref_vtext_end(h, i)),
    )
}

/// All preference entries found scanning left to right from `i`.
pub open spec fn prefs_entries_from(h: Seq<char>, i: int) -> Seq<(Seq<char>, Seq<char>, Seq<char>)>
    decreases h.len() - i,
{
    if i < 0 || i >= h.len() {
        Seq::empty()
    } else if pref_match_at(h, i) && i < pref_match_end(h, i) <= h.len() {
        seq![pref_entry_at(h, i)] + prefs_entries_from(h, pref_match_end(h, i))
    } else {
        prefs_entries_from(h, i + 1)
    }
}

proof fn lemma_skip_wsp_bounds(h: Seq<char>, from: int)
    requires
        0 <= from,
    ensures
        from <= skip_wsp_from(h, from) <= h.len() || (from > h.len() && skip_wsp_from(h, from)
            == h.len()),
        skip_wsp_from(h, from) >= 0,
        from <= h.len() ==> from <= skip_wsp_from(h, from) <= h.len(),
    decreases h.len() - from,
{
    if 0 <= from < h.len() && crate::text::is_wsp(h[from]) {
        lemma_skip_wsp_bounds(h, from + 1);
    }
}

proof fn lemma_value_end_bounds(h: Seq<char>, from: int)
    requires
        0 <= from,
    ensures
        value_end_from(h, from) >= 0,
        from <= h.len() ==> from <= value_end_from(h, from) <= h.len(),
    decreases h.len() - from,
{
    if 0 <= from < h.len() && !(h[from] == '"' || h[from] == ')') {
        lemma_value_end_bounds(h, from + 1);
    }
}

fn skip_wsp_exec(h: &Vec<char>, from: usize) -> (r: usize)
    requires
        from <= h@.len(),
    ensures
        r == skip_wsp_from(h@, from as int),
{
    let n: usize = h.len();
    let mut j: usize = from;
    while j < n
        invariant
            h@.len() == n,
            from <= j <= n,
            skip_wsp_from(h@, from as int) == skip_wsp_from(h@, j as int),
        decreases n - j,
    {
        if !crate::text::is_wsp_char(h[j]) {
            return j;
        }
        j += 1;
    }
    n
}

fn value_end_exec(h: &Vec<char>, from: usize) -> (r: usize)
    requires
        from <= h@.len(),
    ensures
        r == value_end_from(h@, from as int),
{
    let n: usize = h.len();
    let mut j: usize = from;
    while j < n
        invariant
            h@.len() == n,
            from <= j <= n,
            value_end_from(h@, from as int) == value_end_from(h@, j as int),
        decreases n - j,
    {
        if h[j] == '"' || h[j] == ')' {
            return j;
        }
        j += 1;
    }
    n
}

/// Try to read one preference line at `i`; on success give the entry and
/// where scanning resumes.
fn pref_try_match(h: &Vec<char>, pfx: &Vec<char>, i: usize) -> (r: Option<(usize, PrefEntry)>)
    requires
        pfx@ == pref_prefix(),
        i < h@.len(),
    ensures
        match r {
            Some(p) => {
                &&& pref_match_at(h@, i as int)
                &&& p.0 == pref_match_end(h@, i as int)
                &&& i < p.0 <= h@.len()
                &&& (p.1.server_id@, p.1.prop@, p.1.value@) == pref_entry_at(h@, i as int)
            },
            None => !pref_match_at(h@, i as int),
        },
{
    let n: usize = h.len();
    if pfx.len() > n - i {
        return None;
    }
    if !crate::text::matches_at(h, pfx, i) {
        return None;
    }
    let a: usize = i + pfx.len();
    let d = crate::classify::find_char_exec(h, a, '.');
    proof {
        crate::classify::lemma_find_char_bounds(h@, a as int, '.');
    }
    if !(d < n && d > a) {
        return None;
    }
    if d + 1 > n {
        return None;
    }
    let q = crate::classify::find_char_exec(h, d + 1, '"');
    proof {
        crate::classify::lemma_find_char_bounds(h@, d + 1, '"');
    }
    if !(q < n && q > d + 1) {
        return None;
    }
    if !(q + 1 < n && h[q + 1] == ',') {
        return None;
    }
    let w = skip_wsp_exec(h, q + 2);
    proof {
        lemma_skip_wsp_bounds(h@, q + 2);
    }
    let quoted = w < n && h[w] == '"';
    let vs: usize = if quoted {
        w + 1
    } else {
        w
    };
    if vs > n {
        return None;
    }
    let e = value_end_exec(h, vs);
    proof {
        lemma_value_end_bounds(h@, vs as int);
    }
    if !(e < n && e > vs) {
        return None;
    }
    if quoted {
        if !(h[e] == '"' && n - e > 2 && h[e + 1] == ')' && h[e + 2] == ';') {
            return None;
        }
    } else {
        if !(h[e] == ')' && n - e > 1 && h[e + 1] == ';') {
            return None;
        }
    }
    let id = crate::classify::copy_range_chars(h, a, d);
    let prop = crate::classify::copy_range_chars(h, d + 1, q);
    let value = crate::classify::copy_range_chars(h, vs, e);
    let end: usize = if quoted {
        e + 3
    } else {
        e + 2
    };
    let entry = PrefEntry {
        server_id: string_from_chars(&id),
        prop: string_from_chars(&prop),
        value: string_from_chars(&value),
    };
    Some((end, entry))
}

/// Scan a preferences file for server preference lines.
pub fn parse_prefs_entries(content: &str) -> (r: Vec<PrefEntry>)
    ensures
        entry_views(r@) == prefs_entries_from(content@, 0),
{
    let h = chars_of(content);
    proof {
        reveal_strlit("user_pref(\"mail.server.");
    }
    let pfx = chars_of("user_pref(\"mail.server.");
    let n: usize = h.len();
    let mut out: Vec<PrefEntry> = Vec::new();
    let mut pos: usize = 0;
    proof {
        assert(entry_views(out@) =~= Seq::<(Seq<char>, Seq<char>, Seq<char>)>::empty());
        assert(entry_views(out@) + prefs_entries_from(h@, 0) =~= prefs_entries_from(h@, 0));
    }
    while pos < n
        invariant
            h@.len() == n,
            h@ == content@,
            pfx@ == pref_prefix(),
            0 <= pos,
            prefs_entries_from(content@, 0) =~= entry_views(out@) + prefs_entries_from(
                h@,
                pos as int,
            ),
        decreases n - pos,
    {
        match pref_try_match(&h, &pfx, pos) {
            Some(p) => {
                let ghost prev = out@;
                let end = p.0;
                out.push(p.1);
                proof {
                    assert(entry_views(out@) =~= entry_views(prev).push(
                        pref_entry_at(h@, pos as int),
                    ));
                    assert(prefs_entries_from(h@, pos as int) =~= seq![
                        pref_entry_at(h@, pos as int),
                    ] + prefs_entries_from(h@, end as int));
                    assert((entry_views(prev) + seq![pref_entry_at(h@, pos as int)])
                        + prefs_entries_from(h@, end as int) =~= entry_views(prev) + (seq![
                        pref_entry_at(h@, pos as int),
                    ] + prefs_entries_from(h@, end as int)));
                }
                pos = end;
            },
            None => {
                pos = pos + 1;
            },
        }
    }
    proof {
        assert(prefs_entries_from(h@, pos as int) =~= Seq::<(Seq<char>, Seq<char>, Seq<char>)>::empty());
        assert(entry_views(out@) + Seq::<(Seq<char>, Seq<char>, Seq<char>)>::empty() =~= entry_views(
            out@,
        ));
    }
    out
}

/// The server ids named by a preference list, in order, with repeats.
pub open spec fn ids_of(es: Seq<(Seq<char>, Seq<char>, Seq<char>)>) -> Seq<Seq<char>> {
    es.map_values(|e: (Seq<char>, Seq<char>, Seq<char>)| e.0)
}

/// The property/value pairs of one server, in entry order.
pub open spec fn props_of(
    es: Seq<(Seq<char>, Seq<char>, Seq<char>)>,
    id: Seq<char>,
) -> Seq<(Seq<char>, Seq<char>)>
    decreases es.len(),
{
    if es.len() == 0 {
        Seq::empty()
    } else {
        props_of(es.drop_last(), id) + if es.last().0 == id {
            seq![(es.last().1, es.last().2)]
        } else {
            Seq::empty()
        }
    }
}

/// A server property, with later entries overriding earlier ones.
pub open spec fn prop_lookup(
    es: Seq<(Seq<char>, Seq<char>, Seq<char>)>,
    id: Seq<char>,
    key: Seq<char>,
) -> Option<Seq<char>> {
    lookup_last(props_of(es, id), key)
}

/// A server id describes an importable account: its type is `imap` and it
/// names a host.
pub open spec fn is_imap_server(es: Seq<(Seq<char>, Seq<char>, Seq<char>)>, id: Seq<char>) -> bool {
    prop_lookup(es, id, "type"@) == Some("imap"@) && prop_lookup(es, id, "hostname"@) is Some
}

/// The importable server ids among a candidate list, in order.
pub open spec fn imap_filter(
    es: Seq<(Seq<char>, Seq<char>, Seq<char>)>,
    ids: Seq<Seq<char>>,
) -> Seq<Seq<char>>
    decreases ids.len(),
{
    if ids.len() == 0 {
        Seq::empty()
    } else {
        imap_filter(es, ids.drop_last()) + if is_imap_server(es, ids.last()) {
            seq![ids.last()]
        } else {
            Seq::empty()
        }
    }
}

/// The importable server ids of a preference list, first occurrence first.
pub open spec fn imap_ids(es: Seq<(Seq<char>, Seq<char>, Seq<char>)>) -> Seq<Seq<char>> {
    imap_filter(es, crate::classify::dedup_first(ids_of(es)))
}

/// The account name a server gets: its `name` property, or `Account_<id>`.
pub open spec fn acct_name(es: Seq<(Seq<char>, Seq<char>, Seq<char>)>, id: Seq<char>) -> Seq<
    char,
> {
    match prop_lookup(es, id, "name"@) {
        Some(v) => v,
        None => "Account_"@ + id,
    }
}

/// The port a server gets: its parseable `port` property, or 993.
pub open spec fn acct_port(es: Seq<(Seq<char>, Seq<char>, Seq<char>)>, id: Seq<char>) -> u16 {
    match prop_lookup(es, id, "port"@) {
        Some(p) => match crate::text::parsed_u16(p) {
            Some(v) => v,
            None => 993,
        },
        None => 993,
    }
}

/// Every field of the account built for one importable server.
pub open spec fn good_prefs_account(
    es: Seq<(Seq<char>, Seq<char>, Seq<char>)>,
    id: Seq<char>,
    a: Account,
) -> bool {
    &&& Some(a.server@) == prop_lookup(es, id, "hostname"@)
    &&& a.username@ == (match prop_lookup(es, id, "userName"@) {
        Some(u) => u,
        None => Seq::<char>::empty(),
    })
    &&& a.port == acct_port(es, id)
    &&& a.name@ == acct_name(es, id)
    &&& a.password is None
    &&& a.export_directory@ == "./exports/"@ + sanitized_name(acct_name(es, id))
    &&& str_views(a.ignored_folders@) == default_ignored_of(acct_name(es, id))
    &&& a.quote_depth == 1
    &&& a.skip_existing
    &&& !a.collect_contacts
    &&& a.skip_signature_images
    &&& !a.delete_after_export
}

fn props_for_id(entries: &Vec<PrefEntry>, id: &String) -> (r: Vec<(String, String)>)
    ensures
        pair_views(r@) == props_of(entry_views(entries@), id@),
{
    let n: usize = entries.len();
    let mut out: Vec<(String, String)> = Vec::new();
    let idc = chars_of(id.as_str());
    let mut i: usize = 0;
    proof {
        assert(props_of(entry_views(entries@).take(0), id@) =~= Seq::<(Seq<char>, Seq<char>)>::empty());
        assert(pair_views(out@) =~= props_of(entry_views(entries@).take(0), id@));
    }
    while i < n
        invariant
            entries@.len() == n,
            idc@ == id@,
            0 <= i <= n,
            pair_views(out@) == props_of(entry_views(entries@).take(i as int), id@),
        decreases n - i,
    {
        proof {
            assert(entry_views(entries@).take(i + 1).drop_last() =~= entry_views(entries@).take(
                i as int,
            ));
            assert(entry_views(entries@).take(i + 1).last() == entry_views(entries@)[i as int]);
        }
        let ec = chars_of(entries[i].server_id.as_str());
        if crate::text::eq_chars(&ec, &idc) {
            let ghost prev = out@;
            out.push((entries[i].prop.clone(), entries[i].value.clone()));
            proof {
                assert(pair_views(out@) =~= pair_views(prev).push(
                    (entries@[i as int].prop@, entries@[i as int].value@),
                ));
                assert(pair_views(out@) =~= props_of(entry_views(entries@).take(i + 1), id@));
            }
        } else {
            proof {
                assert(pair_views(out@) =~= props_of(entry_views(entries@).take(i + 1), id@));
            }
        }
        i += 1;
    }
    proof {
        assert(entry_views(entries@).take(n as int) =~= entry_views(entries@));
    }
    out
}

/// Build the importable accounts a preference list describes: one per
/// server of type `imap` with a hostname, in first-appearance order, with
/// the stock export policy.
pub fn accounts_from_prefs(entries: &Vec<PrefEntry>) -> (r: Vec<Account>)
    ensures
        r@.len() == imap_ids(entry_views(entries@)).len(),
        forall|k: int|
            0 <= k < r@.len() ==> good_prefs_account(
                entry_views(entries@),
                imap_ids(entry_views(entries@))[k],
                #[trigger] r@[k],
            ),
{
    proof {
        reveal_strlit("type");
        reveal_strlit("imap");
        reveal_strlit("hostname");
        reveal_strlit("userName");
        reveal_strlit("port");
        reveal_strlit("name");
        reveal_strlit("Account_");
        reveal_strlit("./exports/");
    }
    let ghost es = entry_views(entries@);
    let n: usize = entries.len();
    let mut all_ids: Vec<String> = Vec::new();
    let mut i: usize = 0;
    proof {
        assert(str_views(all_ids@) =~= ids_of(es).take(0));
    }
    while i < n
        invariant
            entries@.len() == n,
            es == entry_views(entries@),
            0 <= i <= n,
            str_views(all_ids@) =~= ids_of(es).take(i as int),
        decreases n - i,
    {
        let ghost prev = all_ids@;
        all_ids.push(entries[i].server_id.clone());
        proof {
            assert(str_views(all_ids@) =~= str_views(prev).push(es[i as int].0));
            assert(ids_of(es).take(i + 1) =~= ids_of(es).take(i as int).push(ids_of(es)[i as int]));
        }
        i += 1;
    }
    proof {
        assert(ids_of(es).take(n as int) =~= ids_of(es));
    }
    let mut uniq: Vec<String> = Vec::new();
    proof {
        assert(str_views(uniq@) =~= Seq::<Seq<char>>::empty());
        assert(crate::classify::dedup_first(Seq::<Seq<char>>::empty()) =~= Seq::<Seq<char>>::empty());
    }
    crate::classify::push_dedup(&mut uniq, &all_ids);
    proof {
        assert(Seq::<Seq<char>>::empty() + str_views(all_ids@) =~= str_views(all_ids@));
        assert(str_views(uniq@) == crate::classify::dedup_first(ids_of(es)));
    }
    let ghost uids = crate::classify::dedup_first(ids_of(es));
    let un: usize = uniq.len();
    let mut out: Vec<Account> = Vec::new();
    let mut j: usize = 0;
    proof {
        assert(imap_filter(es, uids.take(0)) =~= Seq::<Seq<char>>::empty());
    }
    while j < un
        invariant
            uniq@.len() == un,
            es == entry_views(entries@),
            str_views(uniq@) == uids,
            uids == crate::classify::dedup_first(ids_of(es)),
            0 <= j <= un,
            out@.len() == imap_filter(es, uids.take(j as int)).len(),
            forall|k: int|
                0 <= k < out@.len() ==> good_prefs_account(
                    es,
                    imap_filter(es, uids.take(j as int))[k],
                    #[trigger] out@[k],
                ),
        decreases un - j,
    {
        proof {
            assert(uids.take(j + 1).drop_last() =~= uids.take(j as int));
            assert(uids.take(j + 1).last() == uids[j as int]);
            assert(uids[j as int] == uniq@[j as int]@);
        }
        let id = &uniq[j];
        let props = props_for_id(entries, id);
        let imap_lit = String::from_str("imap");
        let is_imap = match assoc_get(&props, "type") {
            Some(t) => t.eq(&imap_lit),
            None => false,
        };
        let hostname = match assoc_get(&props, "hostname") {
            Some(h) => Some(h.clone()),
            None => None,
        };
        match (is_imap, hostname) {
            (true, Some(server)) => {
                assert(is_imap_server(es, uids[j as int]));
                let username = match assoc_get(&props, "userName") {
                    Some(u) => u.clone(),
                    None => String::new(),
                };
                let port: u16 = match assoc_get(&props, "port") {
                    Some(p) => {
                        let pc = chars_of(p.as_str());
                        match crate::text::parse_u16_chars(&pc) {
                            Some(v) => v,
                            None => 993,
                        }
                    },
                    None => 993,
                };
                let name: String = match assoc_get(&props, "name") {
                    Some(v) => v.clone(),
                    None => {
                        let mut nm: Vec<char> = Vec::new();
                        crate::naming::append_str_chars(&mut nm, "Account_");
                        crate::naming::append_str_chars(&mut nm, id.as_str());
                        string_from_chars(&nm)
                    },
                };
                proof {
                    assert(name@ == acct_name(es, uids[j as int]));
                }
                let safe = sanitize_name(name.as_str());
                let mut ed: Vec<char> = Vec::new();
                crate::naming::append_str_chars(&mut ed, "./exports/");
                crate::naming::append_str_chars(&mut ed, safe.as_str());
                let ignored = default_ignored_folders(name.as_str());
                let account = Account {
                    name,
                    server,
                    port,
                    username,
                    password: None,
                    export_directory: string_from_chars(&ed),
                    ignored_folders: ignored,
                    quote_depth: 1,
                    skip_existing: true,
                    collect_contacts: false,
                    skip_signature_images: true,
                    delete_after_export: false,
                };
                let ghost prev_out = out@;
                out.push(account);
                proof {
                    assert(good_prefs_account(es, uids[j as int], out@[out@.len() - 1]));
                    assert(imap_filter(es, uids.take(j + 1)) =~= imap_filter(
                        es,
                        uids.take(j as int),
                    ).push(uids[j as int]));
                }
            },
            _ => {
                proof {
                    assert(!is_imap_server(es, uids[j as int]));
                    assert(imap_filter(es, uids.take(j + 1)) =~= imap_filter(
                        es,
                        uids.take(j as int),
                    ));
                }
            },
        }
        j += 1;
    }
    proof {
        assert(uids.take(un as int) =~= uids);
    }
    out
}

/// Parse a preferences file and build the importable accounts it describes.
pub fn parse_prefs_js(content: &str) -> (r: Vec<Account>)
    ensures
        r@.len() == imap_ids(prefs_entries_from(content@, 0)).len(),
        forall|k: int|
            0 <= k < r@.len() ==> good_prefs_account(
                prefs_entries_from(content@, 0),
                imap_ids(prefs_entries_from(content@, 0))[k],
                #[trigger] r@[k],
            ),
{
    let entries = parse_prefs_entries(content);
    accounts_from_prefs(&entries)
}

/// The name/path/default views of a profile list.
pub open spec fn prof_views(v: Seq<ThunderbirdProfile>) -> Seq<(Seq<char>, Seq<char>, bool)> {
    v.map_values(|p: ThunderbirdProfile| (p.name@, p.path@, p.is_default))
}

/// A trimmed line is a section header.
pub open spec fn is_section(l: Seq<char>) -> bool {
    l.len() >= 2 && l[0] == '[' && l.last() == ']'
}

/// A section header opens a profile section.
pub open spec fn is_profile_section(l: Seq<char>) -> bool {
    is_section(l) && crate::text::has_prefix(lower_of(l), "[profile"@)
}

/// The profile record a finished section yields.
pub open spec fn built_of(
    m: Seq<(Seq<char>, Seq<char>)>,
    base_dir: Seq<char>,
) -> (Seq<char>, Seq<char>, bool) {
    (
        match lookup_last(m, "name"@) {
            Some(v) => v,
            None => Seq::empty(),
        },
        built_profile_path(m, base_dir),
        lookup_last(m, "default"@) == Some("1"@),
    )
}

/// What a section contributes when it ends: one record if it holds a name
/// and a path, nothing otherwise.
pub open spec fn flush_section(
    cur: Option<Seq<(Seq<char>, Seq<char>)>>,
    base_dir: Seq<char>,
) -> Seq<(Seq<char>, Seq<char>, bool)> {
    match cur {
        None => Seq::empty(),
        Some(m) => if profile_buildable(m) {
            seq![built_of(m, base_dir)]
        } else {
            Seq::empty()
        },
    }
}

/// The fold over the file's lines: section headers close the previous
/// profile section and open a new one when they start with `[profile`;
/// `key=value` lines inside a section record the trimmed, case-folded key
/// and the trimmed value; everything else is ignored.
pub open spec fn ini_fold(
    lines: Seq<Seq<char>>,
    i: int,
    cur: Option<Seq<(Seq<char>, Seq<char>)>>,
    base_dir: Seq<char>,
) -> Seq<(Seq<char>, Seq<char>, bool)>
    decreases lines.len() - i,
{
    if i < 0 || i >= lines.len() {
        flush_section(cur, base_dir)
    } else {
        let l = crate::text::trimmed(lines[i]);
        if is_section(l) {
            flush_section(cur, base_dir) + ini_fold(
                lines,
                i + 1,
                if is_profile_section(l) {
                    Some(Seq::empty())
                } else {
                    None
                },
                base_dir,
            )
        } else if cur is Some && crate::classify::find_char_from(l, 0, '=') < l.len() {
            let e = crate::classify::find_char_from(l, 0, '=');
            ini_fold(
                lines,
                i + 1,
                Some(
                    cur->Some_0.push(
                        (lower_of(crate::text::trimmed(l.take(e))), crate::text::trimmed(
                            l.skip(e + 1),
                        )),
                    ),
                ),
                base_dir,
            )
        } else {
            ini_fold(lines, i + 1, cur, base_dir)
        }
    }
}

/// The profiles a whole file describes.
pub open spec fn profiles_of_ini(content: Seq<char>, base_dir: Seq<char>) -> Seq<
    (Seq<char>, Seq<char>, bool),
> {
    ini_fold(crate::classify::split_from(content, 0, '\n'), 0, None, base_dir)
}

/// Parse a profiles file; relative profile paths are joined under
/// `base_dir`.
pub fn parse_profiles_ini(content: &str, base_dir: &str) -> (r: Vec<ThunderbirdProfile>)
    ensures
        prof_views(r@) == profiles_of_ini(content@, base_dir@),
{
    proof {
        reveal_strlit("[profile");
        reveal_strlit("name");
        reveal_strlit("path");
        reveal_strlit("default");
        reveal_strlit("1");
    }
    let cs = chars_of(content);
    let lines = crate::contacts::split_exec(&cs, '\n');
    let n: usize = lines.len();
    let ghost lviews = crate::contacts::vec_views(lines@);
    let mut out: Vec<ThunderbirdProfile> = Vec::new();
    let mut cur: Option<Vec<(String, String)>> = None;
    let ghost goal = profiles_of_ini(content@, base_dir@);
    proof {
        assert(prof_views(out@) =~= Seq::<(Seq<char>, Seq<char>, bool)>::empty());
        assert(goal == ini_fold(lviews, 0, None, base_dir@));
        assert(prof_views(out@) + ini_fold(lviews, 0, None, base_dir@) =~= goal);
    }
    let mut i: usize = 0;
    while i < n
        invariant
            lines@.len() == n,
            lviews == crate::contacts::vec_views(lines@),
            goal == profiles_of_ini(content@, base_dir@),
            0 <= i <= n,
            goal =~= prof_views(out@) + ini_fold(
                lviews,
                i as int,
                match &cur {
                    Some(m) => Some(pair_views(m@)),
                    None => None,
                },
                base_dir@,
            ),
        decreases n - i,
    {
        let ghost cur_g: Option<Seq<(Seq<char>, Seq<char>)>> = match &cur {
            Some(m) => Some(pair_views(m@)),
            None => None,
        };
        let line = crate::text::trim_chars(&lines[i]);
        proof {
            assert(line@ == crate::text::trimmed(lviews[i as int]));
        }
        let is_sec = line.len() >= 2 && line[0] == '[' && line[line.len() - 1] == ']';
        if is_sec {
            assert(line@.last() == line@[line@.len() - 1]);
            // finish the previous section
            match &cur {
                Some(m) => {
                    let built = build_profile_from_map(m, base_dir);
                    match built {
                        Some(p) => {
                            let ghost prev = out@;
                            out.push(p);
                            proof {
                                assert(prof_views(out@) =~= prof_views(prev).push(
                                    built_of(pair_views(m@), base_dir@),
                                ));
                                assert(flush_section(cur_g, base_dir@) =~= seq![
                                    built_of(pair_views(m@), base_dir@),
                                ]);
                            }
                        },
                        None => {
                            proof {
                                assert(flush_section(cur_g, base_dir@) =~= Seq::<(
                                    Seq<char>,
                                    Seq<char>,
                                    bool,
                                )>::empty());
                            }
                        },
                    }
                },
                None => {
                    proof {
                        assert(flush_section(cur_g, base_dir@) =~= Seq::<(
                            Seq<char>,
                            Seq<char>,
                            bool,
                        )>::empty());
                    }
                },
            }
            let low = chars_of(lowercase_str(string_from_chars(&line).as_str()).as_str());
            let pfx = chars_of("[profile");
            if crate::text::starts_with_chars(&low, &pfx) {
                cur = Some(Vec::new());
                proof {
                    assert(pair_views(Seq::<(String, String)>::empty()) =~= Seq::<(
                        Seq<char>,
                        Seq<char>,
                    )>::empty());
                }
            } else {
                cur = None;
            }
            proof {
                let new_g: Option<Seq<(Seq<char>, Seq<char>)>> = match &cur {
                    Some(m) => Some(pair_views(m@)),
                    None => None,
                };
                assert(ini_fold(lviews, i as int, cur_g, base_dir@) =~= flush_section(
                    cur_g,
                    base_dir@,
                ) + ini_fold(lviews, i + 1, new_g, base_dir@));
            }
        } else {
            let eq = crate::classify::find_char_exec(&line, 0, '=');
            proof {
                crate::classify::lemma_find_char_bounds(line@, 0, '=');
            }
            let mut took = false;
            match &mut cur {
                Some(m) => {
                    if eq < line.len() {
                        let key_raw = crate::classify::copy_range_chars(&line, 0, eq);
                        let key_t = crate::text::trim_chars(&key_raw);
                        let key = lowercase_str(string_from_chars(&key_t).as_str());
                        let val_raw = crate::classify::copy_range_chars(&line, eq + 1, line.len());
                        let val_t = crate::text::trim_chars(&val_raw);
                        let ghost prev_m = pair_views(m@);
                        m.push((key, string_from_chars(&val_t)));
                        took = true;
                        proof {
                            assert(key_raw@ =~= line@.take(eq as int));
                            assert(val_raw@ =~= line@.skip(eq + 1));
                            assert(pair_views(m@) =~= prev_m.push(
                                (
                                    lower_of(crate::text::trimmed(line@.take(eq as int))),
                                    crate::text::trimmed(line@.skip(eq + 1)),
                                ),
                            ));
                        }
                    }
                },
                None => {},
            }
            proof {
                let new_g: Option<Seq<(Seq<char>, Seq<char>)>> = match &cur {
                    Some(m) => Some(pair_views(m@)),
                    None => None,
                };
                if took {
                    assert(ini_fold(lviews, i as int, cur_g, base_dir@) == ini_fold(
                        lviews,
                        i + 1,
                        new_g,
                        base_dir@,
                    ));
                } else {
                    assert(new_g == cur_g);
                    assert(ini_fold(lviews, i as int, cur_g, base_dir@) == ini_fold(
                        lviews,
                        i + 1,
                        cur_g,
                        base_dir@,
                    ));
                }
            }
        }
        i += 1;
    }
    // the file ended: finish the last section
    let ghost cur_g: Option<Seq<(Seq<char>, Seq<char>)>> = match &cur {
        Some(m) => Some(pair_views(m@)),
        None => None,
    };
    match &cur {
        Some(m) => {
            let built = build_profile_from_map(m, base_dir);
            match built {
                Some(p) => {
                    let ghost prev = out@;
                    out.push(p);
                    proof {
                        assert(prof_views(out@) =~= prof_views(prev).push(
                            built_of(pair_views(m@), base_dir@),
                        ));
                        assert(ini_fold(lviews, n as int, cur_g, base_dir@) =~= seq![
                            built_of(pair_views(m@), base_dir@),
                        ]);
                    }
                },
                None => {
                    proof {
                        assert(ini_fold(lviews, n as int, cur_g, base_dir@) =~= Seq::<(
                            Seq<char>,
                            Seq<char>,
                            bool,
                        )>::empty());
                    }
                },
            }
        },
        None => {
            proof {
                assert(ini_fold(lviews, n as int, cur_g, base_dir@) =~= Seq::<(
                    Seq<char>,
                    Seq<char>,
                    bool,
                )>::empty());
            }
        },
    }
    proof {
        assert(prof_views(out@) =~= goal);
    }
    out
}

} // verus!
