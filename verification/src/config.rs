//! Account and sorting configuration records, with validation.
//!
//! Loading the files from disk and injecting passwords from the environment
//! happens outside the library; the records here are plain values and the
//! checks on them are verified.

use vstd::prelude::*;
use crate::text::{chars_of, ends_with_chars, has_prefix, has_suffix, lower_of, lowercase_str,
    lower_ascii, starts_with_chars};

verus! {

/// Why a configuration was rejected, with a human-readable message.
#[derive(Debug, Clone)]
pub enum ConfigError {
    FileReadError(String),
    YamlParseError(String),
    AccountNotFound(String),
    NoPassword(String),
    ValidationError(String),
}

/// One mailbox account: endpoint, credentials and export policy flags.
#[derive(Debug, Clone)]
pub struct Account {
    pub name: String,
    pub server: String,
    pub port: u16,
    pub username: String,
    pub password: Option<String>,
    pub export_directory: String,
    pub ignored_folders: Vec<String>,
    pub quote_depth: usize,
    pub skip_existing: bool,
    pub collect_contacts: bool,
    pub skip_signature_images: bool,
    pub delete_after_export: bool,
}

pub fn default_quote_depth() -> (r: usize)
    ensures
        r == 1,
{
    1
}

pub fn default_true() -> (r: bool)
    ensures
        r,
{
    true
}

/// An account record passes validation.
pub open spec fn account_valid(a: Account) -> bool {
    &&& a.name@.len() > 0
    &&& a.server@.len() > 0
    &&& a.username@.len() > 0
    &&& a.export_directory@.len() > 0
    &&& a.port != 0
}

/// The message reported for the first failing check of an invalid account.
pub open spec fn validation_message(a: Account) -> Seq<char> {
    if a.name@.len() == 0 {
        "Account name cannot be empty"@
    } else if a.server@.len() == 0 {
        "Server not configured for account '"@ + a.name@ + "'"@
    } else if a.username@.len() == 0 {
        "Username not configured for account '"@ + a.name@ + "'"@
    } else if a.export_directory@.len() == 0 {
        "Export directory not configured for account '"@ + a.name@ + "'"@
    } else {
        "Invalid port (0) for account '"@ + a.name@ + "'"@
    }
}

/// The whole configuration: the list of accounts to export.
#[derive(Debug)]
pub struct Config {
    pub accounts: Vec<Account>,
}

/// An account's name matches a requested name, ASCII case-insensitively.
pub open spec fn name_matches(a: Account, name: Seq<char>) -> bool {
    lower_ascii(a.name@) == lower_ascii(name)
}

fn account_error(prefix: &str, name: &String, e: &str) -> (r: String)
    ensures
        r@ == prefix@ + name@ + e@,
{
    let mut m = String::from_str(prefix);
    m.append(name.as_str());
    m.append(e);
    m
}

impl Config {
    /// Check every account record; report the first failing check, if any.
    pub fn validate(&self) -> (r: Result<(), ConfigError>)
        ensures
            (r is Ok) <==> (forall|i: int|
                0 <= i < self.accounts@.len() ==> account_valid(#[trigger] self.accounts@[i])),
            r matches Err(e) ==> {
                &&& exists|i: int|
                    {
                        &&& 0 <= i < self.accounts@.len()
                        &&& !account_valid(#[trigger] self.accounts@[i])
                        &&& (forall|j: int| 0 <= j < i ==> account_valid(#[trigger] self.accounts@[j]))
                        &&& e matches ConfigError::ValidationError(m)
                            && m@ == validation_message(self.accounts@[i])
                    }
            },
    {
        let n: usize = self.accounts.len();
        let mut i: usize = 0;
        while i < n
            invariant
                self.accounts@.len() == n,
                0 <= i <= n,
                forall|j: int| 0 <= j < i ==> account_valid(#[trigger] self.accounts@[j]),
            decreases n - i,
        {
            let a = &self.accounts[i];
            if a.name.as_str().is_empty() {
                return Err(ConfigError::ValidationError(
                    String::from_str("Account name cannot be empty"),
                ));
            }
            if a.server.as_str().is_empty() {
                return Err(ConfigError::ValidationError(
                    account_error("Server not configured for account '", &a.name, "'"),
                ));
            }
            if a.username.as_str().is_empty() {
                return Err(ConfigError::ValidationError(
                    account_error("Username not configured for account '", &a.name, "'"),
                ));
            }
            if a.export_directory.as_str().is_empty() {
                return Err(ConfigError::ValidationError(
                    account_error("Export directory not configured for account '", &a.name, "'"),
                ));
            }
            if a.port == 0 {
                return Err(ConfigError::ValidationError(
                    account_error("Invalid port (0) for account '", &a.name, "'"),
                ));
            }
            i += 1;
        }
        Ok(())
    }

    /// Find an account by name, ASCII case-insensitively; first match wins.
    pub fn get_account(&self, name: &str) -> (r: Option<&Account>)
        ensures
            (r is Some) <==> (exists|i: int|
                0 <= i < self.accounts@.len() && name_matches(#[trigger] self.accounts@[i], name@)),
            r matches Some(a) ==> exists|i: int|
                {
                    &&& 0 <= i < self.accounts@.len()
                    &&& name_matches(#[trigger] self.accounts@[i], name@)
                    &&& (forall|j: int| 0 <= j < i ==> !name_matches(#[trigger] self.accounts@[j], name@))
                    &&& *a == self.accounts@[i]
                },
    {
        let wanted = chars_of(name);
        let n: usize = self.accounts.len();
        let mut i: usize = 0;
        while i < n
            invariant
                self.accounts@.len() == n,
                0 <= i <= n,
                wanted@ == name@,
                forall|j: int| 0 <= j < i ==> !name_matches(#[trigger] self.accounts@[j], name@),
            decreases n - i,
        {
            let a_name = chars_of(self.accounts[i].name.as_str());
            if crate::text::eq_ignore_ascii_case_chars(&a_name, &wanted) {
                return Some(&self.accounts[i]);
            }
            i += 1;
        }
        None
    }

    /// All account names, in configuration order.
    pub fn list_accounts(&self) -> (r: Vec<&str>)
        ensures
            r@.len() == self.accounts@.len(),
            forall|i: int| 0 <= i < r@.len() ==> #[trigger] r@[i]@ == self.accounts@[i].name@,
    {
        let n: usize = self.accounts.len();
        let mut r: Vec<&str> = Vec::new();
        let mut i: usize = 0;
        while i < n
            invariant
                self.accounts@.len() == n,
                0 <= i <= n,
                r@.len() == i,
                forall|j: int| 0 <= j < i ==> #[trigger] r@[j]@ == self.accounts@[j].name@,
            decreases n - i,
        {
            r.push(self.accounts[i].name.as_str());
            i += 1;
        }
        r
    }
}

/// A whitelist entry matches a sender (both already case-folded): exact
/// address, `@domain` suffix, or `local@` prefix.
pub open spec fn entry_matches(entry_l: Seq<char>, sender_l: Seq<char>) -> bool {
    ||| entry_l == sender_l
    ||| (entry_l.len() > 0 && entry_l[0] == '@' && has_suffix(sender_l, entry_l))
    ||| (entry_l.len() > 0 && entry_l.last() == '@' && has_prefix(sender_l, entry_l))
}

/// A non-empty sender is whitelisted when some entry matches it after case
/// folding.
pub open spec fn whitelisted(wl: Seq<String>, sender: Seq<char>) -> bool {
    sender.len() > 0 && exists|i: int|
        0 <= i < wl.len() && entry_matches(lower_of(#[trigger] wl[i]@), lower_of(sender))
}

/// Rules for sorting exported documents into delete/summarize/keep buckets.
#[derive(Debug, Clone)]
pub struct SortConfig {
    pub delete_keywords: Vec<String>,
    pub delete_senders: Vec<String>,
    pub delete_subjects: Vec<String>,
    pub summarize_max_length: usize,
    pub summarize_keywords: Vec<String>,
    pub keep_keywords: Vec<String>,
    pub keep_senders: Vec<String>,
    pub keep_subjects: Vec<String>,
    pub whitelist: Vec<String>,
    pub recent_threshold_days: i64,
    pub old_threshold_days: i64,
    pub small_email_threshold: usize,
    pub large_email_threshold: usize,
    pub keep_with_attachments: bool,
    pub type_weights: Vec<(String, i32)>,
}

/// The stock list of delete keywords.
pub open spec fn is_default_delete_keywords(v: Seq<String>) -> bool {
    &&& v.len() == 10
    &&& v[0]@ == "newsletter"@
    &&& v[1]@ == "bulletin"@
    &&& v[2]@ == "digest"@
    &&& v[3]@ == "promotion"@
    &&& v[4]@ == "offer"@
    &&& v[5]@ == "coupon"@
    &&& v[6]@ == "sale"@
    &&& v[7]@ == "unsubscribe"@
    &&& v[8]@ == "marketing"@
    &&& v[9]@ == "advertisement"@
}

/// The stock list of keep keywords.
pub open spec fn is_default_keep_keywords(v: Seq<String>) -> bool {
    &&& v.len() == 6
    &&& v[0]@ == "contract"@
    &&& v[1]@ == "invoice"@
    &&& v[2]@ == "legal"@
    &&& v[3]@ == "urgent"@
    &&& v[4]@ == "important"@
    &&& v[5]@ == "confidential"@
}

/// The stock per-type score weights.
pub open spec fn is_default_type_weights(v: Seq<(String, i32)>) -> bool {
    &&& v.len() == 5
    &&& v[0].0@ == "newsletter"@ && v[0].1 == -2
    &&& v[1].0@ == "mailing_list"@ && v[1].1 == -1
    &&& v[2].0@ == "group"@ && v[2].1 == 0
    &&& v[3].0@ == "direct"@ && v[3].1 == 1
    &&& v[4].0@ == "unknown"@ && v[4].1 == 0
}

pub fn default_delete_keywords() -> (r: Vec<String>)
    ensures
        is_default_delete_keywords(r@),
{
    let mut v: Vec<String> = Vec::new();
    v.push(String::from_str("newsletter"));
    v.push(String::from_str("bulletin"));
    v.push(String::from_str("digest"));
    v.push(String::from_str("promotion"));
    v.push(String::from_str("offer"));
    v.push(String::from_str("coupon"));
    v.push(String::from_str("sale"));
    v.push(String::from_str("unsubscribe"));
    v.push(String::from_str("marketing"));
    v.push(String::from_str("advertisement"));
    v
}

pub fn default_keep_keywords() -> (r: Vec<String>)
    ensures
        is_default_keep_keywords(r@),
{
    let mut v: Vec<String> = Vec::new();
    v.push(String::from_str("contract"));
    v.push(String::from_str("invoice"));
    v.push(String::from_str("legal"));
    v.push(String::from_str("urgent"));
    v.push(String::from_str("important"));
    v.push(String::from_str("confidential"));
    v
}

pub fn default_summarize_max_length() -> (r: usize)
    ensures
        r == 5000,
{
    5000
}

pub fn default_recent_threshold() -> (r: i64)
    ensures
        r == 30,
{
    30
}

pub fn default_old_threshold() -> (r: i64)
    ensures
        r == 365,
{
    365
}

pub fn default_small_threshold() -> (r: usize)
    ensures
        r == 500,
{
    500
}

pub fn default_large_threshold() -> (r: usize)
    ensures
        r == 10000,
{
    10000
}

pub fn default_type_weights() -> (r: Vec<(String, i32)>)
    ensures
        is_default_type_weights(r@),
{
    let mut v: Vec<(String, i32)> = Vec::new();
    v.push((String::from_str("newsletter"), -2));
    v.push((String::from_str("mailing_list"), -1));
    v.push((String::from_str("group"), 0));
    v.push((String::from_str("direct"), 1));
    v.push((String::from_str("unknown"), 0));
    v
}

/// Every field of a stock `SortConfig`.
pub open spec fn is_default_sort_config(c: SortConfig) -> bool {
    &&& is_default_delete_keywords(c.delete_keywords@)
    &&& c.delete_senders@.len() == 0
    &&& c.delete_subjects@.len() == 0
    &&& c.summarize_max_length == 5000
    &&& c.summarize_keywords@.len() == 0
    &&& is_default_keep_keywords(c.keep_keywords@)
    &&& c.keep_senders@.len() == 0
    &&& c.keep_subjects@.len() == 0
    &&& c.whitelist@.len() == 0
    &&& c.recent_threshold_days == 30
    &&& c.old_threshold_days == 365
    &&& c.small_email_threshold == 500
    &&& c.large_email_threshold == 10000
    &&& c.keep_with_attachments
    &&& is_default_type_weights(c.type_weights@)
}

impl Default for SortConfig {
    fn default() -> (r: Self)
        ensures
            is_default_sort_config(r),
    {
        SortConfig {
            delete_keywords: default_delete_keywords(),
            delete_senders: Vec::new(),
            delete_subjects: Vec::new(),
            summarize_max_length: default_summarize_max_length(),
            summarize_keywords: Vec::new(),
            keep_keywords: default_keep_keywords(),
            keep_senders: Vec::new(),
            keep_subjects: Vec::new(),
            whitelist: Vec::new(),
            recent_threshold_days: default_recent_threshold(),
            old_threshold_days: default_old_threshold(),
            small_email_threshold: default_small_threshold(),
            large_email_threshold: default_large_threshold(),
            keep_with_attachments: default_true(),
            type_weights: default_type_weights(),
        }
    }
}

impl SortConfig {
    /// A sender address is whitelisted: exact, domain (`@x`) or prefix
    /// (`name@`) match against any entry, case-insensitively.
    pub fn is_whitelisted(&self, sender_email: &str) -> (r: bool)
        ensures
            r == whitelisted(self.whitelist@, sender_email@),
    {
        if sender_email.is_empty() {
            return false;
        }
        let sender_lower = lowercase_str(sender_email);
        let sender_l = chars_of(sender_lower.as_str());
        let n: usize = self.whitelist.len();
        let mut i: usize = 0;
        while i < n
            invariant
                self.whitelist@.len() == n,
                0 <= i <= n,
                sender_email@.len() > 0,
                sender_l@ == lower_of(sender_email@),
                forall|j: int|
                    0 <= j < i ==> !entry_matches(
                        lower_of(#[trigger] self.whitelist@[j]@),
                        lower_of(sender_email@),
                    ),
            decreases n - i,
        {
            let entry_lower = lowercase_str(self.whitelist[i].as_str());
            let e_l = chars_of(entry_lower.as_str());
            if crate::text::eq_chars(&e_l, &sender_l) {
                return true;
            }
            if e_l.len() > 0 {
                if e_l[0] == '@' && ends_with_chars(&sender_l, &e_l) {
                    return true;
                }
                if e_l[e_l.len() - 1] == '@' && starts_with_chars(&sender_l, &e_l) {
                    return true;
                }
            }
            i += 1;
        }
        false
    }
}

} // verus!
