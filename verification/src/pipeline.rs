//! Run-level bookkeeping: per-folder statistics, progress reporting, the
//! retry policy for fetches, and the decisions of the folder and account
//! loops. The loops' outside work (network and filesystem) happens
//! elsewhere; every counter update and every decision here is verified.

use vstd::prelude::*;
use crate::classify::str_views;
use crate::text::{dec_digits, u64_to_chars, string_from_chars};

verus! {

/// Counters for one folder's export run.
#[derive(Debug, Clone)]
pub struct ExportStats {
    pub exported: usize,
    pub skipped: usize,
    pub errors: usize,
}

impl Default for ExportStats {
    fn default() -> (r: Self)
        ensures
            r.exported == 0,
            r.skipped == 0,
            r.errors == 0,
    {
        ExportStats { exported: 0, skipped: 0, errors: 0 }
    }
}

/// What processing one message body yielded.
#[derive(Debug, Clone, PartialEq, Eq, Structural)]
pub enum MessageOutcome {
    Exported,
    Skipped,
    Failed,
}

impl ExportStats {
    /// Count one message outcome: exactly one counter goes up by one.
    pub fn record(&mut self, outcome: &MessageOutcome)
        requires
            *outcome == MessageOutcome::Exported ==> old(self).exported < usize::MAX,
            *outcome == MessageOutcome::Skipped ==> old(self).skipped < usize::MAX,
            *outcome == MessageOutcome::Failed ==> old(self).errors < usize::MAX,
        ensures
            final(self).exported == old(self).exported + (if *outcome == MessageOutcome::Exported {
                1int
            } else {
                0int
            }),
            final(self).skipped == old(self).skipped + (if *outcome == MessageOutcome::Skipped {
                1int
            } else {
                0int
            }),
            final(self).errors == old(self).errors + (if *outcome == MessageOutcome::Failed {
                1int
            } else {
                0int
            }),
    {
        match outcome {
            MessageOutcome::Exported => {
                self.exported = self.exported + 1;
            },
            MessageOutcome::Skipped => {
                self.skipped = self.skipped + 1;
            },
            MessageOutcome::Failed => {
                self.errors = self.errors + 1;
            },
        }
    }

    /// The folder-completion summary: exported, skipped and error counts.
    pub fn summary_line(&self) -> (r: String)
        ensures
            r@ == dec_digits(self.exported as nat) + " exported, "@ + dec_digits(
                self.skipped as nat,
            ) + " skipped, "@ + dec_digits(self.errors as nat) + " errors"@,
    {
        let mut v: Vec<char> = Vec::new();
        let mut a = u64_to_chars(self.exported as u64);
        v.append(&mut a);
        crate::naming::append_str_chars(&mut v, " exported, ");
        let mut b = u64_to_chars(self.skipped as u64);
        v.append(&mut b);
        crate::naming::append_str_chars(&mut v, " skipped, ");
        let mut c = u64_to_chars(self.errors as u64);
        v.append(&mut c);
        crate::naming::append_str_chars(&mut v, " errors");
        string_from_chars(&v)
    }
}

/// The percentage of work done, whole-number, with an empty total counting
/// as complete.
pub open spec fn percent_of(done: int, total: int) -> int {
    if total > 0 {
        done * 100 / total
    } else {
        100
    }
}

/// Progress through one folder's message list.
#[derive(Debug)]
pub struct ProgressIndicator {
    pub label: String,
    pub total: usize,
    pub done: usize,
}

impl ProgressIndicator {
    pub open spec fn wf(&self) -> bool {
        self.done <= self.total
    }

    pub fn new(label: &str, total: usize) -> (r: Self)
        ensures
            r.label@ == label@,
            r.total == total,
            r.done == 0,
            r.wf(),
    {
        ProgressIndicator { label: String::from_str(label), total, done: 0 }
    }

    /// One more unit of work is done.
    pub fn inc(&mut self)
        requires
            old(self).wf(),
            old(self).done < old(self).total,
        ensures
            final(self).wf(),
            final(self).done == old(self).done + 1,
            final(self).total == old(self).total,
            final(self).label == old(self).label,
    {
        self.done = self.done + 1;
    }

    /// The progress line: label, done/total, and the percentage. Tolerates
    /// an empty folder without dividing by zero.
    pub fn render_line(&self) -> (r: String)
        requires
            self.wf(),
        ensures
            r@ == self.label@ + ": "@ + dec_digits(self.done as nat) + "/"@ + dec_digits(
                self.total as nat,
            ) + " ("@ + dec_digits(percent_of(self.done as int, self.total as int) as nat) + "%)"@,
    {
        let pct: u64 = if self.total > 0 {
            let wide: u128 = (self.done as u128) * 100 / (self.total as u128);
            proof {
                assert(self.done * 100 / self.total as int <= 100) by (nonlinear_arith)
                    requires
                        0 < self.total,
                        0 <= self.done <= self.total,
                ;
            }
            wide as u64
        } else {
            100
        };
        let mut v: Vec<char> = Vec::new();
        crate::naming::append_str_chars(&mut v, self.label.as_str());
        crate::naming::append_str_chars(&mut v, ": ");
        let mut a = u64_to_chars(self.done as u64);
        v.append(&mut a);
        crate::naming::append_str_chars(&mut v, "/");
        let mut b = u64_to_chars(self.total as u64);
        v.append(&mut b);
        crate::naming::append_str_chars(&mut v, " (");
        let mut c = u64_to_chars(pct);
        v.append(&mut c);
        crate::naming::append_str_chars(&mut v, "%)");
        string_from_chars(&v)
    }

    /// The terminal line: label and a summary.
    pub fn finish_with_message(&self, summary: &str) -> (r: String)
        ensures
            r@ == self.label@ + ": "@ + summary@,
    {
        let mut v: Vec<char> = Vec::new();
        crate::naming::append_str_chars(&mut v, self.label.as_str());
        crate::naming::append_str_chars(&mut v, ": ");
        crate::naming::append_str_chars(&mut v, summary);
        string_from_chars(&v)
    }
}

/// The retry policy for one network operation: attempt count and delay.
#[derive(Debug, Clone)]
pub struct NetworkConfig {
    pub max_attempts: u32,
    pub retry_delay_ms: u64,
    pub backoff: bool,
}

impl Default for NetworkConfig {
    fn default() -> (r: Self)
        ensures
            r.max_attempts == 3,
            r.retry_delay_ms == 1000,
            r.backoff,
    {
        NetworkConfig { max_attempts: 3, retry_delay_ms: 1000, backoff: true }
    }
}

/// The delay before attempt `n` (1-based) under doubling backoff, saturated.
pub open spec fn backoff_delay(base: u64, n: nat) -> u64
    decreases n,
{
    if n <= 1 {
        base
    } else {
        let prev = backoff_delay(base, (n - 1) as nat);
        if prev > u64::MAX / 2 {
            u64::MAX
        } else {
            (prev * 2) as u64
        }
    }
}

impl NetworkConfig {
    /// Another attempt is allowed while the budget is not exhausted.
    pub fn should_retry(&self, attempts_made: u32) -> (r: bool)
        ensures
            r == (attempts_made < self.max_attempts),
    {
        attempts_made < self.max_attempts
    }

    /// The wait before attempt `n`: fixed, or doubling when backoff is on.
    pub fn delay_before_attempt(&self, n: u32) -> (r: u64)
        ensures
            self.backoff ==> r == backoff_delay(self.retry_delay_ms, n as nat),
            !self.backoff ==> r == self.retry_delay_ms,
    {
        if !self.backoff {
            return self.retry_delay_ms;
        }
        let mut d: u64 = self.retry_delay_ms;
        let mut k: u32 = 1;
        while k < n
            invariant
                1 <= k,
                n >= 1 ==> k <= n,
                n < 1 ==> k == 1,
                d == backoff_delay(self.retry_delay_ms, k as nat),
            decreases n - k,
        {
            if d > u64::MAX / 2 {
                d = u64::MAX;
            } else {
                d = d * 2;
            }
            k += 1;
        }
        d
    }
}

/// One folder export in progress: its counters and its progress state.
#[derive(Debug)]
pub struct FolderRun {
    pub folder_name: String,
    pub delete_after_export: bool,
    pub stats: ExportStats,
    pub progress: ProgressIndicator,
}

impl FolderRun {
    pub open spec fn wf(&self) -> bool {
        self.progress.wf()
    }

    /// Start a folder run over a known number of messages.
    pub fn new(folder_name: &str, total_messages: usize, delete_after_export: bool) -> (r: Self)
        ensures
            r.folder_name@ == folder_name@,
            r.delete_after_export == delete_after_export,
            r.stats.exported == 0 && r.stats.skipped == 0 && r.stats.errors == 0,
            r.progress.done == 0 && r.progress.total == total_messages,
            r.wf(),
    {
        FolderRun {
            folder_name: String::from_str(folder_name),
            delete_after_export,
            stats: ExportStats::default(),
            progress: ProgressIndicator::new(folder_name, total_messages),
        }
    }

    /// A fetch failed after all retries: one error, one unit of progress,
    /// and the folder loop moves on.
    pub fn on_fetch_failed(&mut self)
        requires
            old(self).wf(),
            old(self).progress.done < old(self).progress.total,
            old(self).stats.errors < usize::MAX,
        ensures
            final(self).wf(),
            final(self).stats.errors == old(self).stats.errors + 1,
            final(self).stats.exported == old(self).stats.exported,
            final(self).stats.skipped == old(self).stats.skipped,
            final(self).progress.done == old(self).progress.done + 1,
            final(self).progress.total == old(self).progress.total,
            final(self).delete_after_export == old(self).delete_after_export,
            final(self).folder_name == old(self).folder_name,
    {
        self.stats.record(&MessageOutcome::Failed);
        self.progress.inc();
    }

    /// One fetched body was processed: count its outcome.
    pub fn on_body_outcome(&mut self, outcome: &MessageOutcome)
        requires
            old(self).wf(),
            old(self).stats.exported < usize::MAX,
            old(self).stats.skipped < usize::MAX,
            old(self).stats.errors < usize::MAX,
        ensures
            final(self).wf(),
            final(self).stats.exported == old(self).stats.exported + (if *outcome
                == MessageOutcome::Exported {
                1int
            } else {
                0int
            }),
            final(self).stats.skipped == old(self).stats.skipped + (if *outcome
                == MessageOutcome::Skipped {
                1int
            } else {
                0int
            }),
            final(self).stats.errors == old(self).stats.errors + (if *outcome
                == MessageOutcome::Failed {
                1int
            } else {
                0int
            }),
            final(self).progress == old(self).progress,
            final(self).delete_after_export == old(self).delete_after_export,
            final(self).folder_name == old(self).folder_name,
    {
        self.stats.record(outcome);
    }

    /// One identifier is fully handled: progress advances exactly once,
    /// whatever the outcome was.
    pub fn on_message_done(&mut self)
        requires
            old(self).wf(),
            old(self).progress.done < old(self).progress.total,
        ensures
            final(self).wf(),
            final(self).progress.done == old(self).progress.done + 1,
            final(self).progress.total == old(self).progress.total,
            final(self).stats == old(self).stats,
            final(self).delete_after_export == old(self).delete_after_export,
            final(self).folder_name == old(self).folder_name,
    {
        self.progress.inc();
    }

    /// Deletion is marked per processed identifier exactly when the policy
    /// is set, regardless of the outcome.
    pub fn should_mark_deleted(&self) -> (r: bool)
        ensures
            r == self.delete_after_export,
    {
        self.delete_after_export
    }

    /// The folder's terminal summary line.
    pub fn finish_line(&self) -> (r: String)
        ensures
            r@ == self.progress.label@ + ": "@ + (dec_digits(self.stats.exported as nat)
                + " exported, "@ + dec_digits(self.stats.skipped as nat) + " skipped, "@
                + dec_digits(self.stats.errors as nat) + " errors"@),
    {
        let s = self.stats.summary_line();
        self.progress.finish_with_message(s.as_str())
    }
}

/// A folder is exported unless it is on the account's ignore list.
pub fn should_export_folder(folder: &str, ignored_folders: &Vec<String>) -> (r: bool)
    ensures
        r == !str_views(ignored_folders@).contains(folder@),
{
    let n: usize = ignored_folders.len();
    let fc = crate::text::chars_of(folder);
    let mut i: usize = 0;
    while i < n
        invariant
            ignored_folders@.len() == n,
            fc@ == folder@,
            0 <= i <= n,
            forall|j: int| 0 <= j < i ==> str_views(ignored_folders@)[j] != folder@,
        decreases n - i,
    {
        let ic = crate::text::chars_of(ignored_folders[i].as_str());
        if crate::text::eq_chars(&ic, &fc) {
            assert(str_views(ignored_folders@)[i as int] == folder@);
            return false;
        }
        i += 1;
    }
    assert(forall|j: int|
        0 <= j < str_views(ignored_folders@).len() ==> str_views(ignored_folders@)[j] != folder@);
    true
}

/// The per-folder results of one account run, in export order.
pub open spec fn result_views(v: Seq<(String, ExportStats)>) -> Seq<(Seq<char>, ExportStats)> {
    v.map_values(|p: (String, ExportStats)| (p.0@, p.1))
}

/// Record one folder's statistics in the account's result list.
pub fn record_folder_result(
    results: &mut Vec<(String, ExportStats)>,
    folder: &str,
    stats: ExportStats,
)
    ensures
        result_views(final(results)@) == result_views(old(results)@).push((folder@, stats)),
{
    let ghost prev = results@;
    results.push((String::from_str(folder), stats));
    proof {
        assert(result_views(results@) =~= result_views(prev).push((folder@, stats)));
    }
}

/// The name of the contacts ledger file for an account and a day.
pub open spec fn contacts_filename(account: Seq<char>, date: Seq<char>) -> Seq<char> {
    "contacts_"@ + account + "_"@ + date + ".csv"@
}

/// Build the contacts ledger's filename.
pub fn contacts_csv_filename(account_name: &str, date_str: &str) -> (r: String)
    ensures
        r@ == contacts_filename(account_name@, date_str@),
{
    let mut v: Vec<char> = Vec::new();
    crate::naming::append_str_chars(&mut v, "contacts_");
    crate::naming::append_str_chars(&mut v, account_name);
    crate::naming::append_str_chars(&mut v, "_");
    crate::naming::append_str_chars(&mut v, date_str);
    crate::naming::append_str_chars(&mut v, ".csv");
    proof {
        assert(v@ =~= contacts_filename(account_name@, date_str@));
    }
    string_from_chars(&v)
}

} // verus!
