use email_to_markdown::contacts::ContactsCollector;
use email_to_markdown::classify::EmailType;
use email_to_markdown::hashing::hash_hex_prefix;
use email_to_markdown::naming::wildcard_match;
use email_to_markdown::pipeline::{
    contacts_csv_filename, record_folder_result, should_export_folder, ExportStats, FolderRun,
    MessageOutcome, NetworkConfig, ProgressIndicator,
};

#[test]
fn test_stats_record_each_outcome() {
    let mut stats = ExportStats::default();
    stats.record(&MessageOutcome::Exported);
    stats.record(&MessageOutcome::Skipped);
    stats.record(&MessageOutcome::Failed);
    stats.record(&MessageOutcome::Exported);
    assert_eq!(stats.exported, 2);
    assert_eq!(stats.skipped, 1);
    assert_eq!(stats.errors, 1);
    assert_eq!(stats.summary_line(), "2 exported, 1 skipped, 1 errors");
}

#[test]
fn test_progress_tolerates_empty_folder() {
    let p = ProgressIndicator::new("INBOX", 0);
    assert_eq!(p.render_line(), "INBOX: 0/0 (100%)");
}

#[test]
fn test_progress_advances_once_per_message() {
    let mut p = ProgressIndicator::new("INBOX", 4);
    p.inc();
    p.inc();
    assert_eq!(p.render_line(), "INBOX: 2/4 (50%)");
    assert_eq!(p.finish_with_message("done"), "INBOX: done");
}

#[test]
fn test_folder_run_counts() {
    let mut run = FolderRun::new("INBOX", 3, false);
    run.on_fetch_failed();
    run.on_body_outcome(&MessageOutcome::Exported);
    run.on_message_done();
    run.on_body_outcome(&MessageOutcome::Skipped);
    run.on_message_done();
    assert_eq!(run.stats.exported, 1);
    assert_eq!(run.stats.skipped, 1);
    assert_eq!(run.stats.errors, 1);
    assert_eq!(run.progress.done, 3);
    assert!(!run.should_mark_deleted());
    assert_eq!(run.finish_line(), "INBOX: 1 exported, 1 skipped, 1 errors");
}

#[test]
fn test_retry_policy_budget_and_backoff() {
    let cfg = NetworkConfig::default();
    assert!(cfg.should_retry(0));
    assert!(cfg.should_retry(2));
    assert!(!cfg.should_retry(3));
    assert_eq!(cfg.delay_before_attempt(1), 1000);
    assert_eq!(cfg.delay_before_attempt(3), 4000);
    let fixed = NetworkConfig { max_attempts: 2, retry_delay_ms: 50, backoff: false };
    assert_eq!(fixed.delay_before_attempt(3), 50);
}

#[test]
fn test_ignored_folder_is_skipped() {
    let ignored = vec!["Spam".to_string(), "Trash".to_string()];
    assert!(!should_export_folder("Spam", &ignored));
    assert!(should_export_folder("INBOX", &ignored));
}

#[test]
fn test_record_folder_result_order() {
    let mut results: Vec<(String, ExportStats)> = Vec::new();
    record_folder_result(&mut results, "INBOX", ExportStats::default());
    record_folder_result(&mut results, "Sent", ExportStats::default());
    assert_eq!(results.len(), 2);
    assert_eq!(results[0].0, "INBOX");
    assert_eq!(results[1].0, "Sent");
}

#[test]
fn test_contacts_csv_filename_shape() {
    assert_eq!(contacts_csv_filename("test", "2024-01-05"), "contacts_test_2024-01-05.csv");
}

#[test]
fn test_contacts_csv_rows() {
    let mut c = ContactsCollector::new();
    c.add(&EmailType::Direct, "john.smith@example.com".to_string());
    let rows = c.csv_rows("test");
    assert_eq!(rows.len(), 2);
    assert_eq!(rows[0], vec!["Name", "Email", "Type", "Source", "Notes"]);
    assert_eq!(
        rows[1],
        vec![
            "John Smith",
            "john.smith@example.com",
            "Direct",
            "test",
            "Collected from test emails",
        ]
    );
}

#[test]
fn test_hash_prefix_deterministic() {
    let hello: Vec<char> = "Hello".chars().collect();
    let h6: String = hash_hex_prefix(&hello, 6).into_iter().collect();
    assert_eq!(h6, "63f0bf");
    let h8: String = hash_hex_prefix(&hello, 8).into_iter().collect();
    assert_eq!(h8, "63f0bfac");
}

#[test]
fn test_wildcard_match_semantics() {
    let pat: Vec<char> = "email_2024-01-05_a*to_b*.md".chars().collect();
    let ok: Vec<char> = "email_2024-01-05_a_to_b_2.md".chars().collect();
    let bad: Vec<char> = "email_2024-01-06_a_to_b.md".chars().collect();
    assert!(wildcard_match(&pat, &ok));
    assert!(!wildcard_match(&pat, &bad));
    let q: Vec<char> = "a?c".chars().collect();
    let s1: Vec<char> = "abc".chars().collect();
    let s2: Vec<char> = "ac".chars().collect();
    assert!(wildcard_match(&q, &s1));
    assert!(!wildcard_match(&q, &s2));
}
