use email_to_markdown::config::Account;
use email_to_markdown::contacts::ContactsCollector;
use email_to_markdown::export::{limit_quote_depth, normalize_line_breaks, process_message};
use email_to_markdown::mime::{
    extract_attachments, extract_body, extract_filename_from_header, is_signature_image,
    parse_message, sanitize_filename, AttachmentFile, HeaderField, MessageTree,
};
use email_to_markdown::naming::{email_already_exported, get_short_name, ExistingFile};

fn account(name: &str) -> Account {
    Account {
        name: name.to_string(),
        server: "imap.example.com".to_string(),
        port: 993,
        username: "u@example.com".to_string(),
        password: Some("pw".to_string()),
        export_directory: "./exports/test".to_string(),
        ignored_folders: Vec::new(),
        quote_depth: 1,
        skip_existing: true,
        collect_contacts: false,
        skip_signature_images: false,
        delete_after_export: false,
    }
}

fn leaf(content_type: &str, body: &str) -> MessageTree {
    MessageTree {
        headers: vec![HeaderField {
            name: "Content-Type".to_string(),
            value: content_type.to_string(),
        }],
        body_text: body.to_string(),
        body_raw: body.as_bytes().to_vec(),
        children: Vec::new(),
    }
}

fn attachment_part(disposition: &str, content_type: &str, payload: &[u8]) -> MessageTree {
    MessageTree {
        headers: vec![
            HeaderField {
                name: "Content-Disposition".to_string(),
                value: disposition.to_string(),
            },
            HeaderField { name: "Content-Type".to_string(), value: content_type.to_string() },
        ],
        body_text: String::new(),
        body_raw: payload.to_vec(),
        children: Vec::new(),
    }
}

fn multipart(children: Vec<MessageTree>) -> MessageTree {
    MessageTree {
        headers: vec![HeaderField {
            name: "Content-Type".to_string(),
            value: "multipart/mixed".to_string(),
        }],
        body_text: String::new(),
        body_raw: Vec::new(),
        children,
    }
}

#[test]
fn test_plain_text_wins_over_earlier_html() {
    // The first text/plain child decides the body, whatever its position.
    let tree = multipart(vec![
        leaf("text/html", "<p>html</p>"),
        leaf("text/plain", "plain body"),
        leaf("text/plain", "second plain"),
    ]);
    assert_eq!(extract_body(&tree), "plain body");
}

#[test]
fn test_html_fallback_without_plain() {
    let tree = multipart(vec![
        leaf("application/octet-stream", "binary"),
        leaf("text/html", "<p>first html</p>"),
        leaf("text/html", "<p>second html</p>"),
    ]);
    assert_eq!(extract_body(&tree), "<p>first html</p>");
}

#[test]
fn test_nested_multipart_body() {
    let tree = multipart(vec![multipart(vec![leaf("text/plain", "nested plain")])]);
    assert_eq!(extract_body(&tree), "nested plain");
}

#[test]
fn test_leaf_body_is_its_own_text() {
    let tree = leaf("text/plain", "just me");
    assert_eq!(extract_body(&tree), "just me");
}

#[test]
fn test_empty_payload_attachment_never_written() {
    let tree = multipart(vec![
        attachment_part("attachment; filename=\"empty.bin\"", "application/octet-stream", b""),
        attachment_part("attachment; filename=\"full.bin\"", "application/octet-stream", b"data"),
    ]);
    let base: Vec<char> = "email_2024-01-05_a_to_b".chars().collect();
    let mut out: Vec<AttachmentFile> = Vec::new();
    extract_attachments(&tree, &base, false, &mut out);
    assert_eq!(out.len(), 1);
    assert!(out[0].name.contains("full.bin"));
    assert_eq!(out[0].payload, b"data".to_vec());
}

#[test]
fn test_attachment_list_in_discovery_order() {
    // One entry per accepted attachment, nested parts traversed in order.
    let nested = multipart(vec![attachment_part(
        "attachment; filename=\"inner.txt\"",
        "text/plain",
        b"inner",
    )]);
    let tree = multipart(vec![
        attachment_part("attachment; filename=\"first.txt\"", "text/plain", b"one"),
        nested,
        attachment_part("attachment; filename=\"last.txt\"", "text/plain", b"two"),
    ]);
    let base: Vec<char> = "base".chars().collect();
    let mut out: Vec<AttachmentFile> = Vec::new();
    extract_attachments(&tree, &base, false, &mut out);
    let names: Vec<String> = out.iter().map(|a| a.name.clone()).collect();
    assert_eq!(names.len(), 3);
    assert!(names[0].contains("first.txt"));
    assert!(names[1].contains("inner.txt"));
    assert!(names[2].contains("last.txt"));
    assert!(names[0].starts_with("base_"));
}

#[test]
fn test_signature_image_skipped_when_enabled() {
    let sig = attachment_part("inline; filename=\"logo.png\"", "image/png", &[7u8; 100]);
    let doc = attachment_part("attachment; filename=\"report.pdf\"", "application/pdf", b"%PDF");
    let tree = multipart(vec![sig, doc]);
    let base: Vec<char> = "base".chars().collect();
    let mut with_skip: Vec<AttachmentFile> = Vec::new();
    extract_attachments(&tree, &base, true, &mut with_skip);
    assert_eq!(with_skip.len(), 1);
    assert!(with_skip[0].name.contains("report.pdf"));
    let mut without_skip: Vec<AttachmentFile> = Vec::new();
    extract_attachments(&tree, &base, false, &mut without_skip);
    assert_eq!(without_skip.len(), 2);
}

#[test]
fn test_is_signature_image_heuristic() {
    assert!(is_signature_image("logo.png", "image/png", 4000, "inline"));
    assert!(is_signature_image("signature.gif", "image/gif", 100, ""));
    assert!(!is_signature_image("logo.png", "image/png", 4000, "attachment"));
    assert!(!is_signature_image("report.pdf", "application/pdf", 100, "inline"));
    assert!(!is_signature_image("logo.png", "image/png", 500000, "inline"));
}

#[test]
fn test_extract_filename_from_header_forms() {
    assert_eq!(
        extract_filename_from_header("attachment; filename=\"a b.txt\""),
        Some("a b.txt".to_string())
    );
    assert_eq!(
        extract_filename_from_header("attachment; filename=plain.txt"),
        Some("plain.txt".to_string())
    );
    assert_eq!(
        extract_filename_from_header("attachment; filename*=utf-8''enc.txt"),
        Some("utf-8''enc.txt".to_string())
    );
    assert_eq!(
        extract_filename_from_header("text/plain; name=\"typed.txt\""),
        Some("typed.txt".to_string())
    );
    assert_eq!(extract_filename_from_header("inline"), None);
}

#[test]
fn test_sanitize_filename_strips_unsafe() {
    assert_eq!(sanitize_filename("a b/c:d.txt"), "a_b_c_d.txt");
    assert_eq!(sanitize_filename("ok-name_1.PDF"), "ok-name_1.PDF");
}

#[test]
fn test_get_short_name_forms() {
    assert_eq!(get_short_name("a@x.com"), "a");
    assert_eq!(get_short_name("Alice Example <alice.smith@x.com>"), "alice.smith");
    assert_eq!(get_short_name(""), "unknown");
}

#[test]
fn test_normalize_line_breaks_collapses() {
    assert_eq!(normalize_line_breaks("a\r\nb"), "a\nb");
    assert_eq!(normalize_line_breaks("a\n\n\n\nb"), "a\n\nb");
}

#[test]
fn test_limit_quote_depth_drops_deep_quotes() {
    let body = "top\n> one\n>> two\n>>> three\nplain";
    assert_eq!(limit_quote_depth(body, 1), "top\n> one\nplain");
    assert_eq!(limit_quote_depth(body, 0), "top\nplain");
}

#[test]
fn test_email_already_exported_pattern_and_hash() {
    let files = vec![ExistingFile {
        name: "email_2024-01-05_a_to_b.md".to_string(),
        content: "---\nsubject_hash: 63f0bf\n---\n\nbody".to_string(),
    }];
    assert!(email_already_exported("2024-01-05", "a", "b", "63f0bf", &files));
    // A different fingerprint in the same file is not a duplicate.
    assert!(!email_already_exported("2024-01-05", "a", "b", "ffffff", &files));
    // A different day does not match the pattern.
    assert!(!email_already_exported("2024-01-06", "a", "b", "63f0bf", &files));
    // The counter variant still matches the wildcard pattern.
    let files2 = vec![ExistingFile {
        name: "email_2024-01-05_a_to_b_2.md".to_string(),
        content: "subject_hash: 63f0bf".to_string(),
    }];
    assert!(email_already_exported("2024-01-05", "a", "b", "63f0bf", &files2));
}

fn raw_direct_message() -> &'static [u8] {
    b"From: a@x.com\r\nTo: b@x.com\r\nDate: Fri, 05 Jan 2024 10:00:00 +0000\r\nSubject: Hello\r\n\r\nBody text"
}

#[test]
fn test_export_scenario_direct_message() {
    // One direct message produces the expected document name, fingerprint
    // and statistics.
    let tree = parse_message(raw_direct_message()).unwrap();
    let acc = account("test");
    let existing: Vec<ExistingFile> = Vec::new();
    let mut collector = ContactsCollector::new();
    let plan = process_message(&tree, "INBOX", "attachments/INBOX", &acc, &existing, &mut collector);
    assert!(!plan.skipped);
    assert_eq!(plan.doc_name, "email_2024-01-05_a_to_b.md");
    assert!(plan.doc_text.contains("subject_hash: 63f0bf\n"));
    assert!(plan.doc_text.contains("from: a@x.com\n"));
    assert!(plan.doc_text.starts_with("---\n"));
    assert!(plan.doc_text.contains("Body text"));
    assert!(plan.attachments.is_empty());

    let mut stats = email_to_markdown::pipeline::ExportStats::default();
    let outcome = if plan.skipped {
        email_to_markdown::pipeline::MessageOutcome::Skipped
    } else {
        email_to_markdown::pipeline::MessageOutcome::Exported
    };
    stats.record(&outcome);
    assert_eq!(stats.exported, 1);
    assert_eq!(stats.skipped, 0);
    assert_eq!(stats.errors, 0);
}

#[test]
fn test_reexport_is_skipped() {
    // Exporting identical content twice with skip-existing on: the second
    // run reports it as skipped.
    let tree = parse_message(raw_direct_message()).unwrap();
    let acc = account("test");
    let mut collector = ContactsCollector::new();
    let first = process_message(
        &tree,
        "INBOX",
        "attachments/INBOX",
        &acc,
        &Vec::new(),
        &mut collector,
    );
    assert!(!first.skipped);
    let existing = vec![ExistingFile { name: first.doc_name.clone(), content: first.doc_text.clone() }];
    let second = process_message(&tree, "INBOX", "attachments/INBOX", &acc, &existing, &mut collector);
    assert!(second.skipped);
}

#[test]
fn test_distinct_subjects_get_counter() {
    // Same day and participants, different subject: both are exported and
    // the second document gets the disambiguation counter.
    let tree1 = parse_message(raw_direct_message()).unwrap();
    let raw2 = b"From: a@x.com\r\nTo: b@x.com\r\nDate: Fri, 05 Jan 2024 11:00:00 +0000\r\nSubject: Other\r\n\r\nSecond";
    let tree2 = parse_message(raw2).unwrap();
    let acc = account("test");
    let mut collector = ContactsCollector::new();
    let first = process_message(&tree1, "INBOX", "attachments/INBOX", &acc, &Vec::new(), &mut collector);
    assert!(!first.skipped);
    let existing = vec![ExistingFile { name: first.doc_name.clone(), content: first.doc_text.clone() }];
    let second = process_message(&tree2, "INBOX", "attachments/INBOX", &acc, &existing, &mut collector);
    assert!(!second.skipped);
    assert_eq!(second.doc_name, "email_2024-01-05_a_to_b_2.md");
}

#[test]
fn test_attachment_paths_listed_in_document() {
    let raw = b"From: a@x.com\r\nTo: b@x.com\r\nDate: Fri, 05 Jan 2024 10:00:00 +0000\r\nSubject: Files\r\nContent-Type: multipart/mixed; boundary=\"B\"\r\n\r\n--B\r\nContent-Type: text/plain\r\n\r\nSee attachment\r\n--B\r\nContent-Type: application/pdf; name=\"doc.pdf\"\r\nContent-Disposition: attachment; filename=\"doc.pdf\"\r\n\r\n%PDF-data\r\n--B--\r\n";
    let tree = parse_message(raw).unwrap();
    let acc = account("test");
    let mut collector = ContactsCollector::new();
    let plan = process_message(&tree, "INBOX", "attachments/INBOX", &acc, &Vec::new(), &mut collector);
    assert!(!plan.skipped);
    assert_eq!(plan.attachments.len(), 1);
    assert_eq!(plan.attachment_paths.len(), 1);
    assert!(plan.attachment_paths[0].starts_with("attachments/INBOX/"));
    assert!(plan.attachment_paths[0].contains("doc.pdf"));
    assert!(plan.doc_text.contains("### Pieces jointes :"));
    assert!(plan.doc_text.contains(&plan.attachment_paths[0]));
    assert_eq!(plan.attachments[0].payload, b"%PDF-data".to_vec());
}

#[test]
fn test_contacts_collected_when_enabled() {
    let tree = parse_message(raw_direct_message()).unwrap();
    let mut acc = account("test");
    acc.collect_contacts = true;
    let mut collector = ContactsCollector::new();
    let plan = process_message(&tree, "INBOX", "attachments/INBOX", &acc, &Vec::new(), &mut collector);
    assert!(!plan.skipped);
    assert!(collector.direct.contains(&"a@x.com".to_string()));
    assert!(collector.direct.contains(&"b@x.com".to_string()));
}

#[test]
fn test_unparseable_date_uses_sentinel() {
    // A day outside 1..=31 makes the date parser fail outright.
    let raw = b"From: a@x.com\r\nTo: b@x.com\r\nDate: 99 Jan 2024 10:00:00 +0000\r\nSubject: Hello\r\n\r\nBody";
    let tree = parse_message(raw).unwrap();
    let acc = account("test");
    let mut collector = ContactsCollector::new();
    let plan = process_message(&tree, "INBOX", "attachments/INBOX", &acc, &Vec::new(), &mut collector);
    assert!(plan.doc_name.starts_with("email_unknown-date_a_to_b"));
    assert!(plan.doc_text.contains("date: 99 Jan 2024 10:00:00 +0000\n"));
}

#[test]
fn test_empty_subject_uses_sentinel_hash() {
    let raw = b"From: a@x.com\r\nTo: b@x.com\r\nDate: Fri, 05 Jan 2024 10:00:00 +0000\r\n\r\nBody";
    let tree = parse_message(raw).unwrap();
    let acc = account("test");
    let mut collector = ContactsCollector::new();
    let plan = process_message(&tree, "INBOX", "attachments/INBOX", &acc, &Vec::new(), &mut collector);
    assert!(plan.doc_text.contains("subject_hash: no-subject\n"));
}

#[test]
fn test_quote_depth_zero_keeps_quotes_when_disabled() {
    // An account with quote_depth 0 leaves the body unlimited.
    let raw = b"From: a@x.com\r\nTo: b@x.com\r\nDate: Fri, 05 Jan 2024 10:00:00 +0000\r\nSubject: Hello\r\n\r\n> quoted\nplain";
    let tree = parse_message(raw).unwrap();
    let mut acc = account("test");
    acc.quote_depth = 0;
    let mut collector = ContactsCollector::new();
    let plan = process_message(&tree, "INBOX", "attachments/INBOX", &acc, &Vec::new(), &mut collector);
    assert!(plan.doc_text.contains("> quoted"));
}

#[test]
fn test_skip_existing_disabled_exports_again() {
    let tree = parse_message(raw_direct_message()).unwrap();
    let mut acc = account("test");
    acc.skip_existing = false;
    let mut collector = ContactsCollector::new();
    let first = process_message(&tree, "INBOX", "attachments/INBOX", &acc, &Vec::new(), &mut collector);
    let existing = vec![ExistingFile { name: first.doc_name.clone(), content: first.doc_text.clone() }];
    let second = process_message(&tree, "INBOX", "attachments/INBOX", &acc, &existing, &mut collector);
    assert!(!second.skipped);
    assert_eq!(second.doc_name, "email_2024-01-05_a_to_b_2.md");
}
