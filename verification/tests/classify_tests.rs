use email_to_markdown::classify::{analyze_email_type, extract_emails, EmailType};
use email_to_markdown::contacts::ContactsCollector;
use email_to_markdown::mime::parse_message;

#[test]
fn test_analyze_email_type() {
    // Basic test with raw email bytes
    let raw_email = b"From: sender@example.com\r\nTo: recipient@example.com\r\nSubject: Test\r\n\r\nBody";
    let mail = parse_message(raw_email).unwrap();
    let analysis = analyze_email_type(&mail);

    assert_eq!(analysis.email_type, EmailType::Direct);
    assert_eq!(analysis.from, "sender@example.com");
}

#[test]
fn test_email_type_newsletter() {
    let raw_email = b"From: news@example.com\r\nTo: user@example.com\r\nSubject: Weekly Newsletter\r\n\r\nBody";
    let mail = parse_message(raw_email).unwrap();
    let analysis = analyze_email_type(&mail);

    assert_eq!(analysis.email_type, EmailType::Newsletter);
}

#[test]
fn test_email_type_group() {
    let raw_email = b"From: sender@example.com\r\nTo: a@example.com, b@example.com\r\nSubject: Test\r\n\r\nBody";
    let mail = parse_message(raw_email).unwrap();
    let analysis = analyze_email_type(&mail);

    assert_eq!(analysis.email_type, EmailType::Group);
}

#[test]
fn test_contacts_collector() {
    let mut collector = ContactsCollector::new();
    collector.add(&EmailType::Direct, "test@example.com".to_string());
    collector.add(&EmailType::Group, "group@example.com".to_string());

    assert!(collector.direct.contains(&"test@example.com".to_string()));
    assert!(collector.group.contains(&"group@example.com".to_string()));
}

#[test]
fn test_contacts_collector_idempotent_add() {
    let mut collector = ContactsCollector::new();
    collector.add(&EmailType::Direct, "test@example.com".to_string());
    collector.add(&EmailType::Direct, "test@example.com".to_string());
    assert_eq!(collector.direct.len(), 1);
    // The same address under a second type appears once per type.
    collector.add(&EmailType::Newsletter, "test@example.com".to_string());
    assert_eq!(collector.newsletter.len(), 1);
    assert_eq!(collector.direct.len(), 1);
}

#[test]
fn test_group_precedes_newsletter_keyword() {
    // Two To addresses classify as Group even with a newsletter subject.
    let raw_email = b"From: news@example.com\r\nTo: a@example.com, b@example.com\r\nSubject: Monthly newsletter\r\n\r\nBody";
    let mail = parse_message(raw_email).unwrap();
    let analysis = analyze_email_type(&mail);
    assert_eq!(analysis.email_type, EmailType::Group);
}

#[test]
fn test_newsletter_precedes_direct() {
    // One From and one To, but the subject keyword wins over Direct.
    let raw_email = b"From: news@example.com\r\nTo: user@example.com\r\nSubject: Weekly Newsletter Digest\r\n\r\nBody";
    let mail = parse_message(raw_email).unwrap();
    let analysis = analyze_email_type(&mail);
    assert_eq!(analysis.email_type, EmailType::Newsletter);
}

#[test]
fn test_mailing_list_header() {
    let raw_email = b"From: a@example.com\r\nTo: b@example.com\r\nList-Id: <list.example.com>\r\nSubject: Plain\r\n\r\nBody";
    let mail = parse_message(raw_email).unwrap();
    let analysis = analyze_email_type(&mail);
    assert_eq!(analysis.email_type, EmailType::MailingList);
}

#[test]
fn test_extract_emails_forms() {
    let list = extract_emails("Alice Example <alice@x.com>, bob@y.com ,  , Carol <carol@z.com>");
    assert_eq!(list, vec!["alice@x.com", "bob@y.com", "carol@z.com"]);
    let none = extract_emails("");
    assert!(none.is_empty());
}

#[test]
fn test_contacts_union_deduplicated() {
    let raw_email = b"From: a@x.com\r\nTo: a@x.com, b@x.com\r\nCc: b@x.com, c@x.com\r\nSubject: s\r\n\r\nBody";
    let mail = parse_message(raw_email).unwrap();
    let analysis = analyze_email_type(&mail);
    assert_eq!(analysis.contacts, vec!["a@x.com", "b@x.com", "c@x.com"]);
}

#[test]
fn test_email_type_label() {
    assert_eq!(EmailType::MailingList.label(), "mailing_list");
    assert_eq!(EmailType::Direct.label(), "direct");
}
