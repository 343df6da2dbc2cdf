use email_to_markdown::config::{Account, Config, ConfigError, SortConfig};

fn sample_account(name: &str) -> Account {
    Account {
        name: name.to_string(),
        server: "imap.example.com".to_string(),
        port: 993,
        username: "user@example.com".to_string(),
        password: None,
        export_directory: "./exports/example".to_string(),
        ignored_folders: Vec::new(),
        quote_depth: 1,
        skip_existing: true,
        collect_contacts: false,
        skip_signature_images: false,
        delete_after_export: false,
    }
}

#[test]
fn test_sort_config_default() {
    let config = SortConfig::default();
    assert!(config.delete_keywords.contains(&"newsletter".to_string()));
    assert!(config.keep_keywords.contains(&"contract".to_string()));
    assert_eq!(config.recent_threshold_days, 30);
}

#[test]
fn test_is_whitelisted() {
    let mut config = SortConfig::default();
    config.whitelist = vec![
        "important@client.com".into(),
        "@company.com".into(),
        "boss@".into(),
    ];

    assert!(config.is_whitelisted("important@client.com"));
    assert!(config.is_whitelisted("anyone@company.com"));
    assert!(config.is_whitelisted("boss@anywhere.com"));
    assert!(!config.is_whitelisted("random@other.com"));
}

#[test]
fn test_is_whitelisted_case_insensitive_and_empty() {
    let mut config = SortConfig::default();
    config.whitelist = vec!["Important@Client.com".into()];
    assert!(config.is_whitelisted("IMPORTANT@CLIENT.COM"));
    assert!(!config.is_whitelisted(""));
}

#[test]
fn test_validate_ok_and_errors() {
    let config = Config { accounts: vec![sample_account("one")] };
    assert!(config.validate().is_ok());

    let mut bad = sample_account("two");
    bad.server = String::new();
    let config = Config { accounts: vec![sample_account("one"), bad] };
    match config.validate() {
        Err(ConfigError::ValidationError(m)) => {
            assert_eq!(m, "Server not configured for account 'two'");
        }
        other => panic!("expected a validation error, got {:?}", other),
    }

    let mut no_name = sample_account("x");
    no_name.name = String::new();
    let config = Config { accounts: vec![no_name] };
    match config.validate() {
        Err(ConfigError::ValidationError(m)) => {
            assert_eq!(m, "Account name cannot be empty");
        }
        other => panic!("expected a validation error, got {:?}", other),
    }

    let mut zero_port = sample_account("p");
    zero_port.port = 0;
    let config = Config { accounts: vec![zero_port] };
    match config.validate() {
        Err(ConfigError::ValidationError(m)) => {
            assert_eq!(m, "Invalid port (0) for account 'p'");
        }
        other => panic!("expected a validation error, got {:?}", other),
    }
}

#[test]
fn test_get_account_case_insensitive() {
    let config = Config { accounts: vec![sample_account("Work"), sample_account("Home")] };
    let found = config.get_account("work").expect("account should be found");
    assert_eq!(found.name, "Work");
    assert!(config.get_account("nothere").is_none());
    let names = config.list_accounts();
    assert_eq!(names, vec!["Work", "Home"]);
}
