use email_to_markdown::config::Account;
use email_to_markdown::thunderbird::{
    build_profile_from_map, default_ignored_folders, generate_accounts_yaml,
    generate_env_template, merge_env_lines, parse_prefs_js, parse_profiles_ini, sanitize_name,
    ThunderbirdPassword,
};

#[test]
fn test_sanitize_name() {
    assert_eq!(sanitize_name("My Email Account"), "My_Email_Account");
    assert_eq!(sanitize_name("test@gmail.com"), "test_gmail_com");
}

#[test]
fn test_default_ignored_folders_gmail() {
    let folders = default_ignored_folders("Gmail");
    assert!(folders.iter().any(|f| f.contains("[Gmail]")));
}

#[test]
fn test_default_ignored_folders_other() {
    let folders = default_ignored_folders("MyMail");
    assert!(folders.contains(&"Spam".to_string()));
    assert!(folders.contains(&"Trash".to_string()));
}

#[test]
fn test_parse_prefs_js() {
    let prefs = r#"
user_pref("mail.server.server1.type", "imap");
user_pref("mail.server.server1.hostname", "imap.gmail.com");
user_pref("mail.server.server1.port", "993");
user_pref("mail.server.server1.userName", "test@gmail.com");
user_pref("mail.server.server1.name", "Gmail");
"#;
    let accounts = parse_prefs_js(prefs);
    assert_eq!(accounts.len(), 1);
    assert_eq!(accounts[0].server, "imap.gmail.com");
    assert_eq!(accounts[0].username, "test@gmail.com");
}

#[test]
fn test_parse_prefs_js_defaults_and_filtering() {
    let prefs = "user_pref(\"mail.server.server1.type\", \"pop3\");\nuser_pref(\"mail.server.server1.hostname\", \"pop.example.com\");\nuser_pref(\"mail.server.server2.type\", \"imap\");\nuser_pref(\"mail.server.server2.hostname\", \"mail.example.com\");\nuser_pref(\"mail.server.server2.port\", \"notaport\");\n";
    let accounts = parse_prefs_js(prefs);
    assert_eq!(accounts.len(), 1);
    assert_eq!(accounts[0].server, "mail.example.com");
    assert_eq!(accounts[0].port, 993);
    assert_eq!(accounts[0].name, "Account_server2");
    assert_eq!(accounts[0].export_directory, "./exports/Account_server2");
    assert!(accounts[0].skip_existing);
    assert!(accounts[0].skip_signature_images);
}

#[test]
fn test_parse_profiles_ini() {
    let ini = "[General]\nStartWithLastProfile=1\n\n[Profile0]\nName=default\nIsRelative=1\nPath=Profiles/abcd.default\nDefault=1\n\n[Profile1]\nName=extra\nIsRelative=0\nPath=/home/user/tb/extra\n";
    let profiles = parse_profiles_ini(ini, "/home/user/.thunderbird");
    assert_eq!(profiles.len(), 2);
    assert_eq!(profiles[0].name, "default");
    assert_eq!(profiles[0].path, "/home/user/.thunderbird/Profiles/abcd.default");
    assert!(profiles[0].is_default);
    assert_eq!(profiles[1].name, "extra");
    assert_eq!(profiles[1].path, "/home/user/tb/extra");
    assert!(!profiles[1].is_default);
}

#[test]
fn test_build_profile_from_map_missing_path() {
    let m = vec![("name".to_string(), "p".to_string())];
    assert!(build_profile_from_map(&m, "/base").is_none());
}

fn sample_account(name: &str, server: &str) -> Account {
    Account {
        name: name.to_string(),
        server: server.to_string(),
        port: 993,
        username: "u@example.com".to_string(),
        password: None,
        export_directory: "./exports/x".to_string(),
        ignored_folders: vec!["Spam".to_string()],
        quote_depth: 1,
        skip_existing: true,
        collect_contacts: false,
        skip_signature_images: true,
        delete_after_export: false,
    }
}

#[test]
fn test_generate_accounts_yaml_shape() {
    let yaml = generate_accounts_yaml(&vec![sample_account("My Mail", "mail.example.com")]);
    assert!(yaml.contains("  - name: \"My Mail\"\n"));
    assert!(yaml.contains("    server: \"mail.example.com\"\n"));
    assert!(yaml.contains("    port: 993\n"));
    assert!(yaml.contains("      - \"Spam\"\n"));
    assert!(yaml.contains("# MY_MAIL_PASSWORD=your_password\n"));
}

#[test]
fn test_generate_env_template_gmail_variant() {
    let env = generate_env_template(&vec![sample_account("My-Mail", "imap.gmail.com")]);
    assert!(env.contains("MY_MAIL_PASSWORD=your_password\n"));
    assert!(env.contains("MY_MAIL_APPLICATION_PASSWORD=your_app_password\n"));
    let env2 = generate_env_template(&vec![sample_account("Other", "mail.example.com")]);
    assert!(!env2.contains("APPLICATION_PASSWORD"));
}

#[test]
fn test_merge_env_lines_update_and_append() {
    let accounts = vec![
        sample_account("Work", "imap.example.com"),
        sample_account("Missing", "other.example.com"),
    ];
    let passwords = vec![ThunderbirdPassword {
        imap_server: "IMAP.EXAMPLE.COM".to_string(),
        username: "u".to_string(),
        password: "s3cret".to_string(),
    }];
    let mut lines = vec!["WORK=old".to_string(), "KEEP=1".to_string()];
    let written = merge_env_lines(&accounts, &passwords, &mut lines);
    assert_eq!(written, 1);
    assert_eq!(lines, vec!["WORK=s3cret".to_string(), "KEEP=1".to_string()]);

    let mut lines2 = vec!["KEEP=1".to_string()];
    let written2 = merge_env_lines(&accounts, &passwords, &mut lines2);
    assert_eq!(written2, 1);
    assert_eq!(lines2, vec!["KEEP=1".to_string(), "WORK=s3cret".to_string()]);
}

#[test]
fn test_parse_prefs_js_port_overflow_and_override() {
    // An out-of-range port falls back to the default; a later line for the
    // same property overrides an earlier one.
    let prefs = "user_pref(\"mail.server.s.type\", \"imap\");\nuser_pref(\"mail.server.s.hostname\", \"h1.example.com\");\nuser_pref(\"mail.server.s.hostname\", \"h2.example.com\");\nuser_pref(\"mail.server.s.port\", \"65536\");\n";
    let accounts = parse_prefs_js(prefs);
    assert_eq!(accounts.len(), 1);
    assert_eq!(accounts[0].server, "h2.example.com");
    assert_eq!(accounts[0].port, 993);
}

#[test]
fn test_parse_prefs_js_unquoted_value() {
    let prefs = "user_pref(\"mail.server.s.type\", \"imap\");\nuser_pref(\"mail.server.s.hostname\", \"mail.example.com\");\nuser_pref(\"mail.server.s.port\", 143);\n";
    let accounts = parse_prefs_js(prefs);
    assert_eq!(accounts.len(), 1);
    assert_eq!(accounts[0].port, 143);
}
