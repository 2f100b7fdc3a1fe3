use rattomail::{config_from_entries, parse_config, Config, ConfigError};

#[test]
fn config_text_success() {
    let conts = r#"
mailDir = /home/user/Maildir/new
userName = user
"#;
    let config = parse_config(conts).unwrap();
    let expected = Config {
        mailDir: "/home/user/Maildir/new".to_string(),
        userName: "user".to_string(),
    };
    assert_eq!(expected, config, "config file conts does not equal what was written");
}

#[test]
fn config_text_malformed() {
    let conts = r#"
mailDir /home/user/Maildir/new
userName = user
"#;
    let result = parse_config(conts);
    assert!(result.is_err(), "Expected an error, but got: {:?}", result);
}

#[test]
fn config_text_missing_keys() {
    assert_eq!(parse_config("userName = user\n"), Err(ConfigError::MissingMailDir));
    assert_eq!(parse_config("mailDir = /m/Maildir/new\n"), Err(ConfigError::MissingUserName));
}

#[test]
fn config_text_with_byte_order_mark() {
    let config = parse_config("\u{feff}mailDir = /m/Maildir/new\nuserName = u\n").unwrap();
    assert_eq!(config.mailDir, "/m/Maildir/new");
    assert_eq!(config.userName, "u");
}

#[test]
fn config_entries() {
    assert_eq!(config_from_entries(None, Some("u".to_string())), Err(ConfigError::MissingMailDir));
    assert_eq!(config_from_entries(Some("m".to_string()), None), Err(ConfigError::MissingUserName));
    assert_eq!(
        config_from_entries(Some("m".to_string()), Some("u".to_string())),
        Ok(Config { mailDir: "m".to_string(), userName: "u".to_string() })
    );
}

#[test]
fn config_text_entry_without_equals_leaves_mail_dir_unset() {
    let result = parse_config("\nmailDir /home/user/Maildir/new\nuserName = user\n");
    assert_eq!(result, Err(ConfigError::MissingMailDir));
}

#[test]
fn config_text_unparsable_is_reported_as_parse_error() {
    let result = parse_config("[general\nmailDir = /m/Maildir/new\n");
    assert!(matches!(result, Err(ConfigError::Malformed(_))), "got {:?}", result);
}
