use vastline::key::{key_from_text, mask, resolve_from, Source, MINT_CMD};

#[test]
fn masking() {
    assert_eq!(mask(""), "");
    assert_eq!(mask("abcd"), "****");
    assert_eq!(mask("0123456789ab"), "************"); // 12 chars → fully starred
    assert_eq!(mask("0123456789abcdef"), "012345…(16 chars)");
}

#[test]
fn masking_counts_characters_not_bytes() {
    assert_eq!(mask("ééééé"), "*****");
    assert_eq!(mask("ééééééééééééé"), "éééééé…(13 chars)");
}

#[test]
fn masking_hides_everything_after_the_sixth_character() {
    assert_eq!(mask("abcdef0000000000"), mask("abcdef1111111111"));
    assert_eq!(mask("aaaaaaaaaaaa"), mask("bbbbbbbbbbbb"));
}

#[test]
fn source_descriptions() {
    assert_eq!(Source::Env.describe(), "$VAST_API_KEY (environment)");
    assert_eq!(Source::VastlineFile.describe(), "~/.config/vastline/vast_api_key");
    assert_eq!(Source::VastaiFile.describe(), "~/.config/vastai/vast_api_key (vast CLI)");
}

#[test]
fn mint_command_is_read_only() {
    assert!(MINT_CMD.contains("instance_read"));
    assert!(MINT_CMD.contains("user_read"));
    assert!(MINT_CMD.starts_with("vastai create api-key --name vastline"));
}

#[test]
fn key_text_is_trimmed() {
    assert_eq!(key_from_text("  abc123\n").as_deref(), Some("abc123"));
    assert_eq!(key_from_text("\t\n  "), None);
    assert_eq!(key_from_text(""), None);
}

#[test]
fn env_key_wins_over_files() {
    let r = resolve_from(Some(" envkey "), Some("filekey"), Some("clikey")).unwrap();
    assert_eq!(r.key, "envkey");
    assert_eq!(r.source, Source::Env);
}

#[test]
fn blank_env_falls_through_to_vastline_file() {
    let r = resolve_from(Some("   "), Some("filekey\n"), Some("clikey")).unwrap();
    assert_eq!(r.key, "filekey");
    assert_eq!(r.source, Source::VastlineFile);
}

#[test]
fn vast_cli_key_is_last_resort() {
    let r = resolve_from(None, Some("\n"), Some("clikey\n")).unwrap();
    assert_eq!(r.key, "clikey");
    assert_eq!(r.source, Source::VastaiFile);
}

#[test]
fn no_key_anywhere() {
    assert!(resolve_from(None, None, None).is_none());
    assert!(resolve_from(Some(""), Some(" "), Some("\n")).is_none());
}
