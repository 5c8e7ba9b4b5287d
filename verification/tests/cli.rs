use vastline::cli::{flag_u64, has_flag, parse_command, Command};

fn args(a: &[&str]) -> Vec<String> {
    a.iter().map(|s| s.to_string()).collect()
}

#[test]
fn dispatch() {
    assert_eq!(parse_command(&args(&["vastline"])), Command::Render);
    assert_eq!(parse_command(&args(&["vastline", "refresh"])), Command::Refresh);
    assert_eq!(parse_command(&args(&["vastline", "status"])), Command::Status);
    assert_eq!(parse_command(&args(&["vastline", "help"])), Command::Help);
    assert_eq!(parse_command(&args(&["vastline", "-h"])), Command::Help);
    assert_eq!(parse_command(&args(&["vastline", "--help"])), Command::Help);
    assert_eq!(parse_command(&args(&["vastline", "frob"])), Command::Unknown("frob".into()));
}

#[test]
fn key_subcommands() {
    assert_eq!(parse_command(&args(&["v", "key", "set", "K1"])), Command::KeySet(Some("K1".into())));
    assert_eq!(parse_command(&args(&["v", "key", "set"])), Command::KeySet(None));
    assert_eq!(parse_command(&args(&["v", "key", "path"])), Command::KeyShow);
    assert_eq!(parse_command(&args(&["v", "key", "show"])), Command::KeyShow);
    assert_eq!(parse_command(&args(&["v", "key", "clear"])), Command::KeyClear);
    assert_eq!(parse_command(&args(&["v", "key", "rm"])), Command::KeyClear);
    assert_eq!(parse_command(&args(&["v", "key"])), Command::KeyUsage);
    assert_eq!(parse_command(&args(&["v", "key", "bogus"])), Command::KeyUsage);
}

#[test]
fn install_refresh_interval() {
    assert_eq!(
        parse_command(&args(&["v", "install"])),
        Command::Install { refresh: 10, bad_refresh: false }
    );
    assert_eq!(
        parse_command(&args(&["v", "install", "--refresh", "30"])),
        Command::Install { refresh: 30, bad_refresh: false }
    );
    assert_eq!(
        parse_command(&args(&["v", "install", "--refresh", "soon"])),
        Command::Install { refresh: 10, bad_refresh: true }
    );
    assert_eq!(
        parse_command(&args(&["v", "install", "--refresh"])),
        Command::Install { refresh: 10, bad_refresh: true }
    );
}

#[test]
fn uninstall_purge() {
    assert_eq!(parse_command(&args(&["v", "uninstall"])), Command::Uninstall { purge: false });
    assert_eq!(
        parse_command(&args(&["v", "uninstall", "--purge"])),
        Command::Uninstall { purge: true }
    );
}

#[test]
fn flags() {
    let a = args(&["v", "install", "--refresh", "5", "--refresh", "7"]);
    assert!(has_flag(&a, "--refresh"));
    assert!(!has_flag(&a, "--purge"));
    assert_eq!(flag_u64(&a, "--refresh"), Some(5));
    assert_eq!(flag_u64(&args(&["v", "--refresh", "+8"]), "--refresh"), Some(8));
    assert_eq!(flag_u64(&args(&["v", "--refresh", "-8"]), "--refresh"), None);
    assert_eq!(flag_u64(&args(&["v"]), "--refresh"), None);
}
