use vastline::install::{
    command_basename, command_is_self, command_token, delegate_command, install_plan, quote_cmd,
    delegate_command_from_text, read_base_block, self_by_names, settings_root, uninstall_plan,
    BaseCapture, SettingsError, UninstallOutcome,
};
use vastline::json::{get, json_file_text, JsonValue};

fn text(s: &str) -> JsonValue {
    JsonValue::Text(s.to_string())
}

fn obj(entries: Vec<(&str, JsonValue)>) -> JsonValue {
    JsonValue::Object(entries.into_iter().map(|(k, v)| (k.to_string(), v)).collect())
}

fn quotaline_block() -> JsonValue {
    obj(vec![
        ("type", text("command")),
        ("command", text("/usr/local/bin/quotaline")),
        ("refreshInterval", JsonValue::Number("5".to_string())),
    ])
}

#[test]
fn self_detection() {
    let exe = "/home/me/.local/bin/vastline";
    assert!(command_is_self("/home/me/.local/bin/vastline", exe));
    assert!(command_is_self("\"/home/me/.local/bin/vastline\"", exe));
    assert!(!command_is_self("/usr/local/bin/quotaline", exe));
    // Path-changed reinstall: a DIFFERENT path but the same basename must still read as self,
    // otherwise base.json gets poisoned with a self-reference → render-time recursion.
    assert!(command_is_self("/opt/vastline", exe));
    assert!(command_is_self("\"/new prefix/vastline\"", exe));
    // A quoted delegate with arguments is not us.
    assert!(!command_is_self("\"/usr/local/bin/quotaline\" --foo", exe));
}

#[test]
fn basename_extraction() {
    assert_eq!(
        command_basename("/a/b/vastline").as_deref(),
        Some("vastline")
    );
    assert_eq!(
        command_basename("\"/a b/vastline\" --x").as_deref(),
        Some("vastline")
    );
    assert_eq!(
        command_basename("/usr/bin/quotaline --window 5").as_deref(),
        Some("quotaline")
    );
}

#[test]
fn basename_edge_cases() {
    assert_eq!(command_basename(""), None);
    assert_eq!(command_basename("/"), None);
    assert_eq!(command_basename("/a/.."), None);
    assert_eq!(command_basename("  \"unterminated path").as_deref(), Some("unterminated path"));
}

#[test]
fn command_tokens() {
    assert_eq!(command_token("  /a/b/c --x y "), "/a/b/c");
    assert_eq!(command_token("\"/a b/c\" --x"), "/a b/c");
    assert_eq!(command_token("\"/a b/c"), "/a b/c");
    assert_eq!(command_token("   "), "");
}

#[test]
fn quoting_commands() {
    assert_eq!(quote_cmd("/home/me/bin/vastline"), "/home/me/bin/vastline");
    assert_eq!(quote_cmd("/home/my dir/vastline"), "\"/home/my dir/vastline\"");
    assert_eq!(quote_cmd("/a \"b\"/v"), "\"/a \\\"b\\\"/v\"");
    assert_eq!(quote_cmd("/a\"b/v"), "/a\"b/v");
}

#[test]
fn quoted_command_refers_back_to_exe() {
    for exe in ["/usr/bin/vastline", "/home/my dir/vastline", "/a\tb/vastline"] {
        assert!(command_is_self(&quote_cmd(exe), exe));
    }
}

#[test]
fn settings_roots() {
    assert_eq!(settings_root(None), Ok(obj(vec![])));
    assert_eq!(settings_root(Some("  \n")), Ok(obj(vec![])));
    assert_eq!(
        settings_root(Some("{\"a\": 1, \"b\": [true, null, \"x\"]}")),
        Ok(obj(vec![
            ("a", JsonValue::Number("1".into())),
            ("b", JsonValue::Array(vec![JsonValue::Bool(true), JsonValue::Null, text("x")])),
        ]))
    );
    assert_eq!(settings_root(Some("[1]")), Err(SettingsError::NotAnObject));
    assert_eq!(settings_root(Some("null")), Err(SettingsError::NotAnObject));
    assert_eq!(settings_root(Some("{oops")), Err(SettingsError::InvalidJson));
}

#[test]
fn settings_keep_key_order() {
    let root = settings_root(Some("{\"z\": 1, \"a\": 2, \"m\": 3}")).unwrap();
    match root {
        JsonValue::Object(e) => {
            let keys: Vec<&str> = e.iter().map(|(k, _)| k.as_str()).collect();
            assert_eq!(keys, vec!["z", "a", "m"]);
        }
        other => panic!("unexpected {other:?}"),
    }
}

#[test]
fn delegate_command_from_base_file_text() {
    assert_eq!(
        delegate_command_from_text("{\"type\":\"command\",\"command\":\" quotaline \"}").as_deref(),
        Some("quotaline")
    );
    assert_eq!(delegate_command_from_text("null"), None);
    assert_eq!(delegate_command_from_text("not json"), None);
    assert_eq!(delegate_command_from_text("{\"command\": 5}"), None);
}

#[test]
fn reading_the_recorded_block() {
    assert_eq!(read_base_block(None), None);
    assert_eq!(read_base_block(Some("null\n")), None);
    assert_eq!(read_base_block(Some("{broken")), None);
    assert_eq!(read_base_block(Some("{\"command\": \"q\"}")), Some(obj(vec![("command", text("q"))])));
}

#[test]
fn written_block_reads_back() {
    let block = quotaline_block();
    let written = json_file_text(&block);
    assert!(written.ends_with("}\n"));
    assert_eq!(read_base_block(Some(&written)), Some(block));
    assert_eq!(json_file_text(&JsonValue::Null), "null\n");
}

#[test]
fn settings_text_round_trip() {
    let text = "{\n  \"theme\": \"dark\",\n  \"n\": 1.5,\n  \"big\": 18446744073709551615\n}";
    let root = settings_root(Some(text)).unwrap();
    assert_eq!(json_file_text(&root), format!("{text}\n"));
}

#[test]
fn delegate_command_is_trimmed_and_non_blank() {
    assert_eq!(
        delegate_command(&obj(vec![("command", text("  quotaline --x \n"))])).as_deref(),
        Some("quotaline --x")
    );
    assert_eq!(delegate_command(&obj(vec![("command", text("   "))])), None);
    assert_eq!(delegate_command(&obj(vec![("command", JsonValue::Null)])), None);
    assert_eq!(delegate_command(&JsonValue::Null), None);
}

#[test]
fn install_captures_existing_status_line() {
    let root = obj(vec![("theme", text("dark")), ("statusLine", quotaline_block())]);
    let plan = install_plan(&root, "/home/me/bin/vastline", 10);
    assert_eq!(plan.command, "/home/me/bin/vastline");
    match &plan.capture {
        BaseCapture::Record(b) => assert_eq!(b, &quotaline_block()),
        other => panic!("unexpected {other:?}"),
    }
    assert_eq!(
        plan.settings,
        obj(vec![
            ("theme", text("dark")),
            (
                "statusLine",
                obj(vec![
                    ("type", text("command")),
                    ("command", text("/home/me/bin/vastline")),
                    ("refreshInterval", JsonValue::Number("10".to_string())),
                ])
            ),
        ])
    );
}

#[test]
fn install_without_status_line_records_null_and_appends() {
    let root = obj(vec![("theme", text("dark"))]);
    let plan = install_plan(&root, "/home/my dir/vastline", 30);
    assert!(matches!(plan.capture, BaseCapture::Record(JsonValue::Null)));
    assert_eq!(plan.command, "\"/home/my dir/vastline\"");
    let sl = get(&plan.settings, "statusLine").unwrap();
    assert_eq!(get(sl, "command"), Some(&text("\"/home/my dir/vastline\"")));
    assert_eq!(get(sl, "refreshInterval"), Some(&JsonValue::Number("30".into())));
}

#[test]
fn reinstall_keeps_previous_capture() {
    let root = obj(vec![("statusLine", quotaline_block())]);
    let first = install_plan(&root, "/home/me/bin/vastline", 10);
    let second = install_plan(&first.settings, "/home/me/bin/vastline", 10);
    assert!(matches!(second.capture, BaseCapture::KeepPrevious));
    assert_eq!(second.settings, first.settings);
    // A moved install (same file name) is still recognised as itself.
    let moved = install_plan(&first.settings, "/opt/vastline", 10);
    assert!(matches!(moved.capture, BaseCapture::KeepPrevious));
}

#[test]
fn uninstall_restores_exactly() {
    let exe = "/home/me/bin/vastline";
    let root = obj(vec![
        ("a", text("1")),
        ("statusLine", quotaline_block()),
        ("z", JsonValue::Bool(true)),
    ]);
    let plan = install_plan(&root, exe, 10);
    let base = match plan.capture {
        BaseCapture::Record(b) => b,
        BaseCapture::KeepPrevious => panic!("first install must record"),
    };
    let undo = uninstall_plan(&plan.settings, Some(exe), Some(base));
    assert_eq!(undo.outcome, UninstallOutcome::Restored);
    assert_eq!(undo.settings, root);
}

#[test]
fn uninstall_removes_when_nothing_was_captured() {
    let exe = "/home/me/bin/vastline";
    let root = obj(vec![("a", text("1"))]);
    let plan = install_plan(&root, exe, 10);
    let base = match plan.capture {
        BaseCapture::Record(b) => b,
        BaseCapture::KeepPrevious => panic!("first install must record"),
    };
    let undo = uninstall_plan(&plan.settings, Some(exe), Some(base));
    assert_eq!(undo.outcome, UninstallOutcome::Removed);
    assert_eq!(undo.settings, root);
}

#[test]
fn uninstall_leaves_a_foreign_status_line_alone() {
    let root = obj(vec![("statusLine", quotaline_block())]);
    let undo = uninstall_plan(&root, Some("/home/me/bin/vastline"), Some(JsonValue::Null));
    assert_eq!(undo.outcome, UninstallOutcome::LeftAlone);
    assert_eq!(undo.settings, root);
    let none = obj(vec![]);
    let undo = uninstall_plan(&none, None, None);
    assert_eq!(undo.outcome, UninstallOutcome::LeftAlone);
}

#[test]
fn uninstall_without_own_path_assumes_ours() {
    let root = obj(vec![("statusLine", obj(vec![("command", text("whatever"))]))]);
    let undo = uninstall_plan(&root, None, None);
    assert_eq!(undo.outcome, UninstallOutcome::Removed);
    assert_eq!(undo.settings, obj(vec![]));
}

#[test]
fn null_status_line_comes_back_removed() {
    let exe = "/home/me/bin/vastline";
    let root = obj(vec![("statusLine", JsonValue::Null)]);
    let plan = install_plan(&root, exe, 10);
    let base = match plan.capture {
        BaseCapture::Record(b) => b,
        BaseCapture::KeepPrevious => panic!("first install must record"),
    };
    let undo = uninstall_plan(&plan.settings, Some(exe), Some(base));
    assert_eq!(undo.settings, obj(vec![]));
}

#[test]
fn self_by_given_names() {
    let n = |s: &str| Some(s.to_string());
    assert!(self_by_names("/x/vastline --a", "/x/vastline", None, None));
    assert!(self_by_names("/opt/v", "/x/v", n("v"), n("v")));
    assert!(!self_by_names("/opt/v", "/x/w", n("v"), n("w")));
    assert!(!self_by_names("/opt/v", "/x/v", None, n("v")));
    assert!(!self_by_names("/opt/v", "/x/v", n("v"), None));
}
