//! Command-line dispatch: which command an argument list asks for.
use vstd::prelude::*;
use vstd::string::*;
use crate::text::{parse_u64, parse_u64_spec};

verus! {

/// A command of the tool.
#[derive(Debug, PartialEq)]
pub enum Command {
    /// Render the status line (no arguments).
    Render,
    /// Fetch the API and rewrite the cache.
    Refresh,
    /// Show the resolved key and a live fetch.
    Status,
    /// Store a key: the one given, or one read from standard input.
    KeySet(Option<String>),
    /// Show which key would be used and from where.
    KeyShow,
    /// Remove the stored key.
    KeyClear,
    /// `key` with a missing or unknown subcommand.
    KeyUsage,
    /// Wire into the settings with this refresh interval; `bad_refresh` when `--refresh` was
    /// given without a number after it (the default interval is used then).
    Install { refresh: u64, bad_refresh: bool },
    /// Restore the previous status line; `purge` also drops key and cache.
    Uninstall { purge: bool },
    /// Print usage.
    Help,
    /// An unknown command.
    Unknown(String),
}

/// The view of a command.
pub enum CommandView {
    Render,
    Refresh,
    Status,
    KeySet(Option<Seq<char>>),
    KeyShow,
    KeyClear,
    KeyUsage,
    Install { refresh: u64, bad_refresh: bool },
    Uninstall { purge: bool },
    Help,
    Unknown(Seq<char>),
}

impl View for Command {
    type V = CommandView;

    open spec fn view(&self) -> CommandView {
        match *self {
            Command::Render => CommandView::Render,
            Command::Refresh => CommandView::Refresh,
            Command::Status => CommandView::Status,
            Command::KeySet(k) => CommandView::KeySet(
                match k {
                    Some(s) => Some(s@),
                    None => None,
                },
            ),
            Command::KeyShow => CommandView::KeyShow,
            Command::KeyClear => CommandView::KeyClear,
            Command::KeyUsage => CommandView::KeyUsage,
            Command::Install { refresh, bad_refresh } => CommandView::Install { refresh, bad_refresh },
            Command::Uninstall { purge } => CommandView::Uninstall { purge },
            Command::Help => CommandView::Help,
            Command::Unknown(s) => CommandView::Unknown(s@),
        }
    }
}

/// The views of an argument list.
pub open spec fn args_view(args: Seq<String>) -> Seq<Seq<char>> {
    args.map_values(|a: String| a@)
}

/// The argument at position `i`, if there is one.
pub open spec fn arg_at(args: Seq<Seq<char>>, i: int) -> Option<Seq<char>> {
    if 0 <= i < args.len() {
        Some(args[i])
    } else {
        None
    }
}

/// Some argument equals `name`.
pub open spec fn has_flag_spec(args: Seq<Seq<char>>, name: Seq<char>) -> bool {
    exists|i: int| 0 <= i < args.len() && args[i] == name
}

/// `i` is the first position holding `name`.
pub open spec fn is_first_pos(args: Seq<Seq<char>>, name: Seq<char>, i: int) -> bool {
    &&& 0 <= i < args.len()
    &&& args[i] == name
    &&& forall|j: int| 0 <= j < i ==> args[j] != name
}

/// The number after the first occurrence of `name`, if it parses as a `u64`.
pub open spec fn flag_u64_spec(args: Seq<Seq<char>>, name: Seq<char>) -> Option<u64> {
    if exists|i: int| is_first_pos(args, name, i) {
        let i = choose|i: int| is_first_pos(args, name, i);
        match arg_at(args, i + 1) {
            Some(v) => parse_u64_spec(v),
            None => None,
        }
    } else {
        None
    }
}

/// Whether any argument equals `name`.
pub fn has_flag(args: &[String], name: &str) -> (r: bool)
    ensures
        r == has_flag_spec(args_view(args@), name@),
{
    let ghost a = args_view(args@);
    let n = String::from_str(name);
    let mut i: usize = 0;
    while i < args.len()
        invariant
            i <= args.len(),
            n@ == name@,
            a == args_view(args@),
            forall|j: int| 0 <= j < i ==> a[j] != name@,
        decreases args.len() - i,
    {
        if args[i] == n {
            assert(a[i as int] == name@);
            return true;
        }
        i = i + 1;
    }
    false
}

/// The number after the first occurrence of `name`, if it parses as a `u64`.
pub fn flag_u64(args: &[String], name: &str) -> (r: Option<u64>)
    ensures
        r == flag_u64_spec(args_view(args@), name@),
{
    let ghost a = args_view(args@);
    let n = String::from_str(name);
    let mut i: usize = 0;
    while i < args.len()
        invariant
            i <= args.len(),
            n@ == name@,
            a == args_view(args@),
            forall|j: int| 0 <= j < i ==> a[j] != name@,
        decreases args.len() - i,
    {
        if args[i] == n {
            proof {
                assert(is_first_pos(a, name@, i as int));
                let c = choose|k: int| is_first_pos(a, name@, k);
                if c < i {
                    assert(a[c] != name@);
                } else if i < c {
                    assert(a[i as int] != name@);
                }
            }
            if i + 1 < args.len() {
                return parse_u64(args[i + 1].as_str());
            } else {
                return None;
            }
        }
        i = i + 1;
    }
    proof {
        if exists|k: int| is_first_pos(a, name@, k) {
            let c = choose|k: int| is_first_pos(a, name@, k);
            assert(a[c] == name@);
        }
    }
    None
}

/// The command an argument list asks for (`args[0]` is the program itself): no argument renders
/// the status line; `key` takes `set [KEY]`, `path`/`show` or `clear`/`rm`; `install` takes
/// `--refresh N` (10 seconds by default); `uninstall` takes `--purge`; `-h`, `--help` and `help`
/// print usage.
pub open spec fn command_spec(args: Seq<Seq<char>>) -> CommandView {
    match arg_at(args, 1) {
        None => CommandView::Render,
        Some(c) => if c == "refresh"@ {
            CommandView::Refresh
        } else if c == "status"@ {
            CommandView::Status
        } else if c == "key"@ {
            match arg_at(args, 2) {
                Some(s) => if s == "set"@ {
                    CommandView::KeySet(arg_at(args, 3))
                } else if s == "path"@ || s == "show"@ {
                    CommandView::KeyShow
                } else if s == "clear"@ || s == "rm"@ {
                    CommandView::KeyClear
                } else {
                    CommandView::KeyUsage
                },
                None => CommandView::KeyUsage,
            }
        } else if c == "install"@ {
            CommandView::Install {
                refresh: match flag_u64_spec(args, "--refresh"@) {
                    Some(n) => n,
                    None => 10,
                },
                bad_refresh: has_flag_spec(args, "--refresh"@) && flag_u64_spec(
                    args,
                    "--refresh"@,
                ) is None,
            }
        } else if c == "uninstall"@ {
            CommandView::Uninstall { purge: has_flag_spec(args, "--purge"@) }
        } else if c == "-h"@ || c == "--help"@ || c == "help"@ {
            CommandView::Help
        } else {
            CommandView::Unknown(c)
        },
    }
}

proof fn lemma_install_is_not_earlier_word()
    ensures
        "install"@ != "refresh"@,
        "install"@ != "status"@,
        "install"@ != "key"@,
{
    reveal_strlit("install");
    reveal_strlit("refresh");
    reveal_strlit("status");
    reveal_strlit("key");
    assert("install"@[0] != "refresh"@[0]);
    assert("install"@.len() != "status"@.len());
    assert("install"@.len() != "key"@.len());
}

proof fn lemma_first_pos_chosen(args: Seq<Seq<char>>, name: Seq<char>, i: int)
    requires
        0 <= i < args.len(),
        args[i] == name,
        forall|j: int| 0 <= j < i ==> args[j] != name,
    ensures
        exists|k: int| is_first_pos(args, name, k),
        (choose|k: int| is_first_pos(args, name, k)) == i,
{
    assert(is_first_pos(args, name, i));
    let c = choose|k: int| is_first_pos(args, name, k);
    if c < i {
        assert(args[c] != name);
    } else if i < c {
        assert(args[i] != name);
    }
}

/// `install` takes the number after the first `--refresh` as its refresh interval, exactly,
/// when that argument parses as a `u64`.
pub proof fn lemma_install_refresh_given(args: Seq<Seq<char>>, i: int, n: u64)
    requires
        args.len() > 1,
        args[1] == "install"@,
        0 <= i,
        i + 1 < args.len(),
        args[i] == "--refresh"@,
        forall|j: int| 0 <= j < i ==> args[j] != "--refresh"@,
        parse_u64_spec(args[i + 1]) == Some(n),
    ensures
        command_spec(args) == (CommandView::Install { refresh: n, bad_refresh: false }),
{
    assert(arg_at(args, i + 1) == Some(args[i + 1]));
    lemma_first_pos_chosen(args, "--refresh"@, i);
    lemma_install_is_not_earlier_word();
}

/// Without `--refresh`, `install` refreshes every 10 seconds and reports nothing amiss.
pub proof fn lemma_install_refresh_default(args: Seq<Seq<char>>)
    requires
        args.len() > 1,
        args[1] == "install"@,
        forall|j: int| 0 <= j < args.len() ==> args[j] != "--refresh"@,
    ensures
        command_spec(args) == (CommandView::Install { refresh: 10, bad_refresh: false }),
{
    if exists|k: int| is_first_pos(args, "--refresh"@, k) {
        let c = choose|k: int| is_first_pos(args, "--refresh"@, k);
        assert(args[c] == "--refresh"@);
    }
    lemma_install_is_not_earlier_word();
}

/// When no number follows the first `--refresh` (it is last, or what follows does not parse),
/// `install` falls back to 10 seconds and reports the bad interval.
pub proof fn lemma_install_refresh_bad(args: Seq<Seq<char>>, i: int)
    requires
        args.len() > 1,
        args[1] == "install"@,
        0 <= i < args.len(),
        args[i] == "--refresh"@,
        forall|j: int| 0 <= j < i ==> args[j] != "--refresh"@,
        i + 1 == args.len() || parse_u64_spec(args[i + 1]) is None,
    ensures
        command_spec(args) == (CommandView::Install { refresh: 10, bad_refresh: true }),
{
    assert(has_flag_spec(args, "--refresh"@));
    lemma_first_pos_chosen(args, "--refresh"@, i);
    lemma_install_is_not_earlier_word();
}

proof fn lemma_command_words_distinct()
    ensures
        "refresh"@ != "status"@,
        "refresh"@ != "key"@,
        "refresh"@ != "install"@,
        "refresh"@ != "uninstall"@,
        "status"@ != "key"@,
        "status"@ != "install"@,
        "status"@ != "uninstall"@,
        "key"@ != "install"@,
        "key"@ != "uninstall"@,
        "install"@ != "uninstall"@,
        "-h"@ != "refresh"@ && "-h"@ != "status"@ && "-h"@ != "key"@ && "-h"@ != "install"@ && "-h"@
            != "uninstall"@,
        "--help"@ != "refresh"@ && "--help"@ != "status"@ && "--help"@ != "key"@ && "--help"@
            != "install"@ && "--help"@ != "uninstall"@,
        "help"@ != "refresh"@ && "help"@ != "status"@ && "help"@ != "key"@ && "help"@ != "install"@
            && "help"@ != "uninstall"@,
        "set"@ != "path"@ && "set"@ != "show"@ && "set"@ != "clear"@ && "set"@ != "rm"@,
        "path"@ != "clear"@ && "path"@ != "rm"@ && "show"@ != "clear"@ && "show"@ != "rm"@,
{
    reveal_strlit("refresh");
    reveal_strlit("status");
    reveal_strlit("key");
    reveal_strlit("install");
    reveal_strlit("uninstall");
    reveal_strlit("-h");
    reveal_strlit("--help");
    reveal_strlit("help");
    reveal_strlit("set");
    reveal_strlit("path");
    reveal_strlit("show");
    reveal_strlit("clear");
    reveal_strlit("rm");
    assert("refresh"@.len() == 7 && "status"@.len() == 6 && "key"@.len() == 3);
    assert("install"@.len() == 7 && "uninstall"@.len() == 9 && "-h"@.len() == 2);
    assert("--help"@.len() == 6 && "help"@.len() == 4 && "set"@.len() == 3);
    assert("path"@.len() == 4 && "show"@.len() == 4 && "clear"@.len() == 5 && "rm"@.len() == 2);
    assert("refresh"@[0] != "install"@[0]);
    assert("status"@[0] != "--help"@[0]);
    assert("path"@[0] != "show"@[0]);
}

/// The first argument after the program picks the command: none renders; `refresh`, `status`,
/// `-h`/`--help`/`help` name theirs; `uninstall` purges exactly when `--purge` is among the
/// arguments; any other word is reported as unknown.
pub proof fn lemma_command_dispatch(args: Seq<Seq<char>>)
    ensures
        args.len() < 2 ==> command_spec(args) == CommandView::Render,
        args.len() >= 2 && args[1] == "refresh"@ ==> command_spec(args) == CommandView::Refresh,
        args.len() >= 2 && args[1] == "status"@ ==> command_spec(args) == CommandView::Status,
        args.len() >= 2 && (args[1] == "-h"@ || args[1] == "--help"@ || args[1] == "help"@)
            ==> command_spec(args) == CommandView::Help,
        args.len() >= 2 && args[1] == "uninstall"@ ==> command_spec(args) == (CommandView::Uninstall {
            purge: exists|i: int| 0 <= i < args.len() && args[i] == "--purge"@,
        }),
        args.len() >= 2 && args[1] != "refresh"@ && args[1] != "status"@ && args[1] != "key"@
            && args[1] != "install"@ && args[1] != "uninstall"@ && args[1] != "-h"@ && args[1]
            != "--help"@ && args[1] != "help"@ ==> command_spec(args) == CommandView::Unknown(args[1]),
{
    lemma_command_words_distinct();
}

/// `key` takes a subcommand: `set` with the key that follows it (if any), `path` or `show`,
/// `clear` or `rm`; a missing or other subcommand asks for usage.
pub proof fn lemma_key_dispatch(args: Seq<Seq<char>>)
    requires
        args.len() >= 2,
        args[1] == "key"@,
    ensures
        args.len() < 3 ==> command_spec(args) == CommandView::KeyUsage,
        args.len() >= 3 && args[2] == "set"@ ==> command_spec(args) == CommandView::KeySet(
            if args.len() > 3 {
                Some(args[3])
            } else {
                None
            },
        ),
        args.len() >= 3 && (args[2] == "path"@ || args[2] == "show"@) ==> command_spec(args)
            == CommandView::KeyShow,
        args.len() >= 3 && (args[2] == "clear"@ || args[2] == "rm"@) ==> command_spec(args)
            == CommandView::KeyClear,
        args.len() >= 3 && args[2] != "set"@ && args[2] != "path"@ && args[2] != "show"@ && args[2]
            != "clear"@ && args[2] != "rm"@ ==> command_spec(args) == CommandView::KeyUsage,
{
    lemma_command_words_distinct();
}

fn is(arg: &String, word: &str) -> (r: bool)
    ensures
        r == (arg@ == word@),
{
    *arg == String::from_str(word)
}

/// The command an argument list asks for (see `command_spec`).
pub fn parse_command(args: &[String]) -> (c: Command)
    ensures
        c@ == command_spec(args_view(args@)),
{
    let ghost a = args_view(args@);
    if args.len() < 2 {
        return Command::Render;
    }
    assert(arg_at(a, 1) == Some(args@[1]@));
    let c = &args[1];
    if is(c, "refresh") {
        Command::Refresh
    } else if is(c, "status") {
        Command::Status
    } else if is(c, "key") {
        if args.len() < 3 {
            return Command::KeyUsage;
        }
        assert(arg_at(a, 2) == Some(args@[2]@));
        let s = &args[2];
        if is(s, "set") {
            if args.len() > 3 {
                assert(arg_at(a, 3) == Some(args@[3]@));
                Command::KeySet(Some(args[3].clone()))
            } else {
                Command::KeySet(None)
            }
        } else if is(s, "path") || is(s, "show") {
            Command::KeyShow
        } else if is(s, "clear") || is(s, "rm") {
            Command::KeyClear
        } else {
            Command::KeyUsage
        }
    } else if is(c, "install") {
        let n = flag_u64(args, "--refresh");
        let bad = has_flag(args, "--refresh") && n.is_none();
        let refresh = match n {
            Some(v) => v,
            None => 10,
        };
        Command::Install { refresh, bad_refresh: bad }
    } else if is(c, "uninstall") {
        Command::Uninstall { purge: has_flag(args, "--purge") }
    } else if is(c, "-h") || is(c, "--help") || is(c, "help") {
        Command::Help
    } else {
        Command::Unknown(c.clone())
    }
}

} // verus!
