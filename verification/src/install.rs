//! Wiring into the editor's settings: the status-line block to install, capturing the block that
//! was there before so that it can be delegated to and restored verbatim on uninstall.
use vstd::prelude::*;
use vstd::string::*;
use crate::json::{
    copy_value, entries_view, field, get, insert_entry, is_first_key, key_index, lemma_first_key_unique,
    json_parse, lemma_no_key, lemma_object_view, object_insert, object_remove, opt_json, parse_json,
    remove_entry, Json, JsonValue,
};
use crate::text::{
    chars_of, contains, contains_seq, decimal, decimal_seq, is_whitespace, is_ws, occurs_at,
    lemma_trim_shape, push_char, string_of_range, trim, trim_seq,
};
use crate::key::key_text_spec;

verus! {

/// The final component of a path given as text, as `std::path::Path::file_name` yields it
/// (read back as UTF-8) on the target the crate is built for. The rules depend on that target:
/// on Unix the text is split on `/`, empty and `.` parts are dropped, and there is no file name
/// when nothing is left or the last part is `..`; Windows also splits on `\` and reads drive and
/// UNC prefixes. Because they differ between targets, the rules are named here, not stated.
pub uninterp spec fn path_file_name(path: Seq<char>) -> Option<Seq<char>>;

/// `std::path::Path::file_name`, read back as UTF-8. The contract says only that the result is
/// what `path_file_name` names for this text: the target's component rules are not restated.
#[verifier::external_body]
fn file_name_of(path: &str) -> (r: Option<String>)
    ensures
        match r {
            Some(n) => path_file_name(path@) == Some(n@),
            None => path_file_name(path@) is None,
        },
{
    std::path::Path::new(path).file_name().and_then(|n| n.to_str()).map(String::from)
}

/// `s` contains a white-space character.
pub open spec fn has_ws(s: Seq<char>) -> bool {
    exists|i: int| 0 <= i < s.len() && is_ws(s[i])
}

/// `s` with every `"` preceded by a backslash.
pub open spec fn escape_quotes(s: Seq<char>) -> Seq<char>
    decreases s.len(),
{
    if s.len() == 0 {
        Seq::empty()
    } else {
        escape_quotes(s.drop_last()) + if s.last() == '"' {
            seq!['\\', '"']
        } else {
            seq![s.last()]
        }
    }
}

/// The executable path as a shell command: double-quoted (inner quotes escaped) when it
/// contains white space, verbatim otherwise.
pub open spec fn quote_cmd_spec(path: Seq<char>) -> Seq<char> {
    if has_ws(path) {
        seq!['"'] + escape_quotes(path) + seq!['"']
    } else {
        path
    }
}

/// Quote the binary path for the shell the status-line command runs in.
pub fn quote_cmd(path: &str) -> (r: String)
    ensures
        r@ == quote_cmd_spec(path@),
{
    let v = chars_of(path);
    let mut found = false;
    let mut i: usize = 0;
    while i < v.len()
        invariant
            i <= v.len(),
            v@ == path@,
            found == exists|j: int| 0 <= j < i && is_ws(v@[j]),
        decreases v.len() - i,
    {
        if is_whitespace(v[i]) {
            found = true;
        }
        i = i + 1;
    }
    if !found {
        return String::from_str(path);
    }
    let mut r = String::new();
    push_char(&mut r, '"');
    let mut k: usize = 0;
    while k < v.len()
        invariant
            k <= v.len(),
            v@ == path@,
            r@ == seq!['"'] + escape_quotes(v@.take(k as int)),
        decreases v.len() - k,
    {
        assert(v@.take(k + 1).drop_last() =~= v@.take(k as int));
        if v[k] == '"' {
            push_char(&mut r, '\\');
            push_char(&mut r, '"');
        } else {
            push_char(&mut r, v[k]);
        }
        k = k + 1;
        assert(r@ =~= seq!['"'] + escape_quotes(v@.take(k as int)));
    }
    push_char(&mut r, '"');
    assert(v@.take(v@.len() as int) =~= v@);
    r
}

/// `s` up to (not including) its first `c`; all of `s` when it has none.
pub open spec fn until_char(s: Seq<char>, c: char) -> Seq<char>
    decreases s.len(),
{
    if s.len() == 0 || s[0] == c {
        Seq::empty()
    } else {
        seq![s[0]] + until_char(s.drop_first(), c)
    }
}

/// `s` up to (not including) its first white-space character.
pub open spec fn until_ws(s: Seq<char>) -> Seq<char>
    decreases s.len(),
{
    if s.len() == 0 || is_ws(s[0]) {
        Seq::empty()
    } else {
        seq![s[0]] + until_ws(s.drop_first())
    }
}

/// The executable part of a status-line command: after trimming, the text inside a leading
/// double quote up to the next one, or else the first white-space-delimited word.
pub open spec fn command_token_spec(command: Seq<char>) -> Seq<char> {
    let t = trim_seq(command);
    if t.len() > 0 && t[0] == '"' {
        until_char(t.drop_first(), '"')
    } else {
        until_ws(t)
    }
}

proof fn lemma_until_char_prefix(s: Seq<char>, c: char, k: int)
    requires
        0 <= k <= s.len(),
        forall|j: int| 0 <= j < k ==> s[j] != c,
        k == s.len() || s[k] == c,
    ensures
        until_char(s, c) == s.take(k),
    decreases s.len(),
{
    if s.len() > 0 && s[0] != c {
        lemma_until_char_prefix(s.drop_first(), c, k - 1);
        assert(s.take(k) =~= seq![s[0]] + s.drop_first().take(k - 1));
    } else {
        assert(s.take(k) =~= Seq::<char>::empty());
    }
}

proof fn lemma_until_ws_prefix(s: Seq<char>, k: int)
    requires
        0 <= k <= s.len(),
        forall|j: int| 0 <= j < k ==> !is_ws(s[j]),
        k == s.len() || is_ws(s[k]),
    ensures
        until_ws(s) == s.take(k),
    decreases s.len(),
{
    if s.len() > 0 && !is_ws(s[0]) {
        lemma_until_ws_prefix(s.drop_first(), k - 1);
        assert(s.take(k) =~= seq![s[0]] + s.drop_first().take(k - 1));
    } else {
        assert(s.take(k) =~= Seq::<char>::empty());
    }
}

/// The executable part of a status-line command (see `command_token_spec`).
pub fn command_token(command: &str) -> (r: String)
    ensures
        r@ == command_token_spec(command@),
{
    let t = trim(command);
    let v = chars_of(t.as_str());
    if v.len() > 0 && v[0] == '"' {
        let mut k: usize = 1;
        while k < v.len() && v[k] != '"'
            invariant
                1 <= k <= v.len(),
                forall|j: int| 1 <= j < k ==> v@[j] != '"',
            decreases v.len() - k,
        {
            k = k + 1;
        }
        proof {
            lemma_until_char_prefix(v@.drop_first(), '"', k - 1);
            assert(v@.drop_first().take(k - 1) =~= v@.subrange(1, k as int));
        }
        string_of_range(&v, 1, k)
    } else {
        let mut k: usize = 0;
        while k < v.len() && !is_whitespace(v[k])
            invariant
                k <= v.len(),
                forall|j: int| 0 <= j < k ==> !is_ws(v@[j]),
            decreases v.len() - k,
        {
            k = k + 1;
        }
        proof {
            lemma_until_ws_prefix(v@, k as int);
            assert(v@.take(k as int) =~= v@.subrange(0, k as int));
        }
        string_of_range(&v, 0, k)
    }
}

proof fn lemma_trim_from_start(s: Seq<char>, k: int) -> (b: int)
    requires
        0 <= k < s.len(),
        !is_ws(s[0]),
        !is_ws(s[k]),
    ensures
        k < b <= s.len(),
        trim_seq(s) == s.subrange(0, b),
{
    let ab = lemma_trim_shape(s);
    assert(ab.0 == 0) by {
        if ab.0 > 0 {
            assert(is_ws(s[0]));
        }
    }
    assert(ab.1 > k) by {
        if ab.1 <= k {
            assert(is_ws(s[k]));
        }
    }
    ab.1
}

/// A command that starts with an unquoted path reads that path as its executable, up to the
/// first white space, whatever arguments follow.
pub proof fn lemma_token_of_bare_path(path: Seq<char>, rest: Seq<char>)
    requires
        path.len() > 0,
        path[0] != '"',
        forall|i: int| 0 <= i < path.len() ==> !is_ws(#[trigger] path[i]),
        rest.len() == 0 || is_ws(rest[0]),
    ensures
        command_token_spec(path + rest) == path,
{
    let s = path + rest;
    let b = lemma_trim_from_start(s, path.len() - 1);
    let t = s.subrange(0, b);
    assert(t[0] == path[0]);
    lemma_until_ws_prefix(t, path.len() as int);
    assert(t.take(path.len() as int) =~= path);
}

/// A command that starts with a double-quoted path reads the quoted text as its executable,
/// white space included, whatever follows the closing quote.
pub proof fn lemma_token_of_quoted_path(path: Seq<char>, rest: Seq<char>)
    requires
        !path.contains('"'),
    ensures
        command_token_spec(seq!['"'] + path + seq!['"'] + rest) == path,
{
    let s = seq!['"'] + path + seq!['"'] + rest;
    let b = lemma_trim_from_start(s, (path.len() + 1) as int);
    let t = s.subrange(0, b);
    assert(t[0] == '"');
    assert forall|j: int| 0 <= j < path.len() implies t.drop_first()[j] != '"' by {
        assert(t.drop_first()[j] == path[j]);
        if path[j] == '"' {
            assert(path.contains('"'));
        }
    }
    lemma_until_char_prefix(t.drop_first(), '"', path.len() as int);
    assert(t.drop_first().take(path.len() as int) =~= path);
}

/// The file name of the executable a status-line command refers to.
pub open spec fn command_basename_spec(command: Seq<char>) -> Option<Seq<char>> {
    path_file_name(command_token_spec(command))
}

/// The basename of the executable referenced by a status-line command: a bare path, a path
/// followed by arguments, or a double-quoted path.
pub fn command_basename(command: &str) -> (r: Option<String>)
    ensures
        match r {
            Some(n) => command_basename_spec(command@) == Some(n@),
            None => command_basename_spec(command@) is None,
        },
{
    let token = command_token(command);
    file_name_of(token.as_str())
}

/// A command refers to the executable `exe` when it contains `exe`'s path, or when the file
/// names found for the two (`command_base` for the command's executable, `exe_base` for `exe`)
/// are both present and equal.
pub open spec fn self_by_names_spec(
    command: Seq<char>,
    exe: Seq<char>,
    command_base: Option<Seq<char>>,
    exe_base: Option<Seq<char>>,
) -> bool {
    ||| contains_seq(command, exe)
    ||| match (command_base, exe_base) {
        (Some(a), Some(b)) => a == b,
        _ => false,
    }
}

/// A command refers to the executable `exe` (see `self_by_names_spec`), with the file names as
/// `Path::file_name` gives them.
pub open spec fn command_is_self_spec(command: Seq<char>, exe: Seq<char>) -> bool {
    self_by_names_spec(command, exe, command_basename_spec(command), path_file_name(exe))
}

/// Whether `command` refers to `exe`, given the file names found for the command's executable
/// and for `exe`.
pub fn self_by_names(
    command: &str,
    exe: &str,
    command_base: Option<String>,
    exe_base: Option<String>,
) -> (r: bool)
    ensures
        r == self_by_names_spec(command@, exe@, opt_string(command_base), opt_string(exe_base)),
{
    if contains(command, exe) {
        return true;
    }
    match (command_base, exe_base) {
        (Some(a), Some(b)) => a == b,
        _ => false,
    }
}

/// The view of an optional string.
pub open spec fn opt_string(s: Option<String>) -> Option<Seq<char>> {
    match s {
        Some(x) => Some(x@),
        None => None,
    }
}

/// Does this status-line command point at the executable `exe`? A moved install with the same
/// file name still counts, so a reinstall never records itself as the command to delegate to.
pub fn command_is_self(command: &str, exe: &str) -> (r: bool)
    ensures
        r == command_is_self_spec(command@, exe@),
{
    let command_base = command_basename(command);
    let exe_base = file_name_of(exe);
    self_by_names(command, exe, command_base, exe_base)
}

/// A command quoting `exe` always refers back to `exe`, unless `exe` contains a double quote
/// together with white space (escaping then changes the path's text).
pub proof fn lemma_quoted_command_is_self(exe: Seq<char>)
    requires
        !has_ws(exe) || !exe.contains('"'),
    ensures
        command_is_self_spec(quote_cmd_spec(exe), exe),
{
    if has_ws(exe) {
        lemma_escape_without_quotes(exe);
        let q = quote_cmd_spec(exe);
        assert(q.subrange(1, 1 + exe.len() as int) =~= exe);
        assert(occurs_at(q, exe, 1));
    } else {
        assert(exe.subrange(0, exe.len() as int) =~= exe);
        assert(occurs_at(exe, exe, 0));
    }
}

proof fn lemma_escape_without_quotes(s: Seq<char>)
    requires
        !s.contains('"'),
    ensures
        escape_quotes(s) == s,
    decreases s.len(),
{
    if s.len() > 0 {
        assert(!s.drop_last().contains('"')) by {
            if s.drop_last().contains('"') {
                let i = choose|i: int| 0 <= i < s.drop_last().len() && s.drop_last()[i] == '"';
                assert(s[i] == '"');
            }
        }
        lemma_escape_without_quotes(s.drop_last());
        assert(s[s.len() - 1] != '"');
        assert(s =~= s.drop_last() + seq![s.last()]);
    }
}


/// Why the settings file cannot be edited.
#[derive(Clone, Copy, PartialEq, Eq, Debug, Structural)]
pub enum SettingsError {
    /// The file holds JSON that is not an object.
    NotAnObject,
    /// The file does not hold valid JSON.
    InvalidJson,
}

/// The view of an optional text.
pub open spec fn opt_text(t: Option<&str>) -> Option<Seq<char>> {
    match t {
        Some(s) => Some(s@),
        None => None,
    }
}

/// The settings object to edit, given the file's content (`None` when there is no file) and
/// what parsing that content as JSON gave (`None` when it is not valid JSON): a missing or blank
/// file is an empty object; anything but an object is refused, never overwritten.
pub open spec fn settings_root_spec(content: Option<Seq<char>>, parsed: Option<Json>) -> Result<
    Json,
    SettingsError,
> {
    match content {
        None => Ok(Json::Object(Seq::empty())),
        Some(t) => if trim_seq(t).len() == 0 {
            Ok(Json::Object(Seq::empty()))
        } else {
            match parsed {
                Some(Json::Object(e)) => Ok(Json::Object(e)),
                Some(_) => Err(SettingsError::NotAnObject),
                None => Err(SettingsError::InvalidJson),
            }
        },
    }
}

/// What parsing an optional text as JSON gives (`None` for no text or invalid JSON).
pub open spec fn parsed_text(t: Option<&str>) -> Option<Json> {
    match t {
        Some(x) => json_parse(x@),
        None => None,
    }
}

/// The settings object to edit, given the settings file's content (`None` when there is no
/// file): see `settings_root_spec`; the content is parsed as JSON when it is not blank.
pub fn settings_root(content: Option<&str>) -> (r: Result<JsonValue, SettingsError>)
    ensures
        match r {
            Ok(v) => settings_root_spec(opt_text(content), parsed_text(content)) == Ok::<
                Json,
                SettingsError,
            >(v@),
            Err(e) => settings_root_spec(opt_text(content), parsed_text(content)) == Err::<
                Json,
                SettingsError,
            >(e),
        },
{
    let empty: Vec<(String, JsonValue)> = Vec::new();
    proof {
        lemma_object_view(empty);
        assert(entries_view(empty@) =~= Seq::empty());
    }
    match content {
        None => Ok(JsonValue::Object(empty)),
        Some(t) => {
            let trimmed = trim(t);
            if trimmed.as_str().is_empty() {
                Ok(JsonValue::Object(empty))
            } else {
                match parse_json(t) {
                    Some(JsonValue::Object(e)) => Ok(JsonValue::Object(e)),
                    Some(_) => Err(SettingsError::NotAnObject),
                    None => Err(SettingsError::InvalidJson),
                }
            }
        },
    }
}

/// The `command` text of a status-line block, if it has one.
pub open spec fn block_command(b: Json) -> Option<Seq<char>> {
    match field(b, "command"@) {
        Some(Json::Text(c)) => Some(c),
        _ => None,
    }
}

/// The command to delegate to, from a recorded status-line block: its `command`, trimmed,
/// unless that is blank or missing.
pub open spec fn delegate_command_spec(block: Json) -> Option<Seq<char>> {
    match block_command(block) {
        Some(c) => key_text_spec(c),
        None => None,
    }
}

/// The command to delegate to, read from the recorded status-line block.
pub fn delegate_command(block: &JsonValue) -> (r: Option<String>)
    ensures
        match r {
            Some(c) => delegate_command_spec(block@) == Some(c@),
            None => delegate_command_spec(block@) is None,
        },
{
    match get(block, "command") {
        Some(JsonValue::Text(c)) => {
            let t = trim(c.as_str());
            if t.as_str().is_empty() {
                None
            } else {
                Some(t)
            }
        },
        _ => None,
    }
}

/// The command to delegate to, from the text of the file that records the status-line block:
/// none when the text is not valid JSON.
pub fn delegate_command_from_text(text: &str) -> (r: Option<String>)
    ensures
        match r {
            Some(c) => json_parse(text@) is Some && delegate_command_spec(json_parse(text@)->Some_0)
                == Some(c@),
            None => json_parse(text@) is None || delegate_command_spec(json_parse(text@)->Some_0) is None,
        },
{
    match parse_json(text) {
        Some(v) => delegate_command(&v),
        None => None,
    }
}

/// The recorded status-line block, from the text of its file (`None` when there is no file):
/// none when the text is not valid JSON or holds `null`.
pub fn read_base_block(text: Option<&str>) -> (r: Option<JsonValue>)
    ensures
        opt_json(r) == stored_block(parsed_text(text)),
{
    match text {
        Some(t) => match parse_json(t) {
            Some(JsonValue::Null) => None,
            other => other,
        },
        None => None,
    }
}

/// The status-line block that runs `command`, refreshed every `refresh` seconds.
pub open spec fn status_line_block(command: Seq<char>, refresh: u64) -> Json {
    Json::Object(
        seq![
            ("type"@, Json::Text("command"@)),
            ("command"@, Json::Text(command)),
            ("refreshInterval"@, Json::Number(decimal_seq(refresh as nat))),
        ],
    )
}

fn status_line_block_value(command: String, refresh: u64) -> (r: JsonValue)
    ensures
        r@ == status_line_block(command@, refresh),
{
    let mut e: Vec<(String, JsonValue)> = Vec::new();
    e.push((String::from_str("type"), JsonValue::Text(String::from_str("command"))));
    e.push((String::from_str("command"), JsonValue::Text(command)));
    e.push((String::from_str("refreshInterval"), JsonValue::Number(decimal(refresh))));
    proof {
        lemma_object_view(e);
        if let Json::Object(x) = status_line_block(command@, refresh) {
            assert(entries_view(e@) =~= x);
        }
    }
    JsonValue::Object(e)
}

/// The current status-line block, unless it is missing or `null`.
pub open spec fn existing_block(root: Json) -> Option<Json> {
    match field(root, "statusLine"@) {
        Some(Json::Null) => None,
        other => other,
    }
}

/// The current status-line block already runs `exe`.
pub open spec fn existing_is_self(root: Json, exe: Seq<char>) -> bool {
    match existing_block(root) {
        Some(b) => match block_command(b) {
            Some(c) => command_is_self_spec(c, exe),
            None => false,
        },
        None => false,
    }
}

/// What an install records as the block to delegate to: nothing new (`None`, the block recorded
/// by an earlier install stays) when the current block already runs `exe`; otherwise the current
/// block, or `null` when there is none.
pub open spec fn capture_spec(root: Json, exe: Seq<char>) -> Option<Json> {
    if existing_is_self(root, exe) {
        None
    } else {
        match existing_block(root) {
            Some(b) => Some(b),
            None => Some(Json::Null),
        }
    }
}

/// The settings after installing: `statusLine` set to the block that runs the quoted `exe`
/// (in place when the key exists, appended otherwise); everything else unchanged.
pub open spec fn installed_spec(root: Json, exe: Seq<char>, refresh: u64) -> Json {
    match root {
        Json::Object(e) => Json::Object(
            insert_entry(e, "statusLine"@, status_line_block(quote_cmd_spec(exe), refresh)),
        ),
        other => other,
    }
}

/// What to do with the recorded delegate block.
#[derive(Debug)]
pub enum BaseCapture {
    /// Keep what an earlier install recorded.
    KeepPrevious,
    /// Record this block (`null` when there was none).
    Record(JsonValue),
}

/// The view of a capture decision.
pub open spec fn capture_view(c: BaseCapture) -> Option<Json> {
    match c {
        BaseCapture::KeepPrevious => None,
        BaseCapture::Record(b) => Some(b@),
    }
}

/// The edits an install makes.
#[derive(Debug)]
pub struct InstallPlan {
    /// What to record as the block to delegate to.
    pub capture: BaseCapture,
    /// The settings to write.
    pub settings: JsonValue,
    /// The status-line command that runs this executable.
    pub command: String,
}

fn object_entries(v: &JsonValue) -> (r: Vec<(String, JsonValue)>)
    requires
        v@ is Object,
    ensures
        Json::Object(entries_view(r@)) == v@,
{
    let c = copy_value(v);
    match c {
        JsonValue::Object(e) => {
            proof {
                lemma_object_view(e);
            }
            e
        },
        _ => {
            proof {
                assert(false);
            }
            Vec::new()
        },
    }
}

fn block_command_of<'a>(b: &'a JsonValue) -> (r: Option<&'a str>)
    ensures
        opt_text(r) == block_command(b@),
{
    match get(b, "command") {
        Some(JsonValue::Text(c)) => Some(c.as_str()),
        _ => None,
    }
}

/// Plan an install of the executable `exe` with the given refresh interval into the settings
/// object `root`.
pub fn install_plan(root: &JsonValue, exe: &str, refresh: u64) -> (p: InstallPlan)
    requires
        root@ is Object,
    ensures
        p.command@ == quote_cmd_spec(exe@),
        p.settings@ == installed_spec(root@, exe@, refresh),
        capture_view(p.capture) == capture_spec(root@, exe@),
{
    let existing: Option<&JsonValue> = match get(root, "statusLine") {
        Some(JsonValue::Null) => None,
        other => other,
    };
    let is_self = match existing {
        Some(b) => match block_command_of(b) {
            Some(c) => command_is_self(c, exe),
            None => false,
        },
        None => false,
    };
    let capture = if is_self {
        BaseCapture::KeepPrevious
    } else {
        match existing {
            Some(b) => BaseCapture::Record(copy_value(b)),
            None => BaseCapture::Record(JsonValue::Null),
        }
    };
    let command = quote_cmd(exe);
    let block = status_line_block_value(command.clone(), refresh);
    let mut entries = object_entries(root);
    object_insert(&mut entries, "statusLine", block);
    proof {
        lemma_object_view(entries);
    }
    InstallPlan { capture, settings: JsonValue::Object(entries), command }
}

/// What an uninstall did to the status line.
#[derive(Clone, Copy, PartialEq, Eq, Debug, Structural)]
pub enum UninstallOutcome {
    /// The recorded block was put back.
    Restored,
    /// No block had been recorded, so `statusLine` was removed.
    Removed,
    /// The status line no longer runs this executable, so it was left alone.
    LeftAlone,
}

/// The current status line's command, if any.
pub open spec fn current_command(root: Json) -> Option<Seq<char>> {
    match field(root, "statusLine"@) {
        Some(b) => block_command(b),
        None => None,
    }
}

/// The current status line runs `exe` (when the executable's own path is unknown, any status
/// line with a command is taken to be ours).
pub open spec fn current_is_self(root: Json, exe: Option<Seq<char>>) -> bool {
    match (current_command(root), exe) {
        (Some(c), Some(e)) => command_is_self_spec(c, e),
        (Some(_), None) => true,
        (None, _) => false,
    }
}

/// The recorded block, unless it is `null` or could not be read.
pub open spec fn stored_block(base: Option<Json>) -> Option<Json> {
    match base {
        Some(Json::Null) => None,
        other => other,
    }
}

/// The settings after uninstalling: if the status line still runs `exe`, the recorded block is
/// put back in its place (or `statusLine` removed when none was recorded); otherwise unchanged.
pub open spec fn uninstalled_spec(root: Json, exe: Option<Seq<char>>, base: Option<Json>) -> Json {
    match root {
        Json::Object(e) => if current_is_self(root, exe) {
            match stored_block(base) {
                Some(b) => Json::Object(insert_entry(e, "statusLine"@, b)),
                None => Json::Object(remove_entry(e, "statusLine"@)),
            }
        } else {
            root
        },
        other => other,
    }
}

/// What an uninstall does to the status line.
pub open spec fn uninstall_outcome_spec(root: Json, exe: Option<Seq<char>>, base: Option<Json>) -> UninstallOutcome {
    if current_is_self(root, exe) {
        match stored_block(base) {
            Some(_) => UninstallOutcome::Restored,
            None => UninstallOutcome::Removed,
        }
    } else {
        UninstallOutcome::LeftAlone
    }
}

/// The edits an uninstall makes.
#[derive(Debug)]
pub struct UninstallPlan {
    /// The settings to write.
    pub settings: JsonValue,
    /// What happened to the status line.
    pub outcome: UninstallOutcome,
}

/// Plan an uninstall from the settings object `root`, given this executable's path (`None` when
/// it cannot be resolved) and the recorded block as parsed from its file (`None` when missing or
/// unreadable).
pub fn uninstall_plan(root: &JsonValue, exe: Option<&str>, base: Option<JsonValue>) -> (p:
    UninstallPlan)
    requires
        root@ is Object,
    ensures
        p.settings@ == uninstalled_spec(root@, opt_text(exe), opt_json(base)),
        p.outcome == uninstall_outcome_spec(root@, opt_text(exe), opt_json(base)),
{
    let current: Option<&str> = match get(root, "statusLine") {
        Some(b) => block_command_of(b),
        None => None,
    };
    let is_self = match (current, exe) {
        (Some(c), Some(e)) => command_is_self(c, e),
        (Some(_), None) => true,
        (None, _) => false,
    };
    let mut entries = object_entries(root);
    if !is_self {
        proof {
            lemma_object_view(entries);
        }
        return UninstallPlan { settings: JsonValue::Object(entries), outcome: UninstallOutcome::LeftAlone };
    }
    let outcome = match base {
        Some(JsonValue::Null) | None => {
            object_remove(&mut entries, "statusLine");
            UninstallOutcome::Removed
        },
        Some(block) => {
            object_insert(&mut entries, "statusLine", block);
            UninstallOutcome::Restored
        },
    };
    proof {
        lemma_object_view(entries);
    }
    UninstallPlan { settings: JsonValue::Object(entries), outcome }
}


proof fn lemma_first_key_exists(e: Seq<(Seq<char>, Json)>, k: Seq<char>, j: int)
    requires
        0 <= j < e.len(),
        e[j].0 == k,
    ensures
        exists|i: int| is_first_key(e, k, i),
    decreases j,
{
    if exists|i: int| 0 <= i < j && e[i].0 == k {
        let i = choose|i: int| 0 <= i < j && e[i].0 == k;
        lemma_first_key_exists(e, k, i);
    } else {
        assert(is_first_key(e, k, j));
    }
}

/// After inserting under `k`, the first entry named `k` is where the old one was, or the
/// appended one.
pub proof fn lemma_key_index_after_insert(e: Seq<(Seq<char>, Json)>, k: Seq<char>, v: Json)
    ensures
        key_index(insert_entry(e, k, v), k) == Some(
            match key_index(e, k) {
                Some(i) => i,
                None => e.len() as int,
            },
        ),
        insert_entry(e, k, v)[match key_index(e, k) {
            Some(i) => i,
            None => e.len() as int,
        }] == (k, v),
{
    match key_index(e, k) {
        Some(i) => {
            assert(is_first_key(e, k, i));
            assert(is_first_key(e.update(i, (k, v)), k, i));
            lemma_first_key_unique(e.update(i, (k, v)), k, i);
        },
        None => {
            assert forall|j: int| 0 <= j < e.len() implies e[j].0 != k by {
                if e[j].0 == k {
                    lemma_first_key_exists(e, k, j);
                }
            }
            assert(is_first_key(e.push((k, v)), k, e.len() as int));
            lemma_first_key_unique(e.push((k, v)), k, e.len() as int);
        },
    }
}

proof fn lemma_block_command(command: Seq<char>, refresh: u64)
    ensures
        block_command(status_line_block(command, refresh)) == Some(command),
{
    reveal_strlit("type");
    reveal_strlit("command");
    if let Json::Object(x) = status_line_block(command, refresh) {
        assert("type"@.len() == 4);
        assert("command"@.len() == 7);
        assert(x[0].0 != "command"@);
        lemma_first_key_unique(x, "command"@, 1);
    }
}

proof fn lemma_installed_block(root: Json, exe: Seq<char>, refresh: u64)
    requires
        root is Object,
    ensures
        field(installed_spec(root, exe, refresh), "statusLine"@) == Some(
            status_line_block(quote_cmd_spec(exe), refresh),
        ),
        existing_block(installed_spec(root, exe, refresh)) == Some(
            status_line_block(quote_cmd_spec(exe), refresh),
        ),
        current_command(installed_spec(root, exe, refresh)) == Some(quote_cmd_spec(exe)),
{
    if let Json::Object(e) = root {
        lemma_key_index_after_insert(
            e,
            "statusLine"@,
            status_line_block(quote_cmd_spec(exe), refresh),
        );
    }
    lemma_block_command(quote_cmd_spec(exe), refresh);
}

/// After an install, `statusLine` is an object of exactly three entries, in this order: `type`
/// is `command`, `command` is the quoted executable path, and `refreshInterval` is the refresh
/// interval's decimal text.
pub proof fn lemma_installed_status_line(root: Json, exe: Seq<char>, refresh: u64)
    requires
        root is Object,
    ensures
        field(installed_spec(root, exe, refresh), "statusLine"@) == Some(
            Json::Object(
                seq![
                    ("type"@, Json::Text("command"@)),
                    ("command"@, Json::Text(quote_cmd_spec(exe))),
                    ("refreshInterval"@, Json::Number(decimal_seq(refresh as nat))),
                ],
            ),
        ),
{
    lemma_installed_block(root, exe, refresh);
}

/// Delegating to a status-line block runs its command, trimmed: the block that an install writes
/// is read back as the command it was written with (none when that command is blank).
pub proof fn lemma_delegate_reads_block_command(command: Seq<char>, refresh: u64)
    ensures
        delegate_command_spec(status_line_block(command, refresh)) == key_text_spec(command),
{
    reveal_strlit("type");
    reveal_strlit("command");
    let e = seq![
        ("type"@, Json::Text("command"@)),
        ("command"@, Json::Text(command)),
        ("refreshInterval"@, Json::Number(decimal_seq(refresh as nat))),
    ];
    assert("type"@.len() != "command"@.len());
    assert(is_first_key(e, "command"@, 1));
    lemma_first_key_unique(e, "command"@, 1);
}

/// The settings to edit are always an object: the file's own object when it holds one (edited in
/// place, never replaced), an empty one when the file is missing or blank; any other content is
/// refused, as not an object or as invalid JSON.
pub proof fn lemma_settings_root_outcomes(content: Option<Seq<char>>, parsed: Option<Json>)
    ensures
        settings_root_spec(content, parsed) is Ok ==> settings_root_spec(content, parsed)->Ok_0 is Object,
        content is None || trim_seq(content.unwrap()).len() == 0 ==> settings_root_spec(content, parsed)
            == Ok::<Json, SettingsError>(Json::Object(Seq::empty())),
        content is Some && trim_seq(content.unwrap()).len() > 0 ==> (match parsed {
            Some(Json::Object(e)) => settings_root_spec(content, parsed) == Ok::<Json, SettingsError>(
                Json::Object(e),
            ),
            Some(_) => settings_root_spec(content, parsed) == Err::<Json, SettingsError>(
                SettingsError::NotAnObject,
            ),
            None => settings_root_spec(content, parsed) == Err::<Json, SettingsError>(
                SettingsError::InvalidJson,
            ),
        }),
{
}

/// A path without white space is used as the command verbatim.
pub proof fn lemma_quote_plain_path(exe: Seq<char>)
    requires
        forall|i: int| 0 <= i < exe.len() ==> !is_ws(exe[i]),
    ensures
        quote_cmd_spec(exe) == exe,
{
}

/// A path with white space (and no double quote) is wrapped in double quotes, unchanged inside.
pub proof fn lemma_quote_spaced_path(exe: Seq<char>, i: int)
    requires
        0 <= i < exe.len(),
        is_ws(exe[i]),
        forall|j: int| 0 <= j < exe.len() ==> exe[j] != '"',
    ensures
        quote_cmd_spec(exe) == seq!['"'] + exe + seq!['"'],
{
    assert(!exe.contains('"'));
    lemma_escape_without_quotes(exe);
}

/// A double quote inside a path with white space is escaped with a backslash; every other
/// character is kept: the quoted command is one character longer per double quote, plus the
/// two enclosing quotes.
pub proof fn lemma_escape_adds_backslashes(s: Seq<char>)
    ensures
        escape_quotes(s).len() == s.len() + s.filter(|c: char| c == '"').len(),
    decreases s.len(),
{
    reveal_with_fuel(Seq::<_>::filter, 1);
    if s.len() > 0 {
        lemma_escape_adds_backslashes(s.drop_last());
    }
}

/// Uninstalling after a first install puts the settings back exactly as they were: the block
/// recorded at install time returns to its place, or `statusLine` goes again when there was
/// none. (A `statusLine` that was `null` comes back removed rather than `null`; an executable
/// path holding both white space and a double quote is quoted into a command that no longer
/// contains the path.)
pub proof fn lemma_uninstall_restores_settings(root: Json, exe: Seq<char>, refresh: u64)
    requires
        root is Object,
        field(root, "statusLine"@) != Some(Json::Null),
        !existing_is_self(root, exe),
        !has_ws(exe) || !exe.contains('"'),
    ensures
        uninstalled_spec(installed_spec(root, exe, refresh), Some(exe), capture_spec(root, exe))
            == root,
        uninstall_outcome_spec(installed_spec(root, exe, refresh), Some(exe), capture_spec(root, exe))
            == (if existing_block(root) is Some {
            UninstallOutcome::Restored
        } else {
            UninstallOutcome::Removed
        }),
{
    lemma_installed_block(root, exe, refresh);
    lemma_quoted_command_is_self(exe);
    let sl = "statusLine"@;
    let blk = status_line_block(quote_cmd_spec(exe), refresh);
    if let Json::Object(e) = root {
        let e2 = insert_entry(e, sl, blk);
        lemma_key_index_after_insert(e, sl, blk);
        match key_index(e, sl) {
            Some(i) => {
                assert(is_first_key(e, sl, i));
                lemma_key_index_after_insert(e2, sl, e[i].1);
                assert(e2.update(i, (sl, e[i].1)) =~= e);
            },
            None => {
                assert(e2.remove(e.len() as int) =~= e);
            },
        }
    }
}

/// Installing again changes nothing, and keeps the block recorded by the first install (unless
/// the executable path holds both white space and a double quote).
pub proof fn lemma_reinstall_is_stable(root: Json, exe: Seq<char>, refresh: u64)
    requires
        root is Object,
        !has_ws(exe) || !exe.contains('"'),
    ensures
        installed_spec(installed_spec(root, exe, refresh), exe, refresh) == installed_spec(
            root,
            exe,
            refresh,
        ),
        capture_spec(installed_spec(root, exe, refresh), exe) is None,
{
    lemma_installed_block(root, exe, refresh);
    lemma_quoted_command_is_self(exe);
    lemma_block_command(quote_cmd_spec(exe), refresh);
    let sl = "statusLine"@;
    let blk = status_line_block(quote_cmd_spec(exe), refresh);
    if let Json::Object(e) = root {
        let e2 = insert_entry(e, sl, blk);
        lemma_key_index_after_insert(e, sl, blk);
        lemma_key_index_after_insert(e2, sl, blk);
        let i = match key_index(e, sl) {
            Some(i) => i,
            None => e.len() as int,
        };
        assert(e2.update(i, (sl, blk)) =~= e2);
    }
}


/// Inserting under `k` leaves every other field as it was.
pub proof fn lemma_insert_keeps_other_fields(
    e: Seq<(Seq<char>, Json)>,
    k: Seq<char>,
    v: Json,
    other: Seq<char>,
)
    requires
        other != k,
    ensures
        field(Json::Object(insert_entry(e, k, v)), other) == field(Json::Object(e), other),
{
    let e2 = insert_entry(e, k, v);
    lemma_key_index_after_insert(e, k, v);
    let p = match key_index(e, k) {
        Some(i) => i,
        None => e.len() as int,
    };
    assert(forall|j: int| 0 <= j < e.len() && j != p ==> e2[j] == e[j]);
    match key_index(e, other) {
        Some(j) => {
            assert(is_first_key(e, other, j));
            if key_index(e, k) is Some {
                assert(is_first_key(e, k, p));
            }
            assert(j != p);
            assert(is_first_key(e2, other, j));
            lemma_first_key_unique(e2, other, j);
        },
        None => {
            assert forall|j: int| 0 <= j < e.len() implies e[j].0 != other by {
                if e[j].0 == other {
                    lemma_first_key_exists(e, other, j);
                }
            }
            assert forall|j: int| 0 <= j < e2.len() implies e2[j].0 != other by {
                if j == p {
                } else {
                    assert(e2[j] == e[j]);
                }
            }
            lemma_no_key(e2, other);
        },
    }
}

/// Removing the field `k` leaves every other field as it was.
pub proof fn lemma_remove_keeps_other_fields(e: Seq<(Seq<char>, Json)>, k: Seq<char>, other: Seq<char>)
    requires
        other != k,
    ensures
        field(Json::Object(remove_entry(e, k)), other) == field(Json::Object(e), other),
{
    match key_index(e, k) {
        Some(i) => {
            assert(is_first_key(e, k, i));
            let e2 = e.remove(i);
            match key_index(e, other) {
                Some(j) => {
                    assert(is_first_key(e, other, j));
                    assert(j != i);
                    if j < i {
                        assert(is_first_key(e2, other, j));
                        lemma_first_key_unique(e2, other, j);
                    } else {
                        assert forall|m: int| 0 <= m < j - 1 implies e2[m].0 != other by {
                            if m < i {
                                assert(e2[m] == e[m]);
                            } else {
                                assert(e2[m] == e[m + 1]);
                            }
                        }
                        assert(is_first_key(e2, other, j - 1));
                        lemma_first_key_unique(e2, other, j - 1);
                    }
                },
                None => {
                    assert forall|m: int| 0 <= m < e2.len() implies e2[m].0 != other by {
                        let src = if m < i { m } else { m + 1 };
                        assert(e2[m] == e[src]);
                        if e[src].0 == other {
                            lemma_first_key_exists(e, other, src);
                        }
                    }
                    lemma_no_key(e2, other);
                },
            }
        },
        None => {},
    }
}

/// Installing changes no setting but `statusLine`.
pub proof fn lemma_install_keeps_other_settings(
    root: Json,
    exe: Seq<char>,
    refresh: u64,
    key: Seq<char>,
)
    requires
        root is Object,
        key != "statusLine"@,
    ensures
        field(installed_spec(root, exe, refresh), key) == field(root, key),
{
    if let Json::Object(e) = root {
        lemma_insert_keeps_other_fields(
            e,
            "statusLine"@,
            status_line_block(quote_cmd_spec(exe), refresh),
            key,
        );
    }
}

/// Uninstalling changes no setting but `statusLine`.
pub proof fn lemma_uninstall_keeps_other_settings(
    root: Json,
    exe: Option<Seq<char>>,
    base: Option<Json>,
    key: Seq<char>,
)
    requires
        root is Object,
        key != "statusLine"@,
    ensures
        field(uninstalled_spec(root, exe, base), key) == field(root, key),
{
    if let Json::Object(e) = root {
        if current_is_self(root, exe) {
            match stored_block(base) {
                Some(b) => lemma_insert_keeps_other_fields(e, "statusLine"@, b, key),
                None => lemma_remove_keeps_other_fields(e, "statusLine"@, key),
            }
        }
    }
}

/// A status line that no longer runs this executable is left exactly as it is, and so are the
/// settings around it.
pub proof fn lemma_foreign_status_line_untouched(root: Json, exe: Seq<char>, base: Option<Json>)
    requires
        root is Object,
        current_command(root) is Some,
        !command_is_self_spec(current_command(root).unwrap(), exe),
    ensures
        uninstalled_spec(root, Some(exe), base) == root,
        uninstall_outcome_spec(root, Some(exe), base) == UninstallOutcome::LeftAlone,
{
}

/// An install never records a status line that already runs this executable as the one to
/// delegate to, so rendering never calls back into itself through the recorded block.
pub proof fn lemma_capture_is_never_self(root: Json, exe: Seq<char>)
    ensures
        capture_spec(root, exe) matches Some(b) ==> match block_command(b) {
            Some(c) => !command_is_self_spec(c, exe),
            None => true,
        },
{
    if let Some(b) = capture_spec(root, exe) {
        if existing_block(root) is None {
            assert(field(Json::Null, "command"@) is None);
        }
    }
}

} // verus!
