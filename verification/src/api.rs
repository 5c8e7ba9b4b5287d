//! Reading the vast.ai responses: which instances are running, and the fleet's counts.
//! (`/instances/` answers `{ "instances": [ { actual_status, cur_state, dph_total, ... } ] }`.)
use vstd::prelude::*;
use vstd::string::*;
use crate::json::{
    field, get, json_read_bytes, json_view, lemma_array_view, items_view, parse_json_bytes, Json,
    JsonValue,
};
use crate::text::{ascii_lower_code, chars_of, eq_ignore_ascii_case, eq_ignore_ascii_case_seq, string_of_range, trim, trim_seq};

verus! {

/// A status string means "currently running and billing compute": `running`, in any ASCII case.
pub open spec fn is_running_spec(status: Option<Seq<char>>) -> bool {
    match status {
        Some(s) => eq_ignore_ascii_case_seq(s, "running"@),
        None => false,
    }
}

/// The view of an optional text.
pub open spec fn opt_str(t: Option<&str>) -> Option<Seq<char>> {
    match t {
        Some(s) => Some(s@),
        None => None,
    }
}

/// True when an instance's status string means "currently running and billing compute".
pub fn is_running(status: Option<&str>) -> (r: bool)
    ensures
        r == is_running_spec(opt_str(status)),
{
    match status {
        Some(s) => eq_ignore_ascii_case(s, "running"),
        None => false,
    }
}

/// The text of `v[key]`, if it is a JSON string.
pub open spec fn text_field(v: Json, key: Seq<char>) -> Option<Seq<char>> {
    match field(v, key) {
        Some(Json::Text(s)) => Some(s),
        _ => None,
    }
}

/// A status means running exactly when it spells `running` with each letter in either case
/// (compared by code point).
pub proof fn lemma_running_spellings(s: Seq<char>)
    ensures
        is_running_spec(Some(s)) <==> (s.len() == 7 && forall|i: int|
            0 <= i < 7 ==> #[trigger] (s[i] as u32) == "running"@[i] as u32 || s[i] as u32
                == "RUNNING"@[i] as u32),
{
    reveal_strlit("running");
    reveal_strlit("RUNNING");
    let lo = "running"@;
    let up = "RUNNING"@;
    if s.len() == 7 {
        assert forall|i: int| 0 <= i < 7 implies (ascii_lower_code(s[i]) == ascii_lower_code(lo[i])
            <==> (s[i] as u32 == lo[i] as u32 || s[i] as u32 == up[i] as u32)) by {
            assert(lo[i] as u32 == up[i] as u32 + 32 && 97 <= lo[i] as u32 <= 122) by {
                assert(i == 0 || i == 1 || i == 2 || i == 3 || i == 4 || i == 5 || i == 6);
            }
        }
    }
}

/// An instance's status: its live state (`actual_status`), else its requested one (`cur_state`).
pub open spec fn instance_status_spec(inst: Json) -> Option<Seq<char>> {
    match text_field(inst, "actual_status"@) {
        Some(s) => Some(s),
        None => text_field(inst, "cur_state"@),
    }
}

fn text_of<'a>(v: &'a JsonValue, key: &str) -> (r: Option<&'a str>)
    ensures
        opt_str(r) == text_field(v@, key@),
{
    match get(v, key) {
        Some(JsonValue::Text(s)) => Some(s.as_str()),
        _ => None,
    }
}

/// An instance's status: `actual_status`, else `cur_state`.
pub fn instance_status<'a>(inst: &'a JsonValue) -> (r: Option<&'a str>)
    ensures
        opt_str(r) == instance_status_spec(inst@),
{
    match text_of(inst, "actual_status") {
        Some(s) => Some(s),
        None => text_of(inst, "cur_state"),
    }
}

/// The instance is running.
pub open spec fn instance_running(inst: Json) -> bool {
    is_running_spec(instance_status_spec(inst))
}

/// The instance list of an `/instances/` response; empty when it is missing or not an array.
pub open spec fn instance_list_spec(instances: Json) -> Seq<Json> {
    match field(instances, "instances"@) {
        Some(Json::Array(items)) => items,
        _ => Seq::empty(),
    }
}

/// The instance list of an `/instances/` response, if it has one.
pub fn instance_list<'a>(instances: &'a JsonValue) -> (r: Option<&'a Vec<JsonValue>>)
    ensures
        match r {
            Some(v) => items_view(v@) == instance_list_spec(instances@),
            None => instance_list_spec(instances@) == Seq::<Json>::empty(),
        },
{
    match get(instances, "instances") {
        Some(JsonValue::Array(items)) => {
            proof {
                lemma_array_view(*items);
            }
            Some(items)
        },
        _ => None,
    }
}

/// How many instances of `list` are running.
pub open spec fn running_count(list: Seq<Json>) -> nat
    decreases list.len(),
{
    if list.len() == 0 {
        0
    } else {
        running_count(list.drop_last()) + if instance_running(list.last()) {
            1nat
        } else {
            0nat
        }
    }
}

/// Running instances never outnumber all instances.
pub proof fn lemma_running_at_most_total(list: Seq<Json>)
    ensures
        running_count(list) <= list.len(),
    decreases list.len(),
{
    if list.len() > 0 {
        lemma_running_at_most_total(list.drop_last());
    }
}

/// An instance whose live `actual_status` is a string other than `running` (in any ASCII case)
/// never adds to the running count, whatever its requested `cur_state`.
pub proof fn lemma_stopped_actual_status_not_counted(list: Seq<Json>, inst: Json, s: Seq<char>)
    requires
        field(inst, "actual_status"@) == Some(Json::Text(s)),
        !eq_ignore_ascii_case_seq(s, "running"@),
    ensures
        running_count(list.push(inst)) == running_count(list),
{
    assert(list.push(inst).drop_last() =~= list);
}

/// An instance whose live `actual_status` is `running` (in any ASCII case) adds one to the
/// running count, whatever its `cur_state`.
pub proof fn lemma_running_actual_status_counted(list: Seq<Json>, inst: Json, s: Seq<char>)
    requires
        field(inst, "actual_status"@) == Some(Json::Text(s)),
        eq_ignore_ascii_case_seq(s, "running"@),
    ensures
        running_count(list.push(inst)) == running_count(list) + 1,
{
    assert(list.push(inst).drop_last() =~= list);
}

/// An instance without a string `actual_status` is counted by its requested `cur_state`: it adds
/// one exactly when `cur_state` is the string `running` (in any ASCII case).
pub proof fn lemma_cur_state_fallback(list: Seq<Json>, inst: Json)
    requires
        !(field(inst, "actual_status"@) matches Some(Json::Text(_))),
    ensures
        running_count(list.push(inst)) == running_count(list) + if field(inst, "cur_state"@) matches Some(
            Json::Text(c),
        ) && eq_ignore_ascii_case_seq(c, "running"@) {
            1int
        } else {
            0int
        },
{
    assert(list.push(inst).drop_last() =~= list);
}

/// No instances, none running.
pub proof fn lemma_no_instances_none_running()
    ensures
        running_count(Seq::<Json>::empty()) == 0,
{
}

/// Instance counts of the fleet.
#[derive(Clone, Copy, PartialEq, Eq, Debug, Structural)]
pub struct FleetCounts {
    pub running: u32,
    pub total: u32,
}

/// Count the running instances and all instances of an `/instances/` response. The counts are
/// 32-bit: past `u32::MAX` instances they wrap around (as `len() as u32` and a release-mode
/// `+= 1` do).
pub fn fleet_counts(instances: &JsonValue) -> (c: FleetCounts)
    ensures
        c.total == instance_list_spec(instances@).len() % 0x1_0000_0000,
        c.running == running_count(instance_list_spec(instances@)) % 0x1_0000_0000,
        instance_list_spec(instances@).len() <= u32::MAX ==> c.running <= c.total,
{
    let list = match instance_list(instances) {
        Some(v) => v,
        None => {
            return FleetCounts { running: 0, total: 0 };
        },
    };
    let ghost l = items_view(list@);
    let mut running: u32 = 0;
    let mut total: u32 = 0;
    let mut i: usize = 0;
    while i < list.len()
        invariant
            i <= list.len(),
            l == items_view(list@),
            running == running_count(l.take(i as int)) % 0x1_0000_0000,
            total == (i as int) % 0x1_0000_0000,
        decreases list.len() - i,
    {
        assert(l.take(i + 1).drop_last() =~= l.take(i as int));
        assert(l.take(i + 1).last() == json_view(list@[i as int]));
        if is_running(instance_status(&list[i])) {
            running = if running == u32::MAX { 0 } else { running + 1 };
        }
        total = if total == u32::MAX { 0 } else { total + 1 };
        i = i + 1;
    }
    assert(l.take(list.len() as int) =~= l);
    proof {
        lemma_running_at_most_total(l);
    }
    FleetCounts { running, total }
}

/// What a request yields, given whether curl succeeded, what curl wrote to its error stream,
/// the response body and the URL: the body's JSON document; when curl failed, the curl error
/// (see `curl_failure_spec`); when the body is not JSON, `bad JSON from <url>: ` followed by
/// serde_json's description of the error.
pub open spec fn response_spec(ok: bool, stderr: Seq<char>, body: Seq<u8>, url: Seq<char>) -> Result<
    Json,
    Seq<char>,
> {
    if !ok {
        Err(curl_failure_spec(stderr))
    } else {
        match json_read_bytes(body) {
            Ok(d) => Ok(d),
            Err(e) => Err("bad JSON from "@ + url + ": "@ + e),
        }
    }
}

/// The JSON document of a request's response, or a human-readable error (see `response_spec`).
pub fn read_response(ok: bool, stderr: &str, body: &[u8], url: &str) -> (r: Result<JsonValue, String>)
    ensures
        match r {
            Ok(v) => response_spec(ok, stderr@, body@, url@) == Ok::<Json, Seq<char>>(v@),
            Err(m) => response_spec(ok, stderr@, body@, url@) == Err::<Json, Seq<char>>(m@),
        },
{
    if !ok {
        return Err(curl_failure_message(stderr));
    }
    match parse_json_bytes(body) {
        Ok(v) => Ok(v),
        Err(e) => {
            let mut m = String::from_str("bad JSON from ");
            m.append(url);
            m.append(": ");
            m.append(e.as_str());
            Err(m)
        },
    }
}

/// The part of `s` after its last `c` (all of `s` when it has none).
pub open spec fn after_last(s: Seq<char>, c: char) -> Seq<char>
    decreases s.len(),
{
    if s.len() == 0 {
        s
    } else if s.last() == c {
        Seq::empty()
    } else {
        after_last(s.drop_last(), c).push(s.last())
    }
}

/// The last line of a text as `str::lines` yields it: none for empty text; a final line ending
/// (`\n` or `\r\n`) does not start another line.
pub open spec fn last_line(s: Seq<char>) -> Option<Seq<char>> {
    if s.len() == 0 {
        None
    } else if s.last() == '\n' {
        let l = after_last(s.drop_last(), '\n');
        Some(
            if l.len() > 0 && l.last() == '\r' {
                l.drop_last()
            } else {
                l
            },
        )
    } else {
        Some(after_last(s, '\n'))
    }
}

/// The error reported for a failed request: `curl: ` and the last line curl wrote to its error
/// stream, trimmed (`request failed` when it wrote nothing).
pub open spec fn curl_failure_spec(stderr: Seq<char>) -> Seq<char> {
    "curl: "@ + trim_seq(
        match last_line(stderr) {
            Some(l) => l,
            None => "request failed"@,
        },
    )
}

proof fn lemma_after_last_suffix(s: Seq<char>, c: char, k: int)
    requires
        0 <= k <= s.len(),
        k == 0 || s[k - 1] == c,
        forall|j: int| k <= j < s.len() ==> s[j] != c,
    ensures
        after_last(s, c) == s.subrange(k, s.len() as int),
    decreases s.len(),
{
    if s.len() > 0 {
        if s.last() == c {
            assert(k == s.len());
        } else {
            lemma_after_last_suffix(s.drop_last(), c, k);
            assert(s.subrange(k, s.len() as int) =~= s.drop_last().subrange(
                k,
                s.len() - 1,
            ).push(s.last()));
        }
    }
}

/// curl's error is reported from its last line, trimmed: the text after the last line break
/// (when that last line is not empty).
pub proof fn lemma_curl_reports_last_line(p: Seq<char>, y: Seq<char>)
    requires
        y.len() > 0,
        forall|i: int| 0 <= i < y.len() ==> y[i] != '\n',
    ensures
        curl_failure_spec(p + seq!['\n'] + y) == "curl: "@ + trim_seq(y),
        curl_failure_spec(y) == "curl: "@ + trim_seq(y),
{
    let s = p + seq!['\n'] + y;
    lemma_after_last_suffix(s, '\n', (p.len() + 1) as int);
    assert(s.subrange((p.len() + 1) as int, s.len() as int) =~= y);
    assert(s.last() == y.last());
    lemma_after_last_suffix(y, '\n', 0);
    assert(y.subrange(0, y.len() as int) =~= y);
}

/// A final line break (with or without a carriage return before it) does not start another line.
pub proof fn lemma_curl_final_line_break(p: Seq<char>, y: Seq<char>)
    requires
        y.len() > 0,
        y.last() != '\r',
        forall|i: int| 0 <= i < y.len() ==> y[i] != '\n',
    ensures
        curl_failure_spec(p + seq!['\n'] + y + seq!['\n']) == "curl: "@ + trim_seq(y),
        curl_failure_spec(p + seq!['\n'] + y + seq!['\r', '\n']) == "curl: "@ + trim_seq(y),
{
    let s = p + seq!['\n'] + y;
    lemma_after_last_suffix(s, '\n', (p.len() + 1) as int);
    assert(s.subrange((p.len() + 1) as int, s.len() as int) =~= y);
    assert((s + seq!['\n']).drop_last() =~= s);
    let s2 = s.push('\r');
    lemma_after_last_suffix(s2, '\n', (p.len() + 1) as int);
    assert(s2.subrange((p.len() + 1) as int, s2.len() as int) =~= y.push('\r'));
    assert((p + seq!['\n'] + y + seq!['\r', '\n']).drop_last() =~= s2);
    assert(y.push('\r').drop_last() =~= y);
}

/// The error message for a failed request, from curl's error output.
pub fn curl_failure_message(stderr: &str) -> (r: String)
    ensures
        r@ == curl_failure_spec(stderr@),
{
    let v = chars_of(stderr);
    let mut r = String::from_str("curl: ");
    if v.len() == 0 {
        let t = trim("request failed");
        r.append(t.as_str());
        return r;
    }
    let mut end: usize = v.len();
    if v[end - 1] == '\n' {
        end = end - 1;
    }
    let ghost body = v@.subrange(0, end as int);
    let mut start: usize = end;
    while start > 0 && v[start - 1] != '\n'
        invariant
            start <= end <= v.len(),
            forall|j: int| start <= j < end ==> v@[j] != '\n',
        decreases start,
    {
        start = start - 1;
    }
    proof {
        lemma_after_last_suffix(body, '\n', start as int);
        assert(body.subrange(start as int, end as int) =~= v@.subrange(start as int, end as int));
        if end == v.len() {
            assert(v@ =~= body);
        } else {
            assert(v@.drop_last() =~= body);
        }
    }
    let ghost end0 = end;
    let ghost l = v@.subrange(start as int, end0 as int);
    if end < v.len() && end > start && v[end - 1] == '\r' {
        end = end - 1;
    }
    let line = string_of_range(&v, start, end);
    proof {
        if end0 < v.len() {
            if l.len() > 0 && l.last() == '\r' {
                assert(line@ =~= l.drop_last());
            } else {
                assert(line@ =~= l);
            }
        } else {
            assert(line@ =~= l);
        }
        assert(last_line(stderr@) == Some(line@));
    }
    let t = trim(line.as_str());
    r.append(t.as_str());
    r
}

} // verus!
