//! The vast status line, composed from a snapshot's already-formatted readings:
//!   `vast  2/3 up · run $1.84/hr · all $1.89/hr · bal $47.20 · ~25h`
//! with a setup hint when there is no snapshot yet and a marker when the data is stale.
use vstd::prelude::*;
use vstd::string::*;
use crate::fmt::{band_color, band_color_spec, RunwayBand, AMBER, DIM, GRAY, GREEN, RED, RESET};
use crate::text::{decimal, decimal_seq};

verus! {

/// How fresh the shown numbers are.
#[derive(Clone, Copy, PartialEq, Eq, Debug, Structural)]
pub enum Freshness {
    /// The last fetch succeeded and is recent enough.
    Fresh,
    /// The last fetch failed; the numbers are from an earlier one.
    Failed,
    /// The last fetch succeeded but long ago.
    Expired,
}

/// The account balance, formatted, and whether it is used up (zero or below).
#[derive(Debug)]
pub struct Balance {
    pub text: String,
    pub depleted: bool,
}

/// The runway, formatted, with its colour band.
#[derive(Debug)]
pub struct Runway {
    pub band: RunwayBand,
    pub text: String,
}

/// Instance counts and burn rates, formatted. `all_rate` is present only when total burn
/// differs from running burn (stopped instances still billing storage).
#[derive(Debug)]
pub struct Fleet {
    pub running: u32,
    pub total: u32,
    pub run_rate: String,
    pub all_rate: Option<String>,
}

/// A snapshot with numbers to show.
#[derive(Debug)]
pub struct Reading {
    pub fleet: Fleet,
    pub balance: Option<Balance>,
    pub runway: Option<Runway>,
    pub freshness: Freshness,
}

/// What the line is made from.
#[derive(Debug)]
pub enum LineInput {
    /// No snapshot yet; whether an API key is configured.
    NoSnapshot { has_key: bool },
    /// Every fetch so far has failed; the last error, if recorded.
    Unavailable { error: Option<String> },
    /// A snapshot with numbers.
    Snapshot(Reading),
}

/// The dimmed label that starts the line.
pub open spec fn label() -> Seq<char> {
    DIM@ + "vast"@ + RESET@
}

/// `segs` joined with `sep` between consecutive segments.
pub open spec fn join(segs: Seq<Seq<char>>, sep: Seq<char>) -> Seq<char>
    decreases segs.len(),
{
    if segs.len() == 0 {
        Seq::empty()
    } else if segs.len() == 1 {
        segs[0]
    } else {
        join(segs.drop_last(), sep) + sep + segs.last()
    }
}

/// The separator between segments.
pub open spec fn separator() -> Seq<char> {
    DIM@ + " · "@ + RESET@
}

/// The fleet segments: `idle` for an empty fleet; else the counts, the running burn, and the
/// total burn when it is shown.
pub open spec fn fleet_segments(f: Fleet) -> Seq<Seq<char>> {
    if f.total == 0 {
        seq![GREEN@ + "idle"@ + RESET@]
    } else {
        let base = seq![
            decimal_seq(f.running as nat) + "/"@ + decimal_seq(f.total as nat) + " up"@,
            DIM@ + "run"@ + RESET@ + " "@ + f.run_rate@,
        ];
        match f.all_rate {
            Some(a) => base.push(DIM@ + "all"@ + RESET@ + " "@ + a@),
            None => base,
        }
    }
}

/// The balance segment, red when used up.
pub open spec fn balance_segment(b: Balance) -> Seq<char> {
    DIM@ + "bal"@ + RESET@ + " "@ + (if b.depleted {
        RED@
    } else {
        GREEN@
    }) + b.text@ + RESET@
}

/// The runway segment, in its band's colour.
pub open spec fn runway_segment(r: Runway) -> Seq<char> {
    band_color_spec(r.band) + "~"@ + r.text@ + RESET@
}

/// All segments of a reading, in order.
pub open spec fn reading_segments(r: Reading) -> Seq<Seq<char>> {
    let s1 = fleet_segments(r.fleet);
    let s2 = match r.balance {
        Some(b) => s1.push(balance_segment(b)),
        None => s1,
    };
    match r.runway {
        Some(w) => s2.push(runway_segment(w)),
        None => s2,
    }
}

/// The marker appended for stale data.
pub open spec fn freshness_marker(f: Freshness) -> Seq<char> {
    match f {
        Freshness::Fresh => Seq::empty(),
        Freshness::Failed => "  "@ + RED@ + "⚠ stale"@ + RESET@,
        Freshness::Expired => "  "@ + GRAY@ + "(stale)"@ + RESET@,
    }
}

/// The whole line.
pub open spec fn line_spec(input: LineInput) -> Seq<char> {
    match input {
        LineInput::NoSnapshot { has_key } => label() + "  "@ + GRAY@ + (if has_key {
            "fetching…"@
        } else {
            "no API key — run `vastline key set`"@
        }) + RESET@,
        LineInput::Unavailable { error } => label() + "  "@ + RED@ + (match error {
            Some(e) => e@,
            None => "unavailable"@,
        }) + RESET@,
        LineInput::Snapshot(r) => label() + "  "@ + join(reading_segments(r), separator())
            + freshness_marker(r.freshness),
    }
}

/// Joining two non-empty lists puts one separator between their joins.
pub proof fn lemma_join_concat(a: Seq<Seq<char>>, b: Seq<Seq<char>>, sep: Seq<char>)
    requires
        a.len() > 0,
        b.len() > 0,
    ensures
        join(a + b, sep) == join(a, sep) + sep + join(b, sep),
    decreases b.len(),
{
    if b.len() == 1 {
        assert((a + b).drop_last() =~= a);
        assert((a + b).last() == b[0]);
    } else {
        lemma_join_concat(a, b.drop_last(), sep);
        assert((a + b).drop_last() =~= a + b.drop_last());
        assert((a + b).last() == b.last());
        assert(join(a, sep) + sep + join(b.drop_last(), sep) + sep + b.last() =~= join(a, sep)
            + sep + (join(b.drop_last(), sep) + sep + b.last()));
    }
}

/// The segments after the fleet's: the balance's, then the runway's, when given.
pub open spec fn tail_segments(balance: Option<Balance>, runway: Option<Runway>) -> Seq<Seq<char>> {
    (match balance {
        Some(b) => seq![balance_segment(b)],
        None => Seq::empty(),
    }) + (match runway {
        Some(w) => seq![runway_segment(w)],
        None => Seq::empty(),
    })
}

/// The beginning of the line of a non-empty fleet: the label, the counts and the running burn.
pub open spec fn counts_and_run(f: Fleet) -> Seq<char> {
    label() + "  "@ + decimal_seq(f.running as nat) + "/"@ + decimal_seq(f.total as nat) + " up"@
        + separator() + DIM@ + "run"@ + RESET@ + " "@ + f.run_rate@
}

proof fn lemma_reading_line(r: Reading)
    ensures
        line_spec(LineInput::Snapshot(r)) == label() + "  "@ + join(
            fleet_segments(r.fleet) + tail_segments(r.balance, r.runway),
            separator(),
        ) + freshness_marker(r.freshness),
{
    assert(reading_segments(r) =~= fleet_segments(r.fleet) + tail_segments(r.balance, r.runway));
}

proof fn lemma_join_then(f: Seq<Seq<char>>, t: Seq<Seq<char>>, sep: Seq<char>)
    requires
        f.len() > 0,
    ensures
        join(f + t, sep) == join(f, sep) + if t.len() == 0 {
            Seq::<char>::empty()
        } else {
            sep + join(t, sep)
        },
{
    if t.len() == 0 {
        assert(f + t =~= f);
        assert(join(f, sep) + Seq::<char>::empty() =~= join(f, sep));
    } else {
        lemma_join_concat(f, t, sep);
        assert(join(f, sep) + sep + join(t, sep) =~= join(f, sep) + (sep + join(t, sep)));
    }
}

proof fn lemma_join_two(x: Seq<char>, y: Seq<char>, sep: Seq<char>)
    ensures
        join(seq![x, y], sep) == x + sep + y,
{
    assert(seq![x, y].drop_last() =~= seq![x]);
    assert(join(seq![x], sep) == x);
    assert(seq![x, y].last() == y);
}

proof fn lemma_join_three(x: Seq<char>, y: Seq<char>, z: Seq<char>, sep: Seq<char>)
    ensures
        join(seq![x, y, z], sep) == x + sep + y + sep + z,
{
    assert(seq![x, y, z].drop_last() =~= seq![x, y]);
    assert(seq![x, y, z].last() == z);
    lemma_join_two(x, y, sep);
}

proof fn lemma_regroup(l: Seq<char>, h: Seq<char>, t: Seq<char>, m: Seq<char>)
    ensures
        l + (h + t) + m == (l + h) + (t + m),
        (l + h + t + m).take((l + h).len() as int) == l + h,
        (l + h + t + m).skip((l + h).len() as int) == t + m,
{
    assert(l + (h + t) + m =~= (l + h) + (t + m));
    assert((l + h + t + m).take((l + h).len() as int) =~= l + h);
    assert((l + h + t + m).skip((l + h).len() as int) =~= t + m);
}

proof fn lemma_regroup_insert(
    l: Seq<char>,
    h: Seq<char>,
    sep: Seq<char>,
    all: Seq<char>,
    t: Seq<char>,
    m: Seq<char>,
)
    ensures
        l + (h + sep + all + t) + m == (l + h) + sep + all + (t + m),
{
    assert(l + (h + sep + all + t) + m =~= (l + h) + sep + all + (t + m));
}

proof fn lemma_all_pieces(p: Seq<char>, sep: Seq<char>, d: Seq<char>, w: Seq<char>, r: Seq<char>, sp: Seq<char>, a: Seq<char>)
    ensures
        p + sep + d + w + r + sp + a == p + sep + (d + w + r + sp + a),
{
    assert(p + sep + d + w + r + sp + a =~= p + sep + (d + w + r + sp + a));
}

proof fn lemma_counts_and_run(f: Fleet)
    ensures
        counts_and_run(f) == label() + "  "@ + (decimal_seq(f.running as nat) + "/"@ + decimal_seq(
            f.total as nat,
        ) + " up"@ + separator() + (DIM@ + "run"@ + RESET@ + " "@ + f.run_rate@)),
{
    assert(counts_and_run(f) =~= label() + "  "@ + (decimal_seq(f.running as nat) + "/"@
        + decimal_seq(f.total as nat) + " up"@ + separator() + (DIM@ + "run"@ + RESET@ + " "@
        + f.run_rate@)));
}

/// For a non-empty fleet, giving a total-burn text `a` inserts exactly one segment,
/// `DIM all RESET ␠ a` after a separator, right after the running burn, whatever the counts
/// (in particular with no instance running); the rest of the line is unchanged.
pub proof fn lemma_total_burn_segment_shown(
    running: u32,
    total: u32,
    run_rate: String,
    a: String,
    balance: Option<Balance>,
    runway: Option<Runway>,
    freshness: Freshness,
)
    requires
        total != 0,
    ensures
        ({
            let without = Fleet { running, total, run_rate, all_rate: None };
            let with = Fleet { running, total, run_rate, all_rate: Some(a) };
            let k = counts_and_run(without).len() as int;
            let l0 = line_spec(
                LineInput::Snapshot(Reading { fleet: without, balance, runway, freshness }),
            );
            let l1 = line_spec(
                LineInput::Snapshot(Reading { fleet: with, balance, runway, freshness }),
            );
            &&& l0.take(k) == counts_and_run(without)
            &&& l1 == l0.take(k) + separator() + DIM@ + "all"@ + RESET@ + " "@ + a@ + l0.skip(k)
        }),
{
    let without = Fleet { running, total, run_rate, all_rate: None };
    let with = Fleet { running, total, run_rate, all_rate: Some(a) };
    let r0 = Reading { fleet: without, balance, runway, freshness };
    let r1 = Reading { fleet: with, balance, runway, freshness };
    let t = tail_segments(balance, runway);
    let sep = separator();
    let c = decimal_seq(running as nat) + "/"@ + decimal_seq(total as nat) + " up"@;
    let run = DIM@ + "run"@ + RESET@ + " "@ + run_rate@;
    let all = DIM@ + "all"@ + RESET@ + " "@ + a@;
    assert(fleet_segments(without) == seq![c, run]);
    assert(fleet_segments(with) == seq![c, run, all]);
    lemma_join_two(c, run, sep);
    lemma_join_three(c, run, all, sep);
    lemma_reading_line(r0);
    lemma_reading_line(r1);
    lemma_join_then(seq![c, run], t, sep);
    lemma_join_then(seq![c, run, all], t, sep);
    let lab = label() + "  "@;
    let h = c + sep + run;
    let tt = if t.len() == 0 {
        Seq::<char>::empty()
    } else {
        sep + join(t, sep)
    };
    let m = freshness_marker(freshness);
    let l0 = line_spec(LineInput::Snapshot(r0));
    let l1 = line_spec(LineInput::Snapshot(r1));
    assert(l0 == lab + (h + tt) + m);
    assert(l1 == lab + (h + sep + all + tt) + m);
    lemma_regroup(lab, h, tt, m);
    lemma_regroup_insert(lab, h, sep, all, tt, m);
    lemma_counts_and_run(without);
    assert(lab + h == counts_and_run(without));
    lemma_all_pieces(lab + h, sep, DIM@, "all"@, RESET@, " "@, a@);
}

/// Without a snapshot, the line is the label and a gray hint: `fetching…` when a key is set,
/// how to set one otherwise.
pub proof fn lemma_no_snapshot_line(has_key: bool)
    ensures
        line_spec(LineInput::NoSnapshot { has_key }) == DIM@ + "vast"@ + RESET@ + "  "@ + GRAY@
            + (if has_key {
            "fetching…"@
        } else {
            "no API key — run `vastline key set`"@
        }) + RESET@,
{
}

/// When no fetch has ever succeeded, the line is the label and the last error in red (or
/// `unavailable` when none was recorded).
pub proof fn lemma_unavailable_line(error: Option<String>)
    ensures
        line_spec(LineInput::Unavailable { error }) == DIM@ + "vast"@ + RESET@ + "  "@ + RED@
            + (match error {
            Some(e) => e@,
            None => "unavailable"@,
        }) + RESET@,
{
}

/// Stale data only adds a marker at the end of the line: `⚠ stale` in red after a failed fetch,
/// `(stale)` in gray for old data; fresh data adds nothing.
pub proof fn lemma_stale_marker_appended(
    fleet: Fleet,
    balance: Option<Balance>,
    runway: Option<Runway>,
    freshness: Freshness,
)
    ensures
        line_spec(LineInput::Snapshot(Reading { fleet, balance, runway, freshness })) == line_spec(
            LineInput::Snapshot(Reading { fleet, balance, runway, freshness: Freshness::Fresh }),
        ) + match freshness {
            Freshness::Fresh => Seq::<char>::empty(),
            Freshness::Failed => "  "@ + RED@ + "⚠ stale"@ + RESET@,
            Freshness::Expired => "  "@ + GRAY@ + "(stale)"@ + RESET@,
        },
{
    let r = Reading { fleet, balance, runway, freshness };
    let r0 = Reading { fleet, balance, runway, freshness: Freshness::Fresh };
    lemma_reading_line(r);
    lemma_reading_line(r0);
    let j = join(fleet_segments(fleet) + tail_segments(balance, runway), separator());
    assert(label() + "  "@ + j + Seq::<char>::empty() =~= label() + "  "@ + j);
}

/// An empty fleet reads `idle` in green after the label, whatever its running count and rates;
/// the rest of the line does not depend on them either.
pub proof fn lemma_idle_fleet(
    f1: Fleet,
    f2: Fleet,
    balance: Option<Balance>,
    runway: Option<Runway>,
    freshness: Freshness,
)
    requires
        f1.total == 0,
        f2.total == 0,
    ensures
        line_spec(LineInput::Snapshot(Reading { fleet: f1, balance, runway, freshness }))
            == line_spec(LineInput::Snapshot(Reading { fleet: f2, balance, runway, freshness })),
        line_spec(LineInput::Snapshot(Reading { fleet: f1, balance, runway, freshness })).take(
            (DIM@ + "vast"@ + RESET@ + "  "@ + GREEN@ + "idle"@ + RESET@).len() as int,
        ) == DIM@ + "vast"@ + RESET@ + "  "@ + GREEN@ + "idle"@ + RESET@,
{
    let r1 = Reading { fleet: f1, balance, runway, freshness };
    let r2 = Reading { fleet: f2, balance, runway, freshness };
    lemma_reading_line(r1);
    lemma_reading_line(r2);
    let idle = GREEN@ + "idle"@ + RESET@;
    let t = tail_segments(balance, runway);
    lemma_join_then(seq![idle], t, separator());
    let tt = if t.len() == 0 {
        Seq::<char>::empty()
    } else {
        separator() + join(t, separator())
    };
    let m = freshness_marker(freshness);
    lemma_regroup(label() + "  "@, idle, tt, m);
    assert(label() + "  "@ + idle =~= DIM@ + "vast"@ + RESET@ + "  "@ + GREEN@ + "idle"@ + RESET@);
}

/// A balance adds one segment after the fleet's (before any runway): `bal` and the balance text,
/// red when used up and green otherwise.
pub proof fn lemma_balance_segment(fleet: Fleet, b: Balance)
    ensures
        line_spec(
            LineInput::Snapshot(
                Reading { fleet, balance: Some(b), runway: None, freshness: Freshness::Fresh },
            ),
        ) == line_spec(
            LineInput::Snapshot(
                Reading { fleet, balance: None, runway: None, freshness: Freshness::Fresh },
            ),
        ) + separator() + DIM@ + "bal"@ + RESET@ + " "@ + (if b.depleted {
            RED@
        } else {
            GREEN@
        }) + b.text@ + RESET@,
{
    let r0 = Reading { fleet, balance: None, runway: None, freshness: Freshness::Fresh };
    let r1 = Reading { fleet, balance: Some(b), runway: None, freshness: Freshness::Fresh };
    lemma_reading_line(r0);
    lemma_reading_line(r1);
    let f = fleet_segments(fleet);
    let bal = balance_segment(b);
    assert(f + tail_segments(None, None) =~= f);
    assert(f + tail_segments(Some(b), None) =~= f.push(bal));
    assert(f.push(bal).drop_last() =~= f);
    let lab = label() + "  "@;
    let j = join(f, separator());
    assert(lab + (j + separator() + bal) + Seq::<char>::empty() =~= lab + j + Seq::<char>::empty()
        + separator() + (DIM@ + "bal"@ + RESET@ + " "@ + (if b.depleted {
        RED@
    } else {
        GREEN@
    }) + b.text@ + RESET@));
    assert(lab + j + Seq::<char>::empty() + separator() + (DIM@ + "bal"@ + RESET@ + " "@ + (
    if b.depleted {
        RED@
    } else {
        GREEN@
    }) + b.text@ + RESET@) =~= lab + j + Seq::<char>::empty() + separator() + DIM@ + "bal"@
        + RESET@ + " "@ + (if b.depleted {
        RED@
    } else {
        GREEN@
    }) + b.text@ + RESET@);
}

/// A runway adds one last segment: `~` and the runway text, in its band's colour (gray, red,
/// amber or green).
pub proof fn lemma_runway_segment(fleet: Fleet, balance: Option<Balance>, w: Runway)
    ensures
        line_spec(
            LineInput::Snapshot(
                Reading { fleet, balance, runway: Some(w), freshness: Freshness::Fresh },
            ),
        ) == line_spec(
            LineInput::Snapshot(Reading { fleet, balance, runway: None, freshness: Freshness::Fresh }),
        ) + separator() + (match w.band {
            RunwayBand::Unknown => GRAY@,
            RunwayBand::Red => RED@,
            RunwayBand::Amber => AMBER@,
            RunwayBand::Green => GREEN@,
        }) + "~"@ + w.text@ + RESET@,
{
    let r0 = Reading { fleet, balance, runway: None, freshness: Freshness::Fresh };
    let r1 = Reading { fleet, balance, runway: Some(w), freshness: Freshness::Fresh };
    lemma_reading_line(r0);
    lemma_reading_line(r1);
    let f = fleet_segments(fleet);
    let rw = runway_segment(w);
    let s0 = f + tail_segments(balance, None);
    assert(f + tail_segments(balance, Some(w)) =~= s0.push(rw));
    assert(s0.push(rw).drop_last() =~= s0);
    let lab = label() + "  "@;
    let j = join(s0, separator());
    let col = match w.band {
        RunwayBand::Unknown => GRAY@,
        RunwayBand::Red => RED@,
        RunwayBand::Amber => AMBER@,
        RunwayBand::Green => GREEN@,
    };
    assert(band_color_spec(w.band) == col);
    assert(lab + (j + separator() + rw) + Seq::<char>::empty() =~= lab + j + Seq::<char>::empty()
        + separator() + col + "~"@ + w.text@ + RESET@);
}

/// The views of a list of strings.
pub open spec fn strings_view(v: Seq<String>) -> Seq<Seq<char>> {
    v.map_values(|s: String| s@)
}

fn join_strings(segs: &Vec<String>, sep: &str) -> (r: String)
    ensures
        r@ == join(strings_view(segs@), sep@),
{
    let ghost vs = strings_view(segs@);
    let mut r = String::new();
    let mut i: usize = 0;
    while i < segs.len()
        invariant
            i <= segs.len(),
            vs == strings_view(segs@),
            r@ == join(vs.take(i as int), sep@),
        decreases segs.len() - i,
    {
        assert(vs.take(i + 1).drop_last() =~= vs.take(i as int));
        if i > 0 {
            r.append(sep);
        } else {
            assert(vs.take(1) =~= seq![vs[0]]);
        }
        r.append(segs[i].as_str());
        i = i + 1;
    }
    assert(vs.take(segs.len() as int) =~= vs);
    r
}

fn styled(prefix: &str, word: &str, rest: &str) -> (r: String)
    ensures
        r@ == prefix@ + word@ + RESET@ + rest@,
{
    let mut r = String::from_str(prefix);
    r.append(word);
    r.append(RESET);
    r.append(rest);
    r
}

fn fleet_segments_exec(f: &Fleet) -> (r: Vec<String>)
    ensures
        strings_view(r@) == fleet_segments(*f),
{
    let mut segs: Vec<String> = Vec::new();
    if f.total == 0 {
        segs.push(styled(GREEN, "idle", ""));
        proof {
            reveal_strlit("");
        }
        assert(strings_view(segs@) =~= fleet_segments(*f));
        return segs;
    }
    let mut counts = decimal(f.running as u64);
    counts.append("/");
    let total_text = decimal(f.total as u64);
    counts.append(total_text.as_str());
    counts.append(" up");
    segs.push(counts);
    let mut run = styled(DIM, "run", " ");
    run.append(f.run_rate.as_str());
    segs.push(run);
    match &f.all_rate {
        Some(a) => {
            let mut all = styled(DIM, "all", " ");
            all.append(a.as_str());
            segs.push(all);
        },
        None => {},
    }
    assert(strings_view(segs@) =~= fleet_segments(*f));
    segs
}

/// Render the status line.
pub fn line_text(input: &LineInput) -> (r: String)
    ensures
        r@ == line_spec(*input),
{
    let mut out = styled(DIM, "vast", "  ");
    match input {
        LineInput::NoSnapshot { has_key } => {
            out.append(GRAY);
            if *has_key {
                out.append("fetching…");
            } else {
                out.append("no API key — run `vastline key set`");
            }
            out.append(RESET);
            assert(out@ =~= line_spec(*input));
            out
        },
        LineInput::Unavailable { error } => {
            out.append(RED);
            match error {
                Some(e) => out.append(e.as_str()),
                None => out.append("unavailable"),
            }
            out.append(RESET);
            assert(out@ =~= line_spec(*input));
            out
        },
        LineInput::Snapshot(reading) => {
            let mut segs = fleet_segments_exec(&reading.fleet);
            let ghost s1 = strings_view(segs@);
            match &reading.balance {
                Some(b) => {
                    let mut seg = styled(DIM, "bal", " ");
                    seg.append(if b.depleted { RED } else { GREEN });
                    seg.append(b.text.as_str());
                    seg.append(RESET);
                    segs.push(seg);
                },
                None => {},
            }
            let ghost s2 = strings_view(segs@);
            assert(s2 =~= match reading.balance {
                Some(b) => s1.push(balance_segment(b)),
                None => s1,
            });
            match &reading.runway {
                Some(w) => {
                    let mut seg = String::from_str(band_color(w.band));
                    seg.append("~");
                    seg.append(w.text.as_str());
                    seg.append(RESET);
                    segs.push(seg);
                },
                None => {},
            }
            assert(strings_view(segs@) =~= reading_segments(*reading));
            let sep = styled(DIM, " · ", "");
            proof {
                reveal_strlit("");
            }
            assert(sep@ =~= separator());
            let body = join_strings(&segs, sep.as_str());
            out.append(body.as_str());
            match reading.freshness {
                Freshness::Fresh => {},
                Freshness::Failed => {
                    out.append("  ");
                    out.append(RED);
                    out.append("⚠ stale");
                    out.append(RESET);
                },
                Freshness::Expired => {
                    out.append("  ");
                    out.append(GRAY);
                    out.append("(stale)");
                    out.append(RESET);
                },
            }
            assert(out@ =~= line_spec(*input));
            out
        },
    }
}

} // verus!
