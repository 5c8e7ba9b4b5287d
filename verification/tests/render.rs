use vastline::fmt::{band_color, fmt_rounded_hours, int_decimal, RunwayBand, AMBER, GRAY, GREEN, RED};
use vastline::render::{line_text, Balance, Fleet, Freshness, LineInput, Reading, Runway};

fn strip(s: &str) -> String {
    // Crude ANSI stripper for assertions.
    let mut out = String::new();
    let mut chars = s.chars().peekable();
    while let Some(c) = chars.next() {
        if c == '\x1b' {
            for d in chars.by_ref() {
                if d == 'm' {
                    break;
                }
            }
        } else {
            out.push(c);
        }
    }
    out
}

fn reading(running: u32, total: u32, run: &str, all: Option<&str>, bal: Option<&str>) -> Reading {
    Reading {
        fleet: Fleet {
            running,
            total,
            run_rate: run.to_string(),
            all_rate: all.map(String::from),
        },
        balance: bal.map(|b| Balance { text: b.to_string(), depleted: b.starts_with('-') || b == "$0.00" }),
        runway: None,
        freshness: Freshness::Fresh,
    }
}

#[test]
fn full_line_with_running_and_total_burn() {
    let mut r = reading(2, 3, "$1.84/hr", Some("$1.89/hr"), Some("$47.20"));
    r.runway = Some(Runway { band: RunwayBand::Green, text: "25h".to_string() });
    let got = strip(&line_text(&LineInput::Snapshot(r)));
    assert_eq!(got, "vast  2/3 up · run $1.84/hr · all $1.89/hr · bal $47.20 · ~25h");
}

#[test]
fn total_burn_absent_when_not_given() {
    let r = reading(1, 1, "$0.50/hr", None, Some("$10.00"));
    let got = strip(&line_text(&LineInput::Snapshot(r)));
    assert!(got.contains("run $0.50/hr"));
    assert!(!got.contains("all "), "should hide redundant total burn: {got}");
}

#[test]
fn idle_fleet_line() {
    let r = reading(0, 0, "$0.00/hr", None, Some("$47.20"));
    let got = strip(&line_text(&LineInput::Snapshot(r)));
    assert_eq!(got, "vast  idle · bal $47.20");
}

#[test]
fn no_snapshot_hints() {
    let got = strip(&line_text(&LineInput::NoSnapshot { has_key: false }));
    assert_eq!(got, "vast  no API key — run `vastline key set`");
    let got = strip(&line_text(&LineInput::NoSnapshot { has_key: true }));
    assert_eq!(got, "vast  fetching…");
}

#[test]
fn unavailable_shows_error() {
    let got = strip(&line_text(&LineInput::Unavailable { error: Some("curl: boom".into()) }));
    assert_eq!(got, "vast  curl: boom");
    let got = strip(&line_text(&LineInput::Unavailable { error: None }));
    assert_eq!(got, "vast  unavailable");
}

#[test]
fn stale_markers() {
    let mut r = reading(1, 2, "$1.00/hr", None, None);
    r.freshness = Freshness::Failed;
    assert_eq!(strip(&line_text(&LineInput::Snapshot(r))), "vast  1/2 up · run $1.00/hr  ⚠ stale");
    let mut r = reading(1, 2, "$1.00/hr", None, None);
    r.freshness = Freshness::Expired;
    assert_eq!(strip(&line_text(&LineInput::Snapshot(r))), "vast  1/2 up · run $1.00/hr  (stale)");
}

#[test]
fn colours_of_balance_and_runway() {
    let mut r = reading(0, 0, "$0.00/hr", None, Some("-$3.50"));
    r.runway = Some(Runway { band: RunwayBand::Red, text: "0m".to_string() });
    let raw = line_text(&LineInput::Snapshot(r));
    assert!(raw.contains(&format!("{RED}-$3.50")));
    assert!(raw.contains(&format!("{RED}~0m")));
    assert!(raw.starts_with("\x1b[2mvast\x1b[0m  "));
}

#[test]
fn runway_bands() {
    assert_eq!(band_color(RunwayBand::Unknown), GRAY);
    assert_eq!(band_color(RunwayBand::Green), GREEN);
    assert_eq!(band_color(RunwayBand::Amber), AMBER);
    assert_eq!(band_color(RunwayBand::Red), RED);
}

#[test]
fn rounded_hours() {
    // 22h, 0.5h, 24.97h, 28h, 48h, 52h as whole minutes and whole hours.
    assert_eq!(fmt_rounded_hours(1320, 22), "22h");
    assert_eq!(fmt_rounded_hours(30, 1), "30m");
    assert_eq!(fmt_rounded_hours(1498, 25), "25h");
    assert_eq!(fmt_rounded_hours(1680, 28), "28h");
    assert_eq!(fmt_rounded_hours(2880, 48), "2d");
    assert_eq!(fmt_rounded_hours(3120, 52), "2d4h");
    assert_eq!(fmt_rounded_hours(0, 0), "0m");
    assert_eq!(fmt_rounded_hours(-5, 0), "0m");
    assert_eq!(fmt_rounded_hours(59, 1), "59m");
    assert_eq!(fmt_rounded_hours(60, 1), "1h");
    assert_eq!(fmt_rounded_hours(2850, 48), "2d");
    assert_eq!(fmt_rounded_hours(i64::MAX, i64::MAX), format!("{}d{}h", i64::MAX / 24, i64::MAX % 24));
}

#[test]
fn signed_decimal() {
    assert_eq!(int_decimal(0), "0");
    assert_eq!(int_decimal(-42), "-42");
    assert_eq!(int_decimal(i64::MIN), i64::MIN.to_string());
    assert_eq!(int_decimal(i64::MAX), i64::MAX.to_string());
}
