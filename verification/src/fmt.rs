//! ANSI colours, runway colour bands, and the integer part of the runway formatter.
use vstd::prelude::*;
use vstd::string::*;
use crate::text::{decimal, decimal_seq};

verus! {

pub const RESET: &'static str = "\x1b[0m";
pub const DIM: &'static str = "\x1b[2m";
pub const GRAY: &'static str = "\x1b[90m";
pub const GREEN: &'static str = "\x1b[32m";
/// 256-colour amber (warning band).
pub const AMBER: &'static str = "\x1b[38;5;214m";
pub const RED: &'static str = "\x1b[31m";

/// Colour band of a runway: unknown (no balance or no burn), nearly dry, low, or comfortable.
#[derive(Clone, Copy, PartialEq, Eq, Debug, Structural)]
pub enum RunwayBand {
    Unknown,
    Red,
    Amber,
    Green,
}

/// The colour of a runway band.
pub open spec fn band_color_spec(b: RunwayBand) -> Seq<char> {
    match b {
        RunwayBand::Unknown => GRAY@,
        RunwayBand::Red => RED@,
        RunwayBand::Amber => AMBER@,
        RunwayBand::Green => GREEN@,
    }
}

/// The colour of a runway band: gray when unknown, red when nearly dry, amber when low, green
/// otherwise.
pub fn band_color(b: RunwayBand) -> (r: &'static str)
    ensures
        r@ == band_color_spec(b),
{
    match b {
        RunwayBand::Unknown => GRAY,
        RunwayBand::Red => RED,
        RunwayBand::Amber => AMBER,
        RunwayBand::Green => GREEN,
    }
}

/// Decimal text of a signed integer.
pub open spec fn int_text(n: int) -> Seq<char> {
    if n < 0 {
        seq!['-'] + decimal_seq((-n) as nat)
    } else {
        decimal_seq(n as nat)
    }
}

/// Decimal text of a signed integer.
pub fn int_decimal(n: i64) -> (r: String)
    ensures
        r@ == int_text(n as int),
{
    if n < 0 {
        let m: u64 = ((-(n + 1)) as u64) + 1;
        let mut r = String::from_str("-");
        proof {
            reveal_strlit("-");
        }
        let d = decimal(m);
        r.append(d.as_str());
        assert(r@ =~= seq!['-'] + decimal_seq((-n) as nat));
        r
    } else {
        decimal(n as u64)
    }
}

/// Compact runway text from the runway rounded to whole minutes and to whole hours: `0m` when
/// nothing is left, minutes under an hour (`45m`), whole hours under two days (`25h`), then
/// days and hours (`2d4h`, or `2d` on a whole day).
pub open spec fn rounded_hours_text(total_min: int, total_hr: int) -> Seq<char> {
    if total_min <= 0 {
        "0m"@
    } else if total_min < 60 {
        decimal_seq(total_min as nat) + "m"@
    } else if total_hr < 48 {
        int_text(total_hr) + "h"@
    } else if total_hr % 24 > 0 {
        decimal_seq((total_hr / 24) as nat) + "d"@ + decimal_seq((total_hr % 24) as nat) + "h"@
    } else {
        decimal_seq((total_hr / 24) as nat) + "d"@
    }
}

/// Two days or more of runway read as days and hours that add back up to the whole hours:
/// `d` days and `r` hours where `24 * d + r` is the runway in hours and `0 <= r < 24`, the hours
/// left out when `r` is zero.
pub proof fn lemma_days_and_hours(total_min: int, total_hr: int, d: nat, r: nat)
    requires
        total_min >= 60,
        total_hr >= 48,
        total_hr == 24 * d + r,
        r < 24,
    ensures
        rounded_hours_text(total_min, total_hr) == if r > 0 {
            decimal_seq(d) + "d"@ + decimal_seq(r) + "h"@
        } else {
            decimal_seq(d) + "d"@
        },
{
    assert(total_hr / 24 == d);
    assert(total_hr % 24 == r);
}

/// Under two days (and from one hour on), the runway reads as its whole hours.
pub proof fn lemma_whole_hours(total_min: int, total_hr: int)
    requires
        total_min >= 60,
        0 <= total_hr < 48,
    ensures
        rounded_hours_text(total_min, total_hr) == decimal_seq(total_hr as nat) + "h"@,
{
}

/// Under an hour, the runway reads as its whole minutes; nothing left reads `0m`.
pub proof fn lemma_minutes(total_min: int, total_hr: int)
    requires
        total_min < 60,
    ensures
        rounded_hours_text(total_min, total_hr) == if total_min <= 0 {
            "0m"@
        } else {
            decimal_seq(total_min as nat) + "m"@
        },
{
}

/// Format a runway given as whole minutes and as whole hours (each rounded from the same
/// duration).
pub fn fmt_rounded_hours(total_min: i64, total_hr: i64) -> (r: String)
    ensures
        r@ == rounded_hours_text(total_min as int, total_hr as int),
{
    if total_min <= 0 {
        return String::from_str("0m");
    }
    if total_min < 60 {
        let mut r = decimal(total_min as u64);
        r.append("m");
        return r;
    }
    if total_hr < 48 {
        let mut r = int_decimal(total_hr);
        r.append("h");
        return r;
    }
    let days = total_hr / 24;
    let rem = total_hr % 24;
    let mut r = decimal(days as u64);
    r.append("d");
    if rem > 0 {
        let t = decimal(rem as u64);
        r.append(t.as_str());
        r.append("h");
    }
    r
}

} // verus!
