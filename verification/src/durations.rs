//! Spans of time as people write them: `90s`, `30m`, `12h`, `7d`.

use vstd::prelude::*;
use crate::outside;
use crate::text;
use crate::text::{cat2, cat3, chars_of, copy, decimal_text, parse_unsigned, text_between};

verus! {

pub open spec fn duration_text(secs: u64) -> Seq<char> {
    if secs < 60 {
        text::decimal(secs as nat) + "s"@
    } else if secs < 3600 {
        text::decimal((secs / 60) as nat) + "m"@
    } else if secs < 86400 {
        text::decimal((secs / 3600) as nat) + "h"@
    } else {
        text::decimal((secs / 86400) as nat) + "d"@
    }
}

/// A span in its largest whole unit: `12s`, `5m`, `3h`, `2d`.
pub fn format_duration(secs: u64) -> (r: String)
    ensures
        r@ == duration_text(secs),
{
    if secs < 60 {
        cat2(decimal_text(secs).as_str(), "s")
    } else if secs < 3600 {
        cat2(decimal_text(secs / 60).as_str(), "m")
    } else if secs < 86400 {
        cat2(decimal_text(secs / 3600).as_str(), "h")
    } else {
        cat2(decimal_text(secs / 86400).as_str(), "d")
    }
}

/// The seconds from `then` to `now`, none where the clock went back.
pub open spec fn since(now: u64, then: u64) -> u64 {
    if now >= then {
        (now - then) as u64
    } else {
        0
    }
}

/// How long ago something was made.
pub fn format_age(now: u64, created_at: u64) -> (r: String)
    ensures
        r@ == duration_text(since(now, created_at)) + " ago"@,
{
    cat2(format_duration(now.saturating_sub(created_at)).as_str(), " ago")
}

pub open spec fn idle_text(now: u64, last_activity: u64) -> Seq<char> {
    if last_activity == 0 {
        "-"@
    } else {
        duration_text(since(now, last_activity))
    }
}

/// How long something has been idle; a dash where that is unknown.
pub fn format_idle(now: u64, last_activity: u64) -> (r: String)
    ensures
        r@ == idle_text(now, last_activity),
{
    if last_activity == 0 {
        return copy("-");
    }
    format_duration(now.saturating_sub(last_activity))
}

/// The number of a span and the seconds that its unit stands for. A number
/// alone counts seconds.
pub open spec fn duration_parts(s: Seq<char>) -> Option<(Seq<char>, nat)> {
    if s.len() == 0 {
        None
    } else if s.last() == 's' {
        Some((s.drop_last(), 1))
    } else if s.last() == 'm' {
        Some((s.drop_last(), 60))
    } else if s.last() == 'h' {
        Some((s.drop_last(), 3600))
    } else if s.last() == 'd' {
        Some((s.drop_last(), 86400))
    } else if text::is_digit_char(s.last()) {
        Some((s, 1))
    } else {
        None
    }
}

/// The seconds that `s` spells, where it spells a span that a machine word
/// holds.
pub open spec fn duration_secs(s: Seq<char>) -> Option<u64> {
    match duration_parts(s) {
        Some((number, unit)) => match text::unsigned(number) {
            Some(n) => if n * unit <= u64::MAX {
                Some((n * unit) as u64)
            } else {
                None
            },
            None => None,
        },
        None => None,
    }
}

/// The complaint about a text that spells no span.
pub open spec fn bad_duration(s: Seq<char>) -> Seq<char> {
    "invalid duration: "@ + outside::debug_text(s) + " (use e.g. 90s, 30m, 12h, 7d)"@
}

fn duration_error(s: &str) -> (r: String)
    ensures
        r@ == bad_duration(s@),
{
    let shown = outside::debug_string(s);
    cat3("invalid duration: ", shown.as_str(), " (use e.g. 90s, 30m, 12h, 7d)")
}

/// The seconds of a span: bare seconds, or a number with one of the units that
/// `format_duration` writes.
pub fn parse_duration(s: &str) -> (r: Result<u64, String>)
    ensures
        r is Ok <==> duration_secs(s@) is Some,
        r matches Ok(n) ==> duration_secs(s@) == Some(n),
        r matches Err(e) ==> e@ == bad_duration(s@),
{
    let v = chars_of(s);
    if v.len() == 0 {
        return Err(duration_error(s));
    }
    let last: char = v[v.len() - 1];
    let unit: u64 = if last == 's' {
        1
    } else if last == 'm' {
        60
    } else if last == 'h' {
        3600
    } else if last == 'd' {
        86400
    } else if '0' <= last && last <= '9' {
        0
    } else {
        return Err(duration_error(s));
    };
    let number = if unit == 0 {
        copy(s)
    } else {
        text_between(&v, 0, v.len() - 1)
    };
    let multiplier: u64 = if unit == 0 {
        1
    } else {
        unit
    };
    proof {
        if unit != 0 {
            assert(v@.subrange(0, v@.len() - 1) == s@.drop_last());
        }
        assert(duration_parts(s@) == Some((number@, multiplier as nat)));
        if text::unsigned(number@) is Some {
            let n = text::unsigned(number@)->0;
            assert(n > u64::MAX ==> n * multiplier > u64::MAX) by (nonlinear_arith)
                requires
                    multiplier >= 1,
            ;
        }
    }
    let n: u64 = match parse_unsigned(number.as_str(), u64::MAX) {
        Some(n) => n,
        None => {
            return Err(duration_error(s));
        },
    };
    match n.checked_mul(multiplier) {
        Some(total) => Ok(total),
        None => Err(duration_error(s)),
    }
}

/// What is printed as a span is accepted as one, and means the same up to the
/// part of a unit that the printing leaves off.
pub proof fn law_printed_duration_is_accepted(secs: u64)
    ensures
        duration_secs(duration_text(secs)) is Some,
        duration_secs(duration_text(secs))->0 <= secs,
        secs < 60 ==> duration_secs(duration_text(secs))->0 == secs,
        secs < 3600 ==> secs - duration_secs(duration_text(secs))->0 < 60,
        secs < 86400 ==> secs - duration_secs(duration_text(secs))->0 < 3600,
        secs - duration_secs(duration_text(secs))->0 < 86400,
{
    reveal_strlit("s");
    reveal_strlit("m");
    reveal_strlit("h");
    reveal_strlit("d");
    let (n, unit, c) = if secs < 60 {
        (secs, 1nat, 's')
    } else if secs < 3600 {
        (secs / 60, 60nat, 'm')
    } else if secs < 86400 {
        (secs / 3600, 3600nat, 'h')
    } else {
        (secs / 86400, 86400nat, 'd')
    };
    let d = text::decimal(n as nat);
    let t = duration_text(secs);
    text::law_decimal_round_trip(n as nat);
    assert(t == d.push(c));
    assert(t.drop_last() == d);
    assert(duration_parts(t) == Some((d, unit)));
    assert(n * unit <= secs);
}

/// A number alone counts seconds, and a unit behind it what the unit says.
pub proof fn law_units_mean_what_they_say(n: u64)
    requires
        n <= 0xffff_ffff,
    ensures
        duration_secs(text::decimal(n as nat)) == Some(n),
        duration_secs(text::decimal(n as nat).push('s')) == Some(n),
        duration_secs(text::decimal(n as nat).push('m')) == Some((n * 60) as u64),
        duration_secs(text::decimal(n as nat).push('h')) == Some((n * 60 * 60) as u64),
        duration_secs(text::decimal(n as nat).push('d')) == Some((n * 24 * 60 * 60) as u64),
        duration_secs(seq![]) is None,
{
    let d = text::decimal(n as nat);
    text::law_decimal_round_trip(n as nat);
    assert(text::is_digit_char(d.last()));
    assert(duration_parts(d) == Some((d, 1nat)));
    assert((n as nat) * 1nat == n) by (nonlinear_arith);
    assert(d.push('s').drop_last() =~= d);
    assert(d.push('m').drop_last() =~= d);
    assert(d.push('h').drop_last() =~= d);
    assert(d.push('d').drop_last() =~= d);
    assert(duration_parts(d.push('m')) == Some((d, 60nat)));
    assert(duration_parts(d.push('h')) == Some((d, 3600nat)));
    assert(duration_parts(d.push('d')) == Some((d, 86400nat)));
    assert((n as nat) * 60nat == n * 60);
    assert((n as nat) * 3600nat == n * 60 * 60);
    assert((n as nat) * 86400nat == n * 24 * 60 * 60);
}

/// An age is told in the largest unit that is full, and never as more than it
/// is.
pub proof fn law_ages_are_told_in_full_units(secs: u64)
    ensures
        ({
            let unit: u64 = if secs < 60 {
                1
            } else if secs < 60 * 60 {
                60
            } else if secs < 24 * 60 * 60 {
                3600
            } else {
                86400
            };
            &&& duration_text(secs).drop_last() == text::decimal((secs / unit) as nat)
            &&& (secs / unit) * unit <= secs < (secs / unit) * unit + unit
            &&& duration_text(secs).last() == (if unit == 1 {
                's'
            } else if unit == 60 {
                'm'
            } else if unit == 3600 {
                'h'
            } else {
                'd'
            })
        }),
{
    reveal_strlit("s");
    reveal_strlit("m");
    reveal_strlit("h");
    reveal_strlit("d");
    let u: u64 = if secs < 60 {
        1
    } else if secs < 3600 {
        60
    } else if secs < 86400 {
        3600
    } else {
        86400
    };
    let d = text::decimal((secs / u) as nat);
    let t = duration_text(secs);
    assert(t.drop_last() =~= d);
}

} // verus!
