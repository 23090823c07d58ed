//! The date-time normaliser.
//!
//! Header date strings found in real mailboxes stray from the nominal
//! format in many distinct ways.  The normaliser repairs the known
//! malformations step by step — strip a stray weekday marker, rewrite known
//! bad offset spellings, collapse the string into at most five tokens,
//! rewrite named zones as numeric offsets, supply a default zone — and then
//! tries a fixed, ordered list of date patterns, returning the first parse
//! that succeeds.  Failing every pattern is an expected outcome for a
//! malformed date and yields `None`, never an error.

use vstd::prelude::*;
use crate::text::{
    chars_eq_str,
    chars_of,
    contains,
    contains_spec,
    join_spec,
    join_tokens,
    map_char,
    map_char_spec,
    replace_all,
    replace_all_spec,
    split_tokens,
    starts_with,
    starts_with_spec,
    string_of,
    sub_vec,
    take_tokens,
    tokens_spec,
    trim,
    trim_spec,
    views_of,
};
use crate::timestamp::Timestamp;

verus! {

/// The date-time that chrono's `DateTime::parse_from_str` reads out of `s`
/// with the strftime pattern `pattern`, if any; its value depends on the two
/// strings alone.
pub uninterp spec fn parsed_datetime(s: Seq<char>, pattern: Seq<char>) -> Option<Timestamp>;

/// Relies on chrono's `DateTime::parse_from_str`: the result is a function
/// of the two argument strings alone.  On success, the epoch seconds come
/// from `DateTime::timestamp` and the offset from
/// `FixedOffset::local_minus_utc` (seconds east of UTC).
#[verifier::external_body]
fn parse_with_pattern(s: &str, pattern: &str) -> (r: Option<Timestamp>)
    ensures
        r == parsed_datetime(s@, pattern@),
{
    match chrono::DateTime::parse_from_str(s, pattern) {
        Ok(dt) => Some(
            Timestamp {
                utc_seconds: dt.timestamp(),
                offset_seconds: dt.offset().local_minus_utc(),
            },
        ),
        Err(_) => None,
    }
}

/// A leading weekday marker removed: either any three characters followed
/// by a comma and a space, a bare known three-letter day name with a
/// trailing space, or a stray leading comma-space; the remainder is
/// trimmed.
pub open spec fn spec_strip_weekday(s: Seq<char>) -> Seq<char> {
    if s.len() >= 5 && s[3] == ',' && s[4] == ' ' {
        trim_spec(s.skip(5))
    } else if starts_with_spec(s, "Wed "@) || starts_with_spec(s, "Sun "@) || starts_with_spec(
        s,
        "Sat "@,
    ) {
        trim_spec(s.skip(4))
    } else if starts_with_spec(s, ", "@) {
        trim_spec(s.skip(2))
    } else {
        s
    }
}

/// The ordered table of literal corrections for known malformed offset and
/// zone spellings, applied one after the other; new observed malformations
/// are appended here.
pub open spec fn spec_fix_offsets(s: Seq<char>) -> Seq<char> {
    let a = replace_all_spec(s, "GMT+00:00"@, "+0000"@);
    let b = replace_all_spec(a, "-0060"@, "-0100"@);
    let c = replace_all_spec(b, "-05-30"@, "-0530"@);
    replace_all_spec(c, " t0100"@, " +0100"@)
}

/// In the time token, `.` used as a field separator becomes `:`.
pub open spec fn spec_fix_time_token(ts: Seq<Seq<char>>) -> Seq<Seq<char>> {
    if ts.len() > 3 {
        ts.update(3, map_char_spec(ts[3], '.', ':'))
    } else {
        ts
    }
}

/// A named zone token mapped to its fixed numeric offset; tokens that name
/// no known zone stay as they are.  The two context-dependent rows look at
/// the original, unrepaired string.
pub open spec fn spec_zone_token(t: Seq<char>, orig: Seq<char>) -> Seq<char> {
    if t == "CET"@ {
        "+0100"@
    } else if t == "UT"@ || t == "GMT"@ || t == "UTC"@ {
        "+0000"@
    } else if t == "CEST"@ {
        "+0200"@
    } else if t == "CST"@ {
        "-0600"@
    } else if t == "PDT"@ {
        "-0700"@
    } else if t == "PST"@ {
        "-0800"@
    } else if t == "EST"@ {
        "-0500"@
    } else if t == "Pacific"@ && contains_spec(orig, "Pacific Standard Time"@) {
        "-0800"@
    } else if t == "%z"@ && contains_spec(orig, "(PDT)"@) {
        "-0700"@
    } else {
        t
    }
}

/// The zone step: with five tokens, the fifth is mapped through the zone
/// table; with four tokens whose last reads `UTC`, that token becomes the
/// zone `+0000`.
pub open spec fn spec_apply_zone(ts: Seq<Seq<char>>, orig: Seq<char>) -> Seq<Seq<char>> {
    if ts.len() == 5 {
        ts.update(4, spec_zone_token(ts[4], orig))
    } else if ts.len() == 4 && ts[3] == "UTC"@ {
        ts.update(3, "+0000"@)
    } else {
        ts
    }
}

/// A default zone of `+0000` appended when fewer than five tokens remain.
pub open spec fn spec_pad_zone(ts: Seq<Seq<char>>) -> Seq<Seq<char>> {
    if ts.len() < 5 {
        ts.push("+0000"@)
    } else {
        ts
    }
}

/// The repaired date string: weekday stripped, offsets corrected, at most
/// five tokens kept, time and zone tokens rewritten, rejoined with single
/// spaces.
pub open spec fn spec_prepared(s: Seq<char>) -> Seq<char> {
    let ts = tokens_spec(spec_fix_offsets(spec_strip_weekday(s)));
    let ts5 = if ts.len() > 5 {
        ts.take(5)
    } else {
        ts
    };
    join_spec(spec_pad_zone(spec_apply_zone(spec_fix_time_token(ts5), s)))
}

/// The ordered candidate patterns, tried until one parses: day month year
/// time zone with and without seconds, the two-digit-day spellings, and a
/// log-style ordering with the year last.
pub open spec fn spec_try_patterns(s: Seq<char>) -> Option<Timestamp> {
    if parsed_datetime(s, "%-e %b %Y %H:%M:%S %z"@) is Some {
        parsed_datetime(s, "%-e %b %Y %H:%M:%S %z"@)
    } else if parsed_datetime(s, "%-e %b %Y %H:%M %z"@) is Some {
        parsed_datetime(s, "%-e %b %Y %H:%M %z"@)
    } else if parsed_datetime(s, "%e %b %Y %H:%M:%S %z"@) is Some {
        parsed_datetime(s, "%e %b %Y %H:%M:%S %z"@)
    } else if parsed_datetime(s, "%e %b %Y %H:%M"@) is Some {
        parsed_datetime(s, "%e %b %Y %H:%M"@)
    } else {
        parsed_datetime(s, "%b %d %H:%M:%S %z %Y"@)
    }
}

/// What the normaliser makes of a raw date string.
pub open spec fn spec_normalize(s: Seq<char>) -> Option<Timestamp> {
    spec_try_patterns(spec_prepared(s))
}

fn strip_weekday(v: &Vec<char>) -> (r: Vec<char>)
    ensures
        r@ == spec_strip_weekday(v@),
{
    let n = v.len();
    if n >= 5 && v[3] == ',' && v[4] == ' ' {
        let t = sub_vec(v, 5, n);
        proof {
            assert(t@ =~= v@.skip(5));
        }
        trim(&t)
    } else {
        let wed = chars_of("Wed ");
        let sun = chars_of("Sun ");
        let sat = chars_of("Sat ");
        if starts_with(v, &wed) || starts_with(v, &sun) || starts_with(v, &sat) {
            proof {
                reveal_strlit("Wed ");
                reveal_strlit("Sun ");
                reveal_strlit("Sat ");
            }
            let t = sub_vec(v, 4, n);
            proof {
                assert(t@ =~= v@.skip(4));
            }
            trim(&t)
        } else {
            let comma = chars_of(", ");
            if starts_with(v, &comma) {
                proof {
                    reveal_strlit(", ");
                }
                let t = sub_vec(v, 2, n);
                proof {
                    assert(t@ =~= v@.skip(2));
                }
                trim(&t)
            } else {
                sub_vec(v, 0, n)
            }
        }
    }
}

fn fix_offsets(v: &Vec<char>) -> (r: Vec<char>)
    ensures
        r@ == spec_fix_offsets(v@),
{
    proof {
        reveal_strlit("GMT+00:00");
        reveal_strlit("-0060");
        reveal_strlit("-05-30");
        reveal_strlit(" t0100");
    }
    let a = replace_all(v, &chars_of("GMT+00:00"), &chars_of("+0000"));
    let b = replace_all(&a, &chars_of("-0060"), &chars_of("-0100"));
    let c = replace_all(&b, &chars_of("-05-30"), &chars_of("-0530"));
    replace_all(&c, &chars_of(" t0100"), &chars_of(" +0100"))
}

fn fix_time_token(ts: Vec<Vec<char>>) -> (r: Vec<Vec<char>>)
    ensures
        views_of(r@) == spec_fix_time_token(views_of(ts@)),
{
    let mut ts = ts;
    if ts.len() > 3 {
        let t = map_char(&ts[3], '.', ':');
        let ghost before = ts@;
        ts.set(3, t);
        proof {
            assert(views_of(ts@) =~= views_of(before).update(
                3,
                map_char_spec(views_of(before)[3], '.', ':'),
            ));
        }
    }
    ts
}

fn zone_token(t: &Vec<char>, orig: &Vec<char>) -> (r: Vec<char>)
    ensures
        r@ == spec_zone_token(t@, orig@),
{
    if chars_eq_str(t, "CET") {
        chars_of("+0100")
    } else if chars_eq_str(t, "UT") || chars_eq_str(t, "GMT") || chars_eq_str(t, "UTC") {
        chars_of("+0000")
    } else if chars_eq_str(t, "CEST") {
        chars_of("+0200")
    } else if chars_eq_str(t, "CST") {
        chars_of("-0600")
    } else if chars_eq_str(t, "PDT") {
        chars_of("-0700")
    } else if chars_eq_str(t, "PST") {
        chars_of("-0800")
    } else if chars_eq_str(t, "EST") {
        chars_of("-0500")
    } else if chars_eq_str(t, "Pacific") && contains(orig, &chars_of("Pacific Standard Time")) {
        chars_of("-0800")
    } else if chars_eq_str(t, "%z") && contains(orig, &chars_of("(PDT)")) {
        chars_of("-0700")
    } else {
        sub_vec(t, 0, t.len())
    }
}

fn apply_zone(ts: Vec<Vec<char>>, orig: &Vec<char>) -> (r: Vec<Vec<char>>)
    ensures
        views_of(r@) == spec_apply_zone(views_of(ts@), orig@),
{
    let mut ts = ts;
    if ts.len() == 5 {
        let z = zone_token(&ts[4], orig);
        let ghost before = ts@;
        ts.set(4, z);
        proof {
            assert(views_of(ts@) =~= views_of(before).update(
                4,
                spec_zone_token(views_of(before)[4], orig@),
            ));
        }
    } else if ts.len() == 4 && chars_eq_str(&ts[3], "UTC") {
        let z = chars_of("+0000");
        let ghost before = ts@;
        ts.set(3, z);
        proof {
            assert(views_of(ts@) =~= views_of(before).update(3, "+0000"@));
        }
    }
    ts
}

fn pad_zone(ts: Vec<Vec<char>>) -> (r: Vec<Vec<char>>)
    ensures
        views_of(r@) == spec_pad_zone(views_of(ts@)),
{
    let mut ts = ts;
    if ts.len() < 5 {
        let ghost before = ts@;
        ts.push(chars_of("+0000"));
        proof {
            assert(views_of(ts@) =~= views_of(before).push("+0000"@));
        }
    }
    ts
}

fn try_patterns(s: &str) -> (r: Option<Timestamp>)
    ensures
        r == spec_try_patterns(s@),
{
    let p = parse_with_pattern(s, "%-e %b %Y %H:%M:%S %z");
    if p.is_some() {
        return p;
    }
    let p = parse_with_pattern(s, "%-e %b %Y %H:%M %z");
    if p.is_some() {
        return p;
    }
    let p = parse_with_pattern(s, "%e %b %Y %H:%M:%S %z");
    if p.is_some() {
        return p;
    }
    let p = parse_with_pattern(s, "%e %b %Y %H:%M");
    if p.is_some() {
        return p;
    }
    parse_with_pattern(s, "%b %d %H:%M:%S %z %Y")
}

/// Normalises an arbitrary free-form date string into a timestamp with
/// offset, or `None` when the string fits none of the candidate patterns
/// even after every known repair; the latter is an expected outcome for
/// malformed input.
pub fn fuzzy_datetime_parser(orig: &str) -> (r: Option<Timestamp>)
    ensures
        r == spec_normalize(orig@),
{
    let ochars = chars_of(orig);
    let stripped = strip_weekday(&ochars);
    let fixed = fix_offsets(&stripped);
    let ts = split_tokens(&fixed);
    let ts = take_tokens(ts, 5);
    let ts = fix_time_token(ts);
    let ts = apply_zone(ts, &ochars);
    let ts = pad_zone(ts);
    let joined = join_tokens(&ts);
    let prepared = string_of(&joined);
    proof {
        let spec_ts = tokens_spec(spec_fix_offsets(spec_strip_weekday(orig@)));
        let spec_ts5 = if spec_ts.len() > 5 {
            spec_ts.take(5)
        } else {
            spec_ts
        };
        assert(views_of(ts@) == spec_pad_zone(
            spec_apply_zone(spec_fix_time_token(spec_ts5), orig@),
        ));
        assert(prepared@ == spec_prepared(orig@));
    }
    try_patterns(prepared.as_str())
}

} // verus!
