//! `bsdkrun ci`: which verbs the engine answers itself, and how it lists the
//! recorded runs, with the dates in them computed from unix nanoseconds.

use vstd::prelude::*;

use crate::machines::{truncate, truncate_spec};
use crate::text::{
    chars_of, decimal, decimal_chars, has_prefix, i64_chars, pad_end, pad_start, push_chars,
    push_pad_end, push_pad_start, push_str, signed_decimal, starts_with, str_eq, string_of,
    zero_pad, zero_pad_chars,
};

verus! {

/// Whether `y` is a leap year of the proleptic Gregorian calendar.
pub open spec fn is_leap(y: int) -> bool {
    y % 4 == 0 && (y % 100 != 0 || y % 400 == 0)
}

/// The number of days of month `m` (1 to 12) of year `y`.
pub open spec fn days_in_month(y: int, m: int) -> int {
    if m == 2 {
        if is_leap(y) {
            29
        } else {
            28
        }
    } else if m == 4 || m == 6 || m == 9 || m == 11 {
        30
    } else {
        31
    }
}

/// A real calendar date.
pub open spec fn valid_date(y: int, m: int, d: int) -> bool {
    1 <= m <= 12 && 1 <= d <= days_in_month(y, m)
}

/// Months counted from March: March is 0, February is 11.
pub open spec fn march_month(m: int) -> int {
    if m > 2 {
        m - 3
    } else {
        m + 9
    }
}

/// Days from 1 March to the first day of March-based month `mp`.
pub open spec fn month_start(mp: int) -> int {
    (153 * mp + 2) / 5
}

/// Days from the start of a 400-year era (1 March of a year divisible by
/// 400) to 1 March of its year `yoe`.
pub open spec fn year_start(yoe: int) -> int {
    365 * yoe + yoe / 4 - yoe / 100
}

/// The day number of a date: days since 1970-01-01, negative before it.
pub open spec fn days_from_civil(y: int, m: int, d: int) -> int {
    let y2 = if m <= 2 {
        y - 1
    } else {
        y
    };
    let era = y2 / 400;
    let yoe = y2 - era * 400;
    era * 146097 + year_start(yoe) + month_start(march_month(m)) + d - 1 - 719468
}

/// The March-based year of an era that holds its day `doe`.
pub open spec fn year_of_era(doe: int) -> int {
    (doe - doe / 1460 + doe / 36524 - doe / 146096) / 365
}

/// The date of day number `z`, as (year, month, day).
pub open spec fn civil_from_days(z: int) -> (int, int, int) {
    let zz = z + 719468;
    let era = zz / 146097;
    let doe = zz % 146097;
    let yoe = year_of_era(doe);
    let doy = doe - year_start(yoe);
    let mp = (5 * doy + 2) / 153;
    let d = doy - month_start(mp) + 1;
    let mo = if mp < 10 {
        mp + 3
    } else {
        mp - 9
    };
    (if mo <= 2 {
        era * 400 + yoe + 1
    } else {
        era * 400 + yoe
    }, mo, d)
}

/// Year `yoe` of an era has 366 days exactly when the February at its end
/// falls in a leap year.
proof fn lemma_year_of_era(doe: int)
    requires
        0 <= doe <= 146096,
    ensures
        0 <= year_of_era(doe) <= 399,
        year_start(year_of_era(doe)) <= doe,
        doe - year_start(year_of_era(doe)) < 365 + (if is_leap(year_of_era(doe) + 1) {
            1int
        } else {
            0int
        }),
{
    let yoe = year_of_era(doe);
    assert(0 <= yoe <= 399);
    assert(year_start(yoe) <= doe);
    assert(doe - year_start(yoe) < 365 + (if is_leap(yoe + 1) {
        1int
    } else {
        0int
    }));
}

/// Within a March-based year of 365 (or, with `leap`, 366) days, day `doy`
/// falls in month `(5 * doy + 2) / 153`, on a day that month has.
proof fn lemma_month_of_year(doy: int, leap: bool)
    requires
        0 <= doy < 365 + (if leap {
            1int
        } else {
            0int
        }),
    ensures
        0 <= (5 * doy + 2) / 153 <= 11,
        month_start((5 * doy + 2) / 153) <= doy,
        ({
            let mp = (5 * doy + 2) / 153;
            let d = doy - month_start(mp) + 1;
            let len = if mp == 11 {
                if leap {
                    29int
                } else {
                    28int
                }
            } else if mp == 1 || mp == 3 || mp == 6 || mp == 8 {
                30int
            } else {
                31int
            };
            d <= len
        }),
{
}

/// Every day number names a real date, and that date's day number is the
/// one it came from.
pub proof fn day_numbers_name_dates(z: int)
    ensures
        valid_date(civil_from_days(z).0, civil_from_days(z).1, civil_from_days(z).2),
        days_from_civil(civil_from_days(z).0, civil_from_days(z).1, civil_from_days(z).2) == z,
{
    let zz = z + 719468;
    let era = zz / 146097;
    let doe = zz % 146097;
    let yoe = year_of_era(doe);
    lemma_year_of_era(doe);
    let doy = doe - year_start(yoe);
    let leap = is_leap(yoe + 1);
    lemma_month_of_year(doy, leap);
    let (y, mo, d) = civil_from_days(z);
    assert(is_leap(era * 400 + yoe + 1) == leap);
    let y2 = if mo <= 2 {
        y - 1
    } else {
        y
    };
    assert(y2 == era * 400 + yoe);
    assert(y2 / 400 == era);
    assert(march_month(mo) == (5 * doy + 2) / 153);
}

/// The day after a date.
pub open spec fn next_date(y: int, m: int, d: int) -> (int, int, int) {
    if d < days_in_month(y, m) {
        (y, m, d + 1)
    } else if m < 12 {
        (y, m + 1, 1)
    } else {
        (y + 1, 1, 1)
    }
}

/// Day numbers count calendar days: 1970-01-01 is day 0, and the day after
/// a date has the next day number.
#[verifier::spinoff_prover]
#[verifier::rlimit(40)]
pub proof fn day_numbers_count_days(y: int, m: int, d: int)
    requires
        valid_date(y, m, d),
    ensures
        days_from_civil(1970, 1, 1) == 0,
        valid_date(next_date(y, m, d).0, next_date(y, m, d).1, next_date(y, m, d).2),
        days_from_civil(next_date(y, m, d).0, next_date(y, m, d).1, next_date(y, m, d).2)
            == days_from_civil(y, m, d) + 1,
{
    let y2 = if m <= 2 {
        y - 1
    } else {
        y
    };
    let era = y2 / 400;
    let yoe = y2 - era * 400;
    if d == days_in_month(y, m) && m == 2 {
        assert(is_leap(y) == is_leap(yoe + 1));
        assert(y == era * 400 + yoe + 1);
        if yoe == 399 {
            assert(y / 400 == era + 1);
        } else {
            assert(y / 400 == era);
        }
    }
}

/// A day of year `yoe` of an era (0 to 399) is found in that year again.
proof fn lemma_year_of_era_inverse(yoe: int, doy: int)
    requires
        0 <= yoe <= 399,
        0 <= doy < 365 + (if is_leap(yoe + 1) {
            1int
        } else {
            0int
        }),
    ensures
        year_of_era(year_start(yoe) + doy) == yoe,
{
    let doe = year_start(yoe) + doy;
    lemma_year_of_era(doe);
    let k = year_of_era(doe);
    if k < yoe {
        assert(year_start(k + 1) <= year_start(yoe));
        assert(false);
    } else if k > yoe {
        assert(year_start(yoe + 1) <= year_start(k));
        assert(false);
    }
}

/// Day `d` of March-based month `mp` is found in that month again.
proof fn lemma_month_of_year_inverse(mp: int, d: int)
    requires
        0 <= mp <= 11,
        1 <= d <= (if mp == 11 {
            29int
        } else if mp == 1 || mp == 3 || mp == 6 || mp == 8 {
            30int
        } else {
            31int
        }),
    ensures
        (5 * (month_start(mp) + d - 1) + 2) / 153 == mp,
{
}

/// Every date is the date of its own day number.
#[verifier::spinoff_prover]
#[verifier::rlimit(40)]
pub proof fn dates_name_their_day_numbers(y: int, m: int, d: int)
    requires
        valid_date(y, m, d),
    ensures
        civil_from_days(days_from_civil(y, m, d)) == (y, m, d),
{
    let y2 = if m <= 2 {
        y - 1
    } else {
        y
    };
    let era = y2 / 400;
    let yoe = y2 - era * 400;
    let mp = march_month(m);
    let doy = month_start(mp) + d - 1;
    let leap = is_leap(yoe + 1);
    assert(m <= 2 ==> is_leap(y) == leap);
    assert(0 <= doy < 365 + (if leap {
        1int
    } else {
        0int
    }));
    lemma_year_of_era_inverse(yoe, doy);
    lemma_month_of_year_inverse(mp, d);
    let doe = year_start(yoe) + doy;
    let zz = days_from_civil(y, m, d) + 719468;
    assert(zz == era * 146097 + doe);
    assert(zz / 146097 == era);
    assert(zz % 146097 == doe);
}

/// `a / b` as Rust divides integers: rounding toward zero.
pub open spec fn trunc_div(a: int, b: int) -> int {
    if a >= 0 {
        a / b
    } else {
        -((-a) / b)
    }
}

/// `n` in decimal, padded with zeros to `width` digits.
pub open spec fn padded(n: int, width: nat) -> Seq<char> {
    zero_pad(decimal(n as nat), width)
}

/// The UTC date and time of a moment given in unix nanoseconds, to the
/// second: `YYYY-MM-DD hh:mm:ss`.
pub open spec fn date_stamp(ns: int) -> Seq<char> {
    let secs = trunc_div(ns, 1_000_000_000);
    let date = civil_from_days(secs / 86400);
    let rem = secs % 86400;
    padded(date.0, 4) + "-"@ + padded(date.1, 2) + "-"@ + padded(date.2, 2) + " "@ + padded(
        rem / 3600,
        2,
    ) + ":"@ + padded(rem % 3600 / 60, 2) + ":"@ + padded(rem % 60, 2)
}

/// Append `n` in decimal, padded with zeros to `width` digits.
fn push_padded(out: &mut Vec<char>, n: u64, width: usize)
    ensures
        final(out)@ == old(out)@ + padded(n as int, width as nat),
{
    let digits = decimal_chars(n);
    let p = zero_pad_chars(&digits, width);
    push_chars(out, &p);
}

/// A human date from unix nanoseconds, to the second, in UTC.
pub fn chrono_ish(ns: i64) -> (r: String)
    ensures
        r@ == date_stamp(ns as int),
{
    let secs: i64 = if ns >= 0 {
        ns / 1_000_000_000
    } else {
        let mag: u64 = if ns == i64::MIN {
            0x8000_0000_0000_0000
        } else {
            (-ns) as u64
        };
        -((mag / 1_000_000_000) as i64)
    };
    assert(secs == trunc_div(ns as int, 1_000_000_000));
    let days: i64 = secs.checked_div_euclid(86_400).unwrap();
    let rem: i64 = secs.checked_rem_euclid(86_400).unwrap();
    let zz: u64 = (days + 719_468) as u64;
    let era: u64 = zz / 146_097;
    let doe: u64 = zz % 146_097;
    let yoe: u64 = (doe - doe / 1460 + doe / 36_524 - doe / 146_096) / 365;
    proof {
        lemma_year_of_era(doe as int);
        lemma_month_of_year((doe - year_start(yoe as int)) as int, is_leap(yoe + 1));
    }
    let doy: u64 = doe - (365 * yoe + yoe / 4 - yoe / 100);
    let mp: u64 = (5 * doy + 2) / 153;
    let d: u64 = doy - (153 * mp + 2) / 5 + 1;
    let mo: u64 = if mp < 10 {
        mp + 3
    } else {
        mp - 9
    };
    let y: u64 = if mo <= 2 {
        yoe + era * 400 + 1
    } else {
        yoe + era * 400
    };
    let ghost date = civil_from_days(secs as int / 86400);
    assert(date == (y as int, mo as int, d as int));
    let r: u64 = rem as u64;
    let mut out: Vec<char> = Vec::new();
    push_padded(&mut out, y, 4);
    push_str(&mut out, "-");
    push_padded(&mut out, mo, 2);
    push_str(&mut out, "-");
    push_padded(&mut out, d, 2);
    push_str(&mut out, " ");
    push_padded(&mut out, r / 3600, 2);
    push_str(&mut out, ":");
    push_padded(&mut out, r % 3600 / 60, 2);
    push_str(&mut out, ":");
    push_padded(&mut out, r % 60, 2);
    proof {
        reveal_strlit("-");
        reveal_strlit(" ");
        reveal_strlit(":");
    }
    string_of(&out)
}

/// What `bsdkrun ci` does with its arguments: three verbs read the engine's
/// own records, everything else goes to the workflow runner.
#[derive(Debug, Clone, PartialEq, Eq)]
pub enum CiVerb {
    /// `__record-trace`: store the span batch read from stdin.
    RecordTrace,
    /// `traces`: list the recorded runs.
    Traces { json: bool },
    /// `spans <trace>`: list one run's spans.
    Spans { trace_id: String, json: bool },
    /// Anything else: hand the arguments to the runner.
    PassThrough,
}

/// The error of `ci spans` without a trace id.
pub const SPANS_NEED_TRACE: &'static str = "`ci spans` needs a trace id (from `ci traces`)";

/// Whether one of the arguments is exactly `--json`.
pub open spec fn wants_json(args: Seq<String>) -> bool {
    exists|i: int| 0 <= i < args.len() && args[i]@ == "--json"@
}

/// The verb `args` asks for.
pub open spec fn ci_verb_spec(args: Seq<String>) -> Result<CiVerb, Seq<char>> {
    if args.len() == 0 {
        Ok(CiVerb::PassThrough)
    } else if args[0]@ == "__record-trace"@ {
        Ok(CiVerb::RecordTrace)
    } else if args[0]@ == "traces"@ {
        Ok(CiVerb::Traces { json: wants_json(args) })
    } else if args[0]@ == "spans"@ {
        if args.len() > 1 && !starts_with(args[1]@, "--"@) {
            Ok(CiVerb::Spans { trace_id: args[1], json: wants_json(args) })
        } else {
            Err(SPANS_NEED_TRACE@)
        }
    } else {
        Ok(CiVerb::PassThrough)
    }
}

/// Whether one of `args` is `--json`.
fn has_json_flag(args: &Vec<String>) -> (r: bool)
    ensures
        r == wants_json(args@),
{
    let mut i: usize = 0;
    while i < args.len()
        invariant
            i <= args.len(),
            forall|j: int| 0 <= j < i ==> args@[j]@ != "--json"@,
        decreases args.len() - i,
    {
        if str_eq(args[i].as_str(), "--json") {
            return true;
        }
        i += 1;
    }
    false
}

/// Which verb `bsdkrun ci` was given; a `spans` without a trace id is refused.
pub fn ci_verb(args: &Vec<String>) -> (r: Result<CiVerb, String>)
    ensures
        match (r, ci_verb_spec(args@)) {
            (Ok(v), Ok(w)) => v == w,
            (Err(e), Err(f)) => e@ == f,
            _ => false,
        },
{
    if args.len() == 0 {
        return Ok(CiVerb::PassThrough);
    }
    let first = args[0].as_str();
    if str_eq(first, "__record-trace") {
        Ok(CiVerb::RecordTrace)
    } else if str_eq(first, "traces") {
        Ok(CiVerb::Traces { json: has_json_flag(args) })
    } else if str_eq(first, "spans") {
        if args.len() > 1 && !has_prefix(args[1].as_str(), "--") {
            Ok(CiVerb::Spans { trace_id: args[1].clone(), json: has_json_flag(args) })
        } else {
            Err(String::from_str(SPANS_NEED_TRACE))
        }
    } else {
        Ok(CiVerb::PassThrough)
    }
}

/// What `ci traces` says when no run was recorded.
pub const NO_TRACES: &'static str = "No CI runs recorded yet. `bsdkrun ci run` records one per run.";

/// One recorded run of a workflow.
#[derive(Debug, Clone)]
pub struct CiTrace {
    pub trace_id: String,
    pub workflow: String,
    pub ok: bool,
    pub start_ns: i64,
    pub end_ns: i64,
}

/// One span of a recorded run.
#[derive(Debug, Clone)]
pub struct CiSpan {
    pub name: String,
    pub ok: bool,
    pub start_ns: i64,
    pub end_ns: i64,
    pub error: Option<String>,
}

/// `ok` or `failed`.
pub open spec fn outcome(ok: bool) -> Seq<char> {
    if ok {
        "ok"@
    } else {
        "failed"@
    }
}

/// Whole milliseconds between two nanosecond stamps, rounded toward zero.
pub open spec fn millis_between(start_ns: int, end_ns: int) -> int {
    trunc_div(end_ns - start_ns, 1_000_000)
}

/// The header of the run listing.
pub open spec fn traces_header_spec() -> Seq<char> {
    pad_end("TRACE"@, 34) + "  "@ + pad_end("WORKFLOW"@, 22) + "  "@ + pad_end("STATUS"@, 8) + "  "@
        + pad_end("DURATION"@, 9) + "  "@ + "STARTED"@
}

/// One line of the run listing.
pub open spec fn trace_row_spec(t: CiTrace) -> Seq<char> {
    pad_end(t.trace_id@, 34) + "  "@ + pad_end(truncate_spec(t.workflow@, 22), 22) + "  "@ + pad_end(
        outcome(t.ok),
        8,
    ) + "  "@ + pad_start(signed_decimal(millis_between(t.start_ns as int, t.end_ns as int)), 7)
        + "ms  "@ + date_stamp(t.start_ns as int)
}

/// One line of a run's span listing.
pub open spec fn span_row_spec(sp: CiSpan) -> Seq<char> {
    pad_end(truncate_spec(sp.name@, 30), 30) + "  "@ + pad_end(outcome(sp.ok), 8) + "  "@ + pad_start(
        signed_decimal(millis_between(sp.start_ns as int, sp.end_ns as int)),
        7,
    ) + "ms"@ + match sp.error {
        Some(e) => "  "@ + e@,
        None => Seq::<char>::empty(),
    }
}

/// Append `ok` or `failed`, padded to 8.
fn push_outcome(out: &mut Vec<char>, ok: bool)
    ensures
        final(out)@ == old(out)@ + pad_end(outcome(ok), 8),
{
    let word = if ok {
        chars_of("ok")
    } else {
        chars_of("failed")
    };
    push_pad_end(out, &word, 8);
}

/// Append the milliseconds between two stamps, right-aligned to 7.
fn push_millis(out: &mut Vec<char>, start_ns: i64, end_ns: i64)
    requires
        i64::MIN <= end_ns - start_ns <= i64::MAX,
    ensures
        final(out)@ == old(out)@ + pad_start(signed_decimal(millis_between(start_ns as int, end_ns as int)), 7),
{
    let span: i64 = end_ns - start_ns;
    let ms: i64 = if span >= 0 {
        span / 1_000_000
    } else {
        let mag: u64 = if span == i64::MIN {
            0x8000_0000_0000_0000
        } else {
            (-span) as u64
        };
        -((mag / 1_000_000) as i64)
    };
    let text = i64_chars(ms);
    push_pad_start(out, &text, 7);
}

/// The header of the run listing.
pub fn traces_header() -> (r: String)
    ensures
        r@ == traces_header_spec(),
{
    let mut out: Vec<char> = Vec::new();
    push_pad_end(&mut out, &chars_of("TRACE"), 34);
    push_str(&mut out, "  ");
    push_pad_end(&mut out, &chars_of("WORKFLOW"), 22);
    push_str(&mut out, "  ");
    push_pad_end(&mut out, &chars_of("STATUS"), 8);
    push_str(&mut out, "  ");
    push_pad_end(&mut out, &chars_of("DURATION"), 9);
    push_str(&mut out, "  ");
    push_str(&mut out, "STARTED");
    string_of(&out)
}

/// One line of `ci traces`: id, workflow, outcome, duration and start.
pub fn trace_row(t: &CiTrace) -> (r: String)
    requires
        i64::MIN <= t.end_ns - t.start_ns <= i64::MAX,
    ensures
        r@ == trace_row_spec(*t),
{
    let mut out: Vec<char> = Vec::new();
    push_pad_end(&mut out, &chars_of(t.trace_id.as_str()), 34);
    push_str(&mut out, "  ");
    let wf = truncate(t.workflow.as_str(), 22);
    push_pad_end(&mut out, &chars_of(wf.as_str()), 22);
    push_str(&mut out, "  ");
    push_outcome(&mut out, t.ok);
    push_str(&mut out, "  ");
    push_millis(&mut out, t.start_ns, t.end_ns);
    push_str(&mut out, "ms  ");
    let when = chrono_ish(t.start_ns);
    push_str(&mut out, when.as_str());
    string_of(&out)
}

/// One line of `ci spans`: name, outcome, duration and the error, if any.
pub fn span_row(sp: &CiSpan) -> (r: String)
    requires
        i64::MIN <= sp.end_ns - sp.start_ns <= i64::MAX,
    ensures
        r@ == span_row_spec(*sp),
{
    let mut out: Vec<char> = Vec::new();
    let name = truncate(sp.name.as_str(), 30);
    push_pad_end(&mut out, &chars_of(name.as_str()), 30);
    push_str(&mut out, "  ");
    push_outcome(&mut out, sp.ok);
    push_str(&mut out, "  ");
    push_millis(&mut out, sp.start_ns, sp.end_ns);
    push_str(&mut out, "ms");
    match &sp.error {
        Some(e) => {
            push_str(&mut out, "  ");
            push_str(&mut out, e.as_str());
        },
        None => {},
    }
    string_of(&out)
}

/// A run's row ends with the time it started: its STARTED column is the
/// date stamp of `start_ns`, after the duration in milliseconds.
pub proof fn trace_rows_end_with_the_start(t: CiTrace)
    ensures
        crate::text::ends_with(trace_row_spec(t), "ms  "@ + date_stamp(t.start_ns as int)),
{
    let tail = "ms  "@ + date_stamp(t.start_ns as int);
    let row = trace_row_spec(t);
    let head = pad_end(t.trace_id@, 34) + "  "@ + pad_end(truncate_spec(t.workflow@, 22), 22) + "  "@
        + pad_end(outcome(t.ok), 8) + "  "@ + pad_start(
        signed_decimal(millis_between(t.start_ns as int, t.end_ns as int)),
        7,
    );
    assert(row =~= head + tail);
    assert(row.subrange(row.len() - tail.len(), row.len() as int) =~= tail);
}

/// Where a run ends changes only its duration: two runs that differ in
/// `end_ns` alone, but last the same whole milliseconds, list the same.
pub proof fn trace_rows_depend_on_the_end_only_through_the_duration(t1: CiTrace, t2: CiTrace)
    requires
        t1.trace_id == t2.trace_id,
        t1.workflow == t2.workflow,
        t1.ok == t2.ok,
        t1.start_ns == t2.start_ns,
        millis_between(t1.start_ns as int, t1.end_ns as int) == millis_between(t2.start_ns as int, t2.end_ns as int),
    ensures
        trace_row_spec(t1) == trace_row_spec(t2),
{
}

} // verus!
