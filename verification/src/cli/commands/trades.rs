//! Trade history command arguments and the date range they select. Instants
//! are seconds since the Unix epoch.

use vstd::prelude::*;
use crate::address_book::sync::{utc_seconds_valid, seconds_representable};
use crate::auth_env::now_seconds;

verus! {

#[derive(Debug)]
pub struct TradesArgs {
    /// Number of trades to show
    pub limit: usize,
    /// Show trades from the last N days
    pub days: Option<i64>,
    /// Start date (YYYY-MM-DD)
    pub from: Option<String>,
    /// End date (YYYY-MM-DD)
    pub to: Option<String>,
    /// Export trades to CSV
    pub export: bool,
    /// CSV export filename
    pub output: String,
}

/// Why no date range could be made.
#[derive(Debug)]
pub enum TradesError {
    /// A date that does not read as `YYYY-MM-DD`.
    InvalidDate { text: String },
    /// A day count that reaches back beyond the instants that can be
    /// represented.
    DaysOutOfRange { days: i64 },
}

/// Midnight UTC of the day that `text` names in `format`, in seconds, where
/// chrono's `NaiveDate::parse_from_str` reads it.
pub uninterp spec fn parsed_date_seconds(text: Seq<char>, format: Seq<char>) -> Option<i64>;

/// Reads `date_str` as a date in `format` with `chrono::NaiveDate::parse_from_str`
/// and gives midnight UTC of that day as a Unix timestamp, or `None` where
/// chrono refuses the text. The result is named by `parsed_date_seconds`.
#[verifier::external_body]
fn parse_date_in(date_str: &str, format: &str) -> (r: Option<i64>)
    ensures
        r == parsed_date_seconds(date_str@, format@),
{
    match chrono::NaiveDate::parse_from_str(date_str, format) {
        Ok(d) => match d.and_hms_opt(0, 0, 0) {
            Some(t) => Some(
                chrono::DateTime::<chrono::Utc>::from_naive_utc_and_offset(t, chrono::Utc).timestamp(),
            ),
            None => None,
        },
        Err(_) => None,
    }
}

/// The format of the `--from` and `--to` dates.
pub open spec fn date_format() -> Seq<char> {
    "%Y-%m-%d"@
}

/// Midnight UTC of a `YYYY-MM-DD` date.
pub open spec fn day_start(text: Seq<char>) -> Option<i64> {
    parsed_date_seconds(text, date_format())
}

/// Midnight UTC of the date `date_str` names (`YYYY-MM-DD`), or `None` where
/// it names none.
pub fn parse_date(date_str: &str) -> (r: Option<i64>)
    ensures
        r == day_start(date_str@),
{
    let format = "%Y-%m-%d";
    proof {
        assert(format@ == date_format());
    }
    parse_date_in(date_str, format)
}

/// The seconds in a day.
pub open spec fn seconds_per_day() -> int {
    86400
}

/// A span of `days` days is a `chrono::TimeDelta` (at most `i64::MAX`
/// milliseconds either way).
pub open spec fn days_span_valid(days: i64) -> bool {
    -9223372036854775 <= days * seconds_per_day() <= 9223372036854775
}

/// `days` days before `now` is an instant that can be represented.
pub open spec fn days_back_valid(days: Option<i64>, now: i64) -> bool {
    match days {
        Some(d) => days_span_valid(d) && i64::MIN <= now - d * seconds_per_day() <= i64::MAX
            && utc_seconds_valid((now - d * seconds_per_day()) as i64),
        None => true,
    }
}

/// The first of `--from`, `--to` that is given and is no date.
pub open spec fn first_bad_date(from: Option<Seq<char>>, to: Option<Seq<char>>) -> Option<
    Seq<char>,
> {
    if from is Some && day_start(from->0) is None {
        from
    } else if to is Some && day_start(to->0) is None {
        to
    } else {
        None
    }
}

/// The start of the range: the `--from` date, else `days` days before now,
/// else none.
pub open spec fn range_start(days: Option<i64>, from: Option<Seq<char>>, now: i64) -> Option<i64> {
    match from {
        Some(f) => day_start(f),
        None => match days {
            Some(d) => Some((now - d * seconds_per_day()) as i64),
            None => None,
        },
    }
}

/// The end of the range: the `--to` date, else now where `--days` is given,
/// else none.
pub open spec fn range_end(days: Option<i64>, to: Option<Seq<char>>, now: i64) -> Option<i64> {
    match to {
        Some(t) => day_start(t),
        None => match days {
            Some(_) => Some(now),
            None => None,
        },
    }
}

/// The optional text of an argument.
pub open spec fn opt_text(s: Option<String>) -> Option<Seq<char>> {
    match s {
        Some(t) => Some(t@),
        None => None,
    }
}

/// `r` is the range that the arguments select at `now`.
pub open spec fn range_outcome(
    args: TradesArgs,
    now: i64,
    r: Result<(Option<i64>, Option<i64>), TradesError>,
) -> bool {
    let from = opt_text(args.from);
    let to = opt_text(args.to);
    match r {
        Ok((s, e)) => first_bad_date(from, to) is None && s == range_start(args.days, from, now) && e
            == range_end(args.days, to, now),
        Err(TradesError::InvalidDate { text }) => first_bad_date(from, to) == Some(text@),
        Err(TradesError::DaysOutOfRange { .. }) => false,
    }
}

/// The range selected at `now`: a given `--to` date ends it at midnight UTC
/// of that date and a given `--from` date starts it at midnight UTC of
/// that date, whatever `--days` says; without them, `--days` spans from
/// that many days before now up to now, and without `--days` the range is
/// open. A date that does not read as `YYYY-MM-DD` is refused, and only
/// such a date.
pub proof fn lemma_dates_fix_the_range(
    args: TradesArgs,
    now: i64,
    r: Result<(Option<i64>, Option<i64>), TradesError>,
)
    requires
        range_outcome(args, now, r),
    ensures
        r matches Ok((start, end)) ==> {
            &&& (args.from matches Some(f) ==> start == parsed_date_seconds(f@, "%Y-%m-%d"@)
                && start is Some)
            &&& (args.to matches Some(t) ==> end == parsed_date_seconds(t@, "%Y-%m-%d"@)
                && end is Some)
            &&& (args.from is None ==> start == match args.days {
                Some(d) => Some((now - d * 86400) as i64),
                None => None,
            })
            &&& (args.to is None ==> end == match args.days {
                Some(_) => Some(now),
                None => None,
            })
        },
        r is Err <==> ((args.from matches Some(f) && parsed_date_seconds(f@, "%Y-%m-%d"@) is None)
            || (args.to matches Some(t) && parsed_date_seconds(t@, "%Y-%m-%d"@) is None)),
        r matches Err(TradesError::InvalidDate { text }) ==> ((args.from matches Some(f)
            && text@ == f@ && parsed_date_seconds(f@, "%Y-%m-%d"@) is None) || (args.to matches Some(
            t,
        ) && text@ == t@ && parsed_date_seconds(t@, "%Y-%m-%d"@) is None)),
{
    reveal_strlit("%Y-%m-%d");
}

fn read_date(s: &Option<String>) -> (r: Result<Option<i64>, TradesError>)
    ensures
        match r {
            Ok(v) => (s is Some ==> day_start(s->0@) is Some) && v == (match s {
                Some(t) => day_start(t@),
                None => None,
            }),
            Err(TradesError::InvalidDate { text }) => s is Some && text@ == s->0@ && day_start(
                s->0@,
            ) is None,
            Err(TradesError::DaysOutOfRange { .. }) => false,
        },
{
    match s {
        Some(t) => match parse_date(t.as_str()) {
            Some(v) => Ok(Some(v)),
            None => Err(TradesError::InvalidDate { text: t.clone() }),
        },
        None => Ok(None),
    }
}

/// The date range of the trades to show at the instant `now`: `--days`
/// spans the last days up to now, and `--from` and `--to` override its start
/// and end.
pub fn date_range_at(args: &TradesArgs, now: i64) -> (r: Result<(Option<i64>, Option<i64>), TradesError>)
    requires
        days_back_valid(args.days, now),
    ensures
        range_outcome(*args, now, r),
{
    let mut start: Option<i64> = None;
    let mut end: Option<i64> = None;
    if let Some(d) = args.days {
        start = Some(now - d * 86400);
        end = Some(now);
    }
    let from = read_date(&args.from);
    match from {
        Err(e) => {
            return Err(e);
        },
        Ok(Some(v)) => {
            start = Some(v);
        },
        Ok(None) => {},
    }
    let to = read_date(&args.to);
    match to {
        Err(e) => {
            return Err(e);
        },
        Ok(Some(v)) => {
            end = Some(v);
        },
        Ok(None) => {},
    }
    Ok((start, end))
}

/// Whether `days` days before `now` can be represented.
fn days_back_ok(days: Option<i64>, now: i64) -> (b: bool)
    ensures
        b == days_back_valid(days, now),
{
    match days {
        Some(d) => {
            if d < -106751991167 || d > 106751991167 {
                return false;
            }
            let back: i128 = (now as i128) - (d as i128) * 86400;
            if back < i64::MIN as i128 || back > i64::MAX as i128 {
                return false;
            }
            seconds_representable(back as i64)
        },
        None => true,
    }
}

/// What `determine_date_range` gives at `now`: the range, or, where the
/// day count reaches back beyond what can be represented, that refusal.
pub open spec fn range_outcome_or_refusal(
    args: TradesArgs,
    now: i64,
    r: Result<(Option<i64>, Option<i64>), TradesError>,
) -> bool {
    if days_back_valid(args.days, now) {
        range_outcome(args, now, r)
    } else {
        match r {
            Err(TradesError::DaysOutOfRange { days }) => args.days == Some(days),
            _ => false,
        }
    }
}

/// The date range of the trades to show, now.
pub fn determine_date_range(args: &TradesArgs) -> (r: Result<(Option<i64>, Option<i64>), TradesError>)
    ensures
        exists|now: i64|
            0 <= now <= 8_210_266_876_799 && #[trigger] range_outcome_or_refusal(*args, now, r),
{
    let now = now_seconds();
    if !days_back_ok(args.days, now) {
        let r = match args.days {
            Some(d) => Err(TradesError::DaysOutOfRange { days: d }),
            None => Err(TradesError::DaysOutOfRange { days: 0 }),
        };
        assert(range_outcome_or_refusal(*args, now, r));
        return r;
    }
    let r = date_range_at(args, now);
    assert(range_outcome_or_refusal(*args, now, r));
    r
}

} // verus!
