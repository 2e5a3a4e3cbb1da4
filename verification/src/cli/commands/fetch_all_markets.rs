//! Fetching all markets into a dataset: whether a cached dataset is still
//! fresh, how durations are read and shown, and the arguments recorded with
//! the dataset.

use vstd::prelude::*;
use crate::address_book::activity::{parse_rfc3339, rfc3339_instant, Instant};
use crate::address_book::types::str_eq;
use crate::text::{decimal, lowercase, strings_view, to_lowercase, u64_decimal};

verus! {

/// The length of a cache resolution unit in seconds, for the names that
/// denote one.
pub open spec fn resolution_seconds(l: Seq<char>) -> Option<i64> {
    if l == "seconds"@ || l == "second"@ || l == "s"@ {
        Some(1)
    } else if l == "minutes"@ || l == "minute"@ || l == "m"@ {
        Some(60)
    } else if l == "hours"@ || l == "hour"@ || l == "h"@ {
        Some(3600)
    } else if l == "days"@ || l == "day"@ || l == "d"@ {
        Some(86400)
    } else {
        None
    }
}

/// The message of an unknown cache resolution.
pub open spec fn invalid_resolution_message(r: Seq<char>) -> Seq<char> {
    "Invalid cache resolution: '"@ + r + "'. Must be one of: seconds, minutes, hours, days"@
}

/// How long a cached dataset stays fresh, in seconds: `count` units of the
/// resolution named (whatever its case); the count is taken as an `i32`.
pub fn cache_duration_seconds(resolution: &str, count: u32) -> (r: Result<i64, String>)
    ensures
        match resolution_seconds(lowercase(resolution@)) {
            Some(unit) => r == Ok::<i64, String>((unit * ((count as i32) as int)) as i64),
            None => r matches Err(m) && m@ == invalid_resolution_message(resolution@),
        },
{
    let l = to_lowercase(resolution);
    let l = l.as_str();
    let unit: i64 = if str_eq(l, "seconds") || str_eq(l, "second") || str_eq(l, "s") {
        1
    } else if str_eq(l, "minutes") || str_eq(l, "minute") || str_eq(l, "m") {
        60
    } else if str_eq(l, "hours") || str_eq(l, "hour") || str_eq(l, "h") {
        3600
    } else if str_eq(l, "days") || str_eq(l, "day") || str_eq(l, "d") {
        86400
    } else {
        let mut m = String::from_str("Invalid cache resolution: '");
        m.append(resolution);
        m.append("'. Must be one of: seconds, minutes, hours, days");
        return Err(m);
    };
    let n = count as i32;
    let wide = n as i64;
    proof {
        assert(-2147483648 <= wide <= 2147483647);
        assert(-185542587187200 <= unit * wide <= 185542587101000) by (nonlinear_arith)
            requires
                -2147483648 <= wide <= 2147483647,
                1 <= unit <= 86400,
        ;
    }
    Ok(unit * wide)
}

/// A cached dataset created at `created_micros` (microseconds since the
/// epoch) is still fresh at `now_micros` when its duration has not passed.
pub fn cache_still_valid(created_micros: i64, duration_secs: i64, now_micros: i64) -> (r: bool)
    requires
        i64::MIN <= duration_secs * 1000000 <= i64::MAX,
        i64::MIN <= created_micros + duration_secs * 1000000 <= i64::MAX,
    ensures
        r == (now_micros < created_micros + duration_secs * 1000000),
{
    let expires = created_micros + duration_secs * 1000000;
    now_micros < expires
}

/// An instant as nanoseconds since the epoch.
pub open spec fn instant_nanos(secs: i64, nanos: u32) -> int {
    secs * 1_000_000_000 + nanos
}

/// Whether a cached dataset whose metadata gives `created_at` (RFC 3339) is
/// still fresh at `now`: `None` where the creation time cannot be read,
/// else whether `now` comes before the creation time plus `duration_secs`.
pub fn cache_valid_at(created_at: &str, duration_secs: i64, now: Instant) -> (r: Option<bool>)
    ensures
        match rfc3339_instant(created_at@) {
            None => r is None,
            Some((s, n)) => r == Some(
                instant_nanos(now.secs, now.nanos) < instant_nanos(s, n) + duration_secs
                    * 1_000_000_000,
            ),
        },
{
    match parse_rfc3339(created_at) {
        None => None,
        Some(c) => {
            let created: i128 = (c.secs as i128) * 1_000_000_000 + (c.nanos as i128);
            let expires: i128 = created + (duration_secs as i128) * 1_000_000_000;
            let now_n: i128 = (now.secs as i128) * 1_000_000_000 + (now.nanos as i128);
            Some(now_n < expires)
        },
    }
}

/// A duration as the cache report shows it: whole days, else whole hours,
/// else whole minutes, else seconds, of its length.
pub open spec fn duration_text(micros: int) -> Seq<char> {
    let s = (if micros < 0 {
        -micros
    } else {
        micros
    }) / 1000000;
    if s / 86400 > 0 {
        decimal((s / 86400) as nat) + " days"@
    } else if s / 3600 > 0 {
        decimal((s / 3600) as nat) + " hours"@
    } else if s / 60 > 0 {
        decimal((s / 60) as nat) + " minutes"@
    } else {
        decimal(s as nat) + " seconds"@
    }
}

/// Shows a duration given in microseconds.
pub fn format_duration(micros: i64) -> (r: String)
    requires
        micros > i64::MIN,
    ensures
        r@ == duration_text(micros as int),
{
    let a: i64 = if micros < 0 {
        -micros
    } else {
        micros
    };
    let s = (a / 1000000) as u64;
    let (n, unit) = if s / 86400 > 0 {
        (s / 86400, " days")
    } else if s / 3600 > 0 {
        (s / 3600, " hours")
    } else if s / 60 > 0 {
        (s / 60, " minutes")
    } else {
        (s, " seconds")
    };
    let mut t = u64_decimal(n);
    t.append(unit);
    t
}

/// A refresh is forced by the flag, or by `FORCE_REFRESH` set to `true`
/// (whatever its case).
pub fn force_refresh(flag: bool, env_value: &str) -> (r: bool)
    ensures
        r == (flag || lowercase(env_value@) == "true"@),
{
    if flag {
        return true;
    }
    let l = to_lowercase(env_value);
    str_eq(l.as_str(), "true")
}

/// The cache is consulted unless a refresh is forced or the state cleared.
pub fn checks_cache(force: bool, clear_state: bool) -> (r: bool)
    ensures
        r == (!force && !clear_state),
{
    !force && !clear_state
}

/// The command line recorded with a fetched dataset.
pub open spec fn recorded_args(
    dataset_name: Seq<char>,
    verbose: bool,
    clear_state: bool,
    use_gamma: bool,
    chunk_size_mb: Seq<char>,
    cache_resolution: Seq<char>,
    cache_duration: u32,
    force: bool,
) -> Seq<Seq<char>> {
    seq!["--dataset-name"@, dataset_name] + (if verbose {
        seq!["--verbose"@]
    } else {
        Seq::empty()
    }) + (if clear_state {
        seq!["--clear-state"@]
    } else {
        Seq::empty()
    }) + (if use_gamma {
        seq!["--use-gamma"@]
    } else {
        Seq::empty()
    }) + seq![
        "--chunk-size-mb"@,
        chunk_size_mb,
        "--cache-resolution"@,
        cache_resolution,
        "--cache-duration"@,
        decimal(cache_duration as nat),
    ] + (if force {
        seq!["--force-refresh"@]
    } else {
        Seq::empty()
    })
}

/// The command line to record with a fetched dataset; the chunk size is
/// given as the text it is written as.
pub fn metadata_args(
    dataset_name: &str,
    verbose: bool,
    clear_state: bool,
    use_gamma: bool,
    chunk_size_mb: &str,
    cache_resolution: &str,
    cache_duration: u32,
    force: bool,
) -> (r: Vec<String>)
    ensures
        strings_view(r@) == recorded_args(
            dataset_name@,
            verbose,
            clear_state,
            use_gamma,
            chunk_size_mb@,
            cache_resolution@,
            cache_duration,
            force,
        ),
{
    let mut v: Vec<String> = Vec::new();
    v.push(String::from_str("--dataset-name"));
    v.push(String::from_str(dataset_name));
    if verbose {
        v.push(String::from_str("--verbose"));
    }
    if clear_state {
        v.push(String::from_str("--clear-state"));
    }
    if use_gamma {
        v.push(String::from_str("--use-gamma"));
    }
    v.push(String::from_str("--chunk-size-mb"));
    v.push(String::from_str(chunk_size_mb));
    v.push(String::from_str("--cache-resolution"));
    v.push(String::from_str(cache_resolution));
    v.push(String::from_str("--cache-duration"));
    v.push(u64_decimal(cache_duration as u64));
    if force {
        v.push(String::from_str("--force-refresh"));
    }
    proof {
        assert(strings_view(v@) =~= recorded_args(
            dataset_name@,
            verbose,
            clear_state,
            use_gamma,
            chunk_size_mb@,
            cache_resolution@,
            cache_duration,
            force,
        ));
    }
    v
}

} // verus!
