//! Ages of things, in words.
use crate::number::decimal_text;
use crate::text::{concat, owned};
use vstd::prelude::*;
#[allow(unused_imports)]
use crate::number::decimal;

verus! {

/// A number of seconds in the largest unit that fits: minutes, hours, days or weeks.
pub open spec fn rounded_age(seconds: int) -> Seq<char> {
    if seconds < 60 {
        "now"@
    } else if seconds < 3600 {
        decimal((seconds / 60) as nat) + "m"@
    } else if seconds < 86400 {
        decimal((seconds / 3600) as nat) + "h"@
    } else if seconds < 604800 {
        decimal((seconds / 86400) as nat) + "d"@
    } else {
        decimal((seconds / 604800) as nat) + "w"@
    }
}

pub open spec fn ago(seconds: int) -> Seq<char> {
    if seconds < 60 {
        "now"@
    } else {
        rounded_age(seconds) + " ago"@
    }
}

fn age_text(seconds: u64) -> (r: String)
    ensures
        r@ == rounded_age(seconds as int),
{
    if seconds < 60 {
        owned("now")
    } else if seconds < 3600 {
        concat(decimal_text(seconds / 60).as_str(), "m")
    } else if seconds < 86400 {
        concat(decimal_text(seconds / 3600).as_str(), "h")
    } else if seconds < 604800 {
        concat(decimal_text(seconds / 86400).as_str(), "d")
    } else {
        concat(decimal_text(seconds / 604800).as_str(), "w")
    }
}

/// How long before `now` something happened; times before the epoch count as the epoch.
pub open spec fn seconds_since(now: i64, unix_ts: i64) -> int {
    now - if unix_ts > 0 {
        unix_ts as int
    } else {
        0
    }
}

fn elapsed_seconds(now: i64, unix_ts: i64) -> (r: u64)
    ensures
        r == (if seconds_since(now, unix_ts) > 0 {
            seconds_since(now, unix_ts)
        } else {
            0
        }),
{
    let from: i64 = if unix_ts > 0 {
        unix_ts
    } else {
        0
    };
    if now > from {
        (now - from) as u64
    } else {
        0
    }
}

/// The age of something that happened at `unix_ts`.
pub fn format_relative_age(now: i64, unix_ts: i64) -> (r: String)
    ensures
        r@ == ago(seconds_since(now, unix_ts)),
{
    let seconds = elapsed_seconds(now, unix_ts);
    if seconds < 60 {
        owned("now")
    } else {
        concat(age_text(seconds).as_str(), " ago")
    }
}

/// When a file was last written, relative to now.
#[derive(Clone, Copy, Debug, PartialEq, Eq, Structural)]
pub enum Modified {
    Unknown,
    InTheFuture,
    SecondsAgo(u64),
}

pub open spec fn modified_label(modified: Modified) -> Seq<char> {
    match modified {
        Modified::Unknown => "—"@,
        Modified::InTheFuture => "now"@,
        Modified::SecondsAgo(seconds) => rounded_age(seconds as int),
    }
}

pub fn format_modified(modified: Modified) -> (r: String)
    ensures
        r@ == modified_label(modified),
{
    match modified {
        Modified::Unknown => owned("—"),
        Modified::InTheFuture => owned("now"),
        Modified::SecondsAgo(seconds) => age_text(seconds),
    }
}

} // verus!
