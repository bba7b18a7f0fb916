//! Severity levels and the minimum-severity filter.

use vstd::prelude::*;

verus! {

/// Severity of a span or event, from most verbose to most severe.
#[derive(Clone, Copy, Debug, PartialEq, Eq, Structural)]
pub enum Level {
    Trace,
    Debug,
    Info,
    Warn,
    Error,
}

/// The configured minimum severity: `Off` admits nothing, `Error` only
/// errors, and so on down to `Trace`, which admits everything.
#[derive(Clone, Copy, Debug, PartialEq, Eq, Structural)]
pub enum LevelFilter {
    Off,
    Error,
    Warn,
    Info,
    Debug,
    Trace,
}

/// How verbose a severity is: higher means more verbose, so a filter admits
/// exactly the severities that are at most as verbose as itself.
pub open spec fn level_verbosity(l: Level) -> int {
    match l {
        Level::Error => 1,
        Level::Warn => 2,
        Level::Info => 3,
        Level::Debug => 4,
        Level::Trace => 5,
    }
}

pub open spec fn filter_verbosity(f: LevelFilter) -> int {
    match f {
        LevelFilter::Off => 0,
        LevelFilter::Error => 1,
        LevelFilter::Warn => 2,
        LevelFilter::Info => 3,
        LevelFilter::Debug => 4,
        LevelFilter::Trace => 5,
    }
}

/// Whether the filter `f` admits a span or event of severity `l`.
pub open spec fn admits(f: LevelFilter, l: Level) -> bool {
    level_verbosity(l) <= filter_verbosity(f)
}

fn level_rank(l: Level) -> (r: u8)
    ensures
        r == level_verbosity(l),
{
    match l {
        Level::Error => 1,
        Level::Warn => 2,
        Level::Info => 3,
        Level::Debug => 4,
        Level::Trace => 5,
    }
}

fn filter_rank(f: LevelFilter) -> (r: u8)
    ensures
        r == filter_verbosity(f),
{
    match f {
        LevelFilter::Off => 0,
        LevelFilter::Error => 1,
        LevelFilter::Warn => 2,
        LevelFilter::Info => 3,
        LevelFilter::Debug => 4,
        LevelFilter::Trace => 5,
    }
}

/// Decides whether the filter admits a severity.
pub fn level_enabled(f: LevelFilter, l: Level) -> (r: bool)
    ensures
        r == admits(f, l),
{
    level_rank(l) <= filter_rank(f)
}

/// The label a severity carries in the `log_level` field of a record.
pub open spec fn level_label(l: Level) -> Seq<char> {
    match l {
        Level::Trace => "TRACE"@,
        Level::Debug => "DEBUG"@,
        Level::Info => "INFO"@,
        Level::Warn => "WARN"@,
        Level::Error => "ERROR"@,
    }
}

pub fn level_as_str(l: Level) -> (r: &'static str)
    ensures
        r@ == level_label(l),
{
    match l {
        Level::Trace => "TRACE",
        Level::Debug => "DEBUG",
        Level::Info => "INFO",
        Level::Warn => "WARN",
        Level::Error => "ERROR",
    }
}

/// Law: the filter is monotonic in its threshold.  Raising the configured
/// minimum severity (lowering the filter's verbosity) only ever shrinks the
/// set of severities that pass, and lowering it only ever grows that set:
/// whatever a stricter filter admits, a looser one admits too.
pub proof fn lemma_filter_monotonic(f1: LevelFilter, f2: LevelFilter, l: Level)
    requires
        filter_verbosity(f1) <= filter_verbosity(f2),
        admits(f1, l),
    ensures
        admits(f2, l),
{
}

} // verus!
