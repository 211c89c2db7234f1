//! Log-lifecycle decisions: when the live log rotates, what the rotated
//! file is called, which old rotations are pruned, and the logging levels.
//!
//! Reading file sizes, renaming and deleting stay outside the library; this
//! module decides. The current time comes in through one trusted call into
//! chrono.

use chrono::Datelike;
use chrono::Timelike;
use vstd::prelude::*;
use vstd::string::StringExecFns;
use crate::text::concat2;
use crate::text::concat3;
use crate::text::dec_str;
use crate::text::ends_with_seq;
use crate::text::ends_with_str;
use crate::text::starts_with_seq;
use crate::text::starts_with_str;
use crate::text::str_eq;

verus! {

/// The live log rotates above this size.
pub const MAX_LOG_SIZE: u64 = 32 * 1024 * 1024;

/// How many rotated logs are retained.
pub const MAX_ROTATED_LOGS: usize = 5;

/// Whether the live log must rotate before logging starts: it exists and
/// its size exceeds the bound.
pub fn needs_rotation(log_exists: bool, size: u64) -> (r: bool)
    ensures
        r == (log_exists && size > MAX_LOG_SIZE),
{
    log_exists && size > MAX_LOG_SIZE
}

/// One local wall-clock instant, decomposed.
pub struct TimeParts {
    pub year: i32,
    pub month: u32,
    pub day: u32,
    pub hour: u32,
    pub minute: u32,
    pub second: u32,
}

/// The field ranges chrono documents for a decomposed local time.
pub open spec fn time_parts_wf(t: TimeParts) -> bool {
    &&& 1 <= t.month <= 12
    &&& 1 <= t.day <= 31
    &&& t.hour <= 23
    &&& t.minute <= 59
    &&& t.second <= 59
}

/// Relies on `chrono::Local::now` with the `Datelike` and `Timelike`
/// accessors: the current local time, decomposed; month and day count from
/// one, and the other fields lie in their clock ranges.
#[verifier::external_body]
pub fn local_time_parts() -> (r: TimeParts)
    ensures
        time_parts_wf(r),
{
    let now = chrono::Local::now();
    TimeParts {
        year: now.year(),
        month: now.month(),
        day: now.day(),
        hour: now.hour(),
        minute: now.minute(),
        second: now.second(),
    }
}

/// A clock field zero-padded to two digits.
pub open spec fn pad2(n: nat) -> Seq<char> {
    if n < 10 {
        seq!['0'] + dec_str(n)
    } else {
        dec_str(n)
    }
}

/// A year zero-padded to four digits, with a leading minus for a negative
/// year.
pub open spec fn year_str(y: int) -> Seq<char> {
    let m = if y < 0 {
        -y
    } else {
        y
    };
    let digits = dec_str(m as nat);
    let padded = if m < 10 {
        "000"@ + digits
    } else if m < 100 {
        "00"@ + digits
    } else if m < 1000 {
        "0"@ + digits
    } else {
        digits
    };
    if y < 0 {
        "-"@ + padded
    } else {
        padded
    }
}

/// The timestamp in a rotated log's name:
/// year-month-day_hour-minute-second, each field zero-padded.
pub open spec fn timestamp_spec(t: TimeParts) -> Seq<char> {
    year_str(t.year as int) + "-"@ + pad2(t.month as nat) + "-"@ + pad2(t.day as nat) + "_"@ + pad2(
        t.hour as nat,
    ) + "-"@ + pad2(t.minute as nat) + "-"@ + pad2(t.second as nat)
}

/// Appends a clock field zero-padded to two digits.
fn push_pad2(n: u32, out: &mut String)
    requires
        n <= 99,
    ensures
        final(out)@ == old(out)@ + pad2(n as nat),
{
    if n < 10 {
        out.append("0");
        proof {
            reveal_strlit("0");
        }
    }
    crate::text::push_decimal(n as u64, out);
    proof {
        if n < 10 {
            assert(old(out)@ + "0"@ + dec_str(n as nat) =~= old(out)@ + pad2(n as nat));
        }
    }
}

/// Appends the zero-padded four-digit year, signed when negative.
fn push_year(y: i32, out: &mut String)
    ensures
        final(out)@ == old(out)@ + year_str(y as int),
{
    if y < 0 {
        out.append("-");
        proof {
            reveal_strlit("-");
        }
    }
    let m: u64 = if y < 0 {
        if y == i32::MIN {
            2147483648u64
        } else {
            (-y) as u64
        }
    } else {
        y as u64
    };
    if m < 10 {
        out.append("000");
        proof {
            reveal_strlit("000");
        }
    } else if m < 100 {
        out.append("00");
        proof {
            reveal_strlit("00");
        }
    } else if m < 1000 {
        out.append("0");
        proof {
            reveal_strlit("0");
        }
    }
    crate::text::push_decimal(m, out);
    proof {
        assert(m == (if y < 0 {
            -(y as int)
        } else {
            y as int
        }));
        assert(out@ =~= old(out)@ + year_str(y as int));
    }
}

/// Renders the rotation timestamp of an instant.
pub fn format_timestamp(t: &TimeParts) -> (r: String)
    requires
        time_parts_wf(*t),
    ensures
        r@ == timestamp_spec(*t),
{
    let mut out = String::new();
    push_year(t.year, &mut out);
    out.append("-");
    push_pad2(t.month, &mut out);
    out.append("-");
    push_pad2(t.day, &mut out);
    out.append("_");
    push_pad2(t.hour, &mut out);
    out.append("-");
    push_pad2(t.minute, &mut out);
    out.append("-");
    push_pad2(t.second, &mut out);
    proof {
        assert(out@ =~= timestamp_spec(*t));
    }
    out
}

/// The clock stamp inside a log line:
/// year-month-day hour:minute:second, each field zero-padded.
pub open spec fn clock_spec(t: TimeParts) -> Seq<char> {
    year_str(t.year as int) + "-"@ + pad2(t.month as nat) + "-"@ + pad2(t.day as nat) + " "@ + pad2(
        t.hour as nat,
    ) + ":"@ + pad2(t.minute as nat) + ":"@ + pad2(t.second as nat)
}

/// One log line as the supervisor's sinks format it:
/// `[timestamp][level][target] message`.
pub open spec fn log_line_spec(
    t: TimeParts,
    level: Seq<char>,
    target: Seq<char>,
    message: Seq<char>,
) -> Seq<char> {
    "["@ + clock_spec(t) + "]["@ + level + "]["@ + target + "] "@ + message
}

/// Renders one log line from an instant, a level name, the log target and
/// the message.
pub fn format_log_line(t: &TimeParts, level: &str, target: &str, message: &str) -> (r: String)
    requires
        time_parts_wf(*t),
    ensures
        r@ == log_line_spec(*t, level@, target@, message@),
{
    let mut out = String::new();
    out.append("[");
    push_year(t.year, &mut out);
    out.append("-");
    push_pad2(t.month, &mut out);
    out.append("-");
    push_pad2(t.day, &mut out);
    out.append(" ");
    push_pad2(t.hour, &mut out);
    out.append(":");
    push_pad2(t.minute, &mut out);
    out.append(":");
    push_pad2(t.second, &mut out);
    out.append("][");
    out.append(level);
    out.append("][");
    out.append(target);
    out.append("] ");
    out.append(message);
    proof {
        assert(out@ =~= log_line_spec(*t, level@, target@, message@));
    }
    out
}

/// The name a rotated log gets: the stem, the timestamp, the extension.
pub fn rotated_log_name(stem: &str, t: &TimeParts) -> (r: String)
    requires
        time_parts_wf(*t),
    ensures
        r@ == stem@ + "."@ + timestamp_spec(*t) + ".log"@,
{
    let ts = format_timestamp(t);
    let head = concat3(stem, ".", ts.as_str());
    let r = concat2(head.as_str(), ".log");
    proof {
        assert(r@ =~= stem@ + "."@ + timestamp_spec(*t) + ".log"@);
    }
    r
}

/// A file in the log directory, with its modification time.
pub struct LogFile {
    pub name: String,
    pub mtime: u64,
}

/// The mathematical value of a [`LogFile`].
pub struct LogFileV {
    pub name: Seq<char>,
    pub mtime: u64,
}

impl View for LogFile {
    type V = LogFileV;

    open spec fn view(&self) -> LogFileV {
        LogFileV { name: self.name@, mtime: self.mtime }
    }
}

impl DeepView for LogFile {
    type V = LogFileV;

    open spec fn deep_view(&self) -> LogFileV {
        self.view()
    }
}

/// A rotated log of this stem: it begins with `stem.`, ends with `.log`,
/// and is not the live log `stem.log` itself.
pub open spec fn is_rotated_spec(name: Seq<char>, stem: Seq<char>) -> bool {
    &&& starts_with_seq(name, stem + "."@)
    &&& ends_with_seq(name, ".log"@)
    &&& name != stem + ".log"@
}

/// Whether a file name is a rotated log of this stem.
pub fn is_rotated_log(name: &str, stem: &str) -> (r: bool)
    ensures
        r == is_rotated_spec(name@, stem@),
{
    let prefix = concat2(stem, ".");
    let live = concat2(stem, ".log");
    starts_with_str(name, prefix.as_str()) && ends_with_str(name, ".log") && !str_eq(
        name,
        live.as_str(),
    )
}

/// Among the rotated files, `a` is newer than `b`: a later modification
/// time, with the position breaking ties.
pub open spec fn newer(es: Seq<LogFileV>, a: int, b: int) -> bool {
    es[a].mtime > es[b].mtime || (es[a].mtime == es[b].mtime && a < b)
}

/// How many files in the prefix up to `t` are newer than the file at `b`.
pub open spec fn newer_count_to(es: Seq<LogFileV>, b: int, t: int) -> nat
    decreases t,
{
    if t <= 0 {
        0
    } else {
        let here: nat = if t - 1 != b && newer(es, t - 1, b) {
            1
        } else {
            0
        };
        newer_count_to(es, b, t - 1) + here
    }
}

/// How many files are newer than the file at `b`.
pub open spec fn newer_count(es: Seq<LogFileV>, b: int) -> nat {
    newer_count_to(es, b, es.len() as int)
}

/// A file is pruned when the retained count of newer rotations is already
/// full.
pub open spec fn pruned(es: Seq<LogFileV>, b: int) -> bool {
    newer_count(es, b) >= MAX_ROTATED_LOGS
}

/// The names the cleanup removes, in order: those rotated files of the stem
/// with at least [`MAX_ROTATED_LOGS`] newer rotations — so at most that
/// many, the newest, are retained.
pub open spec fn removal_spec(es: Seq<LogFileV>, upto: int) -> Seq<Seq<char>>
    decreases upto,
{
    if upto <= 0 {
        Seq::empty()
    } else {
        removal_spec(es, upto - 1) + (if pruned(es, upto - 1) {
            seq![es[upto - 1].name]
        } else {
            Seq::empty()
        })
    }
}

/// Selects the rotated logs to delete: the caller filters the directory
/// with [`is_rotated_log`], hands the rotated files in, and removes the
/// returned names, keeping only the newest [`MAX_ROTATED_LOGS`] rotations.
pub fn cleanup_old_logs(entries: &Vec<LogFile>) -> (r: Vec<String>)
    ensures
        r.deep_view() == removal_spec(entries.deep_view(), entries@.len() as int),
{
    let n = entries.len();
    let mut out: Vec<String> = Vec::new();
    let mut b: usize = 0;
    while b < n
        invariant
            n == entries@.len(),
            0 <= b <= n,
            out.deep_view() == removal_spec(entries.deep_view(), b as int),
        decreases n - b,
    {
        let mut cnt: usize = 0;
        let mut a: usize = 0;
        while a < n
            invariant
                n == entries@.len(),
                0 <= a <= n,
                b < n,
                cnt <= a,
                cnt == newer_count_to(entries.deep_view(), b as int, a as int),
            decreases n - a,
        {
            if a != b && (entries[a].mtime > entries[b].mtime || (entries[a].mtime
                == entries[b].mtime && a < b)) {
                cnt += 1;
            }
            proof {
                assert(newer_count_to(entries.deep_view(), b as int, a + 1) == newer_count_to(
                    entries.deep_view(),
                    b as int,
                    a as int,
                ) + (if a as int != b as int && newer(entries.deep_view(), a as int, b as int) {
                    1nat
                } else {
                    0nat
                }));
            }
            a += 1;
        }
        let ghost pre = out.deep_view();
        if cnt >= MAX_ROTATED_LOGS {
            out.push(entries[b].name.clone());
            proof {
                assert(out.deep_view() =~= pre.push(entries.deep_view()[b as int].name));
            }
        }
        proof {
            assert(out.deep_view() =~= removal_spec(entries.deep_view(), b + 1));
        }
        b += 1;
    }
    out
}

/// A logging verbosity level, as the supervisor configures its sinks.
#[derive(Clone, Copy, PartialEq, Eq, Structural, Debug)]
pub enum LogLevel {
    Error,
    Info,
    Debug,
    Trace,
}

/// The two configured levels: the supervisor's own crate, and the default
/// for every other module.
pub struct LogLevels {
    pub own_level: LogLevel,
    pub default_level: LogLevel,
}

/// Computes the logging levels from the two environment toggles: the
/// default level for foreign modules is `Error`, raised to `Info` under
/// either toggle; the supervisor's own crate logs at `Debug`, raised to
/// `Trace` under the trace toggle.
pub fn log_levels(aw_debug: bool, aw_trace: bool) -> (r: LogLevels)
    ensures
        r.own_level == (if aw_trace {
            LogLevel::Trace
        } else {
            LogLevel::Debug
        }),
        r.default_level == (if aw_debug || aw_trace {
            LogLevel::Info
        } else {
            LogLevel::Error
        }),
{
    let own_level = if aw_trace {
        LogLevel::Trace
    } else {
        LogLevel::Debug
    };
    let default_level = if aw_debug || aw_trace {
        LogLevel::Info
    } else {
        LogLevel::Error
    };
    LogLevels { own_level, default_level }
}

} // verus!
