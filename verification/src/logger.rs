//! The SQL execution log: the text of one log entry, the log file's name, the sanitised host
//! name that goes into it, and where the log directory is looked for. Writing the file and the
//! background channel that feeds it live with the application.
use vstd::prelude::*;
use crate::text::{
    chars_of, nat_digits, push_chars, push_replaced, push_str, push_u128_digits, replace_char,
    trim, trim_chars, trim_end, trim_end_chars,
};
use crate::value::{
    date_text, offset_text, pad_zeros, push_date, push_offset, push_pad_zeros, year_text,
    push_year, Timestamp,
};

verus! {

/// How one executed statement ended.
#[derive(Clone, Debug, PartialEq)]
pub enum SqlLogOutcome {
    QuerySuccess { rows: usize },
    MutationSuccess { affected_rows: u64 },
    Failure { message: String },
}

/// One executed statement, as it is written to the log. The timestamp is the local wall clock
/// with its UTC offset; the elapsed time is counted in whole milliseconds.
#[derive(Clone, Debug, PartialEq)]
pub struct SqlLogRecord {
    pub timestamp: Timestamp,
    pub connection: String,
    pub target: String,
    pub elapsed_millis: u128,
    pub outcome: SqlLogOutcome,
    pub sql: String,
}

/// `%S`: the seconds of the wall clock (a leap second shows as 60).
pub open spec fn seconds_field(second: u32, nanosecond: u32) -> nat {
    (second + nanosecond / 1_000_000_000) as nat
}

/// `%Y-%m-%d %H:%M:%S%.3f %:z`: the wall clock to the millisecond, then the UTC offset.
pub open spec fn log_timestamp_text(t: Timestamp) -> Seq<char> {
    let tm = t.local.time;
    date_text(t.local.date) + seq![' '] + pad_zeros(tm.hour as nat, 2) + seq![':'] + pad_zeros(
        tm.minute as nat,
        2,
    ) + seq![':'] + pad_zeros(seconds_field(tm.second, tm.nanosecond), 2) + seq!['.']
        + pad_zeros(((tm.nanosecond as nat) / 1_000_000) % 1000, 3) + seq![' '] + offset_text(
        t.offset_seconds as int,
    )
}

/// The connection name, followed by `/` and the target when there is one.
pub open spec fn connection_target_text(connection: Seq<char>, target: Seq<char>) -> Seq<char> {
    if target.len() == 0 {
        connection
    } else {
        connection + seq!['/'] + target
    }
}

/// The status part of an entry: `OK <ms>ms <n> rows`, `OK <ms>ms <n> row(s) affected`, or
/// `ERROR <ms>ms: <message>` with every line break of the message turned into a space.
pub open spec fn status_text(outcome: SqlLogOutcome, elapsed_millis: nat) -> Seq<char> {
    match outcome {
        SqlLogOutcome::QuerySuccess { rows } => "OK "@ + nat_digits(elapsed_millis) + "ms "@
            + nat_digits(rows as nat) + " rows"@,
        SqlLogOutcome::MutationSuccess { affected_rows } => "OK "@ + nat_digits(elapsed_millis)
            + "ms "@ + nat_digits(affected_rows as nat) + " row(s) affected"@,
        SqlLogOutcome::Failure { message } => "ERROR "@ + nat_digits(elapsed_millis) + "ms: "@
            + replace_char(message@, '\n', seq![' ']),
    }
}

/// `[timestamp] [connection/target] [status]`.
pub open spec fn log_header_text(record: SqlLogRecord) -> Seq<char> {
    seq!['['] + log_timestamp_text(record.timestamp) + "] ["@ + connection_target_text(
        record.connection@,
        record.target@,
    ) + "] ["@ + status_text(record.outcome, record.elapsed_millis as nat) + seq![']']
}

/// A whole entry: the header line, the statement without trailing whitespace, and a blank line.
pub open spec fn log_entry_text(record: SqlLogRecord) -> Seq<char> {
    log_header_text(record) + seq!['\n'] + trim_end(record.sql@) + seq!['\n', '\n']
}

/// Appends [`log_timestamp_text`].
fn push_log_timestamp(out: &mut String, t: Timestamp)
    ensures
        final(out)@ == old(out)@ + log_timestamp_text(t),
{
    let tm = t.local.time;
    push_date(out, t.local.date);
    out.push(' ');
    push_pad_zeros(out, tm.hour as u64, 2);
    out.push(':');
    push_pad_zeros(out, tm.minute as u64, 2);
    out.push(':');
    push_pad_zeros(out, tm.second as u64 + (tm.nanosecond / 1_000_000_000) as u64, 2);
    out.push('.');
    push_pad_zeros(out, ((tm.nanosecond / 1_000_000) % 1000) as u64, 3);
    out.push(' ');
    push_offset(out, t.offset_seconds);
    assert(out@ =~= old(out)@ + log_timestamp_text(t));
}

/// Appends [`status_text`].
fn push_status(out: &mut String, outcome: &SqlLogOutcome, elapsed_millis: u128)
    ensures
        final(out)@ == old(out)@ + status_text(*outcome, elapsed_millis as nat),
{
    proof {
        reveal_strlit("OK ");
        reveal_strlit("ms ");
        reveal_strlit(" rows");
        reveal_strlit(" row(s) affected");
        reveal_strlit("ERROR ");
        reveal_strlit("ms: ");
        reveal_strlit(" ");
    }
    match outcome {
        SqlLogOutcome::QuerySuccess { rows } => {
            push_str(out, "OK ");
            push_u128_digits(out, elapsed_millis);
            push_str(out, "ms ");
            push_u128_digits(out, *rows as u128);
            push_str(out, " rows");
            assert(out@ =~= old(out)@ + status_text(*outcome, elapsed_millis as nat));
        },
        SqlLogOutcome::MutationSuccess { affected_rows } => {
            push_str(out, "OK ");
            push_u128_digits(out, elapsed_millis);
            push_str(out, "ms ");
            push_u128_digits(out, *affected_rows as u128);
            push_str(out, " row(s) affected");
            assert(out@ =~= old(out)@ + status_text(*outcome, elapsed_millis as nat));
        },
        SqlLogOutcome::Failure { message } => {
            push_str(out, "ERROR ");
            push_u128_digits(out, elapsed_millis);
            push_str(out, "ms: ");
            let cs = chars_of(message.as_str());
            push_replaced(out, &cs, '\n', " ");
            assert(" "@ =~= seq![' ']);
            assert(out@ =~= old(out)@ + status_text(*outcome, elapsed_millis as nat));
        },
    }
}

/// The text of one log entry (see [`log_entry_text`]).
pub fn format_log_entry(record: &SqlLogRecord) -> (out: String)
    ensures
        out@ == log_entry_text(*record),
{
    proof {
        reveal_strlit("] [");
    }
    let mut out = String::new();
    out.push('[');
    push_log_timestamp(&mut out, record.timestamp);
    push_str(&mut out, "] [");
    push_str(&mut out, record.connection.as_str());
    if record.target.as_str().unicode_len() > 0 {
        out.push('/');
        push_str(&mut out, record.target.as_str());
    }
    push_str(&mut out, "] [");
    push_status(&mut out, &record.outcome, record.elapsed_millis);
    out.push(']');
    out.push('\n');
    let sql = chars_of(record.sql.as_str());
    let trimmed = trim_end_chars(&sql);
    push_chars(&mut out, &trimmed);
    out.push('\n');
    out.push('\n');
    assert(out@ =~= log_entry_text(*record));
    out
}

/// A host-name character as it may stand in a file name: ASCII letters, digits, `-` and `_`
/// stay, anything else becomes `_`.
pub open spec fn hostname_char(c: char) -> char {
    if ('a' <= c && c <= 'z') || ('A' <= c && c <= 'Z') || ('0' <= c && c <= '9') || c == '-'
        || c == '_' {
        c
    } else {
        '_'
    }
}

/// The host name that goes into a log file name: the trimmed raw name with every character
/// made file-name safe, or `unknown-host` when there is no name or it is blank.
pub open spec fn sanitized_hostname(raw: Option<Seq<char>>) -> Seq<char> {
    match raw {
        Some(r) if trim(r).len() > 0 => trim(r).map_values(|c: char| hostname_char(c)),
        _ => "unknown-host"@,
    }
}

/// Sanitises a raw host name (see [`sanitized_hostname`]).
pub fn sanitize_hostname(raw: Option<String>) -> (out: String)
    ensures
        out@ == sanitized_hostname(
            match raw {
                Some(r) => Some(r@),
                None => None,
            },
        ),
{
    proof {
        reveal_strlit("unknown-host");
    }
    let mut out = String::new();
    if let Some(r) = raw {
        let cs = chars_of(r.as_str());
        let t = trim_chars(&cs);
        let mut i: usize = 0;
        while i < t.len()
            invariant
                i <= t.len(),
                out@ == t@.take(i as int).map_values(|c: char| hostname_char(c)),
            decreases t.len() - i,
        {
            let c = t[i];
            let safe = if ('a' <= c && c <= 'z') || ('A' <= c && c <= 'Z') || ('0' <= c && c
                <= '9') || c == '-' || c == '_' {
                c
            } else {
                '_'
            };
            out.push(safe);
            assert(t@.take(i + 1).map_values(|c: char| hostname_char(c)) =~= t@.take(
                i as int,
            ).map_values(|c: char| hostname_char(c)).push(hostname_char(t@[i as int])));
            i += 1;
        }
        assert(t@.take(t.len() as int) =~= t@);
    }
    if out.as_str().unicode_len() == 0 {
        push_str(&mut out, "unknown-host");
    }
    out
}

/// `lazydb_<YYYYMMDD>_<HHMMSS>_<host>_<pid>.log`, the clock read as `%Y%m%d_%H%M%S`.
pub open spec fn log_filename_text(start_time: Timestamp, hostname: Seq<char>, pid: u32) -> Seq<
    char,
> {
    let d = start_time.local.date;
    let tm = start_time.local.time;
    "lazydb_"@ + year_text(d.year as int) + pad_zeros(d.month as nat, 2) + pad_zeros(
        d.day as nat,
        2,
    ) + seq!['_'] + pad_zeros(tm.hour as nat, 2) + pad_zeros(tm.minute as nat, 2) + pad_zeros(
        seconds_field(tm.second, tm.nanosecond),
        2,
    ) + seq!['_'] + hostname + seq!['_'] + nat_digits(pid as nat) + ".log"@
}

/// The name of the log file of a session started at `start_time` on `hostname` by process `pid`.
pub fn generate_log_filename_with(start_time: Timestamp, hostname: &str, pid: u32) -> (out:
    String)
    ensures
        out@ == log_filename_text(start_time, hostname@, pid),
{
    proof {
        reveal_strlit("lazydb_");
        reveal_strlit(".log");
    }
    let d = start_time.local.date;
    let tm = start_time.local.time;
    let mut out = String::new();
    push_str(&mut out, "lazydb_");
    push_year(&mut out, d.year);
    push_pad_zeros(&mut out, d.month as u64, 2);
    push_pad_zeros(&mut out, d.day as u64, 2);
    out.push('_');
    push_pad_zeros(&mut out, tm.hour as u64, 2);
    push_pad_zeros(&mut out, tm.minute as u64, 2);
    push_pad_zeros(&mut out, tm.second as u64 + (tm.nanosecond / 1_000_000_000) as u64, 2);
    out.push('_');
    push_str(&mut out, hostname);
    out.push('_');
    push_u128_digits(&mut out, pid as u128);
    push_str(&mut out, ".log");
    assert(out@ =~= log_filename_text(start_time, hostname@, pid));
    out
}

/// Where the log directory comes from.
#[derive(Clone, Copy, Debug, PartialEq, Eq, Structural)]
pub enum LogDirChoice {
    /// The directory named by the caller (the `LAZYDB_LOG_DIR` setting).
    Explicit,
    /// `logs/lazydb` under `HOME`.
    Home,
    /// `logs/lazydb` under `USERPROFILE`.
    UserProfile,
    /// `lazydb/logs` under the system temporary directory.
    TempDir,
}

/// Picks the log directory's source: an explicit directory first, then `HOME`, then
/// `USERPROFILE`, then the temporary directory. Each flag says whether that value is present
/// and not empty.
pub fn choose_log_dir(explicit_set: bool, home_set: bool, user_profile_set: bool) -> (r:
    LogDirChoice)
    ensures
        r == if explicit_set {
            LogDirChoice::Explicit
        } else if home_set {
            LogDirChoice::Home
        } else if user_profile_set {
            LogDirChoice::UserProfile
        } else {
            LogDirChoice::TempDir
        },
{
    if explicit_set {
        LogDirChoice::Explicit
    } else if home_set {
        LogDirChoice::Home
    } else if user_profile_set {
        LogDirChoice::UserProfile
    } else {
        LogDirChoice::TempDir
    }
}

} // verus!
