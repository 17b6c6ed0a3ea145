//! The decisions the agent service makes around a statement it runs for an agent: which scope
//! label a connection carries, whether and what an attempt is logged, what target a log entry
//! names, the log record itself, the number of rows a batch of statements affected, and the
//! error an attempt reports to the agent.
//! Connecting, authorising and running the statement belong to the application.
use vstd::prelude::*;
use crate::logger::{SqlLogOutcome, SqlLogRecord};
use crate::text::{owned, push_str};
use crate::value::Timestamp;

verus! {

/// Whether a connection profile belongs to the current project or to the user's global list.
#[derive(Clone, Copy, Debug, PartialEq, Eq, Structural)]
pub enum AgentProfileScope {
    CurrentProject,
    Global,
}

/// The scope as it is reported to an agent.
pub open spec fn scope_label_text(scope: AgentProfileScope) -> Seq<char> {
    match scope {
        AgentProfileScope::CurrentProject => "current_project"@,
        AgentProfileScope::Global => "global"@,
    }
}

/// The scope label of a connection (see [`scope_label_text`]).
pub fn profile_scope_label(scope: AgentProfileScope) -> (s: String)
    ensures
        s@ == scope_label_text(scope),
{
    match scope {
        AgentProfileScope::CurrentProject => owned("current_project"),
        AgentProfileScope::Global => owned("global"),
    }
}

/// The target a log entry names: `database.schema` when both are set and the schema is not
/// empty, else the database, else the schema, else nothing.
pub open spec fn log_target_text(database: Option<Seq<char>>, schema: Option<Seq<char>>) -> Seq<
    char,
> {
    match (database, schema) {
        (Some(db), Some(s)) if s.len() > 0 => db + seq!['.'] + s,
        (Some(db), _) => db,
        (None, Some(s)) => s,
        (None, None) => Seq::empty(),
    }
}

/// The model of an optional text.
pub open spec fn opt_text(o: Option<String>) -> Option<Seq<char>> {
    match o {
        Some(s) => Some(s@),
        None => None,
    }
}

/// The target of a profile's log entries (see [`log_target_text`]).
pub fn log_target(database: &Option<String>, default_schema: &Option<String>) -> (out: String)
    ensures
        out@ == log_target_text(opt_text(*database), opt_text(*default_schema)),
{
    let mut out = String::new();
    match (database, default_schema) {
        (Some(db), Some(schema)) => {
            push_str(&mut out, db.as_str());
            if schema.as_str().unicode_len() > 0 {
                out.push('.');
                push_str(&mut out, schema.as_str());
            }
        },
        (Some(db), None) => {
            push_str(&mut out, db.as_str());
        },
        (None, Some(schema)) => {
            push_str(&mut out, schema.as_str());
        },
        (None, None) => {},
    }
    assert(out@ =~= log_target_text(opt_text(*database), opt_text(*default_schema)));
    out
}

/// The log record of one statement run on a profile.
pub fn log_record(
    timestamp: Timestamp,
    connection: &str,
    database: &Option<String>,
    default_schema: &Option<String>,
    elapsed_millis: u128,
    outcome: SqlLogOutcome,
    sql: &str,
) -> (r: SqlLogRecord)
    ensures
        r.timestamp == timestamp,
        r.connection@ == connection@,
        r.target@ == log_target_text(opt_text(*database), opt_text(*default_schema)),
        r.elapsed_millis == elapsed_millis,
        r.outcome == outcome,
        r.sql@ == sql@,
{
    SqlLogRecord {
        timestamp,
        connection: owned(connection),
        target: log_target(database, default_schema),
        elapsed_millis,
        outcome,
        sql: owned(sql),
    }
}

/// The sum of a sequence of row counts.
pub open spec fn rows_sum(counts: Seq<u64>) -> nat
    decreases counts.len(),
{
    if counts.len() == 0 {
        0
    } else {
        rows_sum(counts.drop_last()) + counts.last() as nat
    }
}

/// The rows affected by all result sets of a batch. The sum must fit in a `u64`.
pub fn affected_rows_total(counts: &Vec<u64>) -> (total: u64)
    requires
        rows_sum(counts@) <= u64::MAX,
    ensures
        total == rows_sum(counts@),
{
    let mut total: u64 = 0;
    let mut i: usize = 0;
    while i < counts.len()
        invariant
            i <= counts.len(),
            total == rows_sum(counts@.take(i as int)),
            rows_sum(counts@) <= u64::MAX,
        decreases counts.len() - i,
    {
        assert(counts@.take(i + 1).drop_last() =~= counts@.take(i as int));
        proof {
            lemma_rows_sum_prefix(counts@, i + 1);
        }
        total = total + counts[i];
        i += 1;
    }
    assert(counts@.take(counts.len() as int) =~= counts@);
    total
}

/// A prefix never sums to more than the whole.
proof fn lemma_rows_sum_prefix(counts: Seq<u64>, n: int)
    requires
        0 <= n <= counts.len(),
    ensures
        rows_sum(counts.take(n)) <= rows_sum(counts),
    decreases counts.len(),
{
    if n < counts.len() {
        assert(counts.drop_last().take(n) =~= counts.take(n));
        lemma_rows_sum_prefix(counts.drop_last(), n);
    } else {
        assert(counts.take(n) =~= counts);
    }
}


/// How far one statement run for an agent got.
#[derive(Clone, Debug)]
pub enum AgentAttempt {
    /// The write or read policy refused the statement, for this reason.
    PolicyDenied { reason: String },
    /// The connection's credentials could not be resolved; the resolver said this.
    CredentialFailure { message: String },
    /// Connecting to the database failed with this message.
    ConnectFailed { message: String },
    /// The statement failed on the database with this message.
    ExecuteFailed { message: String },
    /// A query finished with this many rows.
    QueryDone { rows: usize },
    /// A statement batch finished; the rows each result set affected.
    MutationDone { affected_rows: Vec<u64> },
}

/// What the SQL log records for an attempt: nothing when the statement was refused before a
/// connection was tried, a failure once connecting or executing failed, and the success with its
/// row counts otherwise.
pub open spec fn attempt_log_outcome(attempt: AgentAttempt) -> Option<SqlLogOutcome> {
    match attempt {
        AgentAttempt::PolicyDenied { .. } => None,
        AgentAttempt::CredentialFailure { .. } => None,
        AgentAttempt::ConnectFailed { message } => Some(SqlLogOutcome::Failure { message }),
        AgentAttempt::ExecuteFailed { message } => Some(SqlLogOutcome::Failure { message }),
        AgentAttempt::QueryDone { rows } => Some(SqlLogOutcome::QuerySuccess { rows }),
        AgentAttempt::MutationDone { affected_rows } => Some(
            SqlLogOutcome::MutationSuccess { affected_rows: rows_sum(affected_rows@) as u64 },
        ),
    }
}

/// The log outcome of an attempt (see [`attempt_log_outcome`]); at most one per attempted
/// statement. A batch's affected-row total must fit in a `u64`.
pub fn log_outcome(attempt: AgentAttempt) -> (r: Option<SqlLogOutcome>)
    requires
        attempt matches AgentAttempt::MutationDone { affected_rows } ==> rows_sum(affected_rows@)
            <= u64::MAX,
    ensures
        r == attempt_log_outcome(attempt),
{
    match attempt {
        AgentAttempt::PolicyDenied { .. } => None,
        AgentAttempt::CredentialFailure { .. } => None,
        AgentAttempt::ConnectFailed { message } => Some(SqlLogOutcome::Failure { message }),
        AgentAttempt::ExecuteFailed { message } => Some(SqlLogOutcome::Failure { message }),
        AgentAttempt::QueryDone { rows } => Some(SqlLogOutcome::QuerySuccess { rows }),
        AgentAttempt::MutationDone { affected_rows } => {
            let total = affected_rows_total(&affected_rows);
            Some(SqlLogOutcome::MutationSuccess { affected_rows: total })
        },
    }
}


/// What an agent asked the service to run.
#[derive(Clone, Copy, Debug, PartialEq, Eq, Structural)]
pub enum AgentRequest {
    /// A read-only query.
    Query,
    /// A write.
    Execute,
}

/// The kind of failure reported to an agent.
#[derive(Clone, Copy, Debug, PartialEq, Eq, Structural)]
pub enum AgentErrorCode {
    NoVisibleConnections,
    PolicyDenied,
    CredentialFailure,
    DatabaseFailure,
}

/// A failure reported to an agent: its kind and message.
#[derive(Clone, Debug, PartialEq)]
pub struct AgentError {
    pub code: AgentErrorCode,
    pub message: String,
}

/// How a refusal by the policy is worded for each request.
pub open spec fn rejection_prefix(request: AgentRequest) -> Seq<char> {
    match request {
        AgentRequest::Query => "query rejected: "@,
        AgentRequest::Execute => "write rejected: "@,
    }
}

/// The error an attempt ends with, as code and message: a policy refusal is `PolicyDenied`
/// with the request's rejection wording before the reason, an unresolved credential is
/// `CredentialFailure`, a failed connection or statement is `DatabaseFailure`, each with the
/// underlying message; a finished statement ends with none.
pub open spec fn attempt_error_of(request: AgentRequest, attempt: AgentAttempt) -> Option<(AgentErrorCode, Seq<char>)> {
    match attempt {
        AgentAttempt::PolicyDenied { reason } => Some(
            (AgentErrorCode::PolicyDenied, rejection_prefix(request) + reason@),
        ),
        AgentAttempt::CredentialFailure { message } => Some((AgentErrorCode::CredentialFailure, message@)),
        AgentAttempt::ConnectFailed { message } => Some((AgentErrorCode::DatabaseFailure, message@)),
        AgentAttempt::ExecuteFailed { message } => Some((AgentErrorCode::DatabaseFailure, message@)),
        AgentAttempt::QueryDone { .. } => None,
        AgentAttempt::MutationDone { .. } => None,
    }
}

/// The error an attempt reports to the agent (see [`attempt_error_of`]).
pub fn attempt_error(request: AgentRequest, attempt: &AgentAttempt) -> (r: Option<AgentError>)
    ensures
        match (r, attempt_error_of(request, *attempt)) {
            (Some(e), Some((code, message))) => e.code == code && e.message@ == message,
            (None, None) => true,
            _ => false,
        },
{
    match attempt {
        AgentAttempt::PolicyDenied { reason } => {
            let mut message = match request {
                AgentRequest::Query => owned("query rejected: "),
                AgentRequest::Execute => owned("write rejected: "),
            };
            push_str(&mut message, reason.as_str());
            Some(AgentError { code: AgentErrorCode::PolicyDenied, message })
        },
        AgentAttempt::CredentialFailure { message } => Some(
            AgentError { code: AgentErrorCode::CredentialFailure, message: owned(message.as_str()) },
        ),
        AgentAttempt::ConnectFailed { message } => Some(
            AgentError { code: AgentErrorCode::DatabaseFailure, message: owned(message.as_str()) },
        ),
        AgentAttempt::ExecuteFailed { message } => Some(
            AgentError { code: AgentErrorCode::DatabaseFailure, message: owned(message.as_str()) },
        ),
        AgentAttempt::QueryDone { .. } => None,
        AgentAttempt::MutationDone { .. } => None,
    }
}

/// Every attempt ends one way: either it reports an error to the agent or it is logged as a
/// success, and a failure is logged exactly when the statement reached the database.
pub proof fn law_attempt_ends_in_error_or_success(request: AgentRequest, attempt: AgentAttempt)
    ensures
        (attempt_error_of(request, attempt) is None) == (attempt_log_outcome(attempt) matches Some(
            o,
        ) && !(o is Failure)),
        (attempt_log_outcome(attempt) matches Some(o) && o is Failure) == (attempt_error_of(
            request,
            attempt,
        ) matches Some((code, _)) && code == AgentErrorCode::DatabaseFailure),
{
}

} // verus!
