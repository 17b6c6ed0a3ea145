//! SQL dialects and identifier quoting.
use vstd::prelude::*;
use crate::text::{chars_of, push_replaced, replace_char};

verus! {

/// The SQL dialect of the active connection.
#[derive(Clone, Copy, Debug, PartialEq, Eq, Structural)]
pub enum SqlDialect {
    Postgres,
    MySql,
    SqlServer,
    Sqlite,
    Generic,
}

/// Opening quote character of identifiers in a dialect.
pub open spec fn open_quote(dialect: SqlDialect) -> char {
    match dialect {
        SqlDialect::MySql => '`',
        SqlDialect::SqlServer => '[',
        _ => '"',
    }
}

/// Closing quote character of identifiers in a dialect (doubled inside the name).
pub open spec fn close_quote(dialect: SqlDialect) -> char {
    match dialect {
        SqlDialect::MySql => '`',
        SqlDialect::SqlServer => ']',
        _ => '"',
    }
}

/// A quoted identifier: `"name"` (Postgres, SQLite, generic), `` `name` `` (MySQL) or
/// `[name]` (SQL Server), with the closing quote doubled inside the name.
pub open spec fn quoted_ident(name: Seq<char>, dialect: SqlDialect) -> Seq<char> {
    let close = close_quote(dialect);
    seq![open_quote(dialect)] + replace_char(name, close, seq![close, close]) + seq![close]
}

/// Appends [`quoted_ident`].
pub fn push_quoted_ident(out: &mut String, name: &str, dialect: SqlDialect)
    ensures
        final(out)@ == old(out)@ + quoted_ident(name@, dialect),
{
    let (open, close, doubled) = match dialect {
        SqlDialect::MySql => ('`', '`', "``"),
        SqlDialect::SqlServer => ('[', ']', "]]"),
        _ => ('"', '"', "\"\""),
    };
    proof {
        reveal_strlit("``");
        reveal_strlit("]]");
        reveal_strlit("\"\"");
    }
    assert(doubled@ == seq![close, close]);
    out.push(open);
    let cs = chars_of(name);
    push_replaced(out, &cs, close, doubled);
    out.push(close);
    assert(out@ =~= old(out)@ + quoted_ident(name@, dialect));
}

/// Quotes an identifier for a dialect (see [`quoted_ident`]).
pub fn quote_identifier(name: &str, dialect: SqlDialect) -> (out: String)
    ensures
        out@ == quoted_ident(name@, dialect),
{
    let mut out = String::new();
    push_quoted_ident(&mut out, name, dialect);
    assert(out@ =~= quoted_ident(name@, dialect));
    out
}

} // verus!
