//! Filter clauses and literals built from grid cells.
use vstd::prelude::*;
use sqlparser::ast::{Expr, OrderByExpr, OrderByKind, OrderByOptions, OrderBySort, Statement};
use sqlparser::dialect::{GenericDialect, MsSqlDialect, MySqlDialect, PostgreSqlDialect, SQLiteDialect};
use sqlparser::parser::Parser;
use crate::dialect::{close_quote, push_quoted_ident, quote_identifier, quoted_ident, SqlDialect};
use crate::text::{
    bytes_hex, chars_of, contains_seq, join_strings, join_with, lower_chars, lower_seq, owned,
    push_bytes_hex, push_replaced, push_str, replace_char, seq_eq, str_contains, str_eq, strings_view,
    string_of, trim, trim_chars,
};
use crate::value::{cell_text, opt_view, CellValue, CellView};

verus! {

/// Error of the relation filter and sort helpers.
#[derive(Clone, Debug)]
pub struct RelationFilterError(pub String);

impl RelationFilterError {
    /// The error message.
    pub fn message(&self) -> (r: String)
        ensures
            r@ == self.0@,
    {
        self.0.clone()
    }
}

/// A quoted string literal: `'` doubled everywhere and, under MySQL, `\` doubled as well.
pub open spec fn string_lit(value: Seq<char>, dialect: SqlDialect) -> Seq<char> {
    let escaped = replace_char(value, '\'', seq!['\'', '\'']);
    let escaped = if dialect == SqlDialect::MySql {
        replace_char(escaped, '\\', seq!['\\', '\\'])
    } else {
        escaped
    };
    seq!['\''] + escaped + seq!['\'']
}

/// A byte-string literal: `X'..'` (MySQL), `0x..` (SQL Server), `'\x..'::bytea` (Postgres),
/// `x'..'` (SQLite and generic), with upper-case hex digits.
pub open spec fn bytes_lit(bytes: Seq<u8>, dialect: SqlDialect) -> Seq<char> {
    let hex = bytes_hex(bytes);
    match dialect {
        SqlDialect::MySql => seq!['X', '\''] + hex + seq!['\''],
        SqlDialect::SqlServer => seq!['0', 'x'] + hex,
        SqlDialect::Postgres => seq!['\'', '\\', 'x'] + hex + "'::bytea"@,
        _ => seq!['x', '\''] + hex + seq!['\''],
    }
}

/// A boolean literal: `TRUE`/`FALSE` on Postgres, `1`/`0` elsewhere.
pub open spec fn bool_lit(b: bool, dialect: SqlDialect) -> Seq<char> {
    if dialect == SqlDialect::Postgres {
        if b {
            "TRUE"@
        } else {
            "FALSE"@
        }
    } else if b {
        seq!['1']
    } else {
        seq!['0']
    }
}

/// The SQL literal of a cell: `NULL`, booleans per dialect, numbers unquoted, non-finite
/// floats, text, temporal values and unsupported previews as string literals, bytes per dialect.
pub open spec fn cell_literal(v: CellView, dialect: SqlDialect) -> Seq<char> {
    match v {
        CellView::Null => "NULL"@,
        CellView::Boolean(b) => bool_lit(b, dialect),
        CellView::Integer(_) => cell_text(v),
        CellView::Unsigned(_) => cell_text(v),
        CellView::Float { display, json_number } => if json_number is Some {
            display
        } else {
            string_lit(display, dialect)
        },
        CellView::Text(t) => string_lit(t, dialect),
        CellView::Bytes(b) => bytes_lit(b, dialect),
        CellView::Unsupported { type_label, preview } => string_lit(preview, dialect),
        _ => string_lit(cell_text(v), dialect),
    }
}

/// The WHERE clause that keeps rows whose `column` equals the cell: `col IS NULL` for NULL,
/// `col = literal` otherwise; non-finite floats and unsupported values have no clause.
pub open spec fn where_clause(column: Seq<char>, v: CellView, dialect: SqlDialect) -> Result<
    Seq<char>,
    Seq<char>,
> {
    let quoted = quoted_ident(column, dialect);
    match v {
        CellView::Null => Ok(quoted + " IS NULL"@),
        CellView::Float { display, json_number } => if json_number is Some {
            Ok(quoted + " = "@ + display)
        } else {
            Err("non-finite float values have no portable SQL literal"@)
        },
        CellView::Unsupported { type_label, preview } => Err(
            "values of type `"@ + type_label + "` cannot be filtered"@,
        ),
        _ => Ok(quoted + " = "@ + cell_literal(v, dialect)),
    }
}

/// Appends [`string_lit`].
pub fn push_string_literal(out: &mut String, value: &str, dialect: SqlDialect)
    ensures
        final(out)@ == old(out)@ + string_lit(value@, dialect),
{
    proof {
        reveal_strlit("''");
        reveal_strlit("\\\\");
    }
    assert("''"@ =~= seq!['\'', '\'']);
    assert("\\\\"@ =~= seq!['\\', '\\']);
    let cs = chars_of(value);
    let mut escaped = String::new();
    push_replaced(&mut escaped, &cs, '\'', "''");
    assert(escaped@ =~= replace_char(value@, '\'', seq!['\'', '\'']));
    out.push('\'');
    if dialect == SqlDialect::MySql {
        let es = chars_of(escaped.as_str());
        push_replaced(out, &es, '\\', "\\\\");
    } else {
        push_str(out, escaped.as_str());
    }
    out.push('\'');
    assert(out@ =~= old(out)@ + string_lit(value@, dialect));
}

/// The string literal of a text (see [`string_lit`]).
pub fn string_literal(value: &str, dialect: SqlDialect) -> (out: String)
    ensures
        out@ == string_lit(value@, dialect),
{
    let mut out = String::new();
    push_string_literal(&mut out, value, dialect);
    assert(out@ =~= string_lit(value@, dialect));
    out
}

/// The byte-string literal of bytes (see [`bytes_lit`]).
pub fn bytes_literal(value: &[u8], dialect: SqlDialect) -> (out: String)
    ensures
        out@ == bytes_lit(value@, dialect),
{
    let mut out = String::new();
    match dialect {
        SqlDialect::MySql => {
            out.push('X');
            out.push('\'');
            push_bytes_hex(&mut out, value);
            out.push('\'');
        },
        SqlDialect::SqlServer => {
            out.push('0');
            out.push('x');
            push_bytes_hex(&mut out, value);
        },
        SqlDialect::Postgres => {
            out.push('\'');
            out.push('\\');
            out.push('x');
            push_bytes_hex(&mut out, value);
            push_str(&mut out, "'::bytea");
        },
        _ => {
            out.push('x');
            out.push('\'');
            push_bytes_hex(&mut out, value);
            out.push('\'');
        },
    }
    assert(out@ =~= bytes_lit(value@, dialect));
    out
}

/// Appends [`bool_lit`].
fn push_bool_literal(out: &mut String, b: bool, dialect: SqlDialect)
    ensures
        final(out)@ == old(out)@ + bool_lit(b, dialect),
{
    if dialect == SqlDialect::Postgres {
        if b {
            push_str(out, "TRUE");
        } else {
            push_str(out, "FALSE");
        }
    } else if b {
        out.push('1');
    } else {
        out.push('0');
    }
    assert(out@ =~= old(out)@ + bool_lit(b, dialect));
}

/// Appends [`cell_literal`].
pub fn push_cell_literal(out: &mut String, value: &CellValue, dialect: SqlDialect)
    ensures
        final(out)@ == old(out)@ + cell_literal(value@, dialect),
{
    match value {
        CellValue::Null => push_str(out, "NULL"),
        CellValue::Boolean(b) => push_bool_literal(out, *b, dialect),
        CellValue::Integer(_) | CellValue::Unsigned(_) => {
            let t = value.clipboard_text();
            push_str(out, t.as_str());
        },
        CellValue::Float(f) => {
            if f.json_number.is_some() {
                push_str(out, f.display.as_str());
            } else {
                push_string_literal(out, f.display.as_str(), dialect);
            }
        },
        CellValue::Text(t) => push_string_literal(out, t.as_str(), dialect),
        CellValue::Bytes(b) => {
            let lit = bytes_literal(b.as_slice(), dialect);
            push_str(out, lit.as_str());
        },
        CellValue::Unsupported { type_label, preview } => push_string_literal(
            out,
            preview.as_str(),
            dialect,
        ),
        _ => {
            let t = value.clipboard_text();
            push_string_literal(out, t.as_str(), dialect);
        },
    }
    assert(out@ =~= old(out)@ + cell_literal(value@, dialect));
}

/// The SQL literal of a cell (see [`cell_literal`]).
pub fn cell_sql_literal(value: &CellValue, dialect: SqlDialect) -> (out: String)
    ensures
        out@ == cell_literal(value@, dialect),
{
    let mut out = String::new();
    push_cell_literal(&mut out, value, dialect);
    assert(out@ =~= cell_literal(value@, dialect));
    out
}

/// The clause that filters rows by the value of one cell (see [`where_clause`]).
pub fn cell_where_clause(column: &str, value: &CellValue, dialect: SqlDialect) -> (r: Result<
    String,
    RelationFilterError,
>)
    ensures
        match (r, where_clause(column@, value@, dialect)) {
            (Ok(s), Ok(t)) => s@ == t,
            (Err(e), Err(t)) => e.0@ == t,
            _ => false,
        },
{
    match value {
        CellValue::Float(f) => {
            if f.json_number.is_none() {
                let mut msg = String::new();
                push_str(&mut msg, "non-finite float values have no portable SQL literal");
                assert(msg@ =~= "non-finite float values have no portable SQL literal"@);
                return Err(RelationFilterError(msg));
            }
        },
        CellValue::Unsupported { type_label, preview } => {
            let mut msg = String::new();
            push_str(&mut msg, "values of type `");
            push_str(&mut msg, type_label.as_str());
            push_str(&mut msg, "` cannot be filtered");
            assert(msg@ =~= "values of type `"@ + type_label@ + "` cannot be filtered"@);
            return Err(RelationFilterError(msg));
        },
        _ => {},
    }
    let mut out = String::new();
    push_quoted_ident(&mut out, column, dialect);
    if value.is_null() {
        push_str(&mut out, " IS NULL");
    } else {
        push_str(&mut out, " = ");
        push_cell_literal(&mut out, value, dialect);
    }
    assert(out@ =~= where_clause(column@, value@, dialect)->Ok_0);
    Ok(out)
}

/// Sort direction of a column.
#[derive(Clone, Copy, Debug, PartialEq, Eq, Structural)]
pub enum SortDirection {
    Asc,
    Desc,
}

/// How a grid column takes part in the ORDER BY clause: direction and position (0 first).
#[derive(Clone, Copy, Debug, PartialEq, Eq, Structural)]
pub struct RelationColumnSort {
    pub direction: SortDirection,
    pub priority: usize,
}

/// The filter and order fragments of a relation preview, trimmed; blank ones are absent.
#[derive(Clone, Debug, Default, PartialEq, Eq)]
pub struct RelationPreviewOptions {
    pub where_clause: Option<String>,
    pub order_by_clause: Option<String>,
}

/// The sort keyword of an ORDER BY item.
#[derive(Clone, Debug)]
pub enum SortKey {
    Unspecified,
    Asc,
    Desc,
    /// `USING <operator>`, kept as the text sqlparser writes for it (leading space included).
    Using(String),
}

/// An identifier ordered by: its name and whether it was quoted.
#[derive(Clone, Debug)]
pub struct IdentParts {
    pub value: String,
    pub quoted: bool,
}

/// One ORDER BY item as sqlparser read it: the expression's text, the identifier when the
/// expression is a bare one, the sort keyword, `NULLS FIRST/LAST`, and a `WITH FILL` suffix
/// (as written, leading space included).
#[derive(Clone, Debug)]
pub struct OrderItem {
    pub expr_text: String,
    pub ident: Option<IdentParts>,
    pub sort: SortKey,
    pub nulls_first: Option<bool>,
    pub fill_text: Option<String>,
}

/// The ORDER BY of a query: `ALL` or a list of items.
#[derive(Clone, Debug)]
pub enum OrderByShape {
    All,
    Expressions(Vec<OrderItem>),
}

/// What the preview checks of a parsed query: whether its body is a SELECT and then whether it
/// has a WHERE clause, its ORDER BY, and whether LIMIT, FETCH or locking clauses are present.
#[derive(Clone, Debug)]
pub struct QueryShape {
    pub select_where: Option<bool>,
    pub order_by: Option<OrderByShape>,
    pub has_limit: bool,
    pub has_fetch: bool,
    pub has_locks: bool,
}

/// A parsed statement: a query, or anything else.
#[derive(Clone, Debug)]
pub enum StatementShape {
    Query(QueryShape),
    Other,
}

/// Model of a [`SortKey`].
pub enum SortKeyView {
    Unspecified,
    Asc,
    Desc,
    Using(Seq<char>),
}

/// Model of an [`OrderItem`].
pub struct OrderItemView {
    pub expr_text: Seq<char>,
    pub ident: Option<(Seq<char>, bool)>,
    pub sort: SortKeyView,
    pub nulls_first: Option<bool>,
    pub fill_text: Option<Seq<char>>,
}

/// Model of an [`OrderByShape`].
pub enum OrderByView {
    All,
    Expressions(Seq<OrderItemView>),
}

/// Model of a [`QueryShape`].
pub struct QueryView {
    pub select_where: Option<bool>,
    pub order_by: Option<OrderByView>,
    pub has_limit: bool,
    pub has_fetch: bool,
    pub has_locks: bool,
}

/// Model of a [`StatementShape`].
pub enum StatementView {
    Query(QueryView),
    Other,
}

impl View for SortKey {
    type V = SortKeyView;

    open spec fn view(&self) -> SortKeyView {
        match self {
            SortKey::Unspecified => SortKeyView::Unspecified,
            SortKey::Asc => SortKeyView::Asc,
            SortKey::Desc => SortKeyView::Desc,
            SortKey::Using(t) => SortKeyView::Using(t@),
        }
    }
}

impl View for OrderItem {
    type V = OrderItemView;

    open spec fn view(&self) -> OrderItemView {
        OrderItemView {
            expr_text: self.expr_text@,
            ident: match self.ident {
                Some(i) => Some((i.value@, i.quoted)),
                None => None,
            },
            sort: self.sort@,
            nulls_first: self.nulls_first,
            fill_text: match self.fill_text {
                Some(f) => Some(f@),
                None => None,
            },
        }
    }
}

/// The models of order items.
pub open spec fn items_view(items: Seq<OrderItem>) -> Seq<OrderItemView> {
    items.map_values(|i: OrderItem| i@)
}

impl View for StatementShape {
    type V = StatementView;

    open spec fn view(&self) -> StatementView {
        match self {
            StatementShape::Query(q) => StatementView::Query(
                QueryView {
                    select_where: q.select_where,
                    order_by: match q.order_by {
                        Some(OrderByShape::All) => Some(OrderByView::All),
                        Some(OrderByShape::Expressions(items)) => Some(OrderByView::Expressions(items_view(items@))),
                        None => None,
                    },
                    has_limit: q.has_limit,
                    has_fetch: q.has_fetch,
                    has_locks: q.has_locks,
                },
            ),
            StatementShape::Other => StatementView::Other,
        }
    }
}

#[verifier::external_type_specification]
#[verifier::external_body]
pub struct ExStatement(Statement);

#[verifier::external_type_specification]
#[verifier::external_body]
pub struct ExOrderByExpr(OrderByExpr);

/// What sqlparser makes of a text under the dialect's parser: the shapes of its statements,
/// or the parse error's text.
pub uninterp spec fn sqlparser_parse(dialect: SqlDialect, sql: Seq<char>) -> Result<Seq<StatementView>, Seq<char>>;

/// `Parser::parse_sql` with the dialect's sqlparser dialect, each statement read into its
/// [`StatementShape`]; a parse error becomes its text.
#[verifier::external_body]
fn parse_sql_shapes(dialect: SqlDialect, sql: &str) -> (r: Result<Vec<StatementShape>, String>)
    ensures
        match (r, sqlparser_parse(dialect, sql@)) {
            (Ok(v), Ok(w)) => v@.map_values(|s: StatementShape| s@) == w,
            (Err(e), Err(w)) => e@ == w,
            _ => false,
        },
{
    let parsed = match dialect {
        SqlDialect::Postgres => Parser::parse_sql(&PostgreSqlDialect {}, sql),
        SqlDialect::MySql => Parser::parse_sql(&MySqlDialect {}, sql),
        SqlDialect::SqlServer => Parser::parse_sql(&MsSqlDialect {}, sql),
        SqlDialect::Sqlite => Parser::parse_sql(&SQLiteDialect {}, sql),
        SqlDialect::Generic => Parser::parse_sql(&GenericDialect {}, sql),
    };
    match parsed {
        Ok(statements) => Ok(statements.iter().map(statement_shape).collect()),
        Err(error) => Err(error.to_string()),
    }
}

/// Reads the parts of a parsed statement that the preview checks.
#[verifier::external_body]
fn statement_shape(s: &Statement) -> (r: StatementShape)
{
    let Statement::Query(query) = s else { return StatementShape::Other };
    let order_by = query.order_by.as_ref().map(|o| match &o.kind {
        OrderByKind::All(_) => OrderByShape::All,
        OrderByKind::Expressions(items) => OrderByShape::Expressions(items.iter().map(order_item).collect()),
    });
    StatementShape::Query(QueryShape {
        select_where: query.body.as_select().map(|select| select.selection.is_some()),
        order_by,
        has_limit: query.limit_clause.is_some(),
        has_fetch: query.fetch.is_some(),
        has_locks: !query.locks.is_empty(),
    })
}

/// Reads a parsed ORDER BY item, with sqlparser's own rendering of its parts.
#[verifier::external_body]
fn order_item(e: &OrderByExpr) -> (r: OrderItem)
{
    let ident = match &e.expr {
        Expr::Identifier(i) => Some(IdentParts { value: i.value.clone(), quoted: i.quote_style.is_some() }),
        _ => None,
    };
    let sort = match &e.options.sort {
        Some(OrderBySort::Asc) => SortKey::Asc,
        Some(OrderBySort::Desc) => SortKey::Desc,
        Some(_) => SortKey::Using(OrderByOptions { sort: e.options.sort.clone(), nulls_first: None }.to_string()),
        None => SortKey::Unspecified,
    };
    let fill_text = e.with_fill.as_ref().map(|fill| format!(" {fill}"));
    OrderItem { expr_text: e.expr.to_string(), ident, sort, nulls_first: e.options.nulls_first, fill_text }
}

/// How sqlparser writes an identifier quoted with `quote`.
pub uninterp spec fn sqlparser_quoted(quote: char, value: Seq<char>) -> Seq<char>;

/// `Ident::with_quote(quote, value).to_string()`; with `[` the value is written between the
/// brackets as it is.
#[verifier::external_body]
fn quoted_ident_text(quote: char, value: &str) -> (r: String)
    requires
        quote == '"' || quote == '`' || quote == '[',
    ensures
        r@ == sqlparser_quoted(quote, value@),
        quote == '[' ==> r@ == seq!['['] + value@ + seq![']'],
{
    sqlparser::ast::Ident::with_quote(quote, value).to_string()
}

/// A fragment trimmed, absent when blank.
pub open spec fn normalized(s: Seq<char>) -> Option<Seq<char>> {
    let t = trim(s);
    if t.len() == 0 {
        None
    } else {
        Some(t)
    }
}

/// Whether a fragment holds a statement separator or a comment marker.
pub open spec fn forbidden_fragment(s: Seq<char>) -> bool {
    contains_seq(s, ";"@) || contains_seq(s, "--"@) || contains_seq(s, "/*"@) || contains_seq(s, "*/"@)
}

/// The query the fragments are checked in.
pub open spec fn preview_query_text(w: Option<Seq<char>>, o: Option<Seq<char>>) -> Seq<char> {
    "SELECT * FROM __lazydb_relation"@ + match w {
        Some(x) => " WHERE "@ + x,
        None => Seq::empty(),
    } + match o {
        Some(x) => " ORDER BY "@ + x,
        None => Seq::empty(),
    }
}

/// One plain SELECT with exactly the requested WHERE and ORDER BY (not `ALL`) and no LIMIT,
/// FETCH or locking clause.
pub open spec fn valid_preview_shape(stmts: Seq<StatementView>, has_where: bool, has_order: bool) -> bool {
    stmts.len() == 1 && match stmts[0] {
        StatementView::Query(q) => {
            &&& q.select_where == Some(has_where)
            &&& match q.order_by {
                None => !has_order,
                Some(OrderByView::All) => false,
                Some(OrderByView::Expressions(_)) => has_order,
            }
            &&& !q.has_limit
            &&& !q.has_fetch
            &&& !q.has_locks
        },
        StatementView::Other => false,
    }
}

/// `validate_relation_preview_options`: the normalized fragments, when they are free of
/// separators and comments and form one plain SELECT.
pub open spec fn preview_options(w: Seq<char>, o: Seq<char>, dialect: SqlDialect) -> Result<(Option<Seq<char>>, Option<Seq<char>>), Seq<char>> {
    let wn = normalized(w);
    let on = normalized(o);
    if (wn matches Some(x) && forbidden_fragment(x)) || (on matches Some(x) && forbidden_fragment(x)) {
        Err("comments and multiple statements are not allowed"@)
    } else {
        match sqlparser_parse(dialect, preview_query_text(wn, on)) {
            Err(e) => Err("invalid preview clause: "@ + e),
            Ok(stmts) => if valid_preview_shape(stmts, wn is Some, on is Some) {
                Ok((wn, on))
            } else {
                Err("invalid preview query shape"@)
            },
        }
    }
}

/// The ORDER BY items of the preview query with the given order fragment.
pub open spec fn order_items(o: Option<Seq<char>>, dialect: SqlDialect) -> Result<Seq<OrderItemView>, Seq<char>> {
    match sqlparser_parse(dialect, preview_query_text(None, o)) {
        Err(e) => Err("invalid preview clause: "@ + e),
        Ok(stmts) => if stmts.len() > 0 && stmts[0] is Query {
            match stmts[0]->Query_0.order_by {
                Some(OrderByView::Expressions(items)) => Ok(items),
                _ => Ok(Seq::empty()),
            }
        } else {
            Err("invalid preview query shape"@)
        },
    }
}

/// Whether an identifier names a column: exactly when quoted, else ignoring ASCII case or as
/// the column's quoted form.
pub open spec fn ident_names_column(value: Seq<char>, quoted: bool, column: Seq<char>, dialect: SqlDialect) -> bool {
    if quoted {
        value == column
    } else {
        lower_seq(value) == lower_seq(column) || quoted_ident(column, dialect) == value
    }
}

/// The first of `columns` that the identifier names.
pub open spec fn first_named_column(value: Seq<char>, quoted: bool, columns: Seq<Seq<char>>, dialect: SqlDialect) -> Option<int>
    decreases columns.len(),
{
    if columns.len() == 0 {
        None
    } else {
        match first_named_column(value, quoted, columns.drop_last(), dialect) {
            Some(c) => Some(c),
            None => if ident_names_column(value, quoted, columns.last(), dialect) {
                Some(columns.len() - 1)
            } else {
                None
            },
        }
    }
}

/// The first column an item orders by directly, if it is a bare identifier naming one.
pub open spec fn direct_column(item: OrderItemView, columns: Seq<Seq<char>>, dialect: SqlDialect) -> Option<int> {
    match item.ident {
        None => None,
        Some((value, quoted)) => first_named_column(value, quoted, columns, dialect),
    }
}

/// The direction of an item: descending only for `DESC`.
pub open spec fn item_direction(item: OrderItemView) -> SortDirection {
    if item.sort is Desc {
        SortDirection::Desc
    } else {
        SortDirection::Asc
    }
}

/// The sort of column `c`: direction and position of the first item ordering by it directly.
pub open spec fn column_sort(items: Seq<OrderItemView>, columns: Seq<Seq<char>>, dialect: SqlDialect, c: int) -> Option<(SortDirection, int)>
    decreases items.len(),
{
    if items.len() == 0 {
        None
    } else {
        match column_sort(items.drop_last(), columns, dialect, c) {
            Some(x) => Some(x),
            None => if direct_column(items.last(), columns, dialect) == Some(c) {
                Some((item_direction(items.last()), items.len() - 1))
            } else {
                None
            },
        }
    }
}

/// `relation_column_sort_projection`: for each column, how the (validated) ORDER BY sorts it.
pub open spec fn sort_projection(clause: Seq<char>, columns: Seq<Seq<char>>, dialect: SqlDialect) -> Result<Seq<Option<(SortDirection, int)>>, Seq<char>> {
    match preview_options(""@, clause, dialect) {
        Err(e) => Err(e),
        Ok((_, on)) => match on {
            None => Ok(Seq::new(columns.len(), |c: int| None)),
            Some(o) => match order_items(Some(o), dialect) {
                Err(e) => Err(e),
                Ok(items) => Ok(Seq::new(columns.len(), |c: int| column_sort(items, columns, dialect, c))),
            },
        },
    }
}

/// The text of an item as sqlparser writes it: expression, sort keyword, NULLS, WITH FILL.
pub open spec fn item_text(item: OrderItemView) -> Seq<char> {
    item.expr_text + match item.sort {
        SortKeyView::Unspecified => Seq::empty(),
        SortKeyView::Asc => " ASC"@,
        SortKeyView::Desc => " DESC"@,
        SortKeyView::Using(t) => t,
    } + match item.nulls_first {
        Some(true) => " NULLS FIRST"@,
        Some(false) => " NULLS LAST"@,
        None => Seq::empty(),
    } + match item.fill_text {
        Some(f) => f,
        None => Seq::empty(),
    }
}

/// The ORDER BY text of items.
pub open spec fn order_text(items: Seq<OrderItemView>) -> Seq<char> {
    join_with(Seq::new(items.len(), |i: int| item_text(items[i])), ", "@)
}

/// The quote character new items use in a dialect.
pub open spec fn new_item_quote(dialect: SqlDialect) -> char {
    match dialect {
        SqlDialect::SqlServer => '[',
        SqlDialect::MySql => '`',
        _ => '"',
    }
}

/// A new item ordering by a column, quoted for the dialect.
pub open spec fn column_item(name: Seq<char>, dialect: SqlDialect, sort: SortKeyView) -> OrderItemView {
    let q = new_item_quote(dialect);
    let escaped = replace_char(name, close_quote(dialect), seq![close_quote(dialect), close_quote(dialect)]);
    OrderItemView {
        expr_text: sqlparser_quoted(q, escaped),
        ident: Some((escaped, true)),
        sort,
        nulls_first: None,
        fill_text: None,
    }
}

/// The items that order by column `c` directly, as an index sequence (ascending).
pub open spec fn column_matches(items: Seq<OrderItemView>, columns: Seq<Seq<char>>, dialect: SqlDialect, c: int) -> Seq<int>
    decreases items.len(),
{
    if items.len() == 0 {
        Seq::empty()
    } else {
        let prefix = column_matches(items.drop_last(), columns, dialect, c);
        if direct_column(items.last(), columns, dialect) == Some(c) {
            prefix.push(items.len() - 1)
        } else {
            prefix
        }
    }
}

/// The items without those ordering by column `c` directly.
pub open spec fn without_column(items: Seq<OrderItemView>, columns: Seq<Seq<char>>, dialect: SqlDialect, c: int) -> Seq<OrderItemView>
    decreases items.len(),
{
    if items.len() == 0 {
        Seq::empty()
    } else {
        let prefix = without_column(items.drop_last(), columns, dialect, c);
        if direct_column(items.last(), columns, dialect) == Some(c) {
            prefix
        } else {
            prefix.push(items.last())
        }
    }
}

/// `cycle_relation_column_sort`: the column goes from unsorted to DESC (appended), from DESC to
/// ASC in place, and from anything else back to unsorted (all its items removed).
pub open spec fn cycled_order(clause: Seq<char>, columns: Seq<Seq<char>>, column: usize, dialect: SqlDialect) -> Result<Seq<char>, Seq<char>> {
    match preview_options(""@, clause, dialect) {
        Err(e) => Err(e),
        Ok((_, on)) => match order_items(on, dialect) {
            Err(e) => Err(e),
            Ok(items) => if column >= columns.len() {
                Err("column index is out of range"@)
            } else {
                let ms = column_matches(items, columns, dialect, column as int);
                if ms.len() == 0 {
                    Ok(order_text(items.push(column_item(columns[column as int], dialect, SortKeyView::Desc))))
                } else if items[ms[0]].sort is Desc {
                    Ok(order_text(items.update(ms[0], OrderItemView { sort: SortKeyView::Asc, ..items[ms[0]] })))
                } else {
                    Ok(order_text(without_column(items, columns, dialect, column as int)))
                }
            },
        },
    }
}

/// The models of statement shapes.
pub open spec fn shapes_view(v: Seq<StatementShape>) -> Seq<StatementView> {
    v.map_values(|s: StatementShape| s@)
}

fn normalize(value: &str) -> (r: Option<String>)
    ensures
        opt_view(r) == normalized(value@),
{
    let t = trim_chars(&chars_of(value));
    if t.len() == 0 {
        None
    } else {
        Some(string_of(&t))
    }
}

fn has_forbidden(s: &str) -> (r: bool)
    ensures
        r == forbidden_fragment(s@),
{
    str_contains(s, ";") || str_contains(s, "--") || str_contains(s, "/*") || str_contains(s, "*/")
}

fn parse_preview_query(w: &Option<String>, o: &Option<String>, dialect: SqlDialect) -> (r: Result<Vec<StatementShape>, RelationFilterError>)
    ensures
        match (r, sqlparser_parse(dialect, preview_query_text(opt_view(*w), opt_view(*o)))) {
            (Ok(v), Ok(x)) => shapes_view(v@) == x,
            (Err(e), Err(x)) => e.0@ == "invalid preview clause: "@ + x,
            _ => false,
        },
{
    let mut query = String::new();
    push_str(&mut query, "SELECT * FROM __lazydb_relation");
    match w {
        Some(clause) => {
            push_str(&mut query, " WHERE ");
            push_str(&mut query, clause.as_str());
        },
        None => {},
    }
    match o {
        Some(clause) => {
            push_str(&mut query, " ORDER BY ");
            push_str(&mut query, clause.as_str());
        },
        None => {},
    }
    assert(query@ =~= preview_query_text(opt_view(*w), opt_view(*o)));
    match parse_sql_shapes(dialect, query.as_str()) {
        Ok(v) => Ok(v),
        Err(e) => {
            let mut msg = String::new();
            push_str(&mut msg, "invalid preview clause: ");
            push_str(&mut msg, e.as_str());
            Err(RelationFilterError(msg))
        },
    }
}

fn query_error(text: &str) -> (r: RelationFilterError)
    ensures
        r.0@ == text@,
{
    RelationFilterError(owned(text))
}

/// Checks the filter and order fragments of a relation preview (see [`preview_options`]).
pub fn validate_relation_preview_options(where_clause: &str, order_by_clause: &str, dialect: SqlDialect) -> (r: Result<RelationPreviewOptions, RelationFilterError>)
    ensures
        match (r, preview_options(where_clause@, order_by_clause@, dialect)) {
            (Ok(opts), Ok((w, o))) => opt_view(opts.where_clause) == w && opt_view(opts.order_by_clause) == o,
            (Err(e), Err(m)) => e.0@ == m,
            _ => false,
        },
{
    let w = normalize(where_clause);
    let o = normalize(order_by_clause);
    let bad_w = match &w {
        Some(x) => has_forbidden(x.as_str()),
        None => false,
    };
    let bad_o = match &o {
        Some(x) => has_forbidden(x.as_str()),
        None => false,
    };
    if bad_w || bad_o {
        return Err(query_error("comments and multiple statements are not allowed"));
    }
    let statements = match parse_preview_query(&w, &o, dialect) {
        Ok(s) => s,
        Err(e) => {
            return Err(e);
        },
    };
    let valid = statements.len() == 1 && match &statements[0] {
        StatementShape::Query(q) => {
            let where_ok = match q.select_where {
                Some(b) => b == w.is_some(),
                None => false,
            };
            let order_ok = match &q.order_by {
                None => o.is_none(),
                Some(OrderByShape::All) => false,
                Some(OrderByShape::Expressions(_)) => o.is_some(),
            };
            where_ok && order_ok && !q.has_limit && !q.has_fetch && !q.has_locks
        },
        StatementShape::Other => false,
    };
    if !valid {
        return Err(query_error("invalid preview query shape"));
    }
    Ok(RelationPreviewOptions { where_clause: w, order_by_clause: o })
}

fn copy_item(item: &OrderItem) -> (r: OrderItem)
    ensures
        r@ == item@,
{
    OrderItem {
        expr_text: item.expr_text.clone(),
        ident: match &item.ident {
            Some(i) => Some(IdentParts { value: i.value.clone(), quoted: i.quoted }),
            None => None,
        },
        sort: match &item.sort {
            SortKey::Unspecified => SortKey::Unspecified,
            SortKey::Asc => SortKey::Asc,
            SortKey::Desc => SortKey::Desc,
            SortKey::Using(t) => SortKey::Using(t.clone()),
        },
        nulls_first: item.nulls_first,
        fill_text: match &item.fill_text {
            Some(f) => Some(f.clone()),
            None => None,
        },
    }
}

fn copy_items(items: &Vec<OrderItem>) -> (r: Vec<OrderItem>)
    ensures
        items_view(r@) == items_view(items@),
{
    let mut r: Vec<OrderItem> = Vec::new();
    let mut i: usize = 0;
    while i < items.len()
        invariant
            i <= items.len(),
            items_view(r@) == items_view(items@.take(i as int)),
        decreases items.len() - i,
    {
        let ghost before = items_view(r@);
        let c = copy_item(&items[i]);
        r.push(c);
        assert(items_view(r@) =~= before.push(items@[i as int]@));
        assert(items_view(items@.take(i + 1)) =~= items_view(items@.take(i as int)).push(items@[i as int]@));
        i += 1;
    }
    assert(items@.take(items.len() as int) =~= items@);
    r
}

fn parse_order_by_items(o: &Option<String>, dialect: SqlDialect) -> (r: Result<Vec<OrderItem>, RelationFilterError>)
    ensures
        match (r, order_items(opt_view(*o), dialect)) {
            (Ok(v), Ok(x)) => items_view(v@) == x,
            (Err(e), Err(m)) => e.0@ == m,
            _ => false,
        },
{
    let statements = match parse_preview_query(&None, o, dialect) {
        Ok(s) => s,
        Err(e) => {
            return Err(e);
        },
    };
    assert(opt_view(None) == None::<Seq<char>>);
    if statements.len() == 0 {
        return Err(query_error("invalid preview query shape"));
    }
    match &statements[0] {
        StatementShape::Query(q) => match &q.order_by {
            Some(OrderByShape::Expressions(items)) => Ok(copy_items(items)),
            _ => Ok(Vec::new()),
        },
        StatementShape::Other => Err(query_error("invalid preview query shape")),
    }
}

fn names_column(value: &str, quoted: bool, column: &str, dialect: SqlDialect) -> (r: bool)
    ensures
        r == ident_names_column(value@, quoted, column@, dialect),
{
    if quoted {
        str_eq(value, column)
    } else {
        let a = lower_chars(&chars_of(value));
        let b = lower_chars(&chars_of(column));
        seq_eq(&a, &b) || str_eq(quote_identifier(column, dialect).as_str(), value)
    }
}

fn direct_column_exec(item: &OrderItem, columns: &Vec<String>, dialect: SqlDialect) -> (r: Option<usize>)
    ensures
        match (r, direct_column(item@, strings_view(columns@), dialect)) {
            (Some(c), Some(d)) => c as int == d,
            (None, None) => true,
            _ => false,
        },
        r matches Some(c) ==> c < columns.len(),
{
    let ghost cols = strings_view(columns@);
    match &item.ident {
        None => None,
        Some(id) => {
            let mut res: Option<usize> = None;
            let mut c: usize = 0;
            while c < columns.len()
                invariant
                    c <= columns.len(),
                    cols == strings_view(columns@),
                    res matches Some(x) ==> x < c,
                    match (res, first_named_column(id.value@, id.quoted, cols.take(c as int), dialect)) {
                        (Some(x), Some(y)) => x as int == y,
                        (None, None) => true,
                        _ => false,
                    },
                decreases columns.len() - c,
            {
                assert(cols.take(c + 1).drop_last() =~= cols.take(c as int));
                assert(cols.take(c + 1).last() == columns@[c as int]@);
                if res.is_none() && names_column(id.value.as_str(), id.quoted, columns[c].as_str(), dialect) {
                    res = Some(c);
                }
                c += 1;
            }
            assert(cols.take(columns.len() as int) =~= cols);
            res
        },
    }
}

/// The model of a column sort.
pub open spec fn sort_view(s: Option<RelationColumnSort>) -> Option<(SortDirection, int)> {
    match s {
        Some(x) => Some((x.direction, x.priority as int)),
        None => None,
    }
}

fn item_direction_exec(item: &OrderItem) -> (r: SortDirection)
    ensures
        r == item_direction(item@),
{
    match item.sort {
        SortKey::Desc => SortDirection::Desc,
        _ => SortDirection::Asc,
    }
}

/// How the ORDER BY clause sorts each grid column (see [`sort_projection`]).
pub fn relation_column_sort_projection(order_by_clause: &str, columns: &Vec<String>, dialect: SqlDialect) -> (r: Result<Vec<Option<RelationColumnSort>>, RelationFilterError>)
    ensures
        match (r, sort_projection(order_by_clause@, strings_view(columns@), dialect)) {
            (Ok(v), Ok(x)) => v@.map_values(|s: Option<RelationColumnSort>| sort_view(s)) == x,
            (Err(e), Err(m)) => e.0@ == m,
            _ => false,
        },
{
    let ghost cols = strings_view(columns@);
    let options = match validate_relation_preview_options("", order_by_clause, dialect) {
        Ok(o) => o,
        Err(e) => {
            return Err(e);
        },
    };
    let n = columns.len();
    let mut projected: Vec<Option<RelationColumnSort>> = Vec::new();
    let mut k: usize = 0;
    while k < n
        invariant
            k <= n,
            projected@.len() == k,
            forall|c: int| 0 <= c < k ==> projected@[c] is None,
        decreases n - k,
    {
        projected.push(None);
        k += 1;
    }
    if options.order_by_clause.is_none() {
        assert(projected@.map_values(|s: Option<RelationColumnSort>| sort_view(s)) =~= Seq::new(
            cols.len(),
            |c: int| None,
        ));
        return Ok(projected);
    }
    let items = match parse_order_by_items(&options.order_by_clause, dialect) {
        Ok(v) => v,
        Err(e) => {
            return Err(e);
        },
    };
    let ghost iv = items_view(items@);
    let mut p: usize = 0;
    while p < items.len()
        invariant
            p <= items.len(),
            n == columns.len(),
            cols == strings_view(columns@),
            iv == items_view(items@),
            projected@.len() == n,
            forall|c: int| 0 <= c < n ==> sort_view(#[trigger] projected@[c]) == column_sort(
                iv.take(p as int),
                cols,
                dialect,
                c,
            ),
        decreases items.len() - p,
    {
        assert(iv.take(p + 1).drop_last() =~= iv.take(p as int));
        assert(iv.take(p + 1).last() == items@[p as int]@);
        match direct_column_exec(&items[p], columns, dialect) {
            Some(c) => {
                if projected[c].is_none() {
                    let d = item_direction_exec(&items[p]);
                    projected.set(c, Some(RelationColumnSort { direction: d, priority: p }));
                }
            },
            None => {},
        }
        p += 1;
    }
    assert(iv.take(items.len() as int) =~= iv);
    assert(projected@.map_values(|s: Option<RelationColumnSort>| sort_view(s)) =~= Seq::new(
        cols.len(),
        |c: int| column_sort(iv, cols, dialect, c),
    ));
    Ok(projected)
}

fn item_text_exec(item: &OrderItem) -> (r: String)
    ensures
        r@ == item_text(item@),
{
    let mut out = item.expr_text.clone();
    match &item.sort {
        SortKey::Unspecified => {},
        SortKey::Asc => push_str(&mut out, " ASC"),
        SortKey::Desc => push_str(&mut out, " DESC"),
        SortKey::Using(t) => push_str(&mut out, t.as_str()),
    }
    match item.nulls_first {
        Some(true) => push_str(&mut out, " NULLS FIRST"),
        Some(false) => push_str(&mut out, " NULLS LAST"),
        None => {},
    }
    match &item.fill_text {
        Some(f) => push_str(&mut out, f.as_str()),
        None => {},
    }
    assert(out@ =~= item_text(item@));
    out
}

fn format_order_by(items: &Vec<OrderItem>) -> (r: String)
    ensures
        r@ == order_text(items_view(items@)),
{
    let ghost iv = items_view(items@);
    let mut parts: Vec<String> = Vec::new();
    let mut i: usize = 0;
    while i < items.len()
        invariant
            i <= items.len(),
            iv == items_view(items@),
            strings_view(parts@) == Seq::new(iv.len(), |k: int| item_text(iv[k])).take(i as int),
        decreases items.len() - i,
    {
        let ghost before = strings_view(parts@);
        let t = item_text_exec(&items[i]);
        parts.push(t);
        assert(strings_view(parts@) =~= before.push(t@));
        assert(strings_view(parts@) =~= Seq::new(iv.len(), |k: int| item_text(iv[k])).take(i + 1));
        i += 1;
    }
    assert(Seq::new(iv.len(), |k: int| item_text(iv[k])).take(items.len() as int) =~= Seq::new(
        iv.len(),
        |k: int| item_text(iv[k]),
    ));
    join_strings(&parts, ", ")
}

fn column_item_exec(name: &str, dialect: SqlDialect, desc: bool) -> (r: OrderItem)
    ensures
        r@ == column_item(name@, dialect, if desc {
            SortKeyView::Desc
        } else {
            SortKeyView::Asc
        }),
{
    let (quote, close, doubled) = match dialect {
        SqlDialect::SqlServer => ('[', ']', "]]"),
        SqlDialect::MySql => ('`', '`', "``"),
        _ => ('"', '"', "\"\""),
    };
    proof {
        reveal_strlit("]]");
        reveal_strlit("``");
        reveal_strlit("\"\"");
    }
    assert(doubled@ == seq![close_quote(dialect), close_quote(dialect)]);
    let escaped = crate::text::replace_char_str(name, close, doubled);
    let text = quoted_ident_text(quote, escaped.as_str());
    OrderItem {
        expr_text: text,
        ident: Some(IdentParts { value: escaped, quoted: true }),
        sort: if desc {
            SortKey::Desc
        } else {
            SortKey::Asc
        },
        nulls_first: None,
        fill_text: None,
    }
}

/// Cycles the sort of one grid column in the ORDER BY clause (see [`cycled_order`]).
pub fn cycle_relation_column_sort(order_by_clause: &str, columns: &Vec<String>, column: usize, dialect: SqlDialect) -> (r: Result<String, RelationFilterError>)
    ensures
        match (r, cycled_order(order_by_clause@, strings_view(columns@), column, dialect)) {
            (Ok(s), Ok(t)) => s@ == t,
            (Err(e), Err(m)) => e.0@ == m,
            _ => false,
        },
{
    let ghost cols = strings_view(columns@);
    let options = match validate_relation_preview_options("", order_by_clause, dialect) {
        Ok(o) => o,
        Err(e) => {
            return Err(e);
        },
    };
    let mut items = match parse_order_by_items(&options.order_by_clause, dialect) {
        Ok(v) => v,
        Err(e) => {
            return Err(e);
        },
    };
    if column >= columns.len() {
        return Err(query_error("column index is out of range"));
    }
    let ghost iv = items_view(items@);
    let mut matches: Vec<usize> = Vec::new();
    let mut kept: Vec<OrderItem> = Vec::new();
    let mut i: usize = 0;
    while i < items.len()
        invariant
            i <= items.len(),
            cols == strings_view(columns@),
            iv == items_view(items@),
            matches@.map_values(|x: usize| x as int) == column_matches(iv.take(i as int), cols, dialect, column as int),
            items_view(kept@) == without_column(iv.take(i as int), cols, dialect, column as int),
        decreases items.len() - i,
    {
        assert(iv.take(i + 1).drop_last() =~= iv.take(i as int));
        assert(iv.take(i + 1).last() == items@[i as int]@);
        let ghost mb = matches@;
        let ghost kb = items_view(kept@);
        match direct_column_exec(&items[i], columns, dialect) {
            Some(c) if c == column => {
                matches.push(i);
                assert(matches@.map_values(|x: usize| x as int) =~= mb.map_values(|x: usize| x as int).push(i as int));
            },
            _ => {
                let c = copy_item(&items[i]);
                kept.push(c);
                assert(items_view(kept@) =~= kb.push(items@[i as int]@));
            },
        }
        i += 1;
    }
    assert(iv.take(items.len() as int) =~= iv);
    if matches.len() == 0 {
        let item = column_item_exec(columns[column].as_str(), dialect, true);
        let ghost before = items_view(items@);
        items.push(item);
        assert(items_view(items@) =~= before.push(item@));
        return Ok(format_order_by(&items));
    }
    let first = matches[0];
    assert(matches@.map_values(|x: usize| x as int)[0] == first as int);
    proof {
        lemma_matches_in_range(iv, cols, dialect, column as int);
    }
    let is_desc = match items[first].sort {
        SortKey::Desc => true,
        _ => false,
    };
    if is_desc {
        let mut it = copy_item(&items[first]);
        it.sort = SortKey::Asc;
        let ghost before = items_view(items@);
        items.set(first, it);
        assert(items_view(items@) =~= before.update(first as int, OrderItemView { sort: SortKeyView::Asc, ..before[first as int] }));
        Ok(format_order_by(&items))
    } else {
        Ok(format_order_by(&kept))
    }
}

proof fn lemma_matches_in_range(items: Seq<OrderItemView>, columns: Seq<Seq<char>>, dialect: SqlDialect, c: int)
    ensures
        forall|k: int| 0 <= k < column_matches(items, columns, dialect, c).len() ==> 0 <= #[trigger] column_matches(items, columns, dialect, c)[k] < items.len(),
    decreases items.len(),
{
    if items.len() > 0 {
        let prev = column_matches(items.drop_last(), columns, dialect, c);
        lemma_matches_in_range(items.drop_last(), columns, dialect, c);
        let all = column_matches(items, columns, dialect, c);
        assert forall|k: int| 0 <= k < all.len() implies 0 <= #[trigger] all[k] < items.len() by {
            if k < prev.len() {
                assert(all[k] == prev[k]);
            }
        }
    }
}


/// Filtering by a date or time cell compares the column with the dialect's string literal of the
/// cell's complete text: the literal is quoted at both ends, and the clause is
/// `column = 'text'`.
pub proof fn law_temporal_filter_literal_is_quoted_text(column: Seq<char>, v: CellView, dialect: SqlDialect)
    requires
        v is Date || v is Time || v is DateTime || v is Timestamp,
    ensures
        cell_literal(v, dialect) == string_lit(cell_text(v), dialect),
        cell_literal(v, dialect).len() >= 2,
        cell_literal(v, dialect)[0] == '\'',
        cell_literal(v, dialect).last() == '\'',
        where_clause(column, v, dialect) == Ok::<Seq<char>, Seq<char>>(
            quoted_ident(column, dialect) + " = "@ + string_lit(cell_text(v), dialect),
        ),
{
}


proof fn lemma_column_matches_first(items: Seq<OrderItemView>, columns: Seq<Seq<char>>, dialect: SqlDialect, c: int)
    ensures
        (column_matches(items, columns, dialect, c).len() == 0) == (forall|i: int|
            0 <= i < items.len() ==> direct_column(#[trigger] items[i], columns, dialect) != Some(c)),
        forall|j: int|
            0 <= j < items.len() && direct_column(#[trigger] items[j], columns, dialect) == Some(c) && (
            forall|i: int| 0 <= i < j ==> direct_column(#[trigger] items[i], columns, dialect) != Some(c))
                ==> column_matches(items, columns, dialect, c).len() > 0 && column_matches(
                items,
                columns,
                dialect,
                c,
            )[0] == j,
    decreases items.len(),
{
    if items.len() > 0 {
        let d = items.drop_last();
        lemma_column_matches_first(d, columns, dialect, c);
        let ms = column_matches(items, columns, dialect, c);
        let md = column_matches(d, columns, dialect, c);
        assert forall|i: int| 0 <= i < d.len() implies d[i] == items[i] by {}
        if md.len() == 0 {
            if direct_column(items.last(), columns, dialect) == Some(c) {
                assert(ms =~= seq![items.len() - 1]);
                assert(direct_column(items[items.len() - 1], columns, dialect) == Some(c));
                assert forall|j: int|
                    0 <= j < items.len() && direct_column(#[trigger] items[j], columns, dialect) == Some(c)
                        && (forall|i: int| 0 <= i < j ==> direct_column(#[trigger] items[i], columns, dialect) != Some(c))
                    implies ms.len() > 0 && ms[0] == j by {
                    if j < items.len() - 1 {
                        assert(direct_column(d[j], columns, dialect) == Some(c));
                    }
                }
            } else {
                assert(ms == md);
                assert forall|i: int| 0 <= i < items.len() implies direct_column(#[trigger] items[i], columns, dialect) != Some(c) by {
                    if i < d.len() {
                        assert(direct_column(d[i], columns, dialect) != Some(c));
                    }
                }
            }
        } else {
            let k = choose|k: int| 0 <= k < d.len() && direct_column(#[trigger] d[k], columns, dialect) == Some(c);
            assert(direct_column(items[k], columns, dialect) == Some(c));
            assert(ms.len() > 0 && ms[0] == md[0]);
            assert forall|j: int|
                0 <= j < items.len() && direct_column(#[trigger] items[j], columns, dialect) == Some(c)
                    && (forall|i: int| 0 <= i < j ==> direct_column(#[trigger] items[i], columns, dialect) != Some(c))
                implies ms.len() > 0 && ms[0] == j by {
                if j == items.len() - 1 {
                    assert(k < j);
                    assert(direct_column(items[k], columns, dialect) != Some(c));
                }
                assert(j < d.len());
                assert(direct_column(d[j], columns, dialect) == Some(c));
                assert forall|i: int| 0 <= i < j implies direct_column(#[trigger] d[i], columns, dialect) != Some(c) by {
                    assert(d[i] == items[i]);
                }
            }
        }
    }
}

proof fn lemma_without_column_filter(items: Seq<OrderItemView>, columns: Seq<Seq<char>>, dialect: SqlDialect, c: int)
    ensures
        without_column(items, columns, dialect, c) == items.filter(
            |it: OrderItemView| direct_column(it, columns, dialect) != Some(c),
        ),
    decreases items.len(),
{
    reveal(Seq::filter);
    if items.len() > 0 {
        lemma_without_column_filter(items.drop_last(), columns, dialect, c);
    }
}

/// Header sorting cycles a column through descending, ascending and unsorted. Once the clause
/// reads as ORDER BY items and the column exists:
/// - when no item orders by the column, an item ordering by it descending is appended;
/// - when the first item ordering by it is DESC, that item turns ASC in place and nothing else
///   changes;
/// - otherwise (ASC, no keyword, or another sort, all of which sort ascending or by their own
///   rule), every item ordering by the column is removed and the rest kept in order.
pub proof fn law_cycle_sort_steps(
    clause: Seq<char>,
    columns: Seq<Seq<char>>,
    column: usize,
    dialect: SqlDialect,
    on: Option<Seq<char>>,
    items: Seq<OrderItemView>,
)
    requires
        preview_options(""@, clause, dialect) matches Ok((_, o)) && o == on,
        order_items(on, dialect) == Ok::<Seq<OrderItemView>, Seq<char>>(items),
        column < columns.len(),
    ensures
        (forall|i: int| 0 <= i < items.len() ==> direct_column(#[trigger] items[i], columns, dialect) != Some(column as int))
            ==> cycled_order(clause, columns, column, dialect) == Ok::<Seq<char>, Seq<char>>(
            order_text(items.push(column_item(columns[column as int], dialect, SortKeyView::Desc))),
        ),
        forall|j: int|
            0 <= j < items.len() && direct_column(#[trigger] items[j], columns, dialect) == Some(column as int) && (
            forall|i: int| 0 <= i < j ==> direct_column(#[trigger] items[i], columns, dialect) != Some(column as int))
                ==> (items[j].sort is Desc ==> cycled_order(clause, columns, column, dialect) == Ok::<
                Seq<char>,
                Seq<char>,
            >(order_text(items.update(j, OrderItemView { sort: SortKeyView::Asc, ..items[j] }))))
                && (!(items[j].sort is Desc) ==> cycled_order(clause, columns, column, dialect) == Ok::<
                Seq<char>,
                Seq<char>,
            >(order_text(items.filter(|it: OrderItemView| direct_column(it, columns, dialect) != Some(column as int))))),
{
    lemma_column_matches_first(items, columns, dialect, column as int);
    lemma_without_column_filter(items, columns, dialect, column as int);
}

} // verus!
