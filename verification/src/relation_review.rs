//! Read-only SQL review of the local edits of a relation tab.
use vstd::prelude::*;
use crate::relation_edit::{EditableRow, EditableRowState, RelationEditSession, RowStateView, RowView, rows_view};
use crate::text::{
    blank, chars_of, find_char, find_char_exec, int_text, i64_text, is_blank, join_strings,
    join_with, lemma_find_char, nat_digits, owned, push_replaced, push_str, replace_char,
    slice_vec, str_eq, strings_view, string_of, u64_text,
};
use crate::value::{cell_text, cells_view, CellValue, CellView};

verus! {

broadcast use vstd::laws_cmp::group_laws_cmp;

/// Shown while relation DDL / primary-key metadata is still loading.
pub const PENDING_LOADING_PRIMARY_KEY: &'static str = "-- Loading primary key metadata…";

/// `"name"` with embedded double quotes doubled.
pub open spec fn dq_ident(name: Seq<char>) -> Seq<char> {
    "\""@ + replace_char(name, '"', "\"\""@) + "\""@
}

/// A dotted name quoted part by part: `a.b` becomes `"a"."b"`.
pub open spec fn qualified_ident(name: Seq<char>) -> Seq<char>
    decreases name.len(),
{
    let i = find_char(name, '.');
    if i >= name.len() {
        dq_ident(name)
    } else {
        dq_ident(name.take(i as int)) + "."@ + qualified_ident(name.skip(i as int + 1))
    }
}

/// Single-quoted SQL text with embedded quotes doubled.
pub open spec fn quote_text(t: Seq<char>) -> Seq<char> {
    "'"@ + replace_char(t, '\'', "''"@) + "'"@
}

/// The literal of a cell in review SQL: NULL, TRUE/FALSE, numbers as written, text and every
/// other value single-quoted (other values by their complete text).
pub open spec fn review_literal(v: CellView) -> Seq<char> {
    match v {
        CellView::Null => "NULL"@,
        CellView::Boolean(b) => if b {
            "TRUE"@
        } else {
            "FALSE"@
        },
        CellView::Integer(i) => int_text(i as int),
        CellView::Unsigned(u) => nat_digits(u as nat),
        CellView::Float { display, json_number } => display,
        CellView::Text(t) => quote_text(t),
        _ => quote_text(cell_text(v)),
    }
}

/// Index of the first column named `name` (or `columns.len()`).
pub open spec fn first_index(columns: Seq<Seq<char>>, name: Seq<char>) -> int
    decreases columns.len(),
{
    if columns.len() == 0 {
        0
    } else if columns[0] == name {
        0
    } else {
        1 + first_index(columns.drop_first(), name)
    }
}

pub proof fn lemma_first_index(columns: Seq<Seq<char>>, name: Seq<char>, k: int)
    requires
        0 <= k <= columns.len(),
        forall|j: int| 0 <= j < k ==> columns[j] != name,
        k < columns.len() ==> columns[k] == name,
    ensures
        first_index(columns, name) == k,
    decreases columns.len(),
{
    if k > 0 {
        assert(columns[0] != name);
        assert forall|j: int| 0 <= j < k - 1 implies columns.drop_first()[j] != name by {
            assert(columns.drop_first()[j] == columns[j + 1]);
        }
        if k - 1 < columns.drop_first().len() {
            assert(columns.drop_first()[k - 1] == columns[k]);
        }
        lemma_first_index(columns.drop_first(), name, k - 1);
    }
}

/// Positions of the key columns that exist, in key order.
pub open spec fn key_indices(columns: Seq<Seq<char>>, key: Seq<Seq<char>>) -> Seq<int>
    decreases key.len(),
{
    if key.len() == 0 {
        Seq::empty()
    } else {
        let prefix = key_indices(columns, key.drop_last());
        let k = first_index(columns, key.last());
        if k < columns.len() {
            prefix.push(k)
        } else {
            prefix
        }
    }
}

/// `0, 1, .., n - 1`.
pub open spec fn range_ints(n: nat) -> Seq<int> {
    Seq::new(n, |i: int| i)
}

/// The columns that locate a row: the key columns, or every value's column when there is no key.
pub open spec fn locator_indices(n: nat, columns: Seq<Seq<char>>, key: Seq<Seq<char>>) -> Seq<int> {
    if key.len() == 0 {
        range_ints(n)
    } else {
        key_indices(columns, key)
    }
}

/// `"column" IS NULL` or `"column" = literal`.
pub open spec fn locator_term(column: Seq<char>, v: CellView) -> Seq<char> {
    if v is Null {
        dq_ident(column) + " IS NULL"@
    } else {
        dq_ident(column) + " = "@ + review_literal(v)
    }
}

/// The terms of the locator columns that have both a name and a value.
pub open spec fn locator_terms(values: Seq<CellView>, columns: Seq<Seq<char>>, idx: Seq<int>) -> Seq<
    Seq<char>,
>
    decreases idx.len(),
{
    if idx.len() == 0 {
        Seq::empty()
    } else {
        let prefix = locator_terms(values, columns, idx.drop_last());
        let i = idx.last();
        if 0 <= i < columns.len() && i < values.len() {
            prefix.push(locator_term(columns[i], values[i]))
        } else {
            prefix
        }
    }
}

/// The WHERE predicate that locates a row by its original values.
pub open spec fn row_predicate(values: Seq<CellView>, columns: Seq<Seq<char>>, key: Seq<Seq<char>>) -> Seq<
    char,
> {
    let idx = locator_indices(values.len(), columns, key);
    if idx.len() == 0 {
        "/* row locator validated at execution */ 1 = 1"@
    } else {
        join_with(locator_terms(values, columns, idx), " AND "@)
    }
}

/// One UPDATE per changed column (ascending) that has a name and a current value.
pub open spec fn update_statements(
    row: RowView,
    changed: Set<usize>,
    table: Seq<char>,
    columns: Seq<Seq<char>>,
    key: Seq<Seq<char>>,
    n: int,
) -> Seq<Seq<char>>
    decreases n,
{
    if n <= 0 {
        Seq::empty()
    } else {
        let prefix = update_statements(row, changed, table, columns, key, n - 1);
        let c = n - 1;
        if changed.contains(c as usize) && c < columns.len() && c < row.current.len() {
            prefix.push(
                "UPDATE "@ + table + " SET "@ + dq_ident(columns[c]) + " = "@ + review_literal(
                    row.current[c],
                ) + " WHERE "@ + row_predicate(row.original, columns, key) + ";"@,
            )
        } else {
            prefix
        }
    }
}

/// Quoted names of the supplied columns below `n` that have a name, ascending.
pub open spec fn insert_names(row: RowView, columns: Seq<Seq<char>>, n: int) -> Seq<Seq<char>>
    decreases n,
{
    if n <= 0 {
        Seq::empty()
    } else {
        let prefix = insert_names(row, columns, n - 1);
        let c = n - 1;
        if row.supplied.contains(c as usize) && c < columns.len() {
            prefix.push(dq_ident(columns[c]))
        } else {
            prefix
        }
    }
}

/// Literals of the supplied named columns below `n` that have a current value, ascending.
pub open spec fn insert_values(row: RowView, columns: Seq<Seq<char>>, n: int) -> Seq<Seq<char>>
    decreases n,
{
    if n <= 0 {
        Seq::empty()
    } else {
        let prefix = insert_values(row, columns, n - 1);
        let c = n - 1;
        if row.supplied.contains(c as usize) && c < columns.len() && c < row.current.len() {
            prefix.push(review_literal(row.current[c]))
        } else {
            prefix
        }
    }
}

/// The INSERT of an insert draft: its supplied columns, or DEFAULT VALUES when there are none.
pub open spec fn insert_statement(row: RowView, table: Seq<char>, columns: Seq<Seq<char>>) -> Seq<char> {
    let names = insert_names(row, columns, columns.len() as int);
    if names.len() == 0 {
        "INSERT INTO "@ + table + " DEFAULT VALUES;"@
    } else {
        "INSERT INTO "@ + table + " ("@ + join_with(names, ", "@) + ") VALUES ("@ + join_with(
            insert_values(row, columns, columns.len() as int),
            ", "@,
        ) + ");"@
    }
}

/// The statements that a row contributes to the review.
pub open spec fn row_statements(row: RowView, table: Seq<char>, columns: Seq<Seq<char>>, key: Seq<Seq<char>>) -> Seq<
    Seq<char>,
> {
    match row.state {
        RowStateView::Updated(changed) => {
            let n = if columns.len() < row.current.len() {
                columns.len() as int
            } else {
                row.current.len() as int
            };
            update_statements(row, changed, table, columns, key, n)
        },
        RowStateView::InsertDraft => seq![insert_statement(row, table, columns)],
        RowStateView::Deleted => seq![
            "DELETE FROM "@ + table + " WHERE "@ + row_predicate(row.original, columns, key) + ";"@,
        ],
        _ => Seq::empty(),
    }
}

/// The statements of all rows, in row order.
pub open spec fn all_statements(rows: Seq<RowView>, table: Seq<char>, columns: Seq<Seq<char>>, key: Seq<Seq<char>>) -> Seq<
    Seq<char>,
>
    decreases rows.len(),
{
    if rows.len() == 0 {
        Seq::empty()
    } else {
        all_statements(rows.drop_last(), table, columns, key) + row_statements(
            rows.last(),
            table,
            columns,
            key,
        )
    }
}

/// The review SQL: one statement per line.
pub open spec fn review_sql(rows: Seq<RowView>, relation: Seq<char>, columns: Seq<Seq<char>>, key: Seq<Seq<char>>) -> Seq<
    char,
> {
    join_with(all_statements(rows, qualified_ident(relation), columns, key), "\n"@)
}

/// Appends [`dq_ident`].
pub fn push_dq_ident(out: &mut String, name: &[char])
    ensures
        final(out)@ == old(out)@ + dq_ident(name@),
{
    push_str(out, "\"");
    push_replaced(out, name, '"', "\"\"");
    push_str(out, "\"");
    assert(out@ =~= old(out)@ + dq_ident(name@));
}

/// A double-quoted identifier.
pub fn quote_identifier(value: &str) -> (out: String)
    ensures
        out@ == dq_ident(value@),
{
    let mut out = String::new();
    let cs = chars_of(value);
    push_dq_ident(&mut out, &cs);
    assert(out@ =~= dq_ident(value@));
    out
}

/// A dotted name quoted part by part.
pub fn quote_qualified_identifier(value: &str) -> (out: String)
    ensures
        out@ == qualified_ident(value@),
{
    let cs = chars_of(value);
    let mut out = String::new();
    let mut rest = cs;
    loop
        invariant
            out@ + qualified_ident(rest@) == qualified_ident(value@),
        decreases rest.len(),
    {
        let i = find_char_exec(&rest, '.');
        proof {
            lemma_find_char(rest@, '.');
        }
        if i >= rest.len() {
            push_dq_ident(&mut out, &rest);
            assert(out@ =~= qualified_ident(value@));
            return out;
        }
        let head = slice_vec(&rest, 0, i);
        let tail = slice_vec(&rest, i + 1, rest.len());
        assert(head@ =~= rest@.take(i as int));
        assert(tail@ =~= rest@.skip(i + 1));
        let ghost before = out@;
        push_dq_ident(&mut out, &head);
        push_str(&mut out, ".");
        assert(out@ + qualified_ident(tail@) =~= before + qualified_ident(rest@));
        rest = tail;
    }
}

/// Appends [`quote_text`].
fn push_quote_text(out: &mut String, t: &[char])
    ensures
        final(out)@ == old(out)@ + quote_text(t@),
{
    push_str(out, "'");
    push_replaced(out, t, '\'', "''");
    push_str(out, "'");
    assert(out@ =~= old(out)@ + quote_text(t@));
}

/// The review literal of a cell (see [`review_literal`]).
pub fn literal(value: &CellValue) -> (out: String)
    ensures
        out@ == review_literal(value@),
{
    match value {
        CellValue::Null => owned("NULL"),
        CellValue::Boolean(b) => if *b {
            owned("TRUE")
        } else {
            owned("FALSE")
        },
        CellValue::Integer(i) => i64_text(*i),
        CellValue::Unsigned(u) => u64_text(*u),
        CellValue::Float(f) => f.display.clone(),
        CellValue::Text(t) => {
            let cs = chars_of(t.as_str());
            let mut out = String::new();
            push_quote_text(&mut out, &cs);
            assert(out@ =~= review_literal(value@));
            out
        },
        _ => {
            let text = value.clipboard_text();
            let cs = chars_of(text.as_str());
            let mut out = String::new();
            push_quote_text(&mut out, &cs);
            assert(out@ =~= review_literal(value@));
            out
        },
    }
}

/// Indices as integers.
pub open spec fn as_ints(s: Seq<usize>) -> Seq<int> {
    s.map_values(|x: usize| x as int)
}

/// Position of the first column named `name` (or the column count).
fn position_of(columns: &Vec<String>, name: &String) -> (k: usize)
    ensures
        k == first_index(strings_view(columns@), name@),
{
    let ghost cols = strings_view(columns@);
    let mut k: usize = 0;
    while k < columns.len() && !str_eq(columns[k].as_str(), name.as_str())
        invariant
            k <= columns.len(),
            cols == strings_view(columns@),
            forall|j: int| 0 <= j < k ==> cols[j] != name@,
        decreases columns.len() - k,
    {
        k += 1;
    }
    proof {
        lemma_first_index(cols, name@, k as int);
    }
    k
}

/// The WHERE predicate locating a row by its original `values` (see [`row_predicate`]).
pub fn predicate(values: &Vec<CellValue>, columns: &Vec<String>, primary_key_columns: &Vec<String>) -> (out: String)
    ensures
        out@ == row_predicate(cells_view(values@), strings_view(columns@), strings_view(
            primary_key_columns@,
        )),
{
    let ghost vals = cells_view(values@);
    let ghost cols = strings_view(columns@);
    let ghost key = strings_view(primary_key_columns@);
    let mut indices: Vec<usize> = Vec::new();
    if primary_key_columns.len() == 0 {
        let mut i: usize = 0;
        while i < values.len()
            invariant
                i <= values.len(),
                as_ints(indices@) == range_ints(i as nat),
            decreases values.len() - i,
        {
            let ghost before = indices@;
            indices.push(i);
            assert(indices@ =~= before.push(i));
            assert(as_ints(indices@) =~= as_ints(before).push(i as int));
            assert(as_ints(indices@) =~= range_ints((i + 1) as nat));
            i += 1;
        }
    } else {
        let mut i: usize = 0;
        while i < primary_key_columns.len()
            invariant
                i <= primary_key_columns.len(),
                key == strings_view(primary_key_columns@),
                cols == strings_view(columns@),
                as_ints(indices@) == key_indices(cols, key.take(i as int)),
            decreases primary_key_columns.len() - i,
        {
            assert(key.take(i + 1).drop_last() =~= key.take(i as int));
            let k = position_of(columns, &primary_key_columns[i]);
            if k < columns.len() {
                indices.push(k);
            }
            assert(as_ints(indices@) =~= key_indices(cols, key.take(i + 1)));
            i += 1;
        }
        assert(key.take(primary_key_columns.len() as int) =~= key);
    }
    let ghost idx = as_ints(indices@);
    assert(idx == locator_indices(vals.len(), cols, key));
    if indices.len() == 0 {
        return owned("/* row locator validated at execution */ 1 = 1");
    }
    let mut terms: Vec<String> = Vec::new();
    let mut j: usize = 0;
    while j < indices.len()
        invariant
            j <= indices.len(),
            idx == as_ints(indices@),
            vals == cells_view(values@),
            cols == strings_view(columns@),
            strings_view(terms@) == locator_terms(vals, cols, idx.take(j as int)),
        decreases indices.len() - j,
    {
        assert(idx.take(j + 1).drop_last() =~= idx.take(j as int));
        let index = indices[j];
        if index < columns.len() && index < values.len() {
            let mut term = String::new();
            let name = chars_of(columns[index].as_str());
            push_dq_ident(&mut term, &name);
            if values[index].is_null() {
                push_str(&mut term, " IS NULL");
            } else {
                push_str(&mut term, " = ");
                let lit = literal(&values[index]);
                push_str(&mut term, lit.as_str());
            }
            assert(term@ =~= locator_term(cols[index as int], vals[index as int]));
            let ghost before = strings_view(terms@);
            terms.push(term);
            assert(strings_view(terms@) =~= before.push(locator_term(cols[index as int], vals[index as int])));
        }
        assert(strings_view(terms@) =~= locator_terms(vals, cols, idx.take(j + 1)));
        j += 1;
    }
    assert(idx.take(indices.len() as int) =~= idx);
    join_strings(&terms, " AND ")
}

/// Appends the statements of one row (see [`row_statements`]).
fn push_row_statements(
    statements: &mut Vec<String>,
    row: &EditableRow,
    table: &str,
    columns: &Vec<String>,
    primary_key_columns: &Vec<String>,
)
    ensures
        strings_view(final(statements)@) == strings_view(old(statements)@) + row_statements(
            row@,
            table@,
            strings_view(columns@),
            strings_view(primary_key_columns@),
        ),
{
    let ghost cols = strings_view(columns@);
    let ghost key = strings_view(primary_key_columns@);
    let ghost start = strings_view(statements@);
    match &row.state {
        EditableRowState::Updated { changed_columns } => {
            let n = if columns.len() < row.current.len() {
                columns.len()
            } else {
                row.current.len()
            };
            let pred = predicate(&row.original, columns, primary_key_columns);
            let mut c: usize = 0;
            while c < n
                invariant
                    c <= n,
                    n <= columns.len(),
                    n <= row.current.len(),
                    cols == strings_view(columns@),
                    key == strings_view(primary_key_columns@),
                    pred@ == row_predicate(row@.original, cols, key),
                    strings_view(statements@) == start + update_statements(
                        row@,
                        changed_columns@,
                        table@,
                        cols,
                        key,
                        c as int,
                    ),
                decreases n - c,
            {
                if changed_columns.contains(&c) {
                    let mut stmt = String::new();
                    push_str(&mut stmt, "UPDATE ");
                    push_str(&mut stmt, table);
                    push_str(&mut stmt, " SET ");
                    let name = chars_of(columns[c].as_str());
                    push_dq_ident(&mut stmt, &name);
                    push_str(&mut stmt, " = ");
                    let lit = literal(&row.current[c]);
                    push_str(&mut stmt, lit.as_str());
                    push_str(&mut stmt, " WHERE ");
                    push_str(&mut stmt, pred.as_str());
                    push_str(&mut stmt, ";");
                    let ghost before = strings_view(statements@);
                    statements.push(stmt);
                    assert(strings_view(statements@) =~= before.push(stmt@));
                }
                assert(strings_view(statements@) =~= start + update_statements(
                    row@,
                    changed_columns@,
                    table@,
                    cols,
                    key,
                    c + 1,
                ));
                c += 1;
            }
        },
        EditableRowState::InsertDraft => {
            let mut names: Vec<String> = Vec::new();
            let mut values: Vec<String> = Vec::new();
            let mut c: usize = 0;
            while c < columns.len()
                invariant
                    c <= columns.len(),
                    cols == strings_view(columns@),
                    row.state@ is InsertDraft,
                    strings_view(names@) == insert_names(row@, cols, c as int),
                    strings_view(values@) == insert_values(row@, cols, c as int),
                decreases columns.len() - c,
            {
                if row.supplied_columns.contains(&c) {
                    let name = quote_identifier(columns[c].as_str());
                    let ghost nb = strings_view(names@);
                    names.push(name);
                    assert(strings_view(names@) =~= nb.push(dq_ident(cols[c as int])));
                    if c < row.current.len() {
                        let lit = literal(&row.current[c]);
                        let ghost vb = strings_view(values@);
                        values.push(lit);
                        assert(strings_view(values@) =~= vb.push(review_literal(row@.current[c as int])));
                    }
                }
                assert(strings_view(names@) =~= insert_names(row@, cols, c + 1));
                assert(strings_view(values@) =~= insert_values(row@, cols, c + 1));
                c += 1;
            }
            let mut stmt = String::new();
            push_str(&mut stmt, "INSERT INTO ");
            push_str(&mut stmt, table);
            if names.len() == 0 {
                push_str(&mut stmt, " DEFAULT VALUES;");
            } else {
                push_str(&mut stmt, " (");
                let n = join_strings(&names, ", ");
                push_str(&mut stmt, n.as_str());
                push_str(&mut stmt, ") VALUES (");
                let v = join_strings(&values, ", ");
                push_str(&mut stmt, v.as_str());
                push_str(&mut stmt, ");");
            }
            assert(stmt@ =~= insert_statement(row@, table@, cols));
            statements.push(stmt);
            assert(strings_view(statements@) =~= start + seq![insert_statement(row@, table@, cols)]);
        },
        EditableRowState::Deleted => {
            let pred = predicate(&row.original, columns, primary_key_columns);
            let mut stmt = String::new();
            push_str(&mut stmt, "DELETE FROM ");
            push_str(&mut stmt, table);
            push_str(&mut stmt, " WHERE ");
            push_str(&mut stmt, pred.as_str());
            push_str(&mut stmt, ";");
            let ghost sv = stmt@;
            statements.push(stmt);
            assert(strings_view(statements@) =~= start + seq![sv]);
        },
        _ => {
            assert(row_statements(row@, table@, cols, key) =~= Seq::<Seq<char>>::empty());
            assert(strings_view(statements@) =~= start + Seq::<Seq<char>>::empty());
        },
    }
}

/// The review SQL of the session's local edits (see [`review_sql`]): UPDATE per changed
/// column, INSERT per insert draft, DELETE per deleted row, one per line.
pub fn preview_sql(
    session: &RelationEditSession,
    relation: &str,
    columns: &Vec<String>,
    primary_key_columns: &Vec<String>,
) -> (out: String)
    ensures
        out@ == review_sql(
            session@.rows,
            relation@,
            strings_view(columns@),
            strings_view(primary_key_columns@),
        ),
{
    let table = quote_qualified_identifier(relation);
    let ghost rows = session@.rows;
    let ghost cols = strings_view(columns@);
    let ghost key = strings_view(primary_key_columns@);
    let mut statements: Vec<String> = Vec::new();
    let mut i: usize = 0;
    while i < session.rows.len()
        invariant
            i <= session.rows.len(),
            rows == rows_view(session.rows@),
            cols == strings_view(columns@),
            key == strings_view(primary_key_columns@),
            table@ == qualified_ident(relation@),
            strings_view(statements@) == all_statements(rows.take(i as int), table@, cols, key),
        decreases session.rows.len() - i,
    {
        assert(rows.take(i + 1).drop_last() =~= rows.take(i as int));
        assert(rows.take(i + 1).last() == session.rows@[i as int]@);
        push_row_statements(&mut statements, &session.rows[i], table.as_str(), columns, primary_key_columns);
        i += 1;
    }
    assert(rows.take(session.rows.len() as int) =~= rows);
    join_strings(&statements, "\n")
}

/// Counts of updated, inserted and deleted rows and of the statements they make.
pub open spec fn review_summary(rows: Seq<RowView>) -> (nat, nat, nat, nat)
    decreases rows.len(),
{
    if rows.len() == 0 {
        (0, 0, 0, 0)
    } else {
        let (u, i, d, s) = review_summary(rows.drop_last());
        match rows.last().state {
            RowStateView::Updated(changed) => (u + 1, i, d, s + changed.len()),
            RowStateView::InsertDraft => (u, i + 1, d, s + 1),
            RowStateView::Deleted => (u, i, d + 1, s + 1),
            _ => (u, i, d, s),
        }
    }
}

/// `(updated rows, inserted rows, deleted rows, statements)`: an updated row makes one
/// statement per changed column.
pub fn summary(session: &RelationEditSession) -> (r: (usize, usize, usize, usize))
    requires
        review_summary(session@.rows).3 <= usize::MAX,
    ensures
        r.0 == review_summary(session@.rows).0,
        r.1 == review_summary(session@.rows).1,
        r.2 == review_summary(session@.rows).2,
        r.3 == review_summary(session@.rows).3,
{
    let ghost rows = session@.rows;
    let mut updated: usize = 0;
    let mut inserted: usize = 0;
    let mut deleted: usize = 0;
    let mut statements: usize = 0;
    let mut i: usize = 0;
    while i < session.rows.len()
        invariant
            i <= session.rows.len(),
            rows == rows_view(session.rows@),
            review_summary(rows).3 <= usize::MAX,
            (updated as nat, inserted as nat, deleted as nat, statements as nat) == review_summary(
                rows.take(i as int),
            ),
        decreases session.rows.len() - i,
    {
        assert(rows.take(i + 1).drop_last() =~= rows.take(i as int));
        proof {
            lemma_summary_monotone(rows, i + 1);
        }
        match &session.rows[i].state {
            EditableRowState::Updated { changed_columns } => {
                updated += 1;
                statements += changed_columns.len();
            },
            EditableRowState::InsertDraft => {
                inserted += 1;
                statements += 1;
            },
            EditableRowState::Deleted => {
                deleted += 1;
                statements += 1;
            },
            _ => {},
        }
        i += 1;
    }
    assert(rows.take(session.rows.len() as int) =~= rows);
    (updated, inserted, deleted, statements)
}

/// Each count of [`review_summary`] only grows along the rows, and is at most their number
/// (the statement count aside).
pub proof fn lemma_summary_monotone(rows: Seq<RowView>, k: int)
    requires
        0 <= k <= rows.len(),
    ensures
        review_summary(rows.take(k)).3 <= review_summary(rows).3,
        review_summary(rows.take(k)).0 <= k,
        review_summary(rows.take(k)).1 <= k,
        review_summary(rows.take(k)).2 <= k,
    decreases rows.len(),
{
    if k < rows.len() {
        assert(rows.drop_last().take(k) =~= rows.take(k));
        lemma_summary_monotone(rows.drop_last(), k);
    } else {
        assert(rows.take(k) =~= rows);
        if rows.len() > 0 {
            lemma_summary_monotone(rows.drop_last(), k - 1);
            assert(rows.drop_last().take(k - 1) =~= rows.drop_last());
        }
    }
}

/// Transaction state of a relation tab.
#[derive(Clone, Copy, Debug, PartialEq, Eq, Structural)]
pub enum TransactionState {
    Idle,
    Active,
    Committing,
    RollingBack,
}

/// Loading state of a piece of relation data, keeping the previous value while reloading.
#[derive(Clone, Debug)]
pub enum RelationLoad<T> {
    Empty,
    Loading { previous: Option<T> },
    Ready(T),
    Failed { message: String, previous: Option<T> },
    Cancelled { previous: Option<T> },
}

/// The relation metadata that the review needs: the primary-key column names.
#[derive(Clone, Debug)]
pub struct RelationDdl {
    pub primary_key: Vec<String>,
}

/// A loaded data snapshot: the column names of each result set.
#[derive(Clone, Debug)]
pub struct RelationSnapshot {
    pub result_sets: Vec<Vec<String>>,
}

/// The parts of a relation tab that the SQL review reads and writes.
#[derive(Clone, Debug)]
pub struct RelationTab {
    pub name: String,
    pub transaction_state: TransactionState,
    pub transaction_review_sql: Option<String>,
    pub edit: Option<RelationEditSession>,
    pub ddl: RelationLoad<RelationDdl>,
    pub data: RelationLoad<RelationSnapshot>,
}

impl RelationTab {
    /// A tab on the named relation with nothing loaded.
    pub fn new(name: &str) -> (tab: RelationTab)
        ensures
            tab.name@ == name@,
            tab.transaction_state == TransactionState::Idle,
            tab.transaction_review_sql is None,
            tab.edit is None,
            tab.ddl is Empty,
            tab.data is Empty,
    {
        RelationTab {
            name: owned(name),
            transaction_state: TransactionState::Idle,
            transaction_review_sql: None,
            edit: None,
            ddl: RelationLoad::Empty,
            data: RelationLoad::Empty,
        }
    }

    /// The tab title: the relation name.
    pub fn title(&self) -> (r: &str)
        ensures
            r@ == self.name@,
    {
        self.name.as_str()
    }
}

/// Whether some row of the tab's edit session is not clean.
pub open spec fn has_dirty_edits(tab: RelationTab) -> bool {
    match tab.edit {
        Some(e) => exists|i: int| 0 <= i < e@.rows.len() && !((#[trigger] e@.rows[i]).state is Clean),
        None => false,
    }
}

/// The snapshot the review reads columns from: the ready one, else the one kept while loading.
pub open spec fn review_snapshot(data: RelationLoad<RelationSnapshot>) -> Option<RelationSnapshot> {
    match data {
        RelationLoad::Ready(s) => Some(s),
        RelationLoad::Loading { previous } => previous,
        RelationLoad::Failed { message, previous } => previous,
        RelationLoad::Cancelled { previous } => previous,
        RelationLoad::Empty => None,
    }
}

/// `preview_sql_for_tab`: the review of the tab's edits over the columns of the last result set,
/// located by the primary key; absent without an edit session, ready DDL or a result set.
pub open spec fn tab_preview(tab: RelationTab) -> Option<Seq<char>> {
    match (tab.edit, tab.ddl, review_snapshot(tab.data)) {
        (Some(e), RelationLoad::Ready(ddl), Some(snap)) => if snap.result_sets@.len() > 0 {
            Some(
                review_sql(
                    e@.rows,
                    tab.name@,
                    strings_view(snap.result_sets@.last()@),
                    strings_view(ddl.primary_key@),
                ),
            )
        } else {
            None
        },
        _ => None,
    }
}

/// `activity_pending_sql`: mid-transaction, the stored non-blank review SQL; idle and clean,
/// nothing; otherwise the live preview, or the loading placeholder while DDL is missing.
pub open spec fn pending_activity(tab: RelationTab) -> Seq<char> {
    if tab.transaction_state != TransactionState::Idle && tab.transaction_review_sql is Some
        && !blank(tab.transaction_review_sql.unwrap()@) {
        tab.transaction_review_sql.unwrap()@
    } else if !has_dirty_edits(tab) && tab.transaction_state == TransactionState::Idle {
        Seq::empty()
    } else {
        match tab_preview(tab) {
            Some(sql) => sql,
            None => PENDING_LOADING_PRIMARY_KEY@,
        }
    }
}

/// Whether the tab has an edit session with a row that is not clean.
pub fn relation_has_dirty_edits(tab: &RelationTab) -> (r: bool)
    ensures
        r == has_dirty_edits(*tab),
{
    match &tab.edit {
        Some(edit) => {
            let mut i: usize = 0;
            while i < edit.rows.len()
                invariant
                    i <= edit.rows.len(),
                    tab.edit == Some(*edit),
                    forall|k: int| 0 <= k < i ==> ((#[trigger] edit@.rows[k]).state is Clean),
                decreases edit.rows.len() - i,
            {
                match edit.rows[i].state {
                    EditableRowState::Clean => {},
                    _ => {
                        assert(!(edit@.rows[i as int].state is Clean));
                        assert(tab.edit == Some(*edit));
                        assert(has_dirty_edits(*tab));
                        return true;
                    },
                }
                i += 1;
            }
            false
        },
        None => false,
    }
}

/// Live review SQL of the tab when DDL is ready (see [`tab_preview`]).
pub fn preview_sql_for_tab(tab: &RelationTab) -> (r: Option<String>)
    ensures
        match r {
            Some(s) => tab_preview(*tab) == Some(s@),
            None => tab_preview(*tab) is None,
        },
{
    let edit = match &tab.edit {
        Some(e) => e,
        None => {
            return None;
        },
    };
    let primary_key_columns = match &tab.ddl {
        RelationLoad::Ready(ddl) => &ddl.primary_key,
        _ => {
            return None;
        },
    };
    let snapshot = match &tab.data {
        RelationLoad::Ready(s) => Some(s),
        RelationLoad::Loading { previous } => previous.as_ref(),
        RelationLoad::Failed { message, previous } => previous.as_ref(),
        RelationLoad::Cancelled { previous } => previous.as_ref(),
        RelationLoad::Empty => None,
    };
    let snapshot = match snapshot {
        Some(s) => s,
        None => {
            return None;
        },
    };
    let n = snapshot.result_sets.len();
    if n == 0 {
        return None;
    }
    let columns = &snapshot.result_sets[n - 1];
    Some(preview_sql(edit, tab.title(), columns, primary_key_columns))
}

/// Pending SQL for the SQL activity view (see [`pending_activity`]).
pub fn activity_pending_sql(tab: &RelationTab) -> (r: String)
    ensures
        r@ == pending_activity(*tab),
{
    let dirty = relation_has_dirty_edits(tab);
    if tab.transaction_state != TransactionState::Idle {
        match &tab.transaction_review_sql {
            Some(sql) => {
                if !is_blank(sql.as_str()) {
                    return sql.clone();
                }
            },
            None => {},
        }
    }
    if !dirty && tab.transaction_state == TransactionState::Idle {
        return String::new();
    }
    match preview_sql_for_tab(tab) {
        Some(sql) => sql,
        None => owned(PENDING_LOADING_PRIMARY_KEY),
    }
}

/// Rebuilds the stored review SQL from the edit session when the tab has dirty edits and DDL
/// is ready: the preview when it is not blank, else nothing.
pub fn refresh_transaction_review_sql(tab: &mut RelationTab)
    ensures
        final(tab).name == old(tab).name,
        final(tab).transaction_state == old(tab).transaction_state,
        final(tab).edit == old(tab).edit,
        final(tab).ddl == old(tab).ddl,
        final(tab).data == old(tab).data,
        match (has_dirty_edits(*old(tab)), tab_preview(*old(tab))) {
            (true, Some(sql)) => if blank(sql) {
                final(tab).transaction_review_sql is None
            } else {
                final(tab).transaction_review_sql matches Some(s) && s@ == sql
            },
            _ => final(tab).transaction_review_sql == old(tab).transaction_review_sql,
        },
{
    if !relation_has_dirty_edits(tab) {
        return;
    }
    match preview_sql_for_tab(tab) {
        Some(sql) => {
            if is_blank(sql.as_str()) {
                tab.transaction_review_sql = None;
            } else {
                tab.transaction_review_sql = Some(sql);
            }
        },
        None => {},
    }
}


/// The columns below `n` that an insert draft supplies and that have a name, ascending.
pub open spec fn named_supplied_columns(row: RowView, columns: Seq<Seq<char>>, n: int) -> Seq<int>
    decreases n,
{
    if n <= 0 {
        Seq::empty()
    } else {
        let prefix = named_supplied_columns(row, columns, n - 1);
        let c = n - 1;
        if row.supplied.contains(c as usize) && c < columns.len() {
            prefix.push(c)
        } else {
            prefix
        }
    }
}

/// An insert draft's INSERT lists, column by column in ascending order, each supplied named
/// column's quoted name, and gives it the literal of the value the user edited into the row
/// (its current value, never the original one); a column past the row's values gets a name but
/// no value.
pub proof fn law_insert_lists_current_values(row: RowView, columns: Seq<Seq<char>>, n: int)
    ensures
        insert_names(row, columns, n) == named_supplied_columns(row, columns, n).map_values(
            |c: int| dq_ident(columns[c]),
        ),
        insert_values(row, columns, n) == named_supplied_columns(
            row,
            columns,
            if n <= row.current.len() {
                n
            } else {
                row.current.len() as int
            },
        ).map_values(|c: int| review_literal(row.current[c])),
        n <= row.current.len() ==> insert_values(row, columns, n).len() == insert_names(
            row,
            columns,
            n,
        ).len(),
    decreases n,
{
    if n > 0 {
        law_insert_lists_current_values(row, columns, n - 1);
        let p = named_supplied_columns(row, columns, n - 1);
        let c = n - 1;
        if row.supplied.contains(c as usize) && c < columns.len() {
            assert(p.push(c).map_values(|c: int| dq_ident(columns[c])) =~= p.map_values(
                |c: int| dq_ident(columns[c]),
            ).push(dq_ident(columns[c])));
            assert(p.push(c).map_values(|c: int| review_literal(row.current[c])) =~= p.map_values(
                |c: int| review_literal(row.current[c]),
            ).push(review_literal(row.current[c])));
        }
    } else {
        assert(named_supplied_columns(row, columns, 0) =~= Seq::<int>::empty());
        assert(named_supplied_columns(row, columns, n).map_values(|c: int| dq_ident(columns[c]))
            =~= Seq::<Seq<char>>::empty());
    }
}


/// The changed columns below `n` (and below `limit`) that have a name, ascending.
pub open spec fn changed_named_columns(changed: Set<usize>, columns: Seq<Seq<char>>, limit: int, n: int) -> Seq<int>
    decreases n,
{
    if n <= 0 {
        Seq::empty()
    } else {
        let prefix = changed_named_columns(changed, columns, limit, n - 1);
        let c = n - 1;
        if changed.contains(c as usize) && c < columns.len() && c < limit {
            prefix.push(c)
        } else {
            prefix
        }
    }
}

/// An updated row gives one UPDATE per changed named column it holds a value for, ascending:
/// it sets that column to the literal of the row's current value and finds the row by its
/// original values.
pub proof fn law_updates_set_current_values(
    row: RowView,
    changed: Set<usize>,
    table: Seq<char>,
    columns: Seq<Seq<char>>,
    key: Seq<Seq<char>>,
    n: int,
)
    ensures
        update_statements(row, changed, table, columns, key, n) == changed_named_columns(
            changed,
            columns,
            row.current.len() as int,
            n,
        ).map_values(
            |c: int|
                "UPDATE "@ + table + " SET "@ + dq_ident(columns[c]) + " = "@ + review_literal(
                    row.current[c],
                ) + " WHERE "@ + row_predicate(row.original, columns, key) + ";"@,
        ),
    decreases n,
{
    let f = |c: int|
        "UPDATE "@ + table + " SET "@ + dq_ident(columns[c]) + " = "@ + review_literal(row.current[c])
            + " WHERE "@ + row_predicate(row.original, columns, key) + ";"@;
    if n > 0 {
        law_updates_set_current_values(row, changed, table, columns, key, n - 1);
        let p = changed_named_columns(changed, columns, row.current.len() as int, n - 1);
        let c = n - 1;
        if changed.contains(c as usize) && c < columns.len() && c < row.current.len() {
            assert(p.push(c).map_values(f) =~= p.map_values(f).push(f(c)));
        }
    } else {
        assert(changed_named_columns(changed, columns, row.current.len() as int, n).map_values(f)
            =~= Seq::<Seq<char>>::empty());
    }
}

} // verus!
