//! Clipboard payloads for grid cells and rows, and the OSC 52 terminal sequence.
use vstd::prelude::*;
use crate::dialect::{quote_identifier, quoted_ident, SqlDialect};
use crate::relation_filter::{cell_literal, cell_sql_literal, where_clause};
use crate::text::{
    all_digits, chars_of, digits_value, int_text, is_digit, join_strings, join_with,
    lemma_nat_digits_read_back, nat_digits, owned, push_replaced, push_str, push_u128_digits,
    replace_char, strings_view,
};
use crate::value::{cell_text, cells_view, CellValue, CellView};

verus! {

/// Why an OSC 52 sequence was not produced.
#[derive(Clone, Debug, PartialEq, Eq, Structural)]
pub enum Osc52Error {
    PayloadTooLarge { encoded_bytes: usize, max_bytes: usize },
}

impl Osc52Error {
    /// The error message.
    pub fn message(&self) -> (r: String)
        ensures
            match self {
                Osc52Error::PayloadTooLarge { encoded_bytes, max_bytes } => r@
                    == "clipboard payload is too large after encoding ("@ + nat_digits(
                    *encoded_bytes as nat,
                ) + " bytes; limit "@ + nat_digits(*max_bytes as nat) + ")"@,
            },
    {
        match self {
            Osc52Error::PayloadTooLarge { encoded_bytes, max_bytes } => {
                let mut m = String::new();
                push_str(&mut m, "clipboard payload is too large after encoding (");
                push_u128_digits(&mut m, *encoded_bytes as u128);
                push_str(&mut m, " bytes; limit ");
                push_u128_digits(&mut m, *max_bytes as u128);
                push_str(&mut m, ")");
                m
            },
        }
    }
}

/// A character of the standard base64 alphabet: `A`–`Z`, `a`–`z`, `0`–`9`, `+`, `/`.
pub open spec fn base64_char(i: int) -> char {
    if i < 26 {
        ('A' as int + i) as char
    } else if i < 52 {
        ('a' as int + i - 26) as char
    } else if i < 62 {
        ('0' as int + i - 52) as char
    } else if i == 62 {
        '+'
    } else {
        '/'
    }
}

/// The standard base64 text of a byte string with `=` padding: each group of three bytes
/// becomes four characters of six bits each; a last group of one or two bytes is padded.
pub open spec fn base64_standard(bytes: Seq<u8>) -> Seq<char>
    decreases bytes.len(),
{
    if bytes.len() == 0 {
        Seq::empty()
    } else if bytes.len() == 1 {
        let a = bytes[0] as int;
        seq![base64_char(a / 4), base64_char((a % 4) * 16), '=', '=']
    } else if bytes.len() == 2 {
        let a = bytes[0] as int;
        let b = bytes[1] as int;
        seq![base64_char(a / 4), base64_char((a % 4) * 16 + b / 16), base64_char((b % 16) * 4), '=']
    } else {
        let a = bytes[0] as int;
        let b = bytes[1] as int;
        let c = bytes[2] as int;
        seq![
            base64_char(a / 4),
            base64_char((a % 4) * 16 + b / 16),
            base64_char((b % 16) * 4 + c / 64),
            base64_char(c % 64),
        ] + base64_standard(bytes.skip(3))
    }
}

/// `base64::engine::general_purpose::STANDARD.encode`: padded standard base64 (see
/// [`base64_standard`]), four ASCII characters per started group of three bytes.
#[verifier::external_body]
fn base64_encode(bytes: &[u8]) -> (r: String)
    ensures
        r@ == base64_standard(bytes@),
        r@.len() == 4 * ((bytes@.len() + 2) / 3),
        forall|i: int| 0 <= i < r@.len() ==> (r@[i] as u32) < 128,
{
    base64::Engine::encode(&base64::engine::general_purpose::STANDARD, bytes)
}

/// The OSC 52 clipboard sequence of a text: ESC `]52;c;`, the base64 of its UTF-8 bytes, BEL.
pub open spec fn osc52_text(encoded: Seq<char>) -> Seq<char> {
    seq!['\x1b', ']', '5', '2', ';', 'c', ';'] + encoded + seq!['\x07']
}

/// The OSC 52 sequence that puts `text` on the terminal clipboard; refused when the encoded
/// payload is longer than `max_bytes`.
pub fn osc52_sequence(text: &str, max_bytes: usize) -> (r: Result<String, Osc52Error>)
    ensures
        ({
            let encoded = base64_standard(vstd::string::StringSliceAdditionalSpecFns::spec_bytes(text));
            if encoded.len() > max_bytes {
                r == Err::<String, Osc52Error>(
                    Osc52Error::PayloadTooLarge { encoded_bytes: encoded.len() as usize, max_bytes },
                )
            } else {
                r matches Ok(s) && s@ == osc52_text(encoded)
            }
        }),
{
    let bytes = text.as_bytes();
    let encoded = base64_encode(bytes);
    let n = crate::text::char_count(encoded.as_str());
    if n > max_bytes {
        return Err(Osc52Error::PayloadTooLarge { encoded_bytes: n, max_bytes });
    }
    let mut out = String::new();
    out.push('\x1b');
    out.push(']');
    out.push('5');
    out.push('2');
    out.push(';');
    out.push('c');
    out.push(';');
    push_str(&mut out, encoded.as_str());
    out.push('\x07');
    assert(out@ =~= osc52_text(encoded@));
    Ok(out)
}

/// Text for the clipboard, how to describe it, and whether it is sensitive.
#[derive(Clone, Debug, PartialEq, Eq)]
pub struct ClipboardPayload {
    pub text: String,
    pub description: String,
    pub sensitive: bool,
}

/// What a copy command copies.
#[derive(Clone, Copy, Debug, PartialEq, Eq, Structural)]
pub enum CopyTarget {
    EditorYank,
    EditorStatement,
    EditorBuffer,
    GridCell,
    GridRow { include_headers: bool },
}

/// A result column: its name and its database type label.
#[derive(Clone, Debug)]
pub struct ColumnMeta {
    pub name: String,
    pub type_label: String,
}

/// A table name with optional database and schema.
#[derive(Clone, Debug)]
pub struct QualifiedName {
    pub database: Option<String>,
    pub schema: Option<String>,
    pub object: String,
}

/// The column names.
pub open spec fn column_names(columns: Seq<ColumnMeta>) -> Seq<Seq<char>> {
    columns.map_values(|c: ColumnMeta| c.name@)
}

/// The description of a copied cell: NULL is called out as copied empty.
pub open spec fn cell_description(label: Seq<char>, v: CellView) -> Seq<char> {
    if v is Null {
        "cell "@ + label + " (NULL as empty value)"@
    } else {
        "cell "@ + label
    }
}

/// The payload of one cell: its complete text (NULL as empty).
pub fn copy_cell(label: &str, value: &CellValue) -> (r: ClipboardPayload)
    ensures
        r.text@ == cell_text(value@),
        r.description@ == cell_description(label@, value@),
        !r.sensitive,
{
    let mut description = String::new();
    push_str(&mut description, "cell ");
    push_str(&mut description, label);
    if value.is_null() {
        push_str(&mut description, " (NULL as empty value)");
    }
    assert(description@ =~= cell_description(label@, value@));
    ClipboardPayload { text: value.clipboard_text(), description, sensitive: false }
}

/// Whether a field would break a TSV grid: tab, carriage return, newline or double quote.
pub open spec fn tsv_special(v: Seq<char>) -> bool {
    exists|i: int| 0 <= i < v.len() && (v[i] == '\t' || v[i] == '\r' || v[i] == '\n' || v[i] == '"')
}

/// A TSV field: quoted, with quotes doubled, when it holds a special character.
pub open spec fn tsv_field(v: Seq<char>) -> Seq<char> {
    if tsv_special(v) {
        "\""@ + replace_char(v, '"', "\"\""@) + "\""@
    } else {
        v
    }
}

/// The text of the row's cell under column `i` (empty past the row's end).
pub open spec fn row_text(row: Seq<CellView>, i: int) -> Seq<char> {
    if 0 <= i < row.len() {
        cell_text(row[i])
    } else {
        Seq::empty()
    }
}

/// The TSV fields of a row under `n` columns.
pub open spec fn tsv_values(row: Seq<CellView>, n: nat) -> Seq<Seq<char>> {
    Seq::new(n, |i: int| tsv_field(row_text(row, i)))
}

/// The TSV header fields.
pub open spec fn tsv_headers(names: Seq<Seq<char>>) -> Seq<Seq<char>> {
    Seq::new(names.len(), |i: int| tsv_field(names[i]))
}

/// The TSV text of a row: tab-separated fields, after a header line when asked.
pub open spec fn tsv_text(names: Seq<Seq<char>>, row: Seq<CellView>, include_headers: bool) -> Seq<char> {
    let values = join_with(tsv_values(row, names.len()), "\t"@);
    if include_headers {
        join_with(tsv_headers(names), "\t"@) + "\n"@ + values
    } else {
        values
    }
}

fn tsv_escape(value: &str) -> (r: String)
    ensures
        r@ == tsv_field(value@),
{
    let cs = chars_of(value);
    let mut i: usize = 0;
    while i < cs.len()
        invariant
            i <= cs@.len(),
            cs@ == value@,
            forall|k: int| 0 <= k < i ==> !(cs@[k] == '\t' || cs@[k] == '\r' || cs@[k] == '\n' || cs@[k] == '"'),
        decreases cs.len() - i,
    {
        let c = cs[i];
        if c == '\t' || c == '\r' || c == '\n' || c == '"' {
            let mut out = String::new();
            push_str(&mut out, "\"");
            push_replaced(&mut out, &cs, '"', "\"\"");
            push_str(&mut out, "\"");
            assert(out@ =~= tsv_field(value@));
            return out;
        }
        i += 1;
    }
    owned(value)
}

fn push_count_description(out: &mut String, n: usize, tail: &str)
    ensures
        final(out)@ == old(out)@ + "row: "@ + nat_digits(n as nat) + tail@,
{
    push_str(out, "row: ");
    push_u128_digits(out, n as u128);
    push_str(out, tail);
    assert(out@ =~= old(out)@ + "row: "@ + nat_digits(n as nat) + tail@);
}

/// One row as tab-separated text (see [`tsv_text`]); nothing without columns.
pub fn copy_row_tsv(columns: &Vec<ColumnMeta>, row: &Vec<CellValue>, include_headers: bool) -> (r: Option<ClipboardPayload>)
    ensures
        columns@.len() == 0 ==> r is None,
        columns@.len() > 0 ==> (r matches Some(p) && p.text@ == tsv_text(
            column_names(columns@),
            cells_view(row@),
            include_headers,
        ) && p.description@ == "row: "@ + nat_digits(columns@.len()) + if include_headers {
            " columns as TSV with headers"@
        } else {
            " columns as TSV"@
        } && !p.sensitive),
{
    if columns.len() == 0 {
        return None;
    }
    let ghost names = column_names(columns@);
    let ghost cells = cells_view(row@);
    let mut headers: Vec<String> = Vec::new();
    let mut values: Vec<String> = Vec::new();
    let mut i: usize = 0;
    while i < columns.len()
        invariant
            i <= columns@.len(),
            names == column_names(columns@),
            cells == cells_view(row@),
            strings_view(headers@) == tsv_headers(names).take(i as int),
            strings_view(values@) == tsv_values(cells, names.len()).take(i as int),
        decreases columns.len() - i,
    {
        let ghost hb = strings_view(headers@);
        let ghost vb = strings_view(values@);
        let h = tsv_escape(columns[i].name.as_str());
        assert(names[i as int] == columns@[i as int].name@);
        headers.push(h);
        assert(strings_view(headers@) =~= hb.push(h@));
        let text = if i < row.len() {
            assert(cells[i as int] == row@[i as int]@);
            row[i].clipboard_text()
        } else {
            String::new()
        };
        assert(text@ == row_text(cells, i as int));
        let v = tsv_escape(text.as_str());
        values.push(v);
        assert(strings_view(values@) =~= vb.push(v@));
        assert(strings_view(headers@) =~= tsv_headers(names).take(i + 1));
        assert(strings_view(values@) =~= tsv_values(cells, names.len()).take(i + 1));
        i += 1;
    }
    assert(tsv_headers(names).take(columns.len() as int) =~= tsv_headers(names));
    assert(tsv_values(cells, names.len()).take(columns.len() as int) =~= tsv_values(cells, names.len()));
    let value_line = join_strings(&values, "\t");
    let mut text = String::new();
    if include_headers {
        let header_line = join_strings(&headers, "\t");
        push_str(&mut text, header_line.as_str());
        push_str(&mut text, "\n");
    }
    push_str(&mut text, value_line.as_str());
    assert(text@ =~= tsv_text(names, cells, include_headers));
    let mut description = String::new();
    if include_headers {
        push_count_description(&mut description, columns.len(), " columns as TSV with headers");
    } else {
        push_count_description(&mut description, columns.len(), " columns as TSV");
    }
    Some(ClipboardPayload { text, description, sensitive: false })
}

/// A JSON string as `serde_json` writes it.
pub open spec fn serde_json_string(s: Seq<char>) -> Seq<char> {
    seq!['"'] + json_escaped(s) + seq!['"']
}

/// A lower-case hexadecimal digit.
pub open spec fn hex_lower(d: int) -> char {
    if d < 10 {
        ('0' as int + d) as char
    } else {
        ('a' as int + d - 10) as char
    }
}

/// How `serde_json` writes one character inside a string: `\"` and `\\` for the quote and
/// the backslash, the short escapes `\b \t \n \f \r`, `\u00xx` (lower-case hex) for the other
/// control characters below U+0020, and every other character as itself.
pub open spec fn json_escaped_char(c: char) -> Seq<char> {
    if c == '"' {
        seq!['\\', '"']
    } else if c == '\\' {
        seq!['\\', '\\']
    } else if c == '\u{8}' {
        seq!['\\', 'b']
    } else if c == '\t' {
        seq!['\\', 't']
    } else if c == '\n' {
        seq!['\\', 'n']
    } else if c == '\u{c}' {
        seq!['\\', 'f']
    } else if c == '\r' {
        seq!['\\', 'r']
    } else if (c as u32) < 0x20 {
        seq!['\\', 'u', '0', '0', hex_lower((c as u32) as int / 16), hex_lower((c as u32) as int % 16)]
    } else {
        seq![c]
    }
}

/// The escaped characters of a text, in order.
pub open spec fn json_escaped(s: Seq<char>) -> Seq<char>
    decreases s.len(),
{
    if s.len() == 0 {
        Seq::empty()
    } else {
        json_escaped(s.drop_last()) + json_escaped_char(s.last())
    }
}

/// `serde_json::Value::String(..).to_string()`: the text between quotes, each character escaped
/// as serde_json's escape table and `write_char_escape` do it (see [`serde_json_string`]).
#[verifier::external_body]
fn json_string(s: &str) -> (r: String)
    ensures
        r@ == serde_json_string(s@),
{
    serde_json::Value::String(s.to_owned()).to_string()
}

/// The JSON value of a cell: null, booleans and integers as themselves, finite floats as
/// numbers, everything else as the string of its complete text.
pub open spec fn json_cell(v: CellView) -> Seq<char> {
    match v {
        CellView::Null => "null"@,
        CellView::Boolean(b) => if b {
            "true"@
        } else {
            "false"@
        },
        CellView::Integer(i) => int_text(i as int),
        CellView::Unsigned(u) => nat_digits(u as nat),
        CellView::Float { display, json_number } => match json_number {
            Some(n) => n,
            None => serde_json_string(display),
        },
        _ => serde_json_string(cell_text(v)),
    }
}

/// The cell under column `i` (NULL past the row's end).
pub open spec fn row_value(row: Seq<CellView>, i: int) -> CellView {
    if 0 <= i < row.len() {
        row[i]
    } else {
        CellView::Null
    }
}

/// `"name":value` members of the row object, in column order.
pub open spec fn json_members(names: Seq<Seq<char>>, row: Seq<CellView>) -> Seq<Seq<char>> {
    Seq::new(names.len(), |i: int| serde_json_string(names[i]) + ":"@ + json_cell(row_value(row, i)))
}

/// The row as one JSON object.
pub open spec fn json_row_text(names: Seq<Seq<char>>, row: Seq<CellView>) -> Seq<char> {
    "{"@ + join_with(json_members(names, row), ","@) + "}"@
}

fn json_cell_text(value: &CellValue) -> (r: String)
    ensures
        r@ == json_cell(value@),
{
    match value {
        CellValue::Null => owned("null"),
        CellValue::Boolean(b) => if *b {
            owned("true")
        } else {
            owned("false")
        },
        CellValue::Integer(_) | CellValue::Unsigned(_) => value.clipboard_text(),
        CellValue::Float(f) => match &f.json_number {
            Some(n) => n.clone(),
            None => json_string(f.display.as_str()),
        },
        _ => {
            let t = value.clipboard_text();
            json_string(t.as_str())
        },
    }
}

/// One row as a JSON object keyed by column name (see [`json_row_text`]); nothing without
/// columns.
pub fn copy_row_json(columns: &Vec<ColumnMeta>, row: &Vec<CellValue>) -> (r: Option<ClipboardPayload>)
    ensures
        columns@.len() == 0 ==> r is None,
        columns@.len() > 0 ==> (r matches Some(p) && p.text@ == json_row_text(
            column_names(columns@),
            cells_view(row@),
        ) && p.description@ == "row: "@ + nat_digits(columns@.len()) + " columns as JSON"@
            && !p.sensitive),
{
    if columns.len() == 0 {
        return None;
    }
    let ghost names = column_names(columns@);
    let ghost cells = cells_view(row@);
    let mut parts: Vec<String> = Vec::new();
    let mut i: usize = 0;
    while i < columns.len()
        invariant
            i <= columns@.len(),
            names == column_names(columns@),
            cells == cells_view(row@),
            strings_view(parts@) == json_members(names, cells).take(i as int),
        decreases columns.len() - i,
    {
        let ghost pb = strings_view(parts@);
        let mut part = json_string(columns[i].name.as_str());
        assert(names[i as int] == columns@[i as int].name@);
        push_str(&mut part, ":");
        let v = if i < row.len() {
            assert(cells[i as int] == row@[i as int]@);
            json_cell_text(&row[i])
        } else {
            owned("null")
        };
        assert(v@ == json_cell(row_value(cells, i as int)));
        push_str(&mut part, v.as_str());
        let ghost pv = part@;
        parts.push(part);
        assert(strings_view(parts@) =~= pb.push(pv));
        assert(strings_view(parts@) =~= json_members(names, cells).take(i + 1));
        i += 1;
    }
    assert(json_members(names, cells).take(columns.len() as int) =~= json_members(names, cells));
    let joined = join_strings(&parts, ",");
    let mut text = String::new();
    push_str(&mut text, "{");
    push_str(&mut text, joined.as_str());
    push_str(&mut text, "}");
    assert(text@ =~= json_row_text(names, cells));
    let mut description = String::new();
    push_count_description(&mut description, columns.len(), " columns as JSON");
    Some(ClipboardPayload { text, description, sensitive: false })
}

/// The quoted parts of a table name: database and schema when present, then the object.
pub open spec fn name_parts(name: QualifiedName, dialect: SqlDialect) -> Seq<Seq<char>> {
    let db: Seq<Seq<char>> = match name.database {
        Some(d) => seq![quoted_ident(d@, dialect)],
        None => Seq::empty(),
    };
    let schema: Seq<Seq<char>> = match name.schema {
        Some(s) => seq![quoted_ident(s@, dialect)],
        None => Seq::empty(),
    };
    db + schema + seq![quoted_ident(name.object@, dialect)]
}

/// The quoted parts of a table name joined by dots.
pub open spec fn qualified_text(name: QualifiedName, dialect: SqlDialect) -> Seq<char> {
    join_with(name_parts(name, dialect), "."@)
}

/// The INSERT statement of a row: quoted table and column names, one literal per column (NULL
/// past the row's end).
pub open spec fn insert_text(dialect: SqlDialect, name: QualifiedName, names: Seq<Seq<char>>, row: Seq<CellView>) -> Seq<char> {
    let cols = Seq::new(names.len(), |i: int| quoted_ident(names[i], dialect));
    let values = Seq::new(names.len(), |i: int| cell_literal(row_value(row, i), dialect));
    "INSERT INTO "@ + qualified_text(name, dialect) + " ("@ + join_with(cols, ", "@) + ") VALUES ("@
        + join_with(values, ", "@) + ");"@
}

fn quote_qualified_name(name: &QualifiedName, dialect: SqlDialect) -> (r: String)
    ensures
        r@ == qualified_text(*name, dialect),
{
    let mut parts: Vec<String> = Vec::new();
    match &name.database {
        Some(d) => parts.push(quote_identifier(d.as_str(), dialect)),
        None => {},
    }
    match &name.schema {
        Some(s) => parts.push(quote_identifier(s.as_str(), dialect)),
        None => {},
    }
    parts.push(quote_identifier(name.object.as_str(), dialect));
    assert(strings_view(parts@) =~= name_parts(*name, dialect));
    join_strings(&parts, ".")
}

/// One row as an INSERT statement (see [`insert_text`]); nothing without columns.
pub fn copy_row_insert_sql(
    dialect: SqlDialect,
    qualified_name: &QualifiedName,
    columns: &Vec<ColumnMeta>,
    row: &Vec<CellValue>,
) -> (r: Option<ClipboardPayload>)
    ensures
        columns@.len() == 0 ==> r is None,
        columns@.len() > 0 ==> (r matches Some(p) && p.text@ == insert_text(
            dialect,
            *qualified_name,
            column_names(columns@),
            cells_view(row@),
        ) && p.description@ == "row: INSERT INTO "@ + qualified_text(*qualified_name, dialect) + " ("@
            + nat_digits(columns@.len()) + " columns)"@ && !p.sensitive),
{
    if columns.len() == 0 {
        return None;
    }
    let ghost names = column_names(columns@);
    let ghost cells = cells_view(row@);
    let ghost col_spec = Seq::new(names.len(), |i: int| quoted_ident(names[i], dialect));
    let ghost val_spec = Seq::new(names.len(), |i: int| cell_literal(row_value(cells, i), dialect));
    let table = quote_qualified_name(qualified_name, dialect);
    let mut cols: Vec<String> = Vec::new();
    let mut values: Vec<String> = Vec::new();
    let mut i: usize = 0;
    while i < columns.len()
        invariant
            i <= columns@.len(),
            names == column_names(columns@),
            cells == cells_view(row@),
            col_spec == Seq::new(names.len(), |i: int| quoted_ident(names[i], dialect)),
            val_spec == Seq::new(names.len(), |i: int| cell_literal(row_value(cells, i), dialect)),
            strings_view(cols@) == col_spec.take(i as int),
            strings_view(values@) == val_spec.take(i as int),
        decreases columns.len() - i,
    {
        let ghost cb = strings_view(cols@);
        let ghost vb = strings_view(values@);
        let q = quote_identifier(columns[i].name.as_str(), dialect);
        assert(names[i as int] == columns@[i as int].name@);
        cols.push(q);
        assert(strings_view(cols@) =~= cb.push(q@));
        let lit = if i < row.len() {
            assert(cells[i as int] == row@[i as int]@);
            cell_sql_literal(&row[i], dialect)
        } else {
            cell_sql_literal(&CellValue::Null, dialect)
        };
        assert(lit@ == cell_literal(row_value(cells, i as int), dialect));
        values.push(lit);
        assert(strings_view(values@) =~= vb.push(lit@));
        assert(strings_view(cols@) =~= col_spec.take(i + 1));
        assert(strings_view(values@) =~= val_spec.take(i + 1));
        i += 1;
    }
    assert(col_spec.take(columns.len() as int) =~= col_spec);
    assert(val_spec.take(columns.len() as int) =~= val_spec);
    let col_text = join_strings(&cols, ", ");
    let value_text = join_strings(&values, ", ");
    let mut text = String::new();
    push_str(&mut text, "INSERT INTO ");
    push_str(&mut text, table.as_str());
    push_str(&mut text, " (");
    push_str(&mut text, col_text.as_str());
    push_str(&mut text, ") VALUES (");
    push_str(&mut text, value_text.as_str());
    push_str(&mut text, ");");
    assert(text@ =~= insert_text(dialect, *qualified_name, names, cells));
    let mut description = String::new();
    push_str(&mut description, "row: INSERT INTO ");
    push_str(&mut description, table.as_str());
    push_str(&mut description, " (");
    push_u128_digits(&mut description, columns.len() as u128);
    push_str(&mut description, " columns)");
    assert(description@ =~= "row: INSERT INTO "@ + qualified_text(*qualified_name, dialect) + " ("@
        + nat_digits(columns@.len()) + " columns)"@);
    Some(ClipboardPayload { text, description, sensitive: false })
}


/// A copied INSERT and a cell filter cannot drift apart: for every value that can be filtered by
/// equality, the filter compares the column with exactly the literal that the INSERT of a row
/// holding that value writes for it.
pub proof fn law_filter_literal_matches_insert_literal(
    column: Seq<char>,
    v: CellView,
    dialect: SqlDialect,
)
    requires
        !(v is Null),
        !(v is Unsupported),
        match v {
            CellView::Float { display, json_number } => json_number is Some,
            _ => true,
        },
    ensures
        where_clause(column, v, dialect) == Ok::<Seq<char>, Seq<char>>(
            quoted_ident(column, dialect) + " = "@ + cell_literal(v, dialect),
        ),
{
}


/// Whole-number cells copy into JSON as bare numbers: exactly the cell's decimal text, never a
/// quoted string, made of digits (after a minus sign for a negative integer) that read back as
/// the cell's value.
pub proof fn law_whole_number_cells_copy_as_json_numbers(v: CellView)
    requires
        v is Integer || v is Unsigned,
    ensures
        json_cell(v) == cell_text(v),
        json_cell(v).len() > 0,
        json_cell(v)[0] != '"',
        v matches CellView::Unsigned(u) ==> all_digits(json_cell(v)) && digits_value(json_cell(v))
            == u as nat,
        v matches CellView::Integer(i) ==> (i >= 0 ==> all_digits(json_cell(v)) && digits_value(
            json_cell(v),
        ) == i as int),
        v matches CellView::Integer(i) ==> (i < 0 ==> json_cell(v)[0] == '-' && all_digits(
            json_cell(v).drop_first(),
        ) && digits_value(json_cell(v).drop_first()) == -(i as int)),
{
    match v {
        CellView::Unsigned(u) => {
            lemma_nat_digits_read_back(u as nat);
            assert(is_digit(json_cell(v)[0]));
        },
        CellView::Integer(i) => {
            if i < 0 {
                lemma_nat_digits_read_back((-(i as int)) as nat);
                assert((seq!['-'] + nat_digits((-(i as int)) as nat)).drop_first() =~= nat_digits(
                    (-(i as int)) as nat,
                ));
            } else {
                lemma_nat_digits_read_back(i as nat);
                assert(is_digit(json_cell(v)[0]));
            }
        },
        _ => {},
    }
}

} // verus!
