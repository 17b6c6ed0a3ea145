//! Cell values as they come back from a database, and their canonical text.
use vstd::prelude::*;
use crate::text::{
    str_eq, bytes_hex, chars_of, int_text, i64_text, nat_digits, push_bytes_hex, push_chars, push_str,
    push_u128_digits, slice_vec, u64_text,
};

verus! {

/// A calendar date (proleptic Gregorian), held as plain numbers.
#[derive(Clone, Copy, Debug, PartialEq, Eq, Structural)]
pub struct Date {
    pub year: i32,
    pub month: u32,
    pub day: u32,
}

/// A time of day with nanosecond precision.
#[derive(Clone, Copy, Debug, PartialEq, Eq, Structural)]
pub struct Time {
    pub hour: u32,
    pub minute: u32,
    pub second: u32,
    pub nanosecond: u32,
}

/// A date and a time of day without an offset.
#[derive(Clone, Copy, Debug, PartialEq, Eq, Structural)]
pub struct DateTime {
    pub date: Date,
    pub time: Time,
}

/// A wall-clock date-time together with its fixed UTC offset in seconds.
#[derive(Clone, Copy, Debug, PartialEq, Eq, Structural)]
pub struct Timestamp {
    pub local: DateTime,
    pub offset_seconds: i32,
}

/// A floating-point value, carried by its renderings: `display` is Rust's `Display` text and
/// `json_number` is its JSON number text (absent when the value is not finite).
#[derive(Clone, Debug)]
pub struct FloatText {
    pub display: String,
    pub json_number: Option<String>,
}

/// One cell of a result set.
#[derive(Clone, Debug)]
pub enum CellValue {
    Null,
    Boolean(bool),
    Integer(i64),
    Unsigned(u64),
    Float(FloatText),
    Text(String),
    Bytes(Vec<u8>),
    Date(Date),
    Time(Time),
    DateTime(DateTime),
    Timestamp(Timestamp),
    Unsupported { type_label: String, preview: String },
}

/// Mathematical model of a [`CellValue`].
pub enum CellView {
    Null,
    Boolean(bool),
    Integer(i64),
    Unsigned(u64),
    Float { display: Seq<char>, json_number: Option<Seq<char>> },
    Text(Seq<char>),
    Bytes(Seq<u8>),
    Date(Date),
    Time(Time),
    DateTime(DateTime),
    Timestamp(Timestamp),
    Unsupported { type_label: Seq<char>, preview: Seq<char> },
}

pub open spec fn opt_view(o: Option<String>) -> Option<Seq<char>> {
    match o {
        Some(s) => Some(s@),
        None => None,
    }
}

impl View for CellValue {
    type V = CellView;

    open spec fn view(&self) -> CellView {
        match self {
            CellValue::Null => CellView::Null,
            CellValue::Boolean(b) => CellView::Boolean(*b),
            CellValue::Integer(i) => CellView::Integer(*i),
            CellValue::Unsigned(u) => CellView::Unsigned(*u),
            CellValue::Float(f) => CellView::Float {
                display: f.display@,
                json_number: opt_view(f.json_number),
            },
            CellValue::Text(t) => CellView::Text(t@),
            CellValue::Bytes(b) => CellView::Bytes(b@),
            CellValue::Date(d) => CellView::Date(*d),
            CellValue::Time(t) => CellView::Time(*t),
            CellValue::DateTime(d) => CellView::DateTime(*d),
            CellValue::Timestamp(t) => CellView::Timestamp(*t),
            CellValue::Unsupported { type_label, preview } => CellView::Unsupported {
                type_label: type_label@,
                preview: preview@,
            },
        }
    }
}

/// The models of a sequence of cells.
pub open spec fn cells_view(cells: Seq<CellValue>) -> Seq<CellView> {
    cells.map_values(|c: CellValue| c@)
}

/// Whether a float's display text is that of NaN.
pub open spec fn is_nan_text(display: Seq<char>) -> bool {
    display == "NaN"@
}

/// Whether a float's display text is that of positive or negative zero.
pub open spec fn is_zero_text(display: Seq<char>) -> bool {
    display == "0"@ || display == "-0"@
}

/// `f64` equality read off the display texts (Rust writes each float other than NaN and the two
/// zeros with a distinct text): NaN equals nothing, the two zeros are equal, any other float
/// equals the float with the same text.
pub open spec fn float_eq(a: Seq<char>, b: Seq<char>) -> bool {
    !is_nan_text(a) && !is_nan_text(b) && (a == b || (is_zero_text(a) && is_zero_text(b)))
}

/// Equality of cells as the derived `PartialEq` of cell values decides it: floats by
/// [`float_eq`], every other value by its model.
pub open spec fn cell_eq(a: CellView, b: CellView) -> bool {
    match (a, b) {
        (CellView::Float { display: x, .. }, CellView::Float { display: y, .. }) => float_eq(x, y),
        _ => a == b,
    }
}

/// `width`-digit zero-padded decimal text (more digits when the number needs them).
pub open spec fn pad_zeros(n: nat, width: nat) -> Seq<char> {
    let d = nat_digits(n);
    if d.len() < width {
        Seq::new((width - d.len()) as nat, |i: int| '0') + d
    } else {
        d
    }
}

/// `%Y`: four-digit year, signed when outside `0..=9999`.
pub open spec fn year_text(y: int) -> Seq<char> {
    if 0 <= y && y <= 9999 {
        pad_zeros(y as nat, 4)
    } else if y < 0 {
        seq!['-'] + pad_zeros((-y) as nat, 4)
    } else {
        seq!['+'] + pad_zeros(y as nat, 4)
    }
}

/// Text without its trailing `'0'` characters.
pub open spec fn strip_zeros(s: Seq<char>) -> Seq<char>
    decreases s.len(),
{
    if s.len() > 0 && s.last() == '0' {
        strip_zeros(s.drop_last())
    } else {
        s
    }
}

/// Fractional seconds: empty for zero, else `.` and the nine-digit nanoseconds without trailing zeros.
pub open spec fn fraction_text(nanos: nat) -> Seq<char> {
    if nanos == 0 {
        Seq::empty()
    } else {
        seq!['.'] + strip_zeros(pad_zeros(nanos, 9))
    }
}

/// `YYYY-MM-DD`.
pub open spec fn date_text(d: Date) -> Seq<char> {
    year_text(d.year as int) + seq!['-'] + pad_zeros(d.month as nat, 2) + seq!['-'] + pad_zeros(
        d.day as nat,
        2,
    )
}

/// `HH:MM:SS` followed by [`fraction_text`].
pub open spec fn time_text(t: Time) -> Seq<char> {
    pad_zeros(t.hour as nat, 2) + seq![':'] + pad_zeros(t.minute as nat, 2) + seq![':']
        + pad_zeros(t.second as nat, 2) + fraction_text(t.nanosecond as nat)
}

/// `YYYY-MM-DD HH:MM:SS[.fraction]`.
pub open spec fn datetime_text(d: DateTime) -> Seq<char> {
    date_text(d.date) + seq![' '] + time_text(d.time)
}

/// `%:z`: `+HH:MM` / `-HH:MM` of an offset in seconds, rounded to the nearest minute.
pub open spec fn offset_text(offset: int) -> Seq<char> {
    let a: nat = if offset < 0 {
        (-offset) as nat
    } else {
        offset as nat
    };
    let minutes: nat = (a + 30) / 60;
    seq![
        if offset < 0 {
            '-'
        } else {
            '+'
        },
    ] + pad_zeros(minutes / 60, 2) + seq![':'] + pad_zeros(minutes % 60, 2)
}

/// `YYYY-MM-DD HH:MM:SS[.fraction]+HH:MM`.
pub open spec fn timestamp_text(t: Timestamp) -> Seq<char> {
    datetime_text(t.local) + offset_text(t.offset_seconds as int)
}

/// The complete text of a cell as copied to the clipboard or loaded into an editor:
/// NULL is empty, bytes are `0x` and upper-case hex, temporal values use ISO-like forms,
/// unsupported values show their preview.
pub open spec fn cell_text(v: CellView) -> Seq<char> {
    match v {
        CellView::Null => Seq::empty(),
        CellView::Boolean(b) => if b {
            seq!['t', 'r', 'u', 'e']
        } else {
            seq!['f', 'a', 'l', 's', 'e']
        },
        CellView::Integer(i) => int_text(i as int),
        CellView::Unsigned(u) => nat_digits(u as nat),
        CellView::Float { display, json_number } => display,
        CellView::Text(t) => t,
        CellView::Bytes(b) => seq!['0', 'x'] + bytes_hex(b),
        CellView::Date(d) => date_text(d),
        CellView::Time(t) => time_text(t),
        CellView::DateTime(d) => datetime_text(d),
        CellView::Timestamp(t) => timestamp_text(t),
        CellView::Unsupported { type_label, preview } => preview,
    }
}

/// Appends [`pad_zeros`].
pub fn push_pad_zeros(out: &mut String, n: u64, width: usize)
    ensures
        final(out)@ == old(out)@ + pad_zeros(n as nat, width as nat),
{
    let mut digits = String::new();
    push_u128_digits(&mut digits, n as u128);
    let ds = chars_of(digits.as_str());
    assert(ds@ =~= nat_digits(n as nat));
    if ds.len() < width {
        let mut k: usize = 0;
        let pad = width - ds.len();
        while k < pad
            invariant
                k <= pad,
                out@ == old(out)@ + Seq::new(k as nat, |i: int| '0'),
            decreases pad - k,
        {
            out.push('0');
            assert(Seq::new((k + 1) as nat, |i: int| '0') =~= Seq::new(k as nat, |i: int| '0').push(
                '0',
            ));
            k += 1;
        }
    }
    push_chars(out, &ds);
    assert(out@ =~= old(out)@ + pad_zeros(n as nat, width as nat));
}

/// Appends [`year_text`].
pub fn push_year(out: &mut String, y: i32)
    ensures
        final(out)@ == old(out)@ + year_text(y as int),
{
    if 0 <= y && y <= 9999 {
        push_pad_zeros(out, y as u64, 4);
    } else if y < 0 {
        out.push('-');
        let a: i64 = -(y as i64);
        push_pad_zeros(out, a as u64, 4);
    } else {
        out.push('+');
        push_pad_zeros(out, y as u64, 4);
    }
    assert(out@ =~= old(out)@ + year_text(y as int));
}

/// Exec [`strip_zeros`].
pub fn strip_zeros_chars(s: &[char]) -> (out: Vec<char>)
    ensures
        out@ == strip_zeros(s@),
{
    let mut end = s.len();
    assert(s@.take(s.len() as int) == s@);
    while end > 0 && s[end - 1] == '0'
        invariant
            end <= s.len(),
            strip_zeros(s@) == strip_zeros(s@.take(end as int)),
        decreases end,
    {
        assert(s@.take(end as int).drop_last() == s@.take(end - 1));
        end -= 1;
    }
    assert(s@.subrange(0, end as int) == s@.take(end as int));
    slice_vec(s, 0, end)
}

/// Appends [`fraction_text`].
pub fn push_fraction(out: &mut String, nanos: u32)
    ensures
        final(out)@ == old(out)@ + fraction_text(nanos as nat),
{
    if nanos != 0 {
        out.push('.');
        let mut padded = String::new();
        push_pad_zeros(&mut padded, nanos as u64, 9);
        let cs = chars_of(padded.as_str());
        let stripped = strip_zeros_chars(&cs);
        push_chars(out, &stripped);
    }
    assert(out@ =~= old(out)@ + fraction_text(nanos as nat));
}

/// Appends [`date_text`].
pub fn push_date(out: &mut String, d: Date)
    ensures
        final(out)@ == old(out)@ + date_text(d),
{
    push_year(out, d.year);
    out.push('-');
    push_pad_zeros(out, d.month as u64, 2);
    out.push('-');
    push_pad_zeros(out, d.day as u64, 2);
    assert(out@ =~= old(out)@ + date_text(d));
}

/// Appends [`time_text`].
pub fn push_time(out: &mut String, t: Time)
    ensures
        final(out)@ == old(out)@ + time_text(t),
{
    push_pad_zeros(out, t.hour as u64, 2);
    out.push(':');
    push_pad_zeros(out, t.minute as u64, 2);
    out.push(':');
    push_pad_zeros(out, t.second as u64, 2);
    push_fraction(out, t.nanosecond);
    assert(out@ =~= old(out)@ + time_text(t));
}

/// Appends [`datetime_text`].
pub fn push_datetime(out: &mut String, d: DateTime)
    ensures
        final(out)@ == old(out)@ + datetime_text(d),
{
    push_date(out, d.date);
    out.push(' ');
    push_time(out, d.time);
    assert(out@ =~= old(out)@ + datetime_text(d));
}

/// Appends [`offset_text`].
pub fn push_offset(out: &mut String, offset: i32)
    ensures
        final(out)@ == old(out)@ + offset_text(offset as int),
{
    let a: u64 = if offset < 0 {
        (-(offset as i64)) as u64
    } else {
        offset as u64
    };
    if offset < 0 {
        out.push('-');
    } else {
        out.push('+');
    }
    let minutes: u64 = (a + 30) / 60;
    push_pad_zeros(out, minutes / 60, 2);
    out.push(':');
    push_pad_zeros(out, minutes % 60, 2);
    assert(out@ =~= old(out)@ + offset_text(offset as int));
}

/// Appends [`timestamp_text`].
pub fn push_timestamp(out: &mut String, t: Timestamp)
    ensures
        final(out)@ == old(out)@ + timestamp_text(t),
{
    push_datetime(out, t.local);
    push_offset(out, t.offset_seconds);
    assert(out@ =~= old(out)@ + timestamp_text(t));
}

impl CellValue {
    /// The complete clipboard text of the value (see [`cell_text`]).
    pub fn clipboard_text(&self) -> (out: String)
        ensures
            out@ == cell_text(self@),
    {
        let mut out = String::new();
        match self {
            CellValue::Null => {},
            CellValue::Boolean(b) => {
                if *b {
                    push_str(&mut out, "true");
                } else {
                    push_str(&mut out, "false");
                }
                proof {
                    reveal_strlit("true");
                    reveal_strlit("false");
                }
            },
            CellValue::Integer(i) => {
                out = i64_text(*i);
            },
            CellValue::Unsigned(u) => {
                out = u64_text(*u);
            },
            CellValue::Float(f) => {
                push_str(&mut out, f.display.as_str());
            },
            CellValue::Text(t) => {
                push_str(&mut out, t.as_str());
            },
            CellValue::Bytes(b) => {
                out.push('0');
                out.push('x');
                push_bytes_hex(&mut out, b.as_slice());
            },
            CellValue::Date(d) => {
                push_date(&mut out, *d);
            },
            CellValue::Time(t) => {
                push_time(&mut out, *t);
            },
            CellValue::DateTime(d) => {
                push_datetime(&mut out, *d);
            },
            CellValue::Timestamp(t) => {
                push_timestamp(&mut out, *t);
            },
            CellValue::Unsupported { type_label, preview } => {
                push_str(&mut out, preview.as_str());
            },
        }
        assert(out@ =~= cell_text(self@));
        out
    }

    /// A copy with the same model.
    pub fn duplicate(&self) -> (r: CellValue)
        ensures
            r@ == self@,
    {
        match self {
            CellValue::Null => CellValue::Null,
            CellValue::Boolean(b) => CellValue::Boolean(*b),
            CellValue::Integer(i) => CellValue::Integer(*i),
            CellValue::Unsigned(u) => CellValue::Unsigned(*u),
            CellValue::Float(f) => CellValue::Float(
                FloatText {
                    display: f.display.clone(),
                    json_number: match &f.json_number {
                        Some(j) => Some(j.clone()),
                        None => None,
                    },
                },
            ),
            CellValue::Text(t) => CellValue::Text(t.clone()),
            CellValue::Bytes(b) => CellValue::Bytes(copy_bytes(b)),
            CellValue::Date(d) => CellValue::Date(*d),
            CellValue::Time(t) => CellValue::Time(*t),
            CellValue::DateTime(d) => CellValue::DateTime(*d),
            CellValue::Timestamp(t) => CellValue::Timestamp(*t),
            CellValue::Unsupported { type_label, preview } => CellValue::Unsupported {
                type_label: type_label.clone(),
                preview: preview.clone(),
            },
        }
    }

    /// Whether two cells are equal (see [`cell_eq`]).
    pub fn same_as(&self, other: &CellValue) -> (r: bool)
        ensures
            r == cell_eq(self@, other@),
    {
        match (self, other) {
            (CellValue::Null, CellValue::Null) => true,
            (CellValue::Boolean(a), CellValue::Boolean(b)) => *a == *b,
            (CellValue::Integer(a), CellValue::Integer(b)) => *a == *b,
            (CellValue::Unsigned(a), CellValue::Unsigned(b)) => *a == *b,
            (CellValue::Float(a), CellValue::Float(b)) => {
                let x = a.display.as_str();
                let y = b.display.as_str();
                let nan = str_eq(x, "NaN") || str_eq(y, "NaN");
                let zeros = (str_eq(x, "0") || str_eq(x, "-0")) && (str_eq(y, "0") || str_eq(y, "-0"));
                !nan && (str_eq(x, y) || zeros)
            },
            (CellValue::Text(a), CellValue::Text(b)) => *a == *b,
            (CellValue::Bytes(a), CellValue::Bytes(b)) => bytes_eq(a, b),
            (CellValue::Date(a), CellValue::Date(b)) => *a == *b,
            (CellValue::Time(a), CellValue::Time(b)) => *a == *b,
            (CellValue::DateTime(a), CellValue::DateTime(b)) => *a == *b,
            (CellValue::Timestamp(a), CellValue::Timestamp(b)) => *a == *b,
            (
                CellValue::Unsupported { type_label: ta, preview: pa },
                CellValue::Unsupported { type_label: tb, preview: pb },
            ) => *ta == *tb && *pa == *pb,
            _ => false,
        }
    }

    /// Whether the cell is SQL NULL.
    pub fn is_null(&self) -> (r: bool)
        ensures
            r == (self@ is Null),
    {
        match self {
            CellValue::Null => true,
            _ => false,
        }
    }
}

impl PartialEq for CellValue {
    fn eq(&self, other: &Self) -> (r: bool) {
        self.same_as(other)
    }
}

impl vstd::std_specs::cmp::PartialEqSpecImpl for CellValue {
    open spec fn obeys_eq_spec() -> bool {
        true
    }

    open spec fn eq_spec(&self, other: &Self) -> bool {
        cell_eq(self@, other@)
    }
}

/// A copy of a byte string.
pub fn copy_bytes(b: &Vec<u8>) -> (r: Vec<u8>)
    ensures
        r@ == b@,
{
    let mut r: Vec<u8> = Vec::new();
    let mut i: usize = 0;
    while i < b.len()
        invariant
            i <= b.len(),
            r@ == b@.take(i as int),
        decreases b.len() - i,
    {
        r.push(b[i]);
        assert(b@.take(i + 1) == b@.take(i as int).push(b@[i as int]));
        i += 1;
    }
    assert(b@.take(b.len() as int) == b@);
    r
}

/// Whether two byte strings are equal.
pub fn bytes_eq(a: &Vec<u8>, b: &Vec<u8>) -> (r: bool)
    ensures
        r == (a@ == b@),
{
    if a.len() != b.len() {
        return false;
    }
    let mut i: usize = 0;
    while i < a.len()
        invariant
            a.len() == b.len(),
            i <= a.len(),
            forall|k: int| 0 <= k < i ==> a@[k] == b@[k],
        decreases a.len() - i,
    {
        if a[i] != b[i] {
            return false;
        }
        i += 1;
    }
    assert(a@ =~= b@);
    true
}

/// A copy of a row of cells.
pub fn copy_cells(cells: &Vec<CellValue>) -> (r: Vec<CellValue>)
    ensures
        cells_view(r@) == cells_view(cells@),
{
    let mut r: Vec<CellValue> = Vec::new();
    let mut i: usize = 0;
    while i < cells.len()
        invariant
            i <= cells.len(),
            cells_view(r@) == cells_view(cells@.take(i as int)),
        decreases cells.len() - i,
    {
        r.push(cells[i].duplicate());
        assert(cells_view(cells@.take(i + 1)) =~= cells_view(cells@.take(i as int)).push(
            cells@[i as int]@,
        ));
        assert(cells_view(r@) =~= cells_view(cells@.take(i + 1)));
        i += 1;
    }
    assert(cells@.take(cells.len() as int) == cells@);
    r
}

} // verus!
