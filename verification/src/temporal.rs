//! Segment-wise editing of date and time values.
//!
//! Segment ranges and the position `insert` writes at are byte offsets into the UTF-8 draft text;
//! the text input's cursor counts characters. On the ASCII texts the drafts are made from, the
//! two coincide.
use vstd::prelude::*;
use chrono::{Datelike, TimeZone, Timelike};
use crate::cell_editor::CellEditorKind;
use crate::json_buffer::{
    at_char_boundary, byte_len, byte_len_exec, char_index_at, char_index_at_exec,
    lemma_byte_len_concat, lemma_char_index_next, lemma_char_index_order, lemma_str_byte_len_fits,
};
use crate::text::{char_count, chars_of, find_char, find_char_exec, lemma_find_char, nat_digits, owned, push_u128_digits, string_of};
use crate::text_input::{fresh_input, edited, TextInput, TextInputView, TextInputEdit};
use crate::value::{
    date_text, datetime_text, offset_text, push_date, push_datetime, push_offset, push_time,
    time_text, year_text, CellValue, CellView, Date, DateTime, Time, Timestamp,
};

verus! {

/// Whether a proleptic Gregorian year is a leap year.
pub open spec fn is_leap(y: int) -> bool {
    (y % 4 == 0 && y % 100 != 0) || y % 400 == 0
}

/// Days in a month (1-based) of a year.
pub open spec fn month_days(y: int, m: int) -> int {
    if m == 2 {
        if is_leap(y) {
            29
        } else {
            28
        }
    } else if m == 4 || m == 6 || m == 9 || m == 11 {
        30
    } else {
        31
    }
}

/// A calendar date that chrono can represent: years -262143..=262142, a real month and day.
pub open spec fn valid_ymd(y: int, m: int, d: int) -> bool {
    -262143 <= y <= 262142 && 1 <= m <= 12 && 1 <= d <= month_days(y, m)
}

/// [`valid_ymd`] of a date.
pub open spec fn valid_date(d: Date) -> bool {
    valid_ymd(d.year as int, d.month as int, d.day as int)
}

/// A time of day as chrono's `Timelike` accessors give it: hour 0 to 23, minute and second 0 to
/// 59, and nanoseconds below 2,000,000,000 (those from 1,000,000,000 on mark a leap second).
pub open spec fn valid_time(t: Time) -> bool {
    t.hour < 24 && t.minute < 60 && t.second < 60 && t.nanosecond < 2_000_000_000
}

/// `chrono::NaiveDate::from_ymd_opt`: the date when it exists and lies in chrono's year range
/// (documented: `None` "on the out-of-range date, invalid month and/or day").
#[verifier::external_body]
fn date_from_ymd(year: i32, month: u32, day: u32) -> (r: Option<Date>)
    ensures
        r == if valid_ymd(year as int, month as int, day as int) {
            Some(Date { year, month, day })
        } else {
            None
        },
{
    match chrono::NaiveDate::from_ymd_opt(year, month, day) {
        Some(_) => Some(Date { year, month, day }),
        None => None,
    }
}

/// A date whose `%Y-%m-%d` text chrono reads back as the same date: it exists and its year has
/// four digits without a sign.
pub open spec fn round_trip_date(d: Date) -> bool {
    valid_date(d) && 0 <= d.year <= 9999
}

/// A time of day whose `%H:%M:%S%.f` text chrono reads back as the same time (no leap second).
pub open spec fn round_trip_time(t: Time) -> bool {
    t.hour < 24 && t.minute < 60 && t.second < 60 && t.nanosecond < 1_000_000_000
}

/// [`round_trip_date`] and [`round_trip_time`] of a date-time.
pub open spec fn round_trip_datetime(d: DateTime) -> bool {
    round_trip_date(d.date) && round_trip_time(d.time)
}

/// A timestamp whose draft text chrono reads back as the same timestamp: its offset is a whole
/// number of minutes within a day.
pub open spec fn round_trip_timestamp(t: Timestamp) -> bool {
    round_trip_datetime(t.local) && t.offset_seconds % 60 == 0 && -86400 < t.offset_seconds
        < 86400
}

/// The draft text of a temporal value (see [`date_text`], [`time_text`], [`datetime_text`],
/// [`timestamp_draft_text`]).
pub open spec fn temporal_text(v: CellView) -> Seq<char> {
    match v {
        CellView::Date(d) => date_text(d),
        CellView::Time(t) => time_text(t),
        CellView::DateTime(d) => datetime_text(d),
        CellView::Timestamp(t) => timestamp_draft_text(t),
        _ => Seq::empty(),
    }
}

/// A value of a draft kind whose draft text chrono reads back as that value.
pub open spec fn round_trips(kind: CellEditorKind, v: CellView) -> bool {
    match (kind, v) {
        (CellEditorKind::Date, CellView::Date(d)) => round_trip_date(d),
        (CellEditorKind::Time, CellView::Time(t)) => round_trip_time(t),
        (CellEditorKind::DateTime, CellView::DateTime(d)) => round_trip_datetime(d),
        (CellEditorKind::Timestamp, CellView::Timestamp(t)) => round_trip_timestamp(t),
        _ => false,
    }
}

/// What `chrono::NaiveDate::parse_from_str(text, "%Y-%m-%d")` reads from a text.
pub uninterp spec fn chrono_date_parse(text: Seq<char>) -> Option<Date>;

/// What `chrono::NaiveTime::parse_from_str(text, "%H:%M:%S%.f")` reads from a text.
pub uninterp spec fn chrono_time_parse(text: Seq<char>) -> Option<Time>;

/// What `chrono::NaiveDateTime::parse_from_str(text, "%Y-%m-%d %H:%M:%S%.f")` reads from a text.
pub uninterp spec fn chrono_datetime_parse(text: Seq<char>) -> Option<DateTime>;

/// What `chrono::DateTime::parse_from_str(text, "%Y-%m-%d %H:%M:%S%.f %:z")` reads from a text
/// (the local date-time and the offset).
pub uninterp spec fn chrono_timestamp_parse(text: Seq<char>) -> Option<Timestamp>;

/// `NaiveDate::parse_from_str` with `%Y-%m-%d`; chrono dates always exist, and the text chrono
/// writes for a four-digit-year date reads back as that date.
#[verifier::external_body]
fn chrono_parse_date(text: &str) -> (r: Option<Date>)
    ensures
        r == chrono_date_parse(text@),
        r matches Some(d) ==> valid_date(d),
        forall|d: Date| round_trip_date(d) && text@ == date_text(d) ==> r == Some(d),
{
    match chrono::NaiveDate::parse_from_str(text, "%Y-%m-%d") {
        Ok(d) => Some(Date { year: d.year(), month: d.month(), day: d.day() }),
        Err(_) => None,
    }
}

/// `NaiveTime::parse_from_str` with `%H:%M:%S%.f`; a time read stays within the ranges chrono's
/// accessors document, and the text of a time without a leap second (fraction optional,
/// trailing zeros dropped) reads back as that time.
#[verifier::external_body]
fn chrono_parse_time(text: &str) -> (r: Option<Time>)
    ensures
        r == chrono_time_parse(text@),
        r matches Some(t) ==> valid_time(t),
        forall|t: Time| round_trip_time(t) && text@ == time_text(t) ==> r == Some(t),
{
    match chrono::NaiveTime::parse_from_str(text, "%H:%M:%S%.f") {
        Ok(t) => Some(
            Time { hour: t.hour(), minute: t.minute(), second: t.second(), nanosecond: t.nanosecond() },
        ),
        Err(_) => None,
    }
}

/// `NaiveDateTime::parse_from_str` with `%Y-%m-%d %H:%M:%S%.f`; chrono dates always exist and
/// times stay in range, and
/// the text of a four-digit-year date-time without a leap second reads back as it.
#[verifier::external_body]
fn chrono_parse_datetime(text: &str) -> (r: Option<DateTime>)
    ensures
        r == chrono_datetime_parse(text@),
        r matches Some(d) ==> valid_date(d.date) && valid_time(d.time),
        forall|d: DateTime| round_trip_datetime(d) && text@ == datetime_text(d) ==> r == Some(d),
{
    match chrono::NaiveDateTime::parse_from_str(text, "%Y-%m-%d %H:%M:%S%.f") {
        Ok(v) => {
            let date = Date { year: v.year(), month: v.month(), day: v.day() };
            let time = Time { hour: v.hour(), minute: v.minute(), second: v.second(), nanosecond: v.nanosecond() };
            Some(DateTime { date, time })
        },
        Err(_) => None,
    }
}

/// `DateTime::parse_from_str` with `%Y-%m-%d %H:%M:%S%.f %:z`, read as the local date-time and
/// its offset in seconds; chrono dates always exist and times stay in range, and a draft text
/// whose offset is a whole number of minutes reads back as its timestamp.
#[verifier::external_body]
fn chrono_parse_timestamp(text: &str) -> (r: Option<Timestamp>)
    ensures
        r == chrono_timestamp_parse(text@),
        r matches Some(t) ==> valid_date(t.local.date) && valid_time(t.local.time),
        forall|t: Timestamp|
            round_trip_timestamp(t) && text@ == timestamp_draft_text(t) ==> r == Some(t),
{
    match chrono::DateTime::parse_from_str(text, "%Y-%m-%d %H:%M:%S%.f %:z") {
        Ok(v) => {
            let l = v.naive_local();
            let date = Date { year: l.year(), month: l.month(), day: l.day() };
            let time = Time { hour: l.hour(), minute: l.minute(), second: l.second(), nanosecond: l.nanosecond() };
            Some(Timestamp { local: DateTime { date, time }, offset_seconds: v.offset().local_minus_utc() })
        },
        Err(_) => None,
    }
}

/// The timestamp with its local date replaced, as one of chrono's `Datelike::with_*` methods on a
/// `DateTime<FixedOffset>` makes it: when that gives a value, it keeps the time of day and the
/// offset.
pub open spec fn redated(ts: Timestamp, date: Date) -> Timestamp {
    Timestamp { local: DateTime { date, ..ts.local }, ..ts }
}

/// What `DateTime::<FixedOffset>::with_year` gives for a timestamp.
pub uninterp spec fn chrono_with_year(ts: Timestamp, year: i32) -> Option<Timestamp>;

/// What `DateTime::<FixedOffset>::with_month` gives for a timestamp.
pub uninterp spec fn chrono_with_month(ts: Timestamp, month: u32) -> Option<Timestamp>;

/// What `DateTime::<FixedOffset>::with_day` gives for a timestamp.
pub uninterp spec fn chrono_with_day(ts: Timestamp, day: u32) -> Option<Timestamp>;

/// `Datelike::with_year` on the chrono timestamp: the same month and day in `year`, time and offset
/// kept; nothing when that date does not exist. Not stated: the other `None` cases the chrono
/// documentation lists (a result outside chrono's UTC or local range).
#[verifier::external_body]
fn timestamp_with_year(ts: Timestamp, year: i32) -> (r: Option<Timestamp>)
    ensures
        r == chrono_with_year(ts, year),
        r matches Some(t) ==> t == redated(ts, Date { year, ..ts.local.date }),
        !valid_ymd(year as int, ts.local.date.month as int, ts.local.date.day as int) ==> r is None,
{
    let (d, t) = (ts.local.date, ts.local.time);
    let l = chrono::NaiveDate::from_ymd_opt(d.year, d.month, d.day)?.and_hms_nano_opt(t.hour, t.minute, t.second, t.nanosecond)?;
    let v = chrono::FixedOffset::east_opt(ts.offset_seconds)?.from_local_datetime(&l).single()?;
    let r = v.with_year(year)?.naive_local();
    Some(Timestamp { local: DateTime { date: Date { year: r.year(), month: r.month(), day: r.day() }, time: t }, ..ts })
}

/// `Datelike::with_month` on the chrono timestamp: the same year and day in `month`, time and
/// offset kept; nothing when that date does not exist. Not stated: the other `None` cases the
/// chrono documentation lists (a result outside chrono's UTC or local range).
#[verifier::external_body]
fn timestamp_with_month(ts: Timestamp, month: u32) -> (r: Option<Timestamp>)
    ensures
        r == chrono_with_month(ts, month),
        r matches Some(t) ==> t == redated(ts, Date { month, ..ts.local.date }),
        !valid_ymd(ts.local.date.year as int, month as int, ts.local.date.day as int) ==> r is None,
{
    let (d, t) = (ts.local.date, ts.local.time);
    let l = chrono::NaiveDate::from_ymd_opt(d.year, d.month, d.day)?.and_hms_nano_opt(t.hour, t.minute, t.second, t.nanosecond)?;
    let v = chrono::FixedOffset::east_opt(ts.offset_seconds)?.from_local_datetime(&l).single()?;
    let r = v.with_month(month)?.naive_local();
    Some(Timestamp { local: DateTime { date: Date { year: r.year(), month: r.month(), day: r.day() }, time: t }, ..ts })
}

/// `Datelike::with_day` on the chrono timestamp: the same year and month on `day`, time and offset
/// kept; nothing when that date does not exist. Not stated: the other `None` cases the chrono
/// documentation lists (a result outside chrono's UTC or local range).
#[verifier::external_body]
fn timestamp_with_day(ts: Timestamp, day: u32) -> (r: Option<Timestamp>)
    ensures
        r == chrono_with_day(ts, day),
        r matches Some(t) ==> t == redated(ts, Date { day, ..ts.local.date }),
        !valid_ymd(ts.local.date.year as int, ts.local.date.month as int, day as int) ==> r is None,
{
    let (d, t) = (ts.local.date, ts.local.time);
    let l = chrono::NaiveDate::from_ymd_opt(d.year, d.month, d.day)?.and_hms_nano_opt(t.hour, t.minute, t.second, t.nanosecond)?;
    let v = chrono::FixedOffset::east_opt(ts.offset_seconds)?.from_local_datetime(&l).single()?;
    let r = v.with_day(day)?.naive_local();
    Some(Timestamp { local: DateTime { date: Date { year: r.year(), month: r.month(), day: r.day() }, time: t }, ..ts })
}

/// English name of a month (1-based), as chrono's `%B` writes it.
pub open spec fn month_name(m: u32) -> Seq<char> {
    if m == 1 {
        "January"@
    } else if m == 2 {
        "February"@
    } else if m == 3 {
        "March"@
    } else if m == 4 {
        "April"@
    } else if m == 5 {
        "May"@
    } else if m == 6 {
        "June"@
    } else if m == 7 {
        "July"@
    } else if m == 8 {
        "August"@
    } else if m == 9 {
        "September"@
    } else if m == 10 {
        "October"@
    } else if m == 11 {
        "November"@
    } else {
        "December"@
    }
}

/// The calendar caption of a date: month name, year, and the month-navigation hint.
pub open spec fn calendar_caption(d: Date) -> Seq<char> {
    month_name(d.month) + " "@ + year_text(d.year as int) + "  [ and ] month"@
}

/// `NaiveDate::format("%B %Y  [ and ] month")`: the English month name, the year as `%Y`
/// writes it, then the literal hint.
#[verifier::external_body]
fn chrono_calendar_caption(d: Date) -> (r: String)
    requires
        valid_date(d),
    ensures
        r@ == calendar_caption(d),
{
    match chrono::NaiveDate::from_ymd_opt(d.year, d.month, d.day) {
        Some(v) => v.format("%B %Y  [ and ] month").to_string(),
        None => String::new(),
    }
}

/// Days in a month by chrono's calendar: the largest of 31, 30, 29 that makes a date, else 28.
pub open spec fn days_in_month(year: int, month: int) -> int {
    if valid_ymd(year, month, 31) {
        31
    } else if valid_ymd(year, month, 30) {
        30
    } else if valid_ymd(year, month, 29) {
        29
    } else {
        28
    }
}

/// Exec [`days_in_month`], probing chrono as the editor does.
fn days_in_month_exec(year: i32, month: u32) -> (r: u32)
    ensures
        r == days_in_month(year as int, month as int),
{
    let mut day: u32 = 31;
    while day > 28
        invariant
            28 <= day <= 31,
            forall|k: int| day < k <= 31 ==> !valid_ymd(year as int, month as int, k),
        decreases day,
    {
        if date_from_ymd(year, month, day).is_some() {
            return day;
        }
        day -= 1;
    }
    28
}

/// Model of a [`TemporalDraft`].
#[verifier::ext_equal]
pub struct TemporalView {
    pub kind: CellEditorKind,
    pub input: TextInputView,
    pub segment: nat,
    pub fraction_width: nat,
}

/// A date/time being edited as formatted text, segment by segment.
#[derive(Debug)]
pub struct TemporalDraft {
    kind: CellEditorKind,
    input: TextInput,
    segment: usize,
    fraction_width: usize,
}

impl View for TemporalDraft {
    type V = TemporalView;

    closed spec fn view(&self) -> TemporalView {
        TemporalView {
            kind: self.kind,
            input: self.input@,
            segment: self.segment as nat,
            fraction_width: self.fraction_width as nat,
        }
    }
}

impl Clone for TemporalDraft {
    fn clone(&self) -> (r: TemporalDraft)
        ensures
            r@ == self@,
    {
        let r = TemporalDraft {
            kind: self.kind,
            input: self.input.clone(),
            segment: self.segment,
            fraction_width: self.fraction_width,
        };
        assert(r@ =~= self@);
        r
    }
}

/// Number of editable segments of a kind.
pub open spec fn segment_count(kind: CellEditorKind) -> nat {
    match kind {
        CellEditorKind::Date => 3,
        CellEditorKind::Time => 3,
        CellEditorKind::DateTime => 6,
        CellEditorKind::Timestamp => 8,
        _ => 0,
    }
}

/// Byte range of a segment in the UTF-8 text: year, month, day, hour, minute, second, then for
/// timestamps the fraction (`fraction_width` bytes after the dot) and the offset.
pub open spec fn segment_range(kind: CellEditorKind, fraction_width: nat, segment: nat) -> Option<(int, int)> {
    let date = seq![(0int, 4int), (5int, 7int), (8int, 10int)];
    let clock = seq![(11int, 13int), (14int, 16int), (17int, 19int)];
    let ranges: Seq<(int, int)> = match kind {
        CellEditorKind::Date => date,
        CellEditorKind::Time => seq![(0int, 2int), (3int, 5int), (6int, 8int)],
        CellEditorKind::DateTime => date + clock,
        CellEditorKind::Timestamp => {
            let fraction_end: int = if fraction_width == 0 {
                19
            } else {
                20 + fraction_width as int
            };
            let offset_start: int = if fraction_width == 0 {
                20
            } else {
                fraction_end + 1
            };
            date + clock + seq![(20int, fraction_end), (offset_start, offset_start + 6)]
        },
        _ => Seq::empty(),
    };
    if segment < ranges.len() {
        Some(ranges[segment as int])
    } else {
        None
    }
}

/// UTF-8 bytes of the text after the first `.` up to the next space (or the end).
pub open spec fn fraction_width_of(text: Seq<char>) -> nat {
    let i = find_char(text, '.');
    if i >= text.len() {
        0
    } else {
        let rest = text.skip(i as int + 1);
        byte_len(rest.take(find_char(rest, ' ') as int))
    }
}

/// A fresh draft of `text`, on the first segment.
pub open spec fn new_draft(kind: CellEditorKind, text: Seq<char>) -> TemporalView {
    TemporalView { kind, input: fresh_input(text), segment: 0, fraction_width: fraction_width_of(text) }
}

/// The editor text of a timestamp: local date-time, a space, the offset.
pub open spec fn timestamp_draft_text(t: Timestamp) -> Seq<char> {
    datetime_text(t.local) + seq![' '] + offset_text(t.offset_seconds as int)
}

/// The text an empty draft of a kind starts from.
pub open spec fn default_draft_text(kind: CellEditorKind) -> Option<Seq<char>> {
    match kind {
        CellEditorKind::Date => Some("1970-01-01"@),
        CellEditorKind::Time => Some("00:00:00"@),
        CellEditorKind::DateTime => Some("1970-01-01 00:00:00"@),
        CellEditorKind::Timestamp => Some("1970-01-01 00:00:00 +00:00"@),
        _ => None,
    }
}

/// `TextInput::set` on a model.
pub open spec fn input_set(v: TextInputView, text: Seq<char>) -> TextInputView {
    edited(v, text, if v.cursor <= text.len() {
        v.cursor
    } else {
        text.len()
    })
}

/// `TextInput::set_cursor` on a model.
pub open spec fn input_set_cursor(v: TextInputView, c: nat) -> TextInputView {
    TextInputView {
        cursor: if c <= v.value.len() {
            c
        } else {
            v.value.len()
        },
        ..v
    }
}

/// `min(a, b)` on naturals.
pub open spec fn min_nat(a: nat, b: nat) -> nat {
    if a <= b {
        a
    } else {
        b
    }
}

/// The segment a request for `segment` lands on: capped at the last one.
pub open spec fn capped_segment(kind: CellEditorKind, segment: int) -> nat {
    let last: nat = if segment_count(kind) == 0 {
        0
    } else {
        (segment_count(kind) - 1) as nat
    };
    if segment <= 0 {
        0
    } else if segment >= last {
        last
    } else {
        segment as nat
    }
}

/// `n` zeros.
pub open spec fn zeros(n: nat) -> Seq<char> {
    Seq::new(n, |i: int| '0')
}

/// Whether `set_segment(segment, ..)` stays within the text: the capped segment's byte range is
/// ordered and both its ends fall between characters of the UTF-8 text.
pub open spec fn set_segment_fits(d: TemporalView, segment: nat) -> bool {
    match segment_range(d.kind, d.fraction_width, capped_segment(d.kind, segment as int)) {
        Some((s, e)) => s <= e && at_char_boundary(d.input.value, s) && at_char_boundary(
            d.input.value,
            e,
        ),
        None => true,
    }
}

/// `set_segment`: selects the (capped) segment and writes `value`, cut to as many characters as
/// the segment has bytes and left-padded with zeros to that many, over the segment's bytes.
pub open spec fn draft_set_segment(d: TemporalView, segment: nat, value: Seq<char>) -> TemporalView {
    let seg = capped_segment(d.kind, segment as int);
    match segment_range(d.kind, d.fraction_width, seg) {
        None => TemporalView { segment: seg, ..d },
        Some((s, e)) => {
            let width = (e - s) as nat;
            let v = value.take(min_nat(width, value.len()) as int);
            let t = d.input.value;
            let text = t.take(char_index_at(t, s)) + zeros((width - v.len()) as nat) + v + t.skip(
                char_index_at(t, e),
            );
            TemporalView { segment: seg, input: input_set(d.input, text), ..d }
        },
    }
}

/// `move_segment`: moves by `direction` segments (capped) and puts the cursor at its start.
pub open spec fn draft_move_segment(d: TemporalView, direction: int) -> TemporalView {
    let target = d.segment + direction;
    let sat: int = if target < 0 {
        0
    } else if target > usize::MAX {
        usize::MAX as int
    } else {
        target
    };
    let seg = capped_segment(d.kind, sat);
    match segment_range(d.kind, d.fraction_width, seg) {
        Some((s, _)) => TemporalView { segment: seg, input: input_set_cursor(d.input, s as nat), ..d },
        None => TemporalView { segment: seg, ..d },
    }
}

/// Whether `insert` accepts the character for the draft's kind.
pub open spec fn accepts_char(kind: CellEditorKind, c: char) -> bool {
    ('0' <= c && c <= '9') || (kind == CellEditorKind::Timestamp && c == ':')
}

/// Where `insert` writes, as a byte offset: the cursor (a character count) clamped into the
/// segment's byte range.
pub open spec fn insert_position(d: TemporalView, s: int, e: int) -> int {
    let hi: int = if e <= 0 {
        0
    } else {
        e - 1
    };
    if (d.input.cursor as int) < s {
        s
    } else if (d.input.cursor as int) > hi {
        hi
    } else {
        d.input.cursor as int
    }
}

/// Whether `insert(c)` stays within the text: the clamp range is ordered and the byte written
/// over is a whole one-byte character (both its ends fall between characters).
pub open spec fn insert_fits(d: TemporalView, c: char) -> bool {
    accepts_char(d.kind, c) ==> match segment_range(d.kind, d.fraction_width, d.segment) {
        Some((s, e)) => s <= (if e <= 0 {
            0
        } else {
            e - 1
        }) && at_char_boundary(d.input.value, insert_position(d, s, e)) && at_char_boundary(
            d.input.value,
            insert_position(d, s, e) + 1,
        ),
        None => true,
    }
}

/// `insert`: overwrites the one-byte character at the (clamped) byte position inside the current
/// segment and puts the cursor at the next position (capped at the segment end).
pub open spec fn draft_insert(d: TemporalView, c: char) -> TemporalView {
    if !accepts_char(d.kind, c) {
        d
    } else {
        match segment_range(d.kind, d.fraction_width, d.segment) {
            None => d,
            Some((s, e)) => {
                let p = insert_position(d, s, e);
                let t = d.input.value;
                let k = char_index_at(t, p);
                let text = t.take(k).push(c) + t.skip(k + 1);
                let set = input_set(d.input, text);
                TemporalView {
                    input: input_set_cursor(set, (if p + 1 <= e {
                        p + 1
                    } else {
                        e
                    }) as nat),
                    ..d
                }
            },
        }
    }
}

/// The date a draft shows, as chrono reads it for its kind.
pub open spec fn draft_date(d: TemporalView) -> Option<Date> {
    match d.kind {
        CellEditorKind::Date => chrono_date_parse(d.input.value),
        CellEditorKind::DateTime => match chrono_datetime_parse(d.input.value) {
            Some(v) => Some(v.date),
            None => None,
        },
        CellEditorKind::Timestamp => match chrono_timestamp_parse(d.input.value) {
            Some(v) => Some(v.local.date),
            None => None,
        },
        _ => None,
    }
}

/// The timestamp moved to another date through chrono's `with_year`, `with_month`, `with_day`.
pub open spec fn timestamp_redated(text: Seq<char>, y: i32, m: u32, day: u32) -> Option<Timestamp> {
    match chrono_timestamp_parse(text) {
        Some(t) => match chrono_with_year(t, y) {
            Some(a) => match chrono_with_month(a, m) {
                Some(b) => chrono_with_day(b, day),
                None => None,
            },
            None => None,
        },
        None => None,
    }
}

/// The month index `month - 1 + direction` as `isize` arithmetic computes it (wrapping where
/// it overflows).
pub open spec fn shifted_month_index(date: Date, direction: isize) -> isize {
    ((date.month - 1) as isize).wrapping_add(direction)
}

/// The year after a shift: the floor of the month index over twelve, cut to `i32`, added to the
/// year with `i32` arithmetic (wrapping where it overflows).
pub open spec fn shifted_year(date: Date, direction: isize) -> i32 {
    date.year.wrapping_add(((shifted_month_index(date, direction) as int) / 12) as i32)
}

/// `shift_month`: for date kinds whose text chrono reads, the date moves by `direction` months
/// (day capped to the target month); the text is rewritten in the draft's format, falling back
/// to the bare date when the time part cannot be kept. A target outside chrono's calendar, or
/// anything else, leaves the draft alone.
pub open spec fn draft_shift_month(d: TemporalView, direction: isize) -> TemporalView {
    match draft_date(d) {
        None => d,
        Some(date) => {
            let year = shifted_year(date, direction) as int;
            let month = (shifted_month_index(date, direction) as int) % 12 + 1;
            let day = if date.day <= days_in_month(year, month) {
                date.day as int
            } else {
                days_in_month(year, month)
            };
            if !valid_ymd(year, month, day) {
                d
            } else {
                let nd = Date { year: year as i32, month: month as u32, day: day as u32 };
                let text = match d.kind {
                    CellEditorKind::DateTime => match chrono_datetime_parse(d.input.value) {
                        Some(v) => datetime_text(DateTime { date: nd, time: v.time }),
                        None => date_text(nd),
                    },
                    CellEditorKind::Timestamp => match timestamp_redated(
                        d.input.value,
                        nd.year,
                        nd.month,
                        nd.day,
                    ) {
                        Some(t) => timestamp_draft_text(t),
                        None => date_text(nd),
                    },
                    _ => date_text(nd),
                };
                TemporalView { input: input_set(d.input, text), ..d }
            }
        },
    }
}

/// What `parse` gives for a draft.
pub open spec fn draft_value(d: TemporalView) -> Result<CellView, Seq<char>> {
    match d.kind {
        CellEditorKind::Date => match chrono_date_parse(d.input.value) {
            Some(v) => Ok(CellView::Date(v)),
            None => Err("invalid date; expected YYYY-MM-DD"@),
        },
        CellEditorKind::Time => match chrono_time_parse(d.input.value) {
            Some(v) => Ok(CellView::Time(v)),
            None => Err("invalid time; expected HH:MM:SS[.fraction]"@),
        },
        CellEditorKind::DateTime => match chrono_datetime_parse(d.input.value) {
            Some(v) => Ok(CellView::DateTime(v)),
            None => Err("invalid datetime; expected YYYY-MM-DD HH:MM:SS[.fraction]"@),
        },
        CellEditorKind::Timestamp => match chrono_timestamp_parse(d.input.value) {
            Some(v) => Ok(CellView::Timestamp(v)),
            None => Err("invalid timestamp; expected YYYY-MM-DD HH:MM:SS[.fraction] ±HH:MM"@),
        },
        _ => Err("not a temporal draft"@),
    }
}

/// Exec [`segment_range`] (ends may exceed `usize`, hence `u128`).
fn segment_range_exec(kind: CellEditorKind, fraction_width: usize, segment: usize) -> (r: Option<(u128, u128)>)
    ensures
        match r {
            Some((s, e)) => segment_range(kind, fraction_width as nat, segment as nat) == Some(
                (s as int, e as int),
            ),
            None => segment_range(kind, fraction_width as nat, segment as nat) is None,
        },
{
    let fw = fraction_width as u128;
    let fraction_end: u128 = if fw == 0 {
        19
    } else {
        20 + fw
    };
    let offset_start: u128 = if fw == 0 {
        20
    } else {
        fraction_end + 1
    };
    let r: Option<(u128, u128)> = match kind {
        CellEditorKind::Date => if segment == 0 {
            Some((0, 4))
        } else if segment == 1 {
            Some((5, 7))
        } else if segment == 2 {
            Some((8, 10))
        } else {
            None
        },
        CellEditorKind::Time => if segment == 0 {
            Some((0, 2))
        } else if segment == 1 {
            Some((3, 5))
        } else if segment == 2 {
            Some((6, 8))
        } else {
            None
        },
        CellEditorKind::DateTime | CellEditorKind::Timestamp => if segment == 0 {
            Some((0, 4))
        } else if segment == 1 {
            Some((5, 7))
        } else if segment == 2 {
            Some((8, 10))
        } else if segment == 3 {
            Some((11, 13))
        } else if segment == 4 {
            Some((14, 16))
        } else if segment == 5 {
            Some((17, 19))
        } else if kind == CellEditorKind::Timestamp && segment == 6 {
            Some((20, fraction_end))
        } else if kind == CellEditorKind::Timestamp && segment == 7 {
            Some((offset_start, offset_start + 6))
        } else {
            None
        },
        _ => None,
    };
    r
}

fn segment_count_exec(kind: CellEditorKind) -> (r: usize)
    ensures
        r == segment_count(kind),
{
    match kind {
        CellEditorKind::Date => 3,
        CellEditorKind::Time => 3,
        CellEditorKind::DateTime => 6,
        CellEditorKind::Timestamp => 8,
        _ => 0,
    }
}

/// Exec [`fraction_width_of`].
fn fraction_width_exec(text: &str) -> (r: usize)
    ensures
        r == fraction_width_of(text@),
{
    let n = text.as_bytes().len();
    proof {
        lemma_str_byte_len_fits(text, n);
    }
    let cs = chars_of(text);
    let i = find_char_exec(&cs, '.');
    proof {
        lemma_find_char(cs@, '.');
    }
    if i >= cs.len() {
        return 0;
    }
    let mut rest: Vec<char> = Vec::new();
    let mut k = i + 1;
    while k < cs.len()
        invariant
            i + 1 <= k <= cs@.len(),
            rest@ == cs@.subrange(i + 1, k as int),
        decreases cs.len() - k,
    {
        rest.push(cs[k]);
        assert(rest@ =~= cs@.subrange(i + 1, k + 1));
        k += 1;
    }
    assert(rest@ =~= text@.skip(i as int + 1));
    let j = find_char_exec(&rest, ' ');
    proof {
        lemma_find_char(rest@, ' ');
    }
    let mut part: Vec<char> = Vec::new();
    let mut m: usize = 0;
    while m < j
        invariant
            m <= j <= rest@.len(),
            part@ == rest@.take(m as int),
        decreases j - m,
    {
        part.push(rest[m]);
        assert(part@ =~= rest@.take(m + 1));
        m += 1;
    }
    let bytes = byte_len_exec(&part);
    proof {
        let t = text@;
        let front = t.take(i as int + 1);
        let back = rest@.skip(j as int);
        assert(t =~= front + (part@ + back));
        lemma_byte_len_concat(front, part@ + back);
        lemma_byte_len_concat(part@, back);
    }
    bytes as usize
}

impl TemporalDraft {
    fn new(kind: CellEditorKind, value: String) -> (r: TemporalDraft)
        ensures
            r@ == new_draft(kind, value@),
    {
        let fraction_width = fraction_width_exec(value.as_str());
        let r = TemporalDraft { kind, input: TextInput::from(value.as_str()), segment: 0, fraction_width };
        assert(r@ =~= new_draft(kind, value@));
        r
    }

    /// A draft of a date, `YYYY-MM-DD`.
    pub fn date(value: Date) -> (r: TemporalDraft)
        ensures
            r@ == new_draft(CellEditorKind::Date, date_text(value)),
    {
        let mut text = String::new();
        push_date(&mut text, value);
        assert(text@ =~= date_text(value));
        Self::new(CellEditorKind::Date, text)
    }

    /// A draft of a time of day, `HH:MM:SS[.fraction]`.
    pub fn from_time(value: Time) -> (r: TemporalDraft)
        ensures
            r@ == new_draft(CellEditorKind::Time, time_text(value)),
    {
        let mut text = String::new();
        push_time(&mut text, value);
        assert(text@ =~= time_text(value));
        Self::new(CellEditorKind::Time, text)
    }

    /// A draft of a date-time, `YYYY-MM-DD HH:MM:SS[.fraction]`.
    pub fn from_datetime(value: DateTime) -> (r: TemporalDraft)
        ensures
            r@ == new_draft(CellEditorKind::DateTime, datetime_text(value)),
    {
        let mut text = String::new();
        push_datetime(&mut text, value);
        assert(text@ =~= datetime_text(value));
        Self::new(CellEditorKind::DateTime, text)
    }

    /// A draft of a timestamp, `YYYY-MM-DD HH:MM:SS[.fraction] ±HH:MM`; its fraction segment is
    /// as wide as the nanosecond count has digits.
    pub fn from_timestamp(value: Timestamp) -> (r: TemporalDraft)
        ensures
            r@ == (TemporalView {
                fraction_width: nat_digits(value.local.time.nanosecond as nat).len(),
                ..new_draft(CellEditorKind::Timestamp, timestamp_draft_text(value))
            }),
    {
        let mut text = String::new();
        push_datetime(&mut text, value.local);
        text.push(' ');
        push_offset(&mut text, value.offset_seconds);
        assert(text@ =~= timestamp_draft_text(value));
        let mut draft = Self::new(CellEditorKind::Timestamp, text);
        let mut digits = String::new();
        push_u128_digits(&mut digits, value.local.time.nanosecond as u128);
        let width = char_count(digits.as_str());
        draft.fraction_width = width;
        proof {
            lemma_digits_nonempty(value.local.time.nanosecond as nat);
        }
        assert(draft@ =~= (TemporalView {
            fraction_width: nat_digits(value.local.time.nanosecond as nat).len(),
            ..new_draft(CellEditorKind::Timestamp, timestamp_draft_text(value))
        }));
        draft
    }

    /// A draft of `value` for a temporal kind; an empty text starts from the kind's default
    /// (the epoch), and non-temporal kinds have none.
    pub fn from_kind_and_text(kind: CellEditorKind, value: &str) -> (r: Option<TemporalDraft>)
        ensures
            value@.len() == 0 ==> match default_draft_text(kind) {
                Some(t) => r matches Some(d) && d@ == new_draft(kind, t),
                None => r is None,
            },
            value@.len() != 0 ==> (r matches Some(d) && d@ == new_draft(kind, value@)),
    {
        let n = char_count(value);
        let text: String = if n == 0 {
            match kind {
                CellEditorKind::Date => owned("1970-01-01"),
                CellEditorKind::Time => owned("00:00:00"),
                CellEditorKind::DateTime => owned("1970-01-01 00:00:00"),
                CellEditorKind::Timestamp => owned("1970-01-01 00:00:00 +00:00"),
                _ => {
                    return None;
                },
            }
        } else {
            owned(value)
        };
        Some(Self::new(kind, text))
    }

    /// The kind of value edited.
    pub fn kind(&self) -> (r: CellEditorKind)
        ensures
            r == self@.kind,
    {
        self.kind
    }

    /// The text input holding the draft text.
    pub fn input(&self) -> (r: &TextInput)
        ensures
            r@ == self@.input,
    {
        &self.input
    }

    /// The text input, for editing.
    pub fn input_mut(&mut self) -> (r: &mut TextInput)
        ensures
            r@ == old(self)@.input,
            final(self)@ == (TemporalView { input: final(r)@, ..old(self)@ }),
    {
        &mut self.input
    }

    /// The draft text.
    pub fn render(&self) -> (r: &str)
        ensures
            r@ == self@.input.value,
    {
        self.input.value()
    }

    /// The same draft without undo history.
    pub fn without_history(&self) -> (r: TemporalDraft)
        ensures
            r@ == (TemporalView {
                input: TextInputView { history: Seq::empty(), redo: Seq::empty(), ..self@.input },
                ..self@
            }),
    {
        TemporalDraft {
            kind: self.kind,
            input: self.input.without_history(),
            segment: self.segment,
            fraction_width: self.fraction_width,
        }
    }

    /// Whether kind, text, cursor, segment and fraction width equal those of `other`.
    pub fn same_state(&self, other: &TemporalDraft) -> (r: bool)
        ensures
            r == (self@.kind == other@.kind && self@.input.value == other@.input.value
                && self@.input.cursor == other@.input.cursor && self@.segment == other@.segment
                && self@.fraction_width == other@.fraction_width),
    {
        self.kind == other.kind && self.input.same_state(&other.input) && self.segment
            == other.segment && self.fraction_width == other.fraction_width
    }

    fn capped(&self, segment: usize) -> (r: usize)
        ensures
            r == capped_segment(self@.kind, segment as int),
    {
        let count = segment_count_exec(self.kind);
        let last = if count == 0 {
            0
        } else {
            count - 1
        };
        if segment >= last {
            last
        } else {
            segment
        }
    }

    /// Selects a segment (capped) and writes `value` over it (see [`draft_set_segment`]).
    pub fn set_segment(&mut self, segment: usize, value: &str)
        requires
            set_segment_fits(old(self)@, segment as nat),
        ensures
            final(self)@ == draft_set_segment(old(self)@, segment as nat, value@),
    {
        let seg = self.capped(segment);
        self.segment = seg;
        let (start, end) = match segment_range_exec(self.kind, self.fraction_width, seg) {
            Some(r) => r,
            None => {
                return;
            },
        };
        let current = self.input.value();
        let text = chars_of(current);
        let nbytes = current.as_bytes().len();
        proof {
            lemma_str_byte_len_fits(current, nbytes);
            lemma_char_index_order(text@, start as int, end as int);
        }
        let ks = match char_index_at_exec(&text, start) {
            Some(k) => k,
            None => {
                return;
            },
        };
        let ke = match char_index_at_exec(&text, end) {
            Some(k) => k,
            None => {
                return;
            },
        };
        let width = (end - start) as usize;
        let vs = chars_of(value);
        let take = if width <= vs.len() {
            width
        } else {
            vs.len()
        };
        let mut out = String::new();
        let mut k: usize = 0;
        while k < ks
            invariant
                k <= ks <= ke <= text@.len(),
                out@ == text@.take(k as int),
            decreases ks - k,
        {
            out.push(text[k]);
            assert(out@ =~= text@.take(k + 1));
            k += 1;
        }
        let pad = width - take;
        let mut z: usize = 0;
        while z < pad
            invariant
                z <= pad,
                out@ == text@.take(ks as int) + zeros(z as nat),
            decreases pad - z,
        {
            out.push('0');
            assert(out@ =~= text@.take(ks as int) + zeros((z + 1) as nat));
            z += 1;
        }
        let mut j: usize = 0;
        while j < take
            invariant
                j <= take <= vs@.len(),
                out@ == text@.take(ks as int) + zeros(pad as nat) + vs@.take(j as int),
            decreases take - j,
        {
            out.push(vs[j]);
            assert(out@ =~= text@.take(ks as int) + zeros(pad as nat) + vs@.take(j + 1));
            j += 1;
        }
        let mut m = ke;
        while m < text.len()
            invariant
                ke <= m <= text@.len(),
                out@ == text@.take(ks as int) + zeros(pad as nat) + vs@.take(take as int)
                    + text@.subrange(ke as int, m as int),
            decreases text.len() - m,
        {
            out.push(text[m]);
            assert(out@ =~= text@.take(ks as int) + zeros(pad as nat) + vs@.take(take as int)
                + text@.subrange(ke as int, m + 1));
            m += 1;
        }
        assert(out@ =~= text@.take(ks as int) + zeros(pad as nat) + vs@.take(take as int)
            + text@.skip(ke as int));
        self.input.set(out);
        assert(self@ =~= draft_set_segment(old(self)@, segment as nat, value@));
    }

    /// Moves by `direction` segments (see [`draft_move_segment`]).
    pub fn move_segment(&mut self, direction: isize)
        ensures
            final(self)@ == draft_move_segment(old(self)@, direction as int),
    {
        let target: usize = if direction < 0 {
            let back = (-(direction as i128)) as u128;
            if back >= self.segment as u128 {
                0
            } else {
                self.segment - back as usize
            }
        } else {
            let fwd = direction as usize;
            if fwd > usize::MAX - self.segment {
                usize::MAX
            } else {
                self.segment + fwd
            }
        };
        let seg = self.capped(target);
        self.segment = seg;
        match segment_range_exec(self.kind, self.fraction_width, seg) {
            Some((start, _)) => {
                let n = char_count(self.input.value());
                let c: usize = if start <= n as u128 {
                    start as usize
                } else {
                    n
                };
                self.input.set_cursor(c);
            },
            None => {},
        }
        assert(self@ =~= draft_move_segment(old(self)@, direction as int));
    }

    /// Overwrites the character at the cursor inside the current segment (see [`draft_insert`]).
    pub fn insert(&mut self, character: char)
        requires
            insert_fits(old(self)@, character),
        ensures
            final(self)@ == draft_insert(old(self)@, character),
    {
        if !(('0' <= character && character <= '9') || (self.kind == CellEditorKind::Timestamp
            && character == ':')) {
            return;
        }
        let (start, end) = match segment_range_exec(self.kind, self.fraction_width, self.segment) {
            Some(r) => r,
            None => {
                return;
            },
        };
        let hi: u128 = if end == 0 {
            0
        } else {
            end - 1
        };
        let c = self.input.cursor() as u128;
        let p: u128 = if c < start {
            start
        } else if c > hi {
            hi
        } else {
            c
        };
        let current = self.input.value();
        let text = chars_of(current);
        let nbytes = current.as_bytes().len();
        proof {
            lemma_str_byte_len_fits(current, nbytes);
            lemma_char_index_next(text@, p as int);
            lemma_char_index_order(text@, p as int, p + 1);
        }
        let kp = match char_index_at_exec(&text, p) {
            Some(k) => k,
            None => {
                return;
            },
        };
        assert(kp < text@.len());
        let mut out = String::new();
        let mut k: usize = 0;
        while k < kp
            invariant
                k <= kp < text@.len(),
                out@ == text@.take(k as int),
            decreases kp - k,
        {
            out.push(text[k]);
            assert(out@ =~= text@.take(k + 1));
            k += 1;
        }
        out.push(character);
        assert(kp < text.len());
        let mut m = kp + 1;
        while m < text.len()
            invariant
                kp + 1 <= m <= text@.len(),
                out@ == text@.take(kp as int).push(character) + text@.subrange(kp + 1, m as int),
            decreases text.len() - m,
        {
            out.push(text[m]);
            assert(out@ =~= text@.take(kp as int).push(character) + text@.subrange(kp + 1, m + 1));
            m += 1;
        }
        assert(out@ =~= text@.take(kp as int).push(character) + text@.skip(kp + 1));
        self.input.set(out);
        let next: usize = if p + 1 <= end {
            (p + 1) as usize
        } else {
            end as usize
        };
        self.input.set_cursor(next);
        assert(self@ =~= draft_insert(old(self)@, character));
    }

    /// Reads the text as the draft's kind (see [`draft_value`]).
    pub fn parse(&self) -> (r: Result<CellValue, String>)
        ensures
            match (r, draft_value(self@)) {
                (Ok(v), Ok(w)) => v@ == w,
                (Err(e), Err(w)) => e@ == w,
                _ => false,
            },
            forall|v: CellView|
                round_trips(self@.kind, v) && self@.input.value == temporal_text(v) ==> (r matches Ok(
                    x,
                ) && x@ == v),
    {
        let r = match self.kind {
            CellEditorKind::Date => match self.parse_date() {
                Ok(v) => Ok(CellValue::Date(v)),
                Err(e) => Err(e),
            },
            CellEditorKind::Time => match self.parse_time() {
                Ok(v) => Ok(CellValue::Time(v)),
                Err(e) => Err(e),
            },
            CellEditorKind::DateTime => match self.parse_datetime() {
                Ok(v) => Ok(CellValue::DateTime(v)),
                Err(e) => Err(e),
            },
            CellEditorKind::Timestamp => match self.parse_timestamp() {
                Ok(v) => Ok(CellValue::Timestamp(v)),
                Err(e) => Err(e),
            },
            _ => Err(owned("not a temporal draft")),
        };
        assert forall|v: CellView|
            round_trips(self@.kind, v) && self@.input.value == temporal_text(v) implies (r matches Ok(
                x,
            ) && x@ == v) by {
            match v {
                CellView::Date(d) => {
                    assert(round_trip_date(d) && self@.input.value == date_text(d));
                },
                CellView::Time(t) => {
                    assert(round_trip_time(t) && self@.input.value == time_text(t));
                },
                CellView::DateTime(d) => {
                    assert(round_trip_datetime(d) && self@.input.value == datetime_text(d));
                },
                CellView::Timestamp(t) => {
                    assert(round_trip_timestamp(t) && self@.input.value == timestamp_draft_text(t));
                },
                _ => {},
            }
        }
        r
    }

    /// The text read as a date (`%Y-%m-%d`).
    pub fn parse_date(&self) -> (r: Result<Date, String>)
        ensures
            match r {
                Ok(v) => chrono_date_parse(self@.input.value) == Some(v) && valid_date(v),
                Err(e) => chrono_date_parse(self@.input.value) is None && e@
                    == "invalid date; expected YYYY-MM-DD"@,
            },
            forall|d: Date| round_trip_date(d) && self@.input.value == date_text(d) ==> r == Ok::<
                Date,
                String,
            >(d),
    {
        match chrono_parse_date(self.render()) {
            Some(v) => Ok(v),
            None => Err(owned("invalid date; expected YYYY-MM-DD")),
        }
    }

    /// The text read as a time (`%H:%M:%S%.f`).
    pub fn parse_time(&self) -> (r: Result<Time, String>)
        ensures
            match r {
                Ok(v) => chrono_time_parse(self@.input.value) == Some(v) && valid_time(v),
                Err(e) => chrono_time_parse(self@.input.value) is None && e@
                    == "invalid time; expected HH:MM:SS[.fraction]"@,
            },
            forall|t: Time| round_trip_time(t) && self@.input.value == time_text(t) ==> r == Ok::<
                Time,
                String,
            >(t),
    {
        match chrono_parse_time(self.render()) {
            Some(v) => Ok(v),
            None => Err(owned("invalid time; expected HH:MM:SS[.fraction]")),
        }
    }

    /// The text read as a date-time (`%Y-%m-%d %H:%M:%S%.f`).
    pub fn parse_datetime(&self) -> (r: Result<DateTime, String>)
        ensures
            match r {
                Ok(v) => chrono_datetime_parse(self@.input.value) == Some(v) && valid_date(v.date)
                    && valid_time(v.time),
                Err(e) => chrono_datetime_parse(self@.input.value) is None && e@
                    == "invalid datetime; expected YYYY-MM-DD HH:MM:SS[.fraction]"@,
            },
            forall|d: DateTime|
                round_trip_datetime(d) && self@.input.value == datetime_text(d) ==> r == Ok::<
                    DateTime,
                    String,
                >(d),
    {
        match chrono_parse_datetime(self.render()) {
            Some(v) => Ok(v),
            None => Err(owned("invalid datetime; expected YYYY-MM-DD HH:MM:SS[.fraction]")),
        }
    }

    /// The text read as a timestamp (`%Y-%m-%d %H:%M:%S%.f %:z`).
    pub fn parse_timestamp(&self) -> (r: Result<Timestamp, String>)
        ensures
            match r {
                Ok(v) => chrono_timestamp_parse(self@.input.value) == Some(v) && valid_date(
                    v.local.date,
                ) && valid_time(v.local.time),
                Err(e) => chrono_timestamp_parse(self@.input.value) is None && e@
                    == "invalid timestamp; expected YYYY-MM-DD HH:MM:SS[.fraction] ±HH:MM"@,
            },
            forall|t: Timestamp|
                round_trip_timestamp(t) && self@.input.value == timestamp_draft_text(t) ==> r
                    == Ok::<Timestamp, String>(t),
    {
        match chrono_parse_timestamp(self.render()) {
            Some(v) => Ok(v),
            None => Err(owned("invalid timestamp; expected YYYY-MM-DD HH:MM:SS[.fraction] ±HH:MM")),
        }
    }

    /// The parse error, if any.
    pub fn error(&self) -> (r: Option<String>)
        ensures
            match draft_value(self@) {
                Ok(_) => r is None,
                Err(e) => r matches Some(m) && m@ == e,
            },
    {
        match self.parse() {
            Ok(_) => None,
            Err(e) => Some(e),
        }
    }

    fn date_of(&self) -> (r: Option<Date>)
        ensures
            r == draft_date(self@),
            r matches Some(d) ==> valid_date(d),
    {
        match self.kind {
            CellEditorKind::Date => chrono_parse_date(self.render()),
            CellEditorKind::DateTime => match chrono_parse_datetime(self.render()) {
                Some(v) => Some(v.date),
                None => None,
            },
            CellEditorKind::Timestamp => match chrono_parse_timestamp(self.render()) {
                Some(v) => Some(v.local.date),
                None => None,
            },
            _ => None,
        }
    }

    /// The caption of the calendar shown for the draft's date, if it has one.
    pub fn calendar_label(&self) -> (r: Option<String>)
        ensures
            match draft_date(self@) {
                Some(d) => r matches Some(s) && s@ == calendar_caption(d),
                None => r is None,
            },
    {
        match self.date_of() {
            Some(d) => Some(chrono_calendar_caption(d)),
            None => None,
        }
    }

    /// Moves the date by `direction` months (see [`draft_shift_month`]).
    pub fn shift_month(&mut self, direction: isize)
        ensures
            final(self)@ == draft_shift_month(old(self)@, direction),
    {
        let date = match self.date_of() {
            Some(d) => d,
            None => {
                return;
            },
        };
        let index: isize = ((date.month - 1) as isize).wrapping_add(direction);
        let m: i128 = index as i128;
        let q: i128 = if m >= 0 {
            m / 12
        } else {
            -((-m + 11) / 12)
        };
        let r: i128 = m - q * 12;
        assert(q == m / 12 && r == m % 12) by (nonlinear_arith)
            requires
                m >= 0 ==> q == m / 12,
                m < 0 ==> q == -((-m + 11) / 12),
                r == m - q * 12,
        {
        }
        let year: i32 = date.year.wrapping_add(#[verifier::truncate] (q as i32));
        let month: u32 = (r + 1) as u32;
        let dim = days_in_month_exec(year, month);
        let day = if date.day <= dim {
            date.day
        } else {
            dim
        };
        let nd = match date_from_ymd(year, month, day) {
            Some(d) => d,
            None => {
                return;
            },
        };
        let mut text = String::new();
        match self.kind {
            CellEditorKind::DateTime => match chrono_parse_datetime(self.render()) {
                Some(v) => push_datetime(&mut text, DateTime { date: nd, time: v.time }),
                None => push_date(&mut text, nd),
            },
            CellEditorKind::Timestamp => {
                let moved = match chrono_parse_timestamp(self.render()) {
                    Some(t) => match timestamp_with_year(t, nd.year) {
                        Some(a) => match timestamp_with_month(a, nd.month) {
                            Some(b) => timestamp_with_day(b, nd.day),
                            None => None,
                        },
                        None => None,
                    },
                    None => None,
                };
                match moved {
                    Some(t) => {
                        push_datetime(&mut text, t.local);
                        text.push(' ');
                        push_offset(&mut text, t.offset_seconds);
                    },
                    None => push_date(&mut text, nd),
                }
            },
            _ => push_date(&mut text, nd),
        }
        self.input.set(text);
        assert(self@ =~= draft_shift_month(old(self)@, direction));
    }
}

proof fn lemma_digits_nonempty(n: nat)
    ensures
        nat_digits(n).len() >= 1,
    decreases n,
{
    if n >= 10 {
        lemma_digits_nonempty(n / 10);
    }
}


/// Whether the segment `set_segment(segment, ..)` writes spans as many characters as bytes (each
/// of its characters is one byte, as digits are).
pub open spec fn segment_of_one_byte_chars(d: TemporalView, segment: nat) -> bool {
    match segment_range(d.kind, d.fraction_width, capped_segment(d.kind, segment as int)) {
        Some((s, e)) => char_index_at(d.input.value, e) - char_index_at(d.input.value, s) == e - s,
        None => true,
    }
}

/// Typing into a draft overwrites one character in place, so the draft text keeps its length;
/// writing a segment keeps it too where the segment's characters are one byte each (for the
/// inputs on which the editor stays inside the text).
pub proof fn law_segment_edits_keep_text_length(d: TemporalView, c: char, segment: nat, value: Seq<char>)
    ensures
        insert_fits(d, c) ==> draft_insert(d, c).input.value.len() == d.input.value.len(),
        set_segment_fits(d, segment) && segment_of_one_byte_chars(d, segment) ==> draft_set_segment(
            d,
            segment,
            value,
        ).input.value.len() == d.input.value.len(),
{
    let t = d.input.value;
    if insert_fits(d, c) && accepts_char(d.kind, c) {
        match segment_range(d.kind, d.fraction_width, d.segment) {
            Some((s, e)) => {
                let p = insert_position(d, s, e);
                lemma_char_index_next(t, p);
                let k = char_index_at(t, p);
                let text = t.take(k).push(c) + t.skip(k + 1);
                assert(text.len() == t.len());
            },
            None => {},
        }
    }
    if set_segment_fits(d, segment) && segment_of_one_byte_chars(d, segment) {
        let seg = capped_segment(d.kind, segment as int);
        match segment_range(d.kind, d.fraction_width, seg) {
            Some((s, e)) => {
                lemma_char_index_order(t, s, e);
                let width = (e - s) as nat;
                let v = value.take(min_nat(width, value.len()) as int);
                let text = t.take(char_index_at(t, s)) + zeros((width - v.len()) as nat) + v + t.skip(
                    char_index_at(t, e),
                );
                assert(text.len() == t.len());
            },
            None => {},
        }
    }
}

} // verus!
