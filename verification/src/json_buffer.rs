//! The multi-line JSON cell editor buffer, its tokenizer and formatter.
use vstd::prelude::*;
use crate::text::{
    char_count, chars_of, insert_at, is_digit, push_chars, is_whitespace, is_ws, owned, remove_range,
    string_insert_at, string_of, string_remove_range,
};
use crate::text_input::{TextInputEdit, word_start, word_start_exec, lemma_skip_back_bounds};

verus! {

/// A JSON syntax error: message, 1-based line and column.
#[derive(Clone, Debug, PartialEq, Eq)]
pub struct JsonValidationError {
    pub message: String,
    pub line: usize,
    pub column: usize,
}

/// What `serde_json` reports when it reads `text` as one JSON value (ignoring the value):
/// nothing when the text is valid, else the error's message, line and column.
pub uninterp spec fn serde_json_check(text: Seq<char>) -> Option<(Seq<char>, usize, usize)>;

/// Checks that the text is one valid JSON value, with `serde_json::from_str::<IgnoredAny>`;
/// the error keeps serde_json's message, line and column (see [`serde_json_check`]).
#[verifier::external_body]
pub fn validate_json(value: &str) -> (r: Result<(), JsonValidationError>)
    ensures
        match r {
            Ok(_) => serde_json_check(value@) is None,
            Err(e) => serde_json_check(value@) == Some((e.message@, e.line, e.column)),
        },
{
    match serde_json::from_str::<serde::de::IgnoredAny>(value) {
        Ok(_) => Ok(()),
        Err(error) => Err(
            JsonValidationError {
                message: error.to_string(),
                line: error.line(),
                column: error.column(),
            },
        ),
    }
}

/// Highlighting class of a JSON token.
#[derive(Clone, Copy, Debug, PartialEq, Eq, Structural)]
pub enum JsonTokenKind {
    String,
    Number,
    Boolean,
    Null,
    Punctuation,
    Whitespace,
    Invalid,
}

/// A token of JSON source: byte range and class.
#[derive(Clone, Copy, Debug, PartialEq, Eq, Structural)]
pub struct JsonToken {
    pub start: usize,
    pub end: usize,
    pub kind: JsonTokenKind,
}

/// Bytes of the UTF-8 encoding of a character.
pub open spec fn utf8_width(c: char) -> nat {
    if (c as u32) < 0x80 {
        1
    } else if (c as u32) < 0x800 {
        2
    } else if (c as u32) < 0x10000 {
        3
    } else {
        4
    }
}

/// Bytes of the UTF-8 encoding of a text.
pub open spec fn byte_len(s: Seq<char>) -> nat
    decreases s.len(),
{
    if s.len() == 0 {
        0
    } else {
        byte_len(s.drop_last()) + utf8_width(s.last())
    }
}

/// Peeling the first character off a text takes its width off the byte length.
proof fn lemma_byte_len_first(s: Seq<char>)
    requires
        s.len() > 0,
    ensures
        byte_len(s) == utf8_width(s[0]) + byte_len(s.drop_first()),
    decreases s.len(),
{
    let dl = s.drop_last();
    let df = s.drop_first();
    assert(byte_len(s) == byte_len(dl) + utf8_width(s.last()));
    if s.len() > 1 {
        lemma_byte_len_first(dl);
        assert(dl[0] == s[0]);
        assert(dl.drop_first() =~= df.drop_last());
        assert(df.last() == s.last());
        assert(byte_len(df) == byte_len(df.drop_last()) + utf8_width(df.last()));
    } else {
        assert(dl.len() == 0);
        assert(df.len() == 0);
        assert(s.last() == s[0]);
    }
}

/// The byte length is the length of the text's UTF-8 encoding.
proof fn lemma_byte_len_encoding(s: Seq<char>)
    ensures
        byte_len(s) == vstd::utf8::encode_utf8(s).len(),
    decreases s.len(),
{
    if s.len() > 0 {
        lemma_byte_len_first(s);
        lemma_byte_len_encoding(s.drop_first());
        let v = s[0] as u32;
        vstd::utf8::char_is_scalar(s[0]);
        if v < 0x80 {
            assert(vstd::utf8::has_width_1_encoding(v));
        } else if v < 0x800 {
            assert(vstd::utf8::has_width_2_encoding(v));
        } else if v < 0x10000 {
            assert(vstd::utf8::has_width_3_encoding(v));
        } else {
            assert(!vstd::utf8::has_width_3_encoding(v));
        }
        assert(vstd::utf8::encode_scalar(v).len() == utf8_width(s[0]));
        assert(vstd::utf8::encode_utf8(s) == vstd::utf8::encode_scalar(v) + vstd::utf8::encode_utf8(s.drop_first()));
    }
}

/// Joining two texts adds their UTF-8 lengths.
pub proof fn lemma_byte_len_concat(a: Seq<char>, b: Seq<char>)
    ensures
        byte_len(a + b) == byte_len(a) + byte_len(b),
    decreases b.len(),
{
    if b.len() == 0 {
        assert(a + b =~= a);
    } else {
        assert((a + b).drop_last() =~= a + b.drop_last());
        assert((a + b).last() == b.last());
        lemma_byte_len_concat(a, b.drop_last());
    }
}

/// Whether byte offset `b` of the UTF-8 encoding of `t` falls between two characters (or at
/// either end).
pub open spec fn at_char_boundary(t: Seq<char>, b: int) -> bool {
    exists|k: int| 0 <= k <= t.len() && #[trigger] byte_len(t.take(k)) == b
}

/// The index of the character that starts at byte offset `b` of `t` (the character count
/// before that offset), where `b` is a boundary.
pub open spec fn char_index_at(t: Seq<char>, b: int) -> int {
    choose|k: int| 0 <= k <= t.len() && #[trigger] byte_len(t.take(k)) == b
}

/// Each prefix ends at a boundary of its own: the index found there is the prefix length.
pub proof fn lemma_char_index_at(t: Seq<char>, k: int)
    requires
        0 <= k <= t.len(),
    ensures
        at_char_boundary(t, byte_len(t.take(k)) as int),
        char_index_at(t, byte_len(t.take(k)) as int) == k,
{
    let b = byte_len(t.take(k)) as int;
    assert(0 <= k <= t.len() && byte_len(t.take(k)) == b);
    let j = char_index_at(t, b);
    if j < k {
        lemma_byte_len_take_strict(t, j, k);
    } else if j > k {
        lemma_byte_len_take_strict(t, k, j);
    }
}

/// Boundaries keep their order: a later byte offset has a later character index.
pub proof fn lemma_char_index_order(t: Seq<char>, a: int, b: int)
    requires
        at_char_boundary(t, a),
        at_char_boundary(t, b),
        a <= b,
    ensures
        0 <= char_index_at(t, a) <= char_index_at(t, b) <= t.len(),
        a < b ==> char_index_at(t, a) < char_index_at(t, b),
        b <= byte_len(t),
{
    let ka = char_index_at(t, a);
    let kb = char_index_at(t, b);
    if kb < ka {
        lemma_byte_len_take_strict(t, kb, ka);
    }
    if a < b && ka == kb {
        assert(false);
    }
    lemma_byte_len_prefix(t, kb);
}

/// Two boundaries one byte apart enclose a single one-byte character.
pub proof fn lemma_char_index_next(t: Seq<char>, p: int)
    requires
        at_char_boundary(t, p),
        at_char_boundary(t, p + 1),
    ensures
        char_index_at(t, p + 1) == char_index_at(t, p) + 1,
        0 <= char_index_at(t, p) < t.len(),
{
    let k = char_index_at(t, p);
    let k1 = char_index_at(t, p + 1);
    lemma_char_index_order(t, p, p + 1);
    assert(t.take(k + 1).drop_last() =~= t.take(k));
    if k1 > k + 1 {
        lemma_byte_len_take_strict(t, k + 1, k1);
    }
}

/// The UTF-8 length of a character sequence.
pub fn byte_len_exec(cs: &[char]) -> (r: u128)
    ensures
        r == byte_len(cs@),
{
    let mut i: usize = 0;
    let mut bytes: u128 = 0;
    while i < cs.len()
        invariant
            i <= cs.len(),
            bytes == byte_len(cs@.take(i as int)),
            bytes <= 4 * i,
        decreases cs.len() - i,
    {
        assert(cs@.take(i + 1).drop_last() =~= cs@.take(i as int));
        bytes = bytes + utf8_width_exec(cs[i]) as u128;
        i += 1;
    }
    assert(cs@.take(i as int) =~= cs@);
    bytes
}

/// The character index at byte offset `b` of `cs`, or `None` where `b` is no boundary.
pub fn char_index_at_exec(cs: &[char], b: u128) -> (r: Option<usize>)
    ensures
        match r {
            Some(k) => at_char_boundary(cs@, b as int) && k == char_index_at(cs@, b as int),
            None => !at_char_boundary(cs@, b as int),
        },
{
    let mut i: usize = 0;
    let mut bytes: u128 = 0;
    while i < cs.len() && bytes < b
        invariant
            i <= cs.len(),
            bytes == byte_len(cs@.take(i as int)),
            bytes <= 4 * i,
            forall|k: int| 0 <= k < i ==> #[trigger] byte_len(cs@.take(k)) < b,
        decreases cs.len() - i,
    {
        assert(cs@.take(i + 1).drop_last() =~= cs@.take(i as int));
        bytes = bytes + utf8_width_exec(cs[i]) as u128;
        i += 1;
    }
    if bytes == b {
        proof {
            lemma_char_index_at(cs@, i as int);
        }
        Some(i)
    } else {
        assert forall|k: int| 0 <= k <= cs@.len() implies #[trigger] byte_len(cs@.take(k)) != b by {
            if k > i {
                lemma_byte_len_take_strict(cs@, i as int, k);
            }
        }
        None
    }
}

/// The UTF-8 length of a string slice fits in `usize`.
pub proof fn lemma_str_byte_len_fits(value: &str, n: usize)
    requires
        n == vstd::string::StringSliceAdditionalSpecFns::spec_bytes(value).len(),
    ensures
        byte_len(value@) == n,
{
    lemma_byte_len_encoding(value@);
}

fn utf8_width_exec(c: char) -> (w: usize)
    ensures
        w == utf8_width(c),
{
    let u = c as u32;
    if u < 0x80 {
        1
    } else if u < 0x800 {
        2
    } else if u < 0x10000 {
        3
    } else {
        4
    }
}

/// Characters that start a whitespace token.
pub open spec fn is_json_space(c: char) -> bool {
    c == ' ' || c == '\t' || c == '\r' || c == '\n'
}

/// Structural characters.
pub open spec fn is_json_punct(c: char) -> bool {
    c == '{' || c == '}' || c == '[' || c == ']' || c == ':' || c == ','
}

/// Characters of a number token.
pub open spec fn is_number_char(c: char) -> bool {
    is_digit(c) || c == '-' || c == '+' || c == '.' || c == 'e' || c == 'E'
}

/// End of the whitespace run starting at `i`.
pub open spec fn ws_run_end(s: Seq<char>, i: int) -> int
    decreases s.len() - i,
{
    if 0 <= i < s.len() && is_ws(s[i]) {
        ws_run_end(s, i + 1)
    } else {
        i
    }
}

/// End of the number run starting at `i`.
pub open spec fn number_run_end(s: Seq<char>, i: int) -> int
    decreases s.len() - i,
{
    if 0 <= i < s.len() && is_number_char(s[i]) {
        number_run_end(s, i + 1)
    } else {
        i
    }
}

/// End of a string token whose body starts at `i`: after the first unescaped `"`, or the end.
pub open spec fn string_end(s: Seq<char>, i: int, escaped: bool) -> int
    decreases s.len() - i,
{
    if i < 0 || i >= s.len() {
        if i < 0 {
            0
        } else {
            s.len() as int
        }
    } else if !escaped && s[i] == '"' {
        i + 1
    } else {
        string_end(s, i + 1, !escaped && s[i] == '\\')
    }
}

/// Whether `word` occurs at `i`.
pub open spec fn starts_at(s: Seq<char>, i: int, word: Seq<char>) -> bool {
    0 <= i && i + word.len() <= s.len() && s.subrange(i, i + word.len() as int) == word
}

/// The token starting at `i` (`i < s.len()`): its class and end.
pub open spec fn token_at(s: Seq<char>, i: int) -> (JsonTokenKind, int) {
    let c = s[i];
    if is_json_space(c) {
        (JsonTokenKind::Whitespace, ws_run_end(s, i))
    } else if c == '"' {
        (JsonTokenKind::String, string_end(s, i + 1, false))
    } else if is_json_punct(c) {
        (JsonTokenKind::Punctuation, i + 1)
    } else if c == '-' || is_digit(c) {
        (JsonTokenKind::Number, number_run_end(s, i))
    } else if starts_at(s, i, seq!['t', 'r', 'u', 'e']) {
        (JsonTokenKind::Boolean, i + 4)
    } else if starts_at(s, i, seq!['f', 'a', 'l', 's', 'e']) {
        (JsonTokenKind::Boolean, i + 5)
    } else if starts_at(s, i, seq!['n', 'u', 'l', 'l']) {
        (JsonTokenKind::Null, i + 4)
    } else {
        (JsonTokenKind::Invalid, i + 1)
    }
}

pub proof fn lemma_runs(s: Seq<char>, i: int)
    requires
        0 <= i <= s.len(),
    ensures
        i <= ws_run_end(s, i) <= s.len(),
        i <= number_run_end(s, i) <= s.len(),
        forall|e: bool| i <= #[trigger] string_end(s, i, e) <= s.len(),
    decreases s.len() - i,
{
    if i < s.len() {
        lemma_runs(s, i + 1);
        assert forall|e: bool| i <= #[trigger] string_end(s, i, e) <= s.len() by {
            if e || s[i] != '"' {
                assert(string_end(s, i, e) == string_end(s, i + 1, !e && s[i] == '\\'));
            }
        }
    }
}

pub proof fn lemma_token_at(s: Seq<char>, i: int)
    requires
        0 <= i < s.len(),
    ensures
        i < token_at(s, i).1 <= s.len(),
{
    lemma_runs(s, i);
    lemma_runs(s, i + 1);
    let c = s[i];
    if is_json_space(c) {
        assert(is_ws(c));
        assert(ws_run_end(s, i) == ws_run_end(s, i + 1));
    } else if c == '-' || is_digit(c) {
        assert(number_run_end(s, i) == number_run_end(s, i + 1));
    }
}

/// The tokens from character index `i` on, as character spans.
pub open spec fn token_spans(s: Seq<char>, i: int) -> Seq<(int, int, JsonTokenKind)>
    decreases s.len() - i,
{
    if i < 0 || i >= s.len() {
        Seq::empty()
    } else {
        let (kind, end) = token_at(s, i);
        if end <= i || end > s.len() {
            Seq::empty()
        } else {
            seq![(i, end, kind)] + token_spans(s, end)
        }
    }
}

/// A span with byte offsets into the UTF-8 text.
pub open spec fn byte_token(s: Seq<char>, t: (int, int, JsonTokenKind)) -> JsonToken {
    JsonToken {
        start: byte_len(s.take(t.0)) as usize,
        end: byte_len(s.take(t.1)) as usize,
        kind: t.2,
    }
}

/// The highlighting tokens of a text, with byte offsets.
pub open spec fn json_tokens(s: Seq<char>) -> Seq<JsonToken> {
    token_spans(s, 0).map_values(|t: (int, int, JsonTokenKind)| byte_token(s, t))
}

fn starts_at_exec(s: &Vec<char>, i: usize, word: &[char]) -> (r: bool)
    requires
        i <= s@.len(),
    ensures
        r == starts_at(s@, i as int, word@),
{
    if word.len() > s.len() - i {
        return false;
    }
    let mut k: usize = 0;
    while k < word.len()
        invariant
            k <= word.len(),
            i + word.len() <= s.len(),
            forall|j: int| 0 <= j < k ==> s@[i + j] == word@[j],
        decreases word.len() - k,
    {
        if s[i + k] != word[k] {
            assert(s@.subrange(i as int, i + word@.len())[k as int] != word@[k as int]);
            return false;
        }
        k += 1;
    }
    assert(s@.subrange(i as int, i + word@.len()) =~= word@);
    true
}

/// Exec [`token_at`].
fn token_at_exec(s: &Vec<char>, i: usize) -> (r: (JsonTokenKind, usize))
    requires
        i < s.len(),
    ensures
        r.0 == token_at(s@, i as int).0,
        r.1 == token_at(s@, i as int).1,
{
    proof {
        lemma_token_at(s@, i as int);
        lemma_runs(s@, i as int);
        lemma_runs(s@, i + 1);
    }
    let c = s[i];
    if c == ' ' || c == '\t' || c == '\r' || c == '\n' {
        let mut j = i;
        while j < s.len() && is_whitespace(s[j])
            invariant
                i <= j <= s@.len(),
                ws_run_end(s@, j as int) == ws_run_end(s@, i as int),
            decreases s.len() - j,
        {
            j += 1;
        }
        (JsonTokenKind::Whitespace, j)
    } else if c == '"' {
        let mut j = i + 1;
        let mut escaped = false;
        while j < s.len() && (escaped || s[j] != '"')
            invariant
                i + 1 <= j <= s@.len(),
                string_end(s@, j as int, escaped) == string_end(s@, i + 1, false),
            decreases s.len() - j,
        {
            escaped = !escaped && s[j] == '\\';
            j += 1;
        }
        let end = if j < s.len() {
            j + 1
        } else {
            j
        };
        (JsonTokenKind::String, end)
    } else if c == '{' || c == '}' || c == '[' || c == ']' || c == ':' || c == ',' {
        (JsonTokenKind::Punctuation, i + 1)
    } else if c == '-' || ('0' <= c && c <= '9') {
        let mut j = i;
        while j < s.len() && (('0' <= s[j] && s[j] <= '9') || s[j] == '-' || s[j] == '+' || s[j]
            == '.' || s[j] == 'e' || s[j] == 'E')
            invariant
                i <= j <= s@.len(),
                number_run_end(s@, j as int) == number_run_end(s@, i as int),
            decreases s.len() - j,
        {
            j += 1;
        }
        (JsonTokenKind::Number, j)
    } else if starts_at_exec(s, i, &['t', 'r', 'u', 'e']) {
        (JsonTokenKind::Boolean, i + 4)
    } else if starts_at_exec(s, i, &['f', 'a', 'l', 's', 'e']) {
        (JsonTokenKind::Boolean, i + 5)
    } else if starts_at_exec(s, i, &['n', 'u', 'l', 'l']) {
        (JsonTokenKind::Null, i + 4)
    } else {
        (JsonTokenKind::Invalid, i + 1)
    }
}

/// Character spans of the tokens of `s` (see [`token_spans`]).
fn token_spans_exec(s: &Vec<char>) -> (r: Vec<(usize, usize, JsonTokenKind)>)
    ensures
        r@.map_values(|t: (usize, usize, JsonTokenKind)| (t.0 as int, t.1 as int, t.2))
            == token_spans(s@, 0),
{
    let mut out: Vec<(usize, usize, JsonTokenKind)> = Vec::new();
    let mut i: usize = 0;
    while i < s.len()
        invariant
            i <= s@.len(),
            out@.map_values(|t: (usize, usize, JsonTokenKind)| (t.0 as int, t.1 as int, t.2))
                + token_spans(s@, i as int) == token_spans(s@, 0),
        decreases s.len() - i,
    {
        let (kind, end) = token_at_exec(s, i);
        proof {
            lemma_token_at(s@, i as int);
        }
        let ghost before = out@;
        out.push((i, end, kind));
        assert(out@.map_values(|t: (usize, usize, JsonTokenKind)| (t.0 as int, t.1 as int, t.2))
            =~= before.map_values(|t: (usize, usize, JsonTokenKind)| (t.0 as int, t.1 as int, t.2)).push(
            (i as int, end as int, kind),
        ));
        assert(token_spans(s@, i as int) =~= seq![(i as int, end as int, kind)] + token_spans(
            s@,
            end as int,
        ));
        i = end;
    }
    assert(token_spans(s@, i as int) =~= Seq::empty());
    out
}

/// The highlighting tokens of a text (see [`json_tokens`]): byte ranges that tile the text's
/// UTF-8 bytes, each non-empty and starting where the previous one ends.
#[verifier::rlimit(40)]
pub fn tokenize_json(value: &str) -> (r: Vec<JsonToken>)
    ensures
        r@ == json_tokens(value@),
        (r@.len() == 0) == (value@.len() == 0),
        r@.len() > 0 ==> r@[0].start == 0 && r@.last().end == byte_len(value@),
        byte_len(value@) == vstd::string::StringSliceAdditionalSpecFns::spec_bytes(value).len(),
        forall|k: int| 0 <= k < r@.len() ==> (#[trigger] r@[k]).start < r@[k].end,
        forall|k: int| 0 <= k < r@.len() - 1 ==> (#[trigger] r@[k]).end == r@[k + 1].start,
{
    let utf8 = value.as_bytes();
    let n = utf8.len();
    proof {
        lemma_str_byte_len_fits(value, n);
    }
    let s = chars_of(value);
    let spans = token_spans_exec(&s);
    let ghost sp = token_spans(s@, 0);
    let mut out: Vec<JsonToken> = Vec::new();
    let mut k: usize = 0;
    let mut pos: usize = 0;
    let mut bytes: usize = 0;
    proof {
        lemma_spans_ordered(s@, 0);
    }
    while k < spans.len()
        invariant
            k <= spans@.len(),
            s@ == value@,
            byte_len(s@) <= usize::MAX,
            sp == token_spans(s@, 0),
            spans@.map_values(|t: (usize, usize, JsonTokenKind)| (t.0 as int, t.1 as int, t.2)) == sp,
            forall|j: int| 0 <= j < sp.len() ==> 0 <= (#[trigger] sp[j]).0 < sp[j].1 <= s@.len(),
            forall|j: int| 0 <= j < sp.len() - 1 ==> (#[trigger] sp[j]).1 == sp[j + 1].0,
            sp.len() > 0 ==> sp[0].0 == 0,
            k < sp.len() ==> pos == sp[k as int].0,
            pos <= s@.len(),
            bytes == byte_len(s@.take(pos as int)),
            out@ == sp.take(k as int).map_values(|t: (int, int, JsonTokenKind)| byte_token(s@, t)),
        decreases spans@.len() - k,
    {
        let (start, end, kind) = spans[k];
        assert(sp[k as int] == (start as int, end as int, kind));
        let start_bytes = bytes;
        while pos < end
            invariant
                start <= pos <= end <= s@.len(),
                byte_len(s@) <= usize::MAX,
                bytes == byte_len(s@.take(pos as int)),
            decreases end - pos,
        {
            proof {
                lemma_byte_len_prefix(s@, pos + 1);
            }
            assert(s@.take(pos + 1).drop_last() =~= s@.take(pos as int));
            bytes = bytes + utf8_width_exec(s[pos]);
            pos += 1;
        }
        out.push(JsonToken { start: start_bytes, end: bytes, kind });
        assert(sp.take(k + 1).drop_last() =~= sp.take(k as int));
        assert(out@ =~= sp.take(k + 1).map_values(|t: (int, int, JsonTokenKind)| byte_token(s@, t)));
        k += 1;
    }
    assert(sp.take(spans@.len() as int) =~= sp);
    assert(out@ == json_tokens(value@));
    proof {
        lemma_json_tokens_tile_bytes(value@);
    }
    out
}

/// A longer prefix has more UTF-8 bytes.
pub proof fn lemma_byte_len_take_strict(s: Seq<char>, a: int, b: int)
    requires
        0 <= a < b <= s.len(),
    ensures
        byte_len(s.take(a)) < byte_len(s.take(b)),
    decreases b - a,
{
    assert(s.take(b).drop_last() =~= s.take(b - 1));
    if a < b - 1 {
        lemma_byte_len_take_strict(s, a, b - 1);
    }
}

/// The byte offsets of the highlighting tokens tile the UTF-8 text (see
/// [`law_json_tokens_tile_text`]).
proof fn lemma_json_tokens_tile_bytes(s: Seq<char>)
    requires
        byte_len(s) <= usize::MAX,
    ensures
        (json_tokens(s).len() == 0) == (s.len() == 0),
        json_tokens(s).len() > 0 ==> json_tokens(s)[0].start == 0 && json_tokens(s).last().end
            == byte_len(s),
        forall|k: int|
            0 <= k < json_tokens(s).len() ==> (#[trigger] json_tokens(s)[k]).start < json_tokens(
                s,
            )[k].end,
        forall|k: int|
            0 <= k < json_tokens(s).len() - 1 ==> (#[trigger] json_tokens(s)[k]).end == json_tokens(
                s,
            )[k + 1].start,
{
    law_json_tokens_tile_text(s);
    lemma_spans_ordered(s, 0);
    let sp = token_spans(s, 0);
    let t = json_tokens(s);
    assert forall|k: int| 0 <= k < t.len() implies (#[trigger] t[k]).start < t[k].end by {
        lemma_byte_len_take_strict(s, sp[k].0, sp[k].1);
        lemma_byte_len_prefix(s, sp[k].1);
        lemma_byte_len_prefix(s, sp[k].0);
    }
    if t.len() > 0 {
        assert(s.take(0) =~= Seq::<char>::empty());
        assert(s.take(s.len() as int) =~= s);
        assert(t.last() == t[t.len() - 1]);
    }
}

/// A prefix has no more UTF-8 bytes than the whole text.
pub proof fn lemma_byte_len_prefix(s: Seq<char>, k: int)
    requires
        0 <= k <= s.len(),
    ensures
        byte_len(s.take(k)) <= byte_len(s),
    decreases s.len(),
{
    if k < s.len() {
        assert(s.drop_last().take(k) =~= s.take(k));
        lemma_byte_len_prefix(s.drop_last(), k);
    } else {
        assert(s.take(k) =~= s);
    }
}

proof fn lemma_spans_ordered(s: Seq<char>, i: int)
    requires
        0 <= i <= s.len(),
    ensures
        forall|j: int| 0 <= j < token_spans(s, i).len() ==> i <= (#[trigger] token_spans(s, i)[j]).0
            < token_spans(s, i)[j].1 <= s.len(),
        forall|j: int| 0 <= j < token_spans(s, i).len() - 1 ==> (#[trigger] token_spans(s, i)[j]).1
            == token_spans(s, i)[j + 1].0,
        token_spans(s, i).len() > 0 ==> token_spans(s, i)[0].0 == i,
    decreases s.len() - i,
{
    if i < s.len() {
        lemma_token_at(s, i);
        let end = token_at(s, i).1;
        lemma_spans_ordered(s, end);
        let rest = token_spans(s, end);
        let all = token_spans(s, i);
        assert(all == seq![(i, end, token_at(s, i).0)] + rest);
        assert forall|j: int| 0 <= j < all.len() implies i <= (#[trigger] all[j]).0 < all[j].1
            <= s.len() by {
            if j > 0 {
                assert(all[j] == rest[j - 1]);
            }
        }
        assert forall|j: int| 0 <= j < all.len() - 1 implies (#[trigger] all[j]).1 == all[j + 1].0 by {
            if j > 0 {
                assert(all[j] == rest[j - 1]);
                assert(all[j + 1] == rest[j]);
            } else {
                assert(all[1] == rest[0]);
            }
        }
    }
}

proof fn lemma_spans_reach_end(s: Seq<char>, i: int)
    requires
        0 <= i < s.len(),
    ensures
        token_spans(s, i).len() > 0,
        token_spans(s, i).last().1 == s.len(),
    decreases s.len() - i,
{
    lemma_token_at(s, i);
    let end = token_at(s, i).1;
    let rest = token_spans(s, end);
    assert(token_spans(s, i) == seq![(i, end, token_at(s, i).0)] + rest);
    if end < s.len() {
        lemma_spans_reach_end(s, end);
        assert(token_spans(s, i).last() == rest.last());
    } else {
        assert(rest.len() == 0);
    }
}

/// The highlighting tokens tile the text: an empty text has none; otherwise the first starts at
/// the beginning, none is empty, each starts where the previous one ends, and the last ends at
/// the end of the text.
pub proof fn law_json_tokens_tile_text(s: Seq<char>)
    ensures
        (token_spans(s, 0).len() == 0) == (s.len() == 0),
        token_spans(s, 0).len() > 0 ==> token_spans(s, 0)[0].0 == 0 && token_spans(s, 0).last().1
            == s.len(),
        forall|k: int|
            0 <= k < token_spans(s, 0).len() ==> (#[trigger] token_spans(s, 0)[k]).0 < token_spans(
                s,
                0,
            )[k].1,
        forall|k: int|
            0 <= k < token_spans(s, 0).len() - 1 ==> (#[trigger] token_spans(s, 0)[k]).1
                == token_spans(s, 0)[k + 1].0,
{
    lemma_spans_ordered(s, 0);
    if s.len() > 0 {
        lemma_spans_reach_end(s, 0);
    }
}

/// The closing bracket that matches an opening one.
pub open spec fn closer_of(t: Seq<char>) -> Seq<char> {
    if t == seq!['{'] {
        seq!['}']
    } else {
        seq![']']
    }
}

/// `n` levels of two-space indentation.
pub open spec fn indentation(n: nat) -> Seq<char> {
    Seq::new(2 * n, |i: int| ' ')
}

/// The pretty-printed text of the non-whitespace token texts from `pos` on, given the current
/// indentation level and whether output is at the start of a line.
pub open spec fn format_from(texts: Seq<Seq<char>>, pos: int, indent: nat, line_start: bool) -> Seq<
    char,
>
    decreases texts.len() - pos,
{
    if pos < 0 || pos >= texts.len() {
        Seq::empty()
    } else {
        let t = texts[pos];
        if t == seq!['{'] || t == seq!['['] {
            let newline = pos + 1 < texts.len() && texts[pos + 1] != closer_of(t);
            t + (if newline {
                seq!['\n']
            } else {
                Seq::empty()
            }) + format_from(texts, pos + 1, indent + 1, newline || line_start)
        } else if t == seq!['}'] || t == seq![']'] {
            let level: nat = if indent == 0 {
                0
            } else {
                (indent - 1) as nat
            };
            (if !line_start {
                seq!['\n']
            } else {
                Seq::empty()
            }) + indentation(level) + t + format_from(texts, pos + 1, level, false)
        } else if t == seq![','] {
            seq![',', '\n'] + format_from(texts, pos + 1, indent, true)
        } else if t == seq![':'] {
            seq![':', ' '] + format_from(texts, pos + 1, indent, line_start)
        } else {
            (if line_start {
                indentation(indent)
            } else {
                Seq::empty()
            }) + t + format_from(texts, pos + 1, indent, false)
        }
    }
}

/// The texts of the non-whitespace tokens among `spans`.
pub open spec fn significant_texts(s: Seq<char>, spans: Seq<(int, int, JsonTokenKind)>) -> Seq<Seq<char>>
    decreases spans.len(),
{
    if spans.len() == 0 {
        Seq::empty()
    } else {
        let prefix = significant_texts(s, spans.drop_last());
        let t = spans.last();
        if t.2 == JsonTokenKind::Whitespace {
            prefix
        } else {
            prefix.push(s.subrange(t.0, t.1))
        }
    }
}

/// The pretty-printed JSON text: tokens re-joined with two-space indentation, a line per
/// member or element, `": "` after keys; empty objects and arrays stay on one line.
pub open spec fn formatted_json(s: Seq<char>) -> Seq<char> {
    format_from(significant_texts(s, token_spans(s, 0)), 0, 0, true)
}

fn push_indent(out: &mut String, n: usize)
    ensures
        final(out)@ == old(out)@ + indentation(n as nat),
{
    let mut k: usize = 0;
    while k < n
        invariant
            k <= n,
            out@ == old(out)@ + Seq::new(2 * k as nat, |i: int| ' '),
        decreases n - k,
    {
        out.push(' ');
        out.push(' ');
        assert(out@ =~= old(out)@ + Seq::new(2 * (k + 1) as nat, |i: int| ' '));
        k += 1;
    }
}

fn is_single(t: &Vec<char>, c: char) -> (r: bool)
    ensures
        r == (t@ == seq![c]),
{
    let r = t.len() == 1 && t[0] == c;
    if r {
        assert(t@ =~= seq![c]);
    }
    r
}

/// Pretty-prints JSON (see [`formatted_json`]) once [`validate_json`] accepts it; invalid text
/// gives the validation error.
pub fn format_json(value: &str) -> (r: Result<String, JsonValidationError>)
    ensures
        match r {
            Ok(out) => serde_json_check(value@) is None && out@ == formatted_json(value@),
            Err(e) => serde_json_check(value@) == Some((e.message@, e.line, e.column)),
        },
{
    match validate_json(value) {
        Ok(_) => {},
        Err(e) => {
            return Err(e);
        },
    }
    let s = chars_of(value);
    let spans = token_spans_exec(&s);
    let ghost sp = token_spans(s@, 0);
    proof {
        lemma_spans_ordered(s@, 0);
    }
    let mut texts: Vec<Vec<char>> = Vec::new();
    let mut k: usize = 0;
    while k < spans.len()
        invariant
            k <= spans@.len(),
            sp == token_spans(s@, 0),
            spans@.map_values(|t: (usize, usize, JsonTokenKind)| (t.0 as int, t.1 as int, t.2)) == sp,
            forall|j: int| 0 <= j < sp.len() ==> 0 <= (#[trigger] sp[j]).0 < sp[j].1 <= s@.len(),
            texts@.map_values(|t: Vec<char>| t@) == significant_texts(s@, sp.take(k as int)),
        decreases spans@.len() - k,
    {
        let (start, end, kind) = spans[k];
        assert(sp[k as int] == (start as int, end as int, kind));
        assert(sp.take(k + 1).drop_last() =~= sp.take(k as int));
        if kind != JsonTokenKind::Whitespace {
            let ghost before = texts@;
            let mut t: Vec<char> = Vec::new();
            let mut j = start;
            while j < end
                invariant
                    start <= j <= end <= s@.len(),
                    t@ == s@.subrange(start as int, j as int),
                decreases end - j,
            {
                t.push(s[j]);
                assert(t@ =~= s@.subrange(start as int, j + 1));
                j += 1;
            }
            texts.push(t);
            assert(texts@.map_values(|t: Vec<char>| t@) =~= before.map_values(|t: Vec<char>| t@).push(
                s@.subrange(start as int, end as int),
            ));
        }
        assert(texts@.map_values(|t: Vec<char>| t@) =~= significant_texts(s@, sp.take(k + 1)));
        k += 1;
    }
    assert(sp.take(spans@.len() as int) =~= sp);
    let ghost tx = texts@.map_values(|t: Vec<char>| t@);
    let mut output = String::new();
    let mut indent: usize = 0;
    let mut line_start = true;
    let mut pos: usize = 0;
    while pos < texts.len()
        invariant
            pos <= texts@.len(),
            tx == texts@.map_values(|t: Vec<char>| t@),
            indent <= pos,
            output@ + format_from(tx, pos as int, indent as nat, line_start) == format_from(
                tx,
                0,
                0,
                true,
            ),
        decreases texts@.len() - pos,
    {
        let t = &texts[pos];
        assert(tx[pos as int] == t@);
        let ghost before = output@;
        let ghost ind0 = indent as nat;
        let ghost ls0 = line_start;
        if is_single(t, '{') || is_single(t, '[') {
            push_chars(&mut output, t);
            indent += 1;
            let closer = if is_single(t, '{') {
                '}'
            } else {
                ']'
            };
            let newline = pos + 1 < texts.len() && !is_single(&texts[pos + 1], closer);
            if newline {
                output.push('\n');
                line_start = true;
            }
            assert(pos + 1 < texts.len() ==> tx[pos + 1] == texts@[pos + 1]@);
            assert(closer_of(t@) == seq![closer]);
        } else if is_single(t, '}') || is_single(t, ']') {
            indent = if indent == 0 {
                0
            } else {
                indent - 1
            };
            if !line_start {
                output.push('\n');
            }
            push_indent(&mut output, indent);
            push_chars(&mut output, t);
            line_start = false;
        } else if is_single(t, ',') {
            output.push(',');
            output.push('\n');
            line_start = true;
        } else if is_single(t, ':') {
            output.push(':');
            output.push(' ');
        } else {
            if line_start {
                push_indent(&mut output, indent);
                line_start = false;
            }
            push_chars(&mut output, t);
        }
        assert(output@ + format_from(tx, pos + 1, indent as nat, line_start) =~= before
            + format_from(tx, pos as int, ind0, ls0));
        pos += 1;
    }
    assert(format_from(tx, pos as int, indent as nat, line_start) =~= Seq::empty());
    assert(output@ =~= formatted_json(value@));
    Ok(output)
}

/// Value, cursor and selection anchor of a JSON buffer.
pub struct JsonState {
    pub value: Seq<char>,
    pub cursor: nat,
    pub anchor: Option<nat>,
}

/// Model of a [`JsonBuffer`].
#[verifier::ext_equal]
pub struct JsonView {
    pub value: Seq<char>,
    pub cursor: nat,
    pub anchor: Option<nat>,
    pub sql_null: bool,
    pub history: Seq<JsonState>,
    pub redo: Seq<JsonState>,
}

/// Value, cursor and selection anchor saved for undo.
#[derive(Debug)]
pub struct JsonEditSnapshot {
    value: String,
    cursor: usize,
    anchor: Option<usize>,
}

/// The model of an optional position.
pub open spec fn opt_nat(a: Option<usize>) -> Option<nat> {
    match a {
        Some(x) => Some(x as nat),
        None => None,
    }
}

impl JsonEditSnapshot {
    #[verifier::type_invariant]
    spec fn snapshot_inv(&self) -> bool {
        self.cursor <= self.value@.len()
    }

    /// The saved state.
    pub closed spec fn state(&self) -> JsonState {
        JsonState { value: self.value@, cursor: self.cursor as nat, anchor: opt_nat(self.anchor) }
    }
}

impl Clone for JsonEditSnapshot {
    fn clone(&self) -> (r: JsonEditSnapshot)
        ensures
            r.state() == self.state(),
    {
        proof {
            use_type_invariant(self);
        }
        JsonEditSnapshot { value: self.value.clone(), cursor: self.cursor, anchor: self.anchor }
    }
}

/// The saved states of a stack of snapshots.
pub open spec fn json_states(s: Seq<JsonEditSnapshot>) -> Seq<JsonState> {
    s.map_values(|x: JsonEditSnapshot| x.state())
}

/// A multi-line JSON editing buffer with a character cursor and an optional selection anchor.
#[derive(Debug)]
pub struct JsonBuffer {
    value: String,
    cursor: usize,
    anchor: Option<usize>,
    sql_null: bool,
    history: Vec<JsonEditSnapshot>,
    redo: Vec<JsonEditSnapshot>,
}

impl View for JsonBuffer {
    type V = JsonView;

    closed spec fn view(&self) -> JsonView {
        JsonView {
            value: self.value@,
            cursor: self.cursor as nat,
            anchor: opt_nat(self.anchor),
            sql_null: self.sql_null,
            history: json_states(self.history@),
            redo: json_states(self.redo@),
        }
    }
}

/// The state of a buffer.
pub open spec fn json_state(v: JsonView) -> JsonState {
    JsonState { value: v.value, cursor: v.cursor, anchor: v.anchor }
}

/// The visible state of a buffer: everything but the history.
pub open spec fn json_core(v: JsonView) -> (Seq<char>, nat, Option<nat>, bool) {
    (v.value, v.cursor, v.anchor, v.sql_null)
}

/// A recorded change: the current state saved for undo, the redo stack cleared, then the new
/// value, cursor and anchor.
pub open spec fn json_edit(v: JsonView, value: Seq<char>, cursor: nat, anchor: Option<nat>) -> JsonView {
    JsonView {
        value,
        cursor,
        anchor,
        history: v.history.push(json_state(v)),
        redo: Seq::empty(),
        ..v
    }
}

/// `min(x, n)`.
pub open spec fn cap(x: nat, n: nat) -> nat {
    if x <= n {
        x
    } else {
        n
    }
}

/// The non-empty selection between anchor and cursor, ordered.
pub open spec fn json_selection(v: JsonView) -> Option<(nat, nat)> {
    match v.anchor {
        Some(a) => {
            let s = if a <= v.cursor {
                a
            } else {
                v.cursor
            };
            let e = if a <= v.cursor {
                v.cursor
            } else {
                a
            };
            if s != e {
                Some((s, e))
            } else {
                None
            }
        },
        None => None,
    }
}

/// Value and cursor after removing the selection (ends past the text are capped).
pub open spec fn without_selection(v: JsonView) -> (Seq<char>, nat) {
    match json_selection(v) {
        Some((s, e)) => (remove_range(v.value, s as int, cap(e, v.value.len()) as int), s),
        None => (v.value, v.cursor),
    }
}

/// `insert`: replaces the selection, if any, by the character.
pub open spec fn json_insert(v: JsonView, c: char) -> JsonView {
    let (value, cursor) = without_selection(v);
    json_edit(v, insert_at(value, cursor as int, c), cursor + 1, None)
}

/// `backspace`: removes the selection, else the character before the cursor.
pub open spec fn json_backspace(v: JsonView) -> JsonView {
    if json_selection(v) is Some {
        let (value, cursor) = without_selection(v);
        json_edit(v, value, cursor, None)
    } else if v.cursor == 0 {
        v
    } else {
        json_edit(v, remove_range(v.value, v.cursor - 1, v.cursor as int), (v.cursor - 1) as nat, v.anchor)
    }
}

/// `delete`: removes the selection, else the character at the cursor.
pub open spec fn json_delete(v: JsonView) -> JsonView {
    if json_selection(v) is Some {
        let (value, cursor) = without_selection(v);
        json_edit(v, value, cursor, None)
    } else if v.cursor >= v.value.len() {
        v
    } else {
        json_edit(v, remove_range(v.value, v.cursor as int, v.cursor as int + 1), v.cursor, v.anchor)
    }
}

/// Index of the last newline before `c`, if any.
pub open spec fn last_newline_before(s: Seq<char>, c: int) -> Option<int>
    decreases c,
{
    if c <= 0 || c > s.len() {
        None
    } else if s[c - 1] == '\n' {
        Some(c - 1)
    } else {
        last_newline_before(s, c - 1)
    }
}

/// Start of the line holding position `c`.
pub open spec fn line_start(s: Seq<char>, c: int) -> int {
    match last_newline_before(s, c) {
        Some(j) => j + 1,
        None => 0,
    }
}

/// Index of the first newline at or after `c`, or the text length.
pub open spec fn next_newline(s: Seq<char>, c: int) -> int
    decreases s.len() - c,
{
    if c < 0 || c >= s.len() {
        s.len() as int
    } else if s[c] == '\n' {
        c
    } else {
        next_newline(s, c + 1)
    }
}

/// Newlines in a text.
pub open spec fn newline_count(s: Seq<char>) -> nat
    decreases s.len(),
{
    if s.len() == 0 {
        0
    } else {
        newline_count(s.drop_last()) + if s.last() == '\n' {
            1nat
        } else {
            0nat
        }
    }
}

/// Start of line `k` (0-based): after the `k`-th newline, or the text end when there are fewer.
pub open spec fn nth_line_start(s: Seq<char>, k: nat) -> int
    decreases k,
{
    if k == 0 {
        0
    } else {
        let p = nth_line_start(s, (k - 1) as nat);
        let q = next_newline(s, p);
        if q < s.len() {
            q + 1
        } else {
            s.len() as int
        }
    }
}

/// Line of the cursor (0-based).
pub open spec fn json_line(v: JsonView) -> nat {
    newline_count(v.value.take(v.cursor as int))
}

/// Column of the cursor (0-based, in characters).
pub open spec fn json_column(v: JsonView) -> nat {
    (v.cursor - line_start(v.value, v.cursor as int)) as nat
}

/// Moving one line up (`up`) or down, keeping the column where the target line allows.
pub open spec fn json_move_vertical(v: JsonView, up: bool) -> JsonView {
    let line = json_line(v);
    let target: nat = if up {
        if line == 0 {
            0
        } else {
            (line - 1) as nat
        }
    } else if line == usize::MAX {
        line
    } else {
        line + 1
    };
    let start = nth_line_start(v.value, target);
    let width = next_newline(v.value, start) - start;
    let col = json_column(v);
    JsonView {
        anchor: None,
        cursor: (start + if col <= width {
            col as int
        } else {
            width
        }) as nat,
        ..v
    }
}

/// Undo: restores the last saved state, saving the current one for redo.
pub open spec fn json_undo(v: JsonView) -> JsonView {
    if v.history.len() == 0 {
        v
    } else {
        let last = v.history.last();
        JsonView {
            value: last.value,
            cursor: last.cursor,
            anchor: last.anchor,
            history: v.history.drop_last(),
            redo: v.redo.push(json_state(v)),
            ..v
        }
    }
}

/// Redo: restores the last undone state, saving the current one for undo.
pub open spec fn json_redo(v: JsonView) -> JsonView {
    if v.redo.len() == 0 {
        v
    } else {
        let last = v.redo.last();
        JsonView {
            value: last.value,
            cursor: last.cursor,
            anchor: last.anchor,
            redo: v.redo.drop_last(),
            history: v.history.push(json_state(v)),
            ..v
        }
    }
}

/// The buffer after an edit command (see `JsonBuffer::apply`).
pub open spec fn json_apply_state(v: JsonView, e: TextInputEdit) -> JsonView {
    let c = v.cursor;
    match e {
        TextInputEdit::Insert(ch) => json_insert(v, ch),
        TextInputEdit::Backspace => json_backspace(v),
        TextInputEdit::Delete => json_delete(v),
        TextInputEdit::MoveLeft => JsonView {
            anchor: None,
            cursor: if c == 0 {
                0
            } else {
                (c - 1) as nat
            },
            ..v
        },
        TextInputEdit::MoveRight => JsonView {
            anchor: None,
            cursor: if c < v.value.len() {
                c + 1
            } else {
                v.value.len()
            },
            ..v
        },
        TextInputEdit::MoveHome => JsonView {
            anchor: None,
            cursor: line_start(v.value, c as int) as nat,
            ..v
        },
        TextInputEdit::MoveEnd => JsonView {
            anchor: None,
            cursor: next_newline(v.value, c as int) as nat,
            ..v
        },
        TextInputEdit::DeletePreviousWord => if c == 0 {
            v
        } else {
            let st = word_start(v.value, c as int);
            json_edit(v, remove_range(v.value, st, c as int), st as nat, None)
        },
        TextInputEdit::DeleteToStart => if c == 0 {
            v
        } else {
            json_edit(v, v.value.skip(c as int), 0, None)
        },
        TextInputEdit::Clear => if v.value.len() == 0 {
            v
        } else {
            json_edit(v, Seq::empty(), 0, None)
        },
        TextInputEdit::Undo => json_undo(v),
        TextInputEdit::Redo => json_redo(v),
    }
}

/// Whether `apply` reports a change: always for undo and redo, else whether the value, cursor,
/// anchor or NULL flag changed (refused word and start deletions at the start report none).
pub open spec fn json_apply_changed(v: JsonView, e: TextInputEdit) -> bool {
    match e {
        TextInputEdit::Undo | TextInputEdit::Redo => true,
        TextInputEdit::DeletePreviousWord | TextInputEdit::DeleteToStart => v.cursor != 0
            && json_core(json_apply_state(v, e)) != json_core(v),
        TextInputEdit::Clear => v.value.len() != 0 && json_core(json_apply_state(v, e)) != json_core(v),
        _ => json_core(json_apply_state(v, e)) != json_core(v),
    }
}

/// A fresh buffer holding `value`, the cursor at its end.
pub open spec fn fresh_json(value: Seq<char>, sql_null: bool) -> JsonView {
    JsonView {
        value,
        cursor: value.len(),
        anchor: None,
        sql_null,
        history: Seq::empty(),
        redo: Seq::empty(),
    }
}

impl JsonBuffer {
    #[verifier::type_invariant]
    spec fn buffer_inv(&self) -> bool {
        self.cursor <= self.value@.len()
    }

    /// A buffer holding `value` (not SQL NULL), the cursor at its end.
    pub fn new(value: &str) -> (r: JsonBuffer)
        ensures
            r@ == fresh_json(value@, false),
    {
        Self::with_null_flag(value, false)
    }

    /// A buffer holding `value` that stands for SQL NULL when `sql_null` is set.
    pub fn with_null_flag(value: &str, sql_null: bool) -> (r: JsonBuffer)
        ensures
            r@ == fresh_json(value@, sql_null),
    {
        let value = owned(value);
        let cursor = char_count(value.as_str());
        let r = JsonBuffer {
            value,
            cursor,
            anchor: None,
            sql_null,
            history: Vec::new(),
            redo: Vec::new(),
        };
        assert(r@ =~= fresh_json(value@, sql_null));
        r
    }

    /// The text.
    pub fn value(&self) -> (r: &str)
        ensures
            r@ == self@.value,
    {
        self.value.as_str()
    }

    /// The same state without undo history.
    pub fn without_history(&self) -> (r: JsonBuffer)
        ensures
            r@ == (JsonView { history: Seq::empty(), redo: Seq::empty(), ..self@ }),
    {
        proof {
            use_type_invariant(self);
        }
        let r = JsonBuffer {
            value: self.value.clone(),
            cursor: self.cursor,
            anchor: self.anchor,
            sql_null: self.sql_null,
            history: Vec::new(),
            redo: Vec::new(),
        };
        assert(r@ =~= (JsonView { history: Seq::empty(), redo: Seq::empty(), ..self@ }));
        r
    }

    /// Whether the visible state (value, cursor, anchor, NULL flag) equals that of `other`.
    pub fn same_core(&self, other: &JsonBuffer) -> (r: bool)
        ensures
            r == (json_core(self@) == json_core(other@)),
    {
        let anchors = match (self.anchor, other.anchor) {
            (Some(a), Some(b)) => a == b,
            (None, None) => true,
            _ => false,
        };
        self.value == other.value && self.cursor == other.cursor && anchors && self.sql_null
            == other.sql_null
    }

    /// Whether the buffer stands for SQL NULL.
    pub fn is_sql_null(&self) -> (r: bool)
        ensures
            r == self@.sql_null,
    {
        self.sql_null
    }

    /// The cursor, as a character index; it never lies past the end of the text.
    pub fn cursor(&self) -> (r: usize)
        ensures
            r == self@.cursor,
            r <= self@.value.len(),
    {
        proof {
            use_type_invariant(self);
        }
        self.cursor
    }

    /// The non-empty selection, ordered (see [`json_selection`]).
    pub fn selection(&self) -> (r: Option<(usize, usize)>)
        ensures
            match r {
                Some((s, e)) => json_selection(self@) == Some((s as nat, e as nat)),
                None => json_selection(self@) is None,
            },
    {
        match self.anchor {
            Some(a) => {
                let s = if a <= self.cursor {
                    a
                } else {
                    self.cursor
                };
                let e = if a <= self.cursor {
                    self.cursor
                } else {
                    a
                };
                if s != e {
                    Some((s, e))
                } else {
                    None
                }
            },
            None => None,
        }
    }

    /// The selected text (its end capped at the text end).
    pub fn selected_text(&self) -> (r: Option<String>)
        ensures
            match json_selection(self@) {
                Some((s, e)) => r matches Some(t) && t@ == self@.value.subrange(
                    s as int,
                    cap(e, self@.value.len()) as int,
                ),
                None => r is None,
            },
    {
        proof {
            use_type_invariant(self);
        }
        match self.selection() {
            Some((s, e)) => {
                let cs = chars_of(self.value.as_str());
                let e = if e <= cs.len() {
                    e
                } else {
                    cs.len()
                };
                let mut out: Vec<char> = Vec::new();
                let mut i = s;
                while i < e
                    invariant
                        s <= i <= e <= cs@.len(),
                        out@ == cs@.subrange(s as int, i as int),
                    decreases e - i,
                {
                    out.push(cs[i]);
                    assert(out@ =~= cs@.subrange(s as int, i + 1));
                    i += 1;
                }
                Some(string_of(&out))
            },
            None => None,
        }
    }

    /// Starts a selection at `anchor` (capped at the text end), moving the cursor there.
    pub fn begin_selection(&mut self, anchor: usize)
        ensures
            final(self)@ == (JsonView {
                anchor: Some(cap(anchor as nat, old(self)@.value.len())),
                cursor: cap(anchor as nat, old(self)@.value.len()),
                ..old(self)@
            }),
    {
        proof {
            use_type_invariant(&*self);
        }
        let n = char_count(self.value.as_str());
        let a = if anchor <= n {
            anchor
        } else {
            n
        };
        self.anchor = Some(a);
        self.cursor = a;
        assert(self@ =~= (JsonView {
            anchor: Some(cap(anchor as nat, old(self)@.value.len())),
            cursor: cap(anchor as nat, old(self)@.value.len()),
            ..old(self)@
        }));
    }

    /// Moves the cursor to `cursor` (capped), keeping the anchor.
    pub fn extend_selection(&mut self, cursor: usize)
        ensures
            final(self)@ == (JsonView { cursor: cap(cursor as nat, old(self)@.value.len()), ..old(self)@ }),
    {
        let n = char_count(self.value.as_str());
        self.cursor = if cursor <= n {
            cursor
        } else {
            n
        };
        assert(self@ =~= (JsonView { cursor: cap(cursor as nat, old(self)@.value.len()), ..old(self)@ }));
    }

    /// Drops the selection anchor.
    pub fn clear_selection(&mut self)
        ensures
            final(self)@ == (JsonView { anchor: None, ..old(self)@ }),
    {
        proof {
            use_type_invariant(&*self);
        }
        self.anchor = None;
        assert(self@ =~= (JsonView { anchor: None, ..old(self)@ }));
    }

    /// Line of the cursor (0-based).
    pub fn line(&self) -> (r: usize)
        ensures
            r == json_line(self@),
    {
        proof {
            use_type_invariant(self);
        }
        let cs = chars_of(self.value.as_str());
        let mut count: usize = 0;
        let mut i: usize = 0;
        while i < self.cursor
            invariant
                i <= self.cursor <= cs@.len(),
                cs@ == self@.value,
                count == newline_count(cs@.take(i as int)),
                count <= i,
            decreases self.cursor - i,
        {
            assert(cs@.take(i + 1).drop_last() =~= cs@.take(i as int));
            if cs[i] == '\n' {
                count += 1;
            }
            i += 1;
        }
        count
    }

    /// Column of the cursor (0-based).
    pub fn column(&self) -> (r: usize)
        ensures
            r == json_column(self@),
    {
        proof {
            use_type_invariant(self);
        }
        let cs = chars_of(self.value.as_str());
        let st = line_start_exec(&cs, self.cursor);
        self.cursor - st
    }

    /// Undoable change to the given state.
    fn commit(&mut self, value: String, cursor: usize, anchor: Option<usize>)
        requires
            cursor <= value@.len(),
        ensures
            final(self)@ == json_edit(old(self)@, value@, cursor as nat, opt_nat(anchor)),
    {
        proof {
            use_type_invariant(&*self);
        }
        let snap = JsonEditSnapshot { value: self.value.clone(), cursor: self.cursor, anchor: self.anchor };
        let mut history = Vec::new();
        std::mem::swap(&mut history, &mut self.history);
        history.push(snap);
        let ghost h = history@;
        let sql_null = self.sql_null;
        *self = JsonBuffer { value, cursor, anchor, sql_null, history, redo: Vec::new() };
        assert(json_states(h) =~= json_states(old(self).history@).push(json_state(old(self)@)));
        assert(self@ =~= json_edit(old(self)@, value@, cursor as nat, opt_nat(anchor)));
    }

    /// Value and cursor once the selection is removed (see [`without_selection`]).
    fn removed_selection(&self) -> (r: (String, usize))
        ensures
            r.0@ == without_selection(self@).0,
            r.1 == without_selection(self@).1,
            r.1 <= r.0@.len(),
    {
        proof {
            use_type_invariant(self);
        }
        match self.selection() {
            Some((s, e)) => {
                let n = char_count(self.value.as_str());
                let e = if e <= n {
                    e
                } else {
                    n
                };
                (string_remove_range(&self.value, s, e), s)
            },
            None => (self.value.clone(), self.cursor),
        }
    }

    /// Inserts a character, replacing the selection (see [`json_insert`]).
    pub fn insert(&mut self, character: char)
        ensures
            final(self)@ == json_insert(old(self)@, character),
    {
        let (value, cursor) = self.removed_selection();
        let next = string_insert_at(&value, cursor, character);
        let n = char_count(next.as_str());
        self.commit(next, cursor + 1, None);
    }

    /// Deletes the selection or the character before the cursor (see [`json_backspace`]).
    pub fn backspace(&mut self)
        ensures
            final(self)@ == json_backspace(old(self)@),
    {
        proof {
            use_type_invariant(&*self);
        }
        if self.selection().is_some() {
            let (value, cursor) = self.removed_selection();
            self.commit(value, cursor, None);
            return;
        }
        if self.cursor == 0 {
            return;
        }
        let next = string_remove_range(&self.value, self.cursor - 1, self.cursor);
        let c = self.cursor - 1;
        let a = self.anchor;
        self.commit(next, c, a);
    }

    /// Deletes the selection or the character at the cursor (see [`json_delete`]).
    pub fn delete(&mut self)
        ensures
            final(self)@ == json_delete(old(self)@),
    {
        proof {
            use_type_invariant(&*self);
        }
        if self.selection().is_some() {
            let (value, cursor) = self.removed_selection();
            self.commit(value, cursor, None);
            return;
        }
        let n = char_count(self.value.as_str());
        if self.cursor >= n {
            return;
        }
        let next = string_remove_range(&self.value, self.cursor, self.cursor + 1);
        let c = self.cursor;
        let a = self.anchor;
        self.commit(next, c, a);
    }

    fn move_to(&mut self, cursor: usize)
        requires
            cursor <= old(self)@.value.len(),
        ensures
            final(self)@ == (JsonView { anchor: None, cursor: cursor as nat, ..old(self)@ }),
    {
        proof {
            use_type_invariant(&*self);
        }
        self.anchor = None;
        self.cursor = cursor;
        assert(self@ =~= (JsonView { anchor: None, cursor: cursor as nat, ..old(self)@ }));
    }

    /// One character left, dropping the selection.
    pub fn move_left(&mut self)
        ensures
            final(self)@ == json_apply_state(old(self)@, TextInputEdit::MoveLeft),
    {
        proof {
            use_type_invariant(&*self);
        }
        let c = if self.cursor == 0 {
            0
        } else {
            self.cursor - 1
        };
        self.move_to(c);
    }

    /// One character right, dropping the selection.
    pub fn move_right(&mut self)
        ensures
            final(self)@ == json_apply_state(old(self)@, TextInputEdit::MoveRight),
    {
        proof {
            use_type_invariant(&*self);
        }
        let n = char_count(self.value.as_str());
        let c = if self.cursor < n {
            self.cursor + 1
        } else {
            n
        };
        self.move_to(c);
    }

    /// To the start of the line, dropping the selection.
    pub fn move_home(&mut self)
        ensures
            final(self)@ == json_apply_state(old(self)@, TextInputEdit::MoveHome),
    {
        proof {
            use_type_invariant(&*self);
        }
        let cs = chars_of(self.value.as_str());
        let c = line_start_exec(&cs, self.cursor);
        self.move_to(c);
    }

    /// To the end of the line, dropping the selection.
    pub fn move_end(&mut self)
        ensures
            final(self)@ == json_apply_state(old(self)@, TextInputEdit::MoveEnd),
    {
        proof {
            use_type_invariant(&*self);
        }
        let cs = chars_of(self.value.as_str());
        let c = next_newline_exec(&cs, self.cursor);
        self.move_to(c);
    }

    fn move_vertical(&mut self, up: bool)
        ensures
            final(self)@ == json_move_vertical(old(self)@, up),
    {
        proof {
            use_type_invariant(&*self);
        }
        let cs = chars_of(self.value.as_str());
        let column = self.column();
        let line = self.line();
        let target = if up {
            if line == 0 {
                0
            } else {
                line - 1
            }
        } else if line == usize::MAX {
            line
        } else {
            line + 1
        };
        let mut start: usize = 0;
        let mut k: usize = 0;
        while k < target
            invariant
                k <= target,
                cs@ == self@.value,
                start as int == nth_line_start(cs@, k as nat),
                start <= cs@.len(),
            decreases target - k,
        {
            let q = next_newline_exec(&cs, start);
            start = if q < cs.len() {
                q + 1
            } else {
                cs.len()
            };
            k += 1;
        }
        let end = next_newline_exec(&cs, start);
        let width = end - start;
        let c = start + if column <= width {
            column
        } else {
            width
        };
        self.move_to(c);
    }

    /// One line up, keeping the column where possible.
    pub fn move_up(&mut self)
        ensures
            final(self)@ == json_move_vertical(old(self)@, true),
    {
        self.move_vertical(true);
    }

    /// One line down, keeping the column where possible.
    pub fn move_down(&mut self)
        ensures
            final(self)@ == json_move_vertical(old(self)@, false),
    {
        self.move_vertical(false);
    }

    /// Restores the last saved state (see [`json_undo`]).
    pub fn undo(&mut self)
        ensures
            final(self)@ == json_undo(old(self)@),
    {
        proof {
            use_type_invariant(&*self);
        }
        let current = JsonEditSnapshot { value: self.value.clone(), cursor: self.cursor, anchor: self.anchor };
        let mut history = Vec::new();
        std::mem::swap(&mut history, &mut self.history);
        match history.pop() {
            Some(snap) => {
                proof {
                    use_type_invariant(&snap);
                }
                let mut redo = Vec::new();
                std::mem::swap(&mut redo, &mut self.redo);
                redo.push(current);
                let ghost rh = redo@;
                let ghost hh = history@;
                let sql_null = self.sql_null;
                *self = JsonBuffer {
                    value: snap.value,
                    cursor: snap.cursor,
                    anchor: snap.anchor,
                    sql_null,
                    history,
                    redo,
                };
                assert(json_states(rh) =~= json_states(old(self).redo@).push(json_state(old(self)@)));
                assert(json_states(hh) =~= json_states(old(self).history@).drop_last());
                assert(self@ =~= json_undo(old(self)@));
            },
            None => {
                std::mem::swap(&mut history, &mut self.history);
                assert(self@ =~= old(self)@);
            },
        }
    }

    /// Restores the last undone state (see [`json_redo`]).
    pub fn redo(&mut self)
        ensures
            final(self)@ == json_redo(old(self)@),
    {
        proof {
            use_type_invariant(&*self);
        }
        let current = JsonEditSnapshot { value: self.value.clone(), cursor: self.cursor, anchor: self.anchor };
        let mut redo = Vec::new();
        std::mem::swap(&mut redo, &mut self.redo);
        match redo.pop() {
            Some(snap) => {
                proof {
                    use_type_invariant(&snap);
                }
                let mut history = Vec::new();
                std::mem::swap(&mut history, &mut self.history);
                history.push(current);
                let ghost rh = redo@;
                let ghost hh = history@;
                let sql_null = self.sql_null;
                *self = JsonBuffer {
                    value: snap.value,
                    cursor: snap.cursor,
                    anchor: snap.anchor,
                    sql_null,
                    history,
                    redo,
                };
                assert(json_states(hh) =~= json_states(old(self).history@).push(json_state(old(self)@)));
                assert(json_states(rh) =~= json_states(old(self).redo@).drop_last());
                assert(self@ =~= json_redo(old(self)@));
            },
            None => {
                std::mem::swap(&mut redo, &mut self.redo);
                assert(self@ =~= old(self)@);
            },
        }
    }

    /// Applies an editing command (see [`json_apply_state`]) and says whether it changed
    /// anything (see [`json_apply_changed`]).
    pub fn apply(&mut self, edit: TextInputEdit) -> (changed: bool)
        ensures
            final(self)@ == json_apply_state(old(self)@, edit),
            changed == json_apply_changed(old(self)@, edit),
    {
        proof {
            use_type_invariant(&*self);
        }
        let before = self.without_history();
        match edit {
            TextInputEdit::Insert(c) => self.insert(c),
            TextInputEdit::Backspace => self.backspace(),
            TextInputEdit::Delete => self.delete(),
            TextInputEdit::MoveLeft => self.move_left(),
            TextInputEdit::MoveRight => self.move_right(),
            TextInputEdit::MoveHome => self.move_home(),
            TextInputEdit::MoveEnd => self.move_end(),
            TextInputEdit::DeletePreviousWord => {
                if self.cursor == 0 {
                    return false;
                }
                let cs = chars_of(self.value.as_str());
                let st = word_start_exec(&cs, self.cursor);
                proof {
                    lemma_skip_back_bounds(cs@, self.cursor as int);
                }
                let next = string_remove_range(&self.value, st, self.cursor);
                self.commit(next, st, None);
            },
            TextInputEdit::DeleteToStart => {
                if self.cursor == 0 {
                    return false;
                }
                let next = string_remove_range(&self.value, 0, self.cursor);
                assert(remove_range(old(self)@.value, 0, old(self)@.cursor as int) =~= old(
                    self,
                )@.value.skip(old(self)@.cursor as int));
                self.commit(next, 0, None);
            },
            TextInputEdit::Clear => {
                let n = char_count(self.value.as_str());
                if n == 0 {
                    return false;
                }
                self.commit(String::new(), 0, None);
            },
            TextInputEdit::Undo => {
                self.undo();
                return true;
            },
            TextInputEdit::Redo => {
                self.redo();
                return true;
            },
        }
        !self.same_core(&before)
    }

    /// Checks the text with [`validate_json`].
    pub fn validate(&self) -> (r: Result<(), JsonValidationError>)
        ensures
            match r {
                Ok(_) => serde_json_check(self@.value) is None,
                Err(e) => serde_json_check(self@.value) == Some((e.message@, e.line, e.column)),
            },
    {
        validate_json(self.value.as_str())
    }

    /// Pretty-prints the text with [`format_json`].
    pub fn format(&self) -> (r: Result<String, JsonValidationError>)
        ensures
            match r {
                Ok(out) => serde_json_check(self@.value) is None && out@ == formatted_json(self@.value),
                Err(e) => serde_json_check(self@.value) == Some((e.message@, e.line, e.column)),
            },
    {
        format_json(self.value.as_str())
    }

    /// The highlighting tokens of the text.
    pub fn tokens(&self) -> (r: Vec<JsonToken>)
        ensures
            r@ == json_tokens(self@.value),
    {
        tokenize_json(self.value.as_str())
    }

    /// Replaces the whole text (an undoable change), the cursor at its end.
    pub fn replace_value(&mut self, value: String)
        ensures
            final(self)@ == json_edit(old(self)@, value@, value@.len(), None),
    {
        let n = char_count(value.as_str());
        self.commit(value, n, None);
    }
}

/// Copies of the snapshots of a stack.
fn clone_json_snapshots(v: &Vec<JsonEditSnapshot>) -> (r: Vec<JsonEditSnapshot>)
    ensures
        json_states(r@) == json_states(v@),
{
    let mut r: Vec<JsonEditSnapshot> = Vec::new();
    let mut i: usize = 0;
    while i < v.len()
        invariant
            i <= v.len(),
            json_states(r@) == json_states(v@.take(i as int)),
        decreases v.len() - i,
    {
        let ghost before = r@;
        r.push(v[i].clone());
        assert(json_states(r@) =~= json_states(before).push(v@[i as int].state()));
        assert(json_states(v@.take(i + 1)) =~= json_states(v@.take(i as int)).push(v@[i as int].state()));
        i += 1;
    }
    assert(v@.take(v.len() as int) =~= v@);
    r
}

impl Clone for JsonBuffer {
    fn clone(&self) -> (r: JsonBuffer)
        ensures
            r@ == self@,
    {
        proof {
            use_type_invariant(self);
        }
        let r = JsonBuffer {
            value: self.value.clone(),
            cursor: self.cursor,
            anchor: self.anchor,
            sql_null: self.sql_null,
            history: clone_json_snapshots(&self.history),
            redo: clone_json_snapshots(&self.redo),
        };
        assert(r@ =~= self@);
        r
    }
}

/// Exec [`line_start`].
fn line_start_exec(s: &Vec<char>, c: usize) -> (r: usize)
    requires
        c <= s@.len(),
    ensures
        r == line_start(s@, c as int),
        r <= c,
{
    let mut j = c;
    while j > 0 && s[j - 1] != '\n'
        invariant
            j <= c <= s@.len(),
            last_newline_before(s@, j as int) == last_newline_before(s@, c as int),
        decreases j,
    {
        j -= 1;
    }
    j
}

/// Exec [`next_newline`].
fn next_newline_exec(s: &Vec<char>, c: usize) -> (r: usize)
    requires
        c <= s@.len(),
    ensures
        r == next_newline(s@, c as int),
        c <= r <= s@.len(),
{
    let mut j = c;
    while j < s.len() && s[j] != '\n'
        invariant
            c <= j <= s@.len(),
            next_newline(s@, j as int) == next_newline(s@, c as int),
        decreases s.len() - j,
    {
        j += 1;
    }
    j
}

/// An edit that reports a change, other than navigation, undo or redo, was recorded: the state
/// before it is the last one on the undo stack.
pub proof fn lemma_json_change_recorded(v: JsonView, e: TextInputEdit)
    requires
        !crate::text_input::is_navigation(e),
        !(e is Undo),
        !(e is Redo),
        json_apply_changed(v, e),
    ensures
        json_apply_state(v, e).history == v.history.push(json_state(v)),
{
}

/// Undoing right after an edit that changed the buffer gives back its value, cursor and
/// selection anchor, and the undo stack as it was.
pub proof fn law_json_undo_reverts_edit(v: JsonView, e: TextInputEdit)
    requires
        !crate::text_input::is_navigation(e),
        !(e is Undo),
        !(e is Redo),
        json_apply_changed(v, e),
    ensures
        json_state(json_undo(json_apply_state(v, e))) == json_state(v),
        json_undo(json_apply_state(v, e)).history == v.history,
{
    lemma_json_change_recorded(v, e);
    assert(json_apply_state(v, e).history.drop_last() =~= v.history);
}

/// Redo right after undo gives back value, cursor, anchor and both stacks.
pub proof fn law_json_redo_after_undo(v: JsonView)
    requires
        v.history.len() > 0,
    ensures
        json_state(json_redo(json_undo(v))) == json_state(v),
        json_redo(json_undo(v)).history == v.history,
        json_redo(json_undo(v)).redo == v.redo,
{
    let u = json_undo(v);
    assert(u.history.push(json_state(u)) =~= v.history);
    assert(u.redo.drop_last() =~= v.redo);
}


/// Whether a saved state keeps its cursor inside its text.
pub open spec fn json_state_in_text(st: JsonState) -> bool {
    st.cursor <= st.value.len()
}

/// Whether a buffer's cursor, and that of every state on its undo and redo stacks, lies inside
/// its text.
pub open spec fn json_cursor_in_text(v: JsonView) -> bool {
    &&& v.cursor <= v.value.len()
    &&& forall|i: int| 0 <= i < v.history.len() ==> json_state_in_text(#[trigger] v.history[i])
    &&& forall|i: int| 0 <= i < v.redo.len() ==> json_state_in_text(#[trigger] v.redo[i])
}

proof fn lemma_line_start_bound(s: Seq<char>, c: int)
    requires
        0 <= c <= s.len(),
    ensures
        0 <= line_start(s, c) <= c,
    decreases c,
{
    if c > 0 && s[c - 1] != '\n' {
        lemma_line_start_bound(s, c - 1);
    }
}

proof fn lemma_next_newline_bound(s: Seq<char>, c: int)
    requires
        0 <= c <= s.len(),
    ensures
        c <= next_newline(s, c) <= s.len(),
    decreases s.len() - c,
{
    if c < s.len() && s[c] != '\n' {
        lemma_next_newline_bound(s, c + 1);
    }
}

proof fn lemma_nth_line_start_bound(s: Seq<char>, k: nat)
    ensures
        0 <= nth_line_start(s, k) <= s.len(),
    decreases k,
{
    if k > 0 {
        lemma_nth_line_start_bound(s, (k - 1) as nat);
        lemma_next_newline_bound(s, nth_line_start(s, (k - 1) as nat));
    }
}

proof fn lemma_edit_in_text(v: JsonView, value: Seq<char>, cursor: nat, anchor: Option<nat>)
    requires
        json_cursor_in_text(v),
        cursor <= value.len(),
    ensures
        json_cursor_in_text(json_edit(v, value, cursor, anchor)),
{
    let w = json_edit(v, value, cursor, anchor);
    assert forall|i: int| 0 <= i < w.history.len() implies json_state_in_text(#[trigger] w.history[i]) by {
        if i < v.history.len() {
            assert(w.history[i] == v.history[i]);
        }
    }
}

proof fn lemma_without_selection_in_text(v: JsonView)
    requires
        v.cursor <= v.value.len(),
    ensures
        without_selection(v).1 <= without_selection(v).0.len(),
{
}

/// Whatever sequence of calls made a JSON buffer, its cursor lies inside its text, and so does
/// that of every state it can undo or redo to: a fresh buffer starts so, and every operation
/// (edits, moves, selection changes, undo, redo, replacing the value, dropping the history)
/// keeps it so. Its line is then the count of newlines before the cursor.
pub proof fn law_json_cursor_stays_in_text(
    v: JsonView,
    value: Seq<char>,
    sql_null: bool,
    e: TextInputEdit,
    up: bool,
    n: nat,
)
    requires
        json_cursor_in_text(v),
    ensures
        json_cursor_in_text(fresh_json(value, sql_null)),
        json_cursor_in_text(json_apply_state(v, e)),
        json_cursor_in_text(json_move_vertical(v, up)),
        json_cursor_in_text(
            JsonView { anchor: Some(cap(n, v.value.len())), cursor: cap(n, v.value.len()), ..v },
        ),
        json_cursor_in_text(JsonView { cursor: cap(n, v.value.len()), ..v }),
        json_cursor_in_text(JsonView { anchor: None, ..v }),
        json_cursor_in_text(json_edit(v, value, value.len(), None)),
        json_cursor_in_text(JsonView { history: Seq::empty(), redo: Seq::empty(), ..v }),
        json_line(v) == newline_count(v.value.take(v.cursor as int)),
        json_line(v) <= v.cursor,
{
    let s = v.value;
    let c = v.cursor as int;
    lemma_edit_in_text(v, value, value.len(), None);
    match e {
        TextInputEdit::Insert(ch) => {
            let (val, cur) = without_selection(v);
            lemma_edit_in_text(v, insert_at(val, cur as int, ch), cur + 1, None);
        },
        TextInputEdit::Backspace => {
            if json_selection(v) is Some {
                let (val, cur) = without_selection(v);
                lemma_edit_in_text(v, val, cur, None);
            } else if c > 0 {
                lemma_edit_in_text(v, remove_range(s, c - 1, c), (c - 1) as nat, v.anchor);
            }
        },
        TextInputEdit::Delete => {
            if json_selection(v) is Some {
                let (val, cur) = without_selection(v);
                lemma_edit_in_text(v, val, cur, None);
            } else if c < s.len() {
                lemma_edit_in_text(v, remove_range(s, c, c + 1), c as nat, v.anchor);
            }
        },
        TextInputEdit::MoveHome => {
            lemma_line_start_bound(s, c);
        },
        TextInputEdit::MoveEnd => {
            lemma_next_newline_bound(s, c);
        },
        TextInputEdit::DeletePreviousWord => {
            if c > 0 {
                lemma_skip_back_bounds(s, c);
                let st = word_start(s, c);
                lemma_edit_in_text(v, remove_range(s, st, c), st as nat, None);
            }
        },
        TextInputEdit::DeleteToStart => {
            if c > 0 {
                lemma_edit_in_text(v, s.skip(c), 0, None);
            }
        },
        TextInputEdit::Clear => {
            if s.len() > 0 {
                lemma_edit_in_text(v, Seq::empty(), 0, None);
            }
        },
        TextInputEdit::Undo => {
            if v.history.len() > 0 {
                let u = json_undo(v);
                assert(json_state_in_text(v.history[v.history.len() - 1]));
                assert forall|i: int| 0 <= i < u.history.len() implies json_state_in_text(
                    #[trigger] u.history[i],
                ) by {
                    assert(u.history[i] == v.history[i]);
                }
                assert forall|i: int| 0 <= i < u.redo.len() implies json_state_in_text(
                    #[trigger] u.redo[i],
                ) by {
                    if i < v.redo.len() {
                        assert(u.redo[i] == v.redo[i]);
                    }
                }
            }
        },
        TextInputEdit::Redo => {
            if v.redo.len() > 0 {
                let r = json_redo(v);
                assert(json_state_in_text(v.redo[v.redo.len() - 1]));
                assert forall|i: int| 0 <= i < r.redo.len() implies json_state_in_text(
                    #[trigger] r.redo[i],
                ) by {
                    assert(r.redo[i] == v.redo[i]);
                }
                assert forall|i: int| 0 <= i < r.history.len() implies json_state_in_text(
                    #[trigger] r.history[i],
                ) by {
                    if i < v.history.len() {
                        assert(r.history[i] == v.history[i]);
                    }
                }
            }
        },
        _ => {},
    }
    let line = json_line(v);
    let target: nat = if up {
        if line == 0 {
            0
        } else {
            (line - 1) as nat
        }
    } else if line == usize::MAX {
        line
    } else {
        line + 1
    };
    lemma_nth_line_start_bound(s, target);
    lemma_next_newline_bound(s, nth_line_start(s, target));
    lemma_newline_count_bound(s.take(c));
}

proof fn lemma_newline_count_bound(s: Seq<char>)
    ensures
        newline_count(s) <= s.len(),
    decreases s.len(),
{
    if s.len() > 0 {
        lemma_newline_count_bound(s.drop_last());
    }
}


/// Whether a text is made of spaces and line breaks only.
pub open spec fn only_layout(t: Seq<char>) -> bool {
    forall|i: int| 0 <= i < t.len() ==> t[i] == ' ' || t[i] == '\n'
}

/// The texts from `pos` on, each preceded by its gap, then the final gap
/// (`gaps[texts.len()]`).
pub open spec fn laid_out(texts: Seq<Seq<char>>, gaps: Seq<Seq<char>>, pos: int) -> Seq<char>
    decreases texts.len() - pos,
{
    if pos < 0 || pos > texts.len() {
        Seq::empty()
    } else if pos == texts.len() {
        gaps[pos]
    } else {
        gaps[pos] + texts[pos] + laid_out(texts, gaps, pos + 1)
    }
}

proof fn lemma_laid_out_update(texts: Seq<Seq<char>>, gaps: Seq<Seq<char>>, pos: int, j: int, g: Seq<char>)
    requires
        0 <= j < pos <= texts.len(),
        gaps.len() == texts.len() + 1,
    ensures
        laid_out(texts, gaps.update(j, g), pos) == laid_out(texts, gaps, pos),
    decreases texts.len() - pos,
{
    if pos < texts.len() {
        lemma_laid_out_update(texts, gaps, pos + 1, j, g);
    }
}

proof fn lemma_laid_out_front(texts: Seq<Seq<char>>, gaps: Seq<Seq<char>>, pos: int, g: Seq<char>)
    requires
        0 <= pos <= texts.len(),
        gaps.len() == texts.len() + 1,
    ensures
        laid_out(texts, gaps.update(pos, g + gaps[pos]), pos) == g + laid_out(texts, gaps, pos),
{
    let h = gaps.update(pos, g + gaps[pos]);
    if pos < texts.len() {
        lemma_laid_out_update(texts, gaps, pos + 1, pos, g + gaps[pos]);
        assert(h[pos] + texts[pos] + laid_out(texts, h, pos + 1) =~= g + (gaps[pos] + texts[pos]
            + laid_out(texts, gaps, pos + 1)));
    }
}

proof fn lemma_indentation_layout(n: nat)
    ensures
        only_layout(indentation(n)),
{
}

/// The gaps the formatter puts before each text from `pos` on, and after the last.
#[verifier::rlimit(40)]
#[verifier::spinoff_prover]
proof fn lemma_format_layout(texts: Seq<Seq<char>>, pos: int, indent: nat, line_start: bool) -> (gaps: Seq<
    Seq<char>,
>)
    requires
        0 <= pos <= texts.len(),
    ensures
        gaps.len() == texts.len() + 1,
        forall|i: int| pos <= i <= texts.len() ==> only_layout(#[trigger] gaps[i]),
        format_from(texts, pos, indent, line_start) == laid_out(texts, gaps, pos),
        pos < texts.len() ==> gaps[texts.len() as int].len() == 0 || texts.last() == seq![',']
            || texts.last() == seq![':'],
    decreases texts.len() - pos,
{
    if pos == texts.len() {
        let gaps = Seq::new((texts.len() + 1) as nat, |i: int| Seq::<char>::empty());
        assert(format_from(texts, pos, indent, line_start) =~= laid_out(texts, gaps, pos));
        gaps
    } else {
        let t = texts[pos];
        let nl = seq!['\n'];
        let sp = seq![' '];
        let e = Seq::<char>::empty();
        let (lead, trail, rest) = if t == seq!['{'] || t == seq!['['] {
            let newline = pos + 1 < texts.len() && texts[pos + 1] != closer_of(t);
            (e, if newline {
                nl
            } else {
                e
            }, lemma_format_layout(texts, pos + 1, indent + 1, newline || line_start))
        } else if t == seq!['}'] || t == seq![']'] {
            let level: nat = if indent == 0 {
                0
            } else {
                (indent - 1) as nat
            };
            lemma_indentation_layout(level);
            ((if !line_start {
                nl
            } else {
                e
            }) + indentation(level), e, lemma_format_layout(texts, pos + 1, level, false))
        } else if t == seq![','] {
            (e, nl, lemma_format_layout(texts, pos + 1, indent, true))
        } else if t == seq![':'] {
            (e, sp, lemma_format_layout(texts, pos + 1, indent, line_start))
        } else {
            lemma_indentation_layout(indent);
            (if line_start {
                indentation(indent)
            } else {
                e
            }, e, lemma_format_layout(texts, pos + 1, indent, false))
        };
        let g1 = rest.update(pos + 1, trail + rest[pos + 1]);
        lemma_laid_out_front(texts, rest, pos + 1, trail);
        let gaps = g1.update(pos, lead);
        lemma_laid_out_update(texts, g1, pos + 1, pos, lead);
        assert forall|i: int| pos <= i <= texts.len() implies only_layout(#[trigger] gaps[i]) by {
            if i == pos + 1 {
                assert(only_layout(rest[pos + 1]));
                assert(gaps[i] == trail + rest[pos + 1]);
            }
        }
        assert(format_from(texts, pos, indent, line_start) =~= lead + t + laid_out(texts, g1, pos + 1));
        if pos + 1 == texts.len() {
            assert(rest[pos + 1].len() == 0);
            assert(texts.last() == t);
        }
        assert(laid_out(texts, gaps, pos) == gaps[pos] + texts[pos] + laid_out(texts, gaps, pos + 1));
        gaps
    }
}

/// Formatting keeps the text of every non-whitespace token of the source, in order, and adds
/// only spaces and line breaks around them: the formatted text is those token texts, each
/// preceded by a gap of spaces and line breaks, followed by a last such gap.
pub proof fn law_formatting_keeps_token_texts(s: Seq<char>)
    ensures
        exists|gaps: Seq<Seq<char>>|
            gaps.len() == significant_texts(s, token_spans(s, 0)).len() + 1 && (forall|i: int|
                0 <= i < gaps.len() ==> only_layout(#[trigger] gaps[i])) && formatted_json(s)
                == laid_out(significant_texts(s, token_spans(s, 0)), gaps, 0),
{
    let texts = significant_texts(s, token_spans(s, 0));
    let gaps = lemma_format_layout(texts, 0, 0, true);
    assert(forall|i: int| 0 <= i < gaps.len() ==> only_layout(#[trigger] gaps[i]));
}


/// The non-whitespace token texts of a text from character index `i` on, read front to back.
pub open spec fn texts_from(s: Seq<char>, i: int) -> Seq<Seq<char>>
    decreases s.len() - i,
{
    if i < 0 || i >= s.len() {
        Seq::empty()
    } else {
        let (kind, end) = token_at(s, i);
        if end <= i || end > s.len() {
            Seq::empty()
        } else {
            (if kind == JsonTokenKind::Whitespace {
                Seq::empty()
            } else {
                seq![s.subrange(i, end)]
            }) + texts_from(s, end)
        }
    }
}

proof fn lemma_significant_concat(s: Seq<char>, a: Seq<(int, int, JsonTokenKind)>, b: Seq<(int, int, JsonTokenKind)>)
    ensures
        significant_texts(s, a + b) == significant_texts(s, a) + significant_texts(s, b),
    decreases b.len(),
{
    if b.len() == 0 {
        assert(a + b =~= a);
        assert(significant_texts(s, a) + significant_texts(s, b) =~= significant_texts(s, a));
    } else {
        assert((a + b).drop_last() =~= a + b.drop_last());
        assert((a + b).last() == b.last());
        lemma_significant_concat(s, a, b.drop_last());
        let x = significant_texts(s, a);
        let y = significant_texts(s, b.drop_last());
        if b.last().2 != JsonTokenKind::Whitespace {
            assert((x + y).push(s.subrange(b.last().0, b.last().1)) =~= x + y.push(
                s.subrange(b.last().0, b.last().1),
            ));
        }
    }
}

proof fn lemma_texts_from(s: Seq<char>, i: int)
    requires
        0 <= i <= s.len(),
    ensures
        significant_texts(s, token_spans(s, i)) == texts_from(s, i),
    decreases s.len() - i,
{
    if i < s.len() {
        lemma_token_at(s, i);
        let (kind, end) = token_at(s, i);
        lemma_texts_from(s, end);
        let one = seq![(i, end, kind)];
        lemma_significant_concat(s, one, token_spans(s, end));
        let z = one.drop_last();
        assert(z =~= Seq::<(int, int, JsonTokenKind)>::empty());
        assert(significant_texts(s, z) =~= Seq::<Seq<char>>::empty());
        assert(one.last() == (i, end, kind));
        if kind == JsonTokenKind::Whitespace {
            assert(significant_texts(s, one) =~= Seq::<Seq<char>>::empty());
        } else {
            assert(significant_texts(s, one) =~= seq![s.subrange(i, end)]);
        }
    }
}

proof fn lemma_ws_run_local(s: Seq<char>, i: int, e: int)
    requires
        0 <= i <= e <= s.len(),
        forall|j: int| i <= j < e ==> s[j] == ' ' || s[j] == '\n',
        e < s.len() ==> !is_ws(s[e]),
    ensures
        ws_run_end(s, i) == e,
    decreases e - i,
{
    if i < e {
        lemma_ws_run_local(s, i + 1, e);
    }
}

proof fn lemma_number_run_chars(t: Seq<char>, i: int)
    requires
        0 <= i <= t.len(),
        number_run_end(t, i) == t.len(),
    ensures
        forall|j: int| i <= j < t.len() ==> is_number_char(#[trigger] t[j]),
    decreases t.len() - i,
{
    if i < t.len() {
        lemma_number_run_chars(t, i + 1);
    }
}

proof fn lemma_number_run_local(s: Seq<char>, i: int, e: int)
    requires
        0 <= i <= e <= s.len(),
        forall|j: int| i <= j < e ==> is_number_char(#[trigger] s[j]),
        e < s.len() ==> !is_number_char(s[e]),
    ensures
        number_run_end(s, i) == e,
    decreases e - i,
{
    if i < e {
        lemma_number_run_local(s, i + 1, e);
    }
}

/// Whether the string body scanned from `i` ends at an unescaped `"`.
pub open spec fn string_closed(s: Seq<char>, i: int, escaped: bool) -> bool
    decreases s.len() - i,
{
    if i < 0 || i >= s.len() {
        false
    } else if !escaped && s[i] == '"' {
        true
    } else {
        string_closed(s, i + 1, !escaped && s[i] == '\\')
    }
}

proof fn lemma_string_end_local(t: Seq<char>, j: int, escaped: bool, s: Seq<char>, p: int)
    requires
        0 <= j <= t.len(),
        0 <= p,
        p + t.len() <= s.len(),
        s.subrange(p, p + t.len()) == t,
        string_closed(t, j, escaped),
    ensures
        string_end(s, p + j, escaped) == p + string_end(t, j, escaped),
    decreases t.len() - j,
{
    assert(s[p + j] == s.subrange(p, p + t.len())[j]);
    if escaped || t[j] != '"' {
        lemma_string_end_local(t, j + 1, !escaped && t[j] == '\\', s, p);
    }
}

proof fn lemma_string_end_open(t: Seq<char>, j: int, escaped: bool, s: Seq<char>, p: int)
    requires
        0 <= j <= t.len(),
        0 <= p,
        p + t.len() == s.len(),
        s.subrange(p, p + t.len()) == t,
        !string_closed(t, j, escaped),
    ensures
        string_end(s, p + j, escaped) == s.len(),
        string_end(t, j, escaped) == t.len(),
    decreases t.len() - j,
{
    if j < t.len() {
        assert(s[p + j] == s.subrange(p, p + t.len())[j]);
        lemma_string_end_open(t, j + 1, !escaped && t[j] == '\\', s, p);
    }
}

/// Whether a token text, read alone, is one whole token that cannot run on into what follows:
/// it does not start with whitespace, is not whitespace, reads as a single token to its end,
/// and, when a string other than the `last` text, is closed.
pub open spec fn self_delimited(t: Seq<char>, last: bool) -> bool {
    &&& t.len() > 0
    &&& !is_ws(t[0])
    &&& token_at(t, 0).0 != JsonTokenKind::Whitespace
    &&& token_at(t, 0).1 == t.len()
    &&& (t[0] == '"' && !last) ==> string_closed(t, 1, false)
}

/// Whether a token text is one punctuation character.
pub open spec fn is_punct_text(t: Seq<char>) -> bool {
    t.len() == 1 && is_json_punct(t[0])
}

/// Whether every token text is self-delimited (only the last may be an unclosed string) and no
/// two value tokens (anything but punctuation) follow each other, as in any JSON value.
pub open spec fn separable_texts(texts: Seq<Seq<char>>) -> bool {
    &&& forall|i: int| 0 <= i < texts.len() ==> self_delimited(#[trigger] texts[i], i == texts.len() - 1)
    &&& forall|i: int|
        0 <= i < texts.len() - 1 ==> is_punct_text(#[trigger] texts[i]) || is_punct_text(texts[i + 1])
}

/// A self-delimited token text placed at `p` reads as the same token, as long as what follows
/// it is layout or punctuation (or nothing), or the text is itself punctuation.
proof fn lemma_token_local(t: Seq<char>, s: Seq<char>, p: int, last: bool)
    requires
        self_delimited(t, last),
        last && t[0] == '"' && !string_closed(t, 1, false) ==> p + t.len() == s.len(),
        0 <= p,
        p + t.len() <= s.len(),
        s.subrange(p, p + t.len()) == t,
        is_punct_text(t) || p + t.len() == s.len() || s[p + t.len()] == ' ' || s[p + t.len()]
            == '\n' || is_json_punct(s[p + t.len()]),
    ensures
        token_at(s, p) == (token_at(t, 0).0, p + t.len()),
{
    let n = t.len() as int;
    assert forall|j: int| 0 <= j < n implies s[p + j] == #[trigger] t[j] by {
        assert(s[p + j] == s.subrange(p, p + n)[j]);
    }
    let c = t[0];
    assert(s[p] == c);
    if is_json_space(c) {
    } else if c == '"' {
        if string_closed(t, 1, false) {
            lemma_string_end_local(t, 1, false, s, p);
        } else {
            lemma_string_end_open(t, 1, false, s, p);
        }
    } else if is_json_punct(c) {
    } else if c == '-' || is_digit(c) {
        lemma_number_run_chars(t, 0);
        assert forall|j: int| p <= j < p + n implies is_number_char(#[trigger] s[j]) by {
            assert(s[j] == t[j - p]);
        }
        lemma_number_run_local(s, p, p + n);
    } else {
        let tr = seq!['t', 'r', 'u', 'e'];
        let fa = seq!['f', 'a', 'l', 's', 'e'];
        let nu = seq!['n', 'u', 'l', 'l'];
        if starts_at(t, 0, tr) {
            assert(s.subrange(p, p + 4) =~= t.subrange(0, 4));
        } else if starts_at(t, 0, fa) {
            assert(s.subrange(p, p + 5) =~= t.subrange(0, 5));
            if starts_at(s, p, tr) {
                assert(s.subrange(p, p + 4)[0] == 't');
            }
        } else if starts_at(t, 0, nu) {
            assert(s.subrange(p, p + 4) =~= t.subrange(0, 4));
            if starts_at(s, p, tr) {
                assert(s.subrange(p, p + 4)[0] == 't');
            }
            if starts_at(s, p, fa) {
                assert(s.subrange(p, p + 5)[0] == 'f');
            }
        } else {
            assert(n == 1);
            if starts_at(s, p, tr) {
                assert(s.subrange(p, p + 4)[1] == 'r');
            }
            if starts_at(s, p, fa) {
                assert(s.subrange(p, p + 5)[1] == 'a');
            }
            if starts_at(s, p, nu) {
                assert(s.subrange(p, p + 4)[1] == 'u');
            }
        }
    }
}

proof fn lemma_layout_reads_back(texts: Seq<Seq<char>>, gaps: Seq<Seq<char>>, a: Seq<char>, k: int)
    requires
        separable_texts(texts),
        gaps.len() == texts.len() + 1,
        forall|i: int| 0 <= i < gaps.len() ==> only_layout(#[trigger] gaps[i]),
        0 <= k <= texts.len(),
        texts.len() > 0 && !is_punct_text(texts.last()) ==> gaps[texts.len() as int].len() == 0,
    ensures
        texts_from(a + laid_out(texts, gaps, k), a.len() as int) == texts.subrange(k, texts.len() as int),
    decreases texts.len() - k,
{
    let out = a + laid_out(texts, gaps, k);
    let g = gaps[k];
    let p: int = (a.len() + g.len()) as int;
    assert(only_layout(g));
    if k == texts.len() {
        assert(out =~= a + g);
        if g.len() > 0 {
            lemma_ws_run_local(out, a.len() as int, out.len() as int);
            assert(is_json_space(out[a.len() as int]));
            assert(texts_from(out, out.len() as int) =~= Seq::<Seq<char>>::empty());
        }
        assert(texts.subrange(k, k) =~= Seq::<Seq<char>>::empty());
    } else {
        let t = texts[k];
        let rest = laid_out(texts, gaps, k + 1);
        let a2 = a + g + t;
        assert(out =~= a2 + rest);
        assert(self_delimited(t, k == texts.len() - 1));
        if k == texts.len() - 1 {
            assert(t == texts.last());
            assert(rest == gaps[k + 1]);
            if t[0] == '"' {
                assert(!is_punct_text(t));
            }
        }
        assert(out.subrange(p, p + t.len()) =~= t);
        assert(out[p] == t[0]);
        if g.len() > 0 {
            assert forall|j: int| a.len() <= j < p implies out[j] == ' ' || out[j] == '\n' by {
                assert(out[j] == g[j - a.len()]);
            }
            lemma_ws_run_local(out, a.len() as int, p);
            assert(is_json_space(out[a.len() as int]));
        }
        let q: int = p + t.len();
        if q < out.len() {
            assert(out[q] == rest[0]);
            if k + 1 == texts.len() {
                assert(rest == gaps[k + 1]);
                assert(only_layout(gaps[k + 1]));
            } else {
                assert(rest == gaps[k + 1] + texts[k + 1] + laid_out(texts, gaps, k + 2));
                assert(only_layout(gaps[k + 1]));
                if gaps[k + 1].len() == 0 {
                    assert(rest[0] == texts[k + 1][0]);
                    assert(is_punct_text(texts[k]) || is_punct_text(texts[k + 1]));
                }
            }
        }
        lemma_token_local(t, out, p, k == texts.len() - 1);
        lemma_layout_reads_back(texts, gaps, a2, k + 1);
        assert(a2.len() == q);
        assert(texts_from(out, p) == seq![out.subrange(p, q)] + texts_from(out, q));
        assert(texts.subrange(k, texts.len() as int) =~= seq![t] + texts.subrange(k + 1, texts.len() as int));
    }
}

/// Formatting reads back: where the source's token texts are self-delimited and no two value
/// tokens follow each other (as in any JSON value), the formatted text has the same
/// non-whitespace token texts as the source, in order, and formatting it again changes nothing.
pub proof fn law_formatting_is_idempotent(s: Seq<char>)
    requires
        separable_texts(significant_texts(s, token_spans(s, 0))),
    ensures
        significant_texts(formatted_json(s), token_spans(formatted_json(s), 0)) == significant_texts(
            s,
            token_spans(s, 0),
        ),
        formatted_json(formatted_json(s)) == formatted_json(s),
{
    let texts = significant_texts(s, token_spans(s, 0));
    let gaps = lemma_format_layout(texts, 0, 0, true);
    let f = formatted_json(s);
    let e = Seq::<char>::empty();
    if texts.len() > 0 && !is_punct_text(texts.last()) {
        assert(texts.last() != seq![',']);
        assert(texts.last() != seq![':']);
    }
    lemma_layout_reads_back(texts, gaps, e, 0);
    assert(e + laid_out(texts, gaps, 0) =~= f);
    lemma_texts_from(f, 0);
    assert(texts.subrange(0, texts.len() as int) =~= texts);
}

} // verus!
