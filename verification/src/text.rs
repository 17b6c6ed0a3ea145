//! Character-level text helpers shared by the editors and SQL builders.
//!
//! Text is modelled as `Seq<char>` (the view of `String` / `str`).
use vstd::prelude::*;

verus! {

/// `String::push` appends one character (std documentation: "Appends the given char to the
/// end of this String").
pub assume_specification[ std::string::String::push ](s: &mut std::string::String, ch: char)
    ensures
        final(s)@ == old(s)@.push(ch),
;

/// The characters of a string slice, in order.
pub fn chars_of(s: &str) -> (out: Vec<char>)
    ensures
        out@ == s@,
{
    let mut out: Vec<char> = Vec::new();
    for c in it: s.chars()
        invariant
            out@ == it.seq().take(it.index() as int),
    {
        out.push(c);
    }
    out
}

/// A string holding exactly the given characters.
pub fn string_of(cs: &[char]) -> (out: String)
    ensures
        out@ == cs@,
{
    let mut out = String::new();
    let mut i: usize = 0;
    while i < cs.len()
        invariant
            i <= cs.len(),
            out@ == cs@.take(i as int),
        decreases cs.len() - i,
    {
        out.push(cs[i]);
        assert(cs@.take(i + 1) == cs@.take(i as int).push(cs@[i as int]));
        i += 1;
    }
    assert(cs@.take(cs.len() as int) == cs@);
    out
}

/// Appends a string slice to a string.
pub fn push_str(out: &mut String, s: &str)
    ensures
        final(out)@ == old(out)@ + s@,
{
    let cs = chars_of(s);
    let mut i: usize = 0;
    while i < cs.len()
        invariant
            i <= cs.len(),
            cs@ == s@,
            out@ == old(out)@ + cs@.take(i as int),
        decreases cs.len() - i,
    {
        out.push(cs[i]);
        assert(cs@.take(i + 1) == cs@.take(i as int).push(cs@[i as int]));
        i += 1;
    }
    assert(cs@.take(cs.len() as int) == cs@);
}

/// Appends characters to a string.
pub fn push_chars(out: &mut String, cs: &[char])
    ensures
        final(out)@ == old(out)@ + cs@,
{
    let mut i: usize = 0;
    while i < cs.len()
        invariant
            i <= cs.len(),
            out@ == old(out)@ + cs@.take(i as int),
        decreases cs.len() - i,
    {
        out.push(cs[i]);
        assert(cs@.take(i + 1) == cs@.take(i as int).push(cs@[i as int]));
        i += 1;
    }
    assert(cs@.take(cs.len() as int) == cs@);
}

/// Copy of a string slice as an owned `String`.
pub fn owned(s: &str) -> (out: String)
    ensures
        out@ == s@,
{
    let mut out = String::new();
    push_str(&mut out, s);
    assert(out@ =~= s@);
    out
}

/// Whether two string slices hold the same characters.
pub fn str_eq(a: &str, b: &str) -> (r: bool)
    ensures
        r == (a@ == b@),
{
    let x = chars_of(a);
    let y = chars_of(b);
    seq_eq(&x, &y)
}

/// Whether two character slices are equal.
pub fn seq_eq(x: &[char], y: &[char]) -> (r: bool)
    ensures
        r == (x@ == y@),
{
    if x.len() != y.len() {
        return false;
    }
    let mut i: usize = 0;
    while i < x.len()
        invariant
            x.len() == y.len(),
            i <= x.len(),
            forall|k: int| 0 <= k < i ==> x@[k] == y@[k],
        decreases x.len() - i,
    {
        if x[i] != y[i] {
            return false;
        }
        i += 1;
    }
    assert(x@ =~= y@);
    true
}

/// The Unicode `White_Space` property (the set documented for `char::is_whitespace`).
pub open spec fn is_ws(c: char) -> bool {
    let u = c as u32;
    ||| (0x09 <= u && u <= 0x0D)
    ||| u == 0x20
    ||| u == 0x85
    ||| u == 0xA0
    ||| u == 0x1680
    ||| (0x2000 <= u && u <= 0x200A)
    ||| u == 0x2028
    ||| u == 0x2029
    ||| u == 0x202F
    ||| u == 0x205F
    ||| u == 0x3000
}

/// Exec check of [`is_ws`].
pub fn is_whitespace(c: char) -> (r: bool)
    ensures
        r == is_ws(c),
{
    let u = c as u32;
    (0x09 <= u && u <= 0x0D) || u == 0x20 || u == 0x85 || u == 0xA0 || u == 0x1680 || (0x2000
        <= u && u <= 0x200A) || u == 0x2028 || u == 0x2029 || u == 0x202F || u == 0x205F || u
        == 0x3000
}

/// Number of leading whitespace characters.
pub open spec fn leading_ws(s: Seq<char>) -> nat
    decreases s.len(),
{
    if s.len() == 0 {
        0
    } else if is_ws(s[0]) {
        1 + leading_ws(s.drop_first())
    } else {
        0
    }
}

/// Number of trailing whitespace characters.
pub open spec fn trailing_ws(s: Seq<char>) -> nat
    decreases s.len(),
{
    if s.len() == 0 {
        0
    } else if is_ws(s.last()) {
        1 + trailing_ws(s.drop_last())
    } else {
        0
    }
}

/// `str::trim_end`: the text without trailing whitespace.
pub open spec fn trim_end(s: Seq<char>) -> Seq<char> {
    s.take(s.len() - trailing_ws(s))
}

/// `str::trim_start`: the text without leading whitespace.
pub open spec fn trim_start(s: Seq<char>) -> Seq<char> {
    s.skip(leading_ws(s) as int)
}

/// `str::trim`: the text without leading and trailing whitespace.
pub open spec fn trim(s: Seq<char>) -> Seq<char> {
    trim_start(trim_end(s))
}

pub proof fn lemma_trailing_ws_bound(s: Seq<char>)
    ensures
        trailing_ws(s) <= s.len(),
        forall|k: int| s.len() - trailing_ws(s) <= k < s.len() ==> is_ws(#[trigger] s[k]),
        trailing_ws(s) < s.len() ==> !is_ws(s[s.len() - trailing_ws(s) - 1]),
    decreases s.len(),
{
    if s.len() > 0 && is_ws(s.last()) {
        lemma_trailing_ws_bound(s.drop_last());
        assert forall|k: int| s.len() - trailing_ws(s) <= k < s.len() implies is_ws(
            #[trigger] s[k],
        ) by {
            if k < s.len() - 1 {
                assert(s.drop_last()[k] == s[k]);
            }
        }
        if trailing_ws(s) < s.len() {
            assert(s.drop_last()[s.len() - trailing_ws(s) - 1] == s[s.len() - trailing_ws(s) - 1]);
        }
    }
}

pub proof fn lemma_leading_ws_bound(s: Seq<char>)
    ensures
        leading_ws(s) <= s.len(),
        forall|k: int| 0 <= k < leading_ws(s) ==> is_ws(#[trigger] s[k]),
        leading_ws(s) < s.len() ==> !is_ws(s[leading_ws(s) as int]),
    decreases s.len(),
{
    if s.len() > 0 && is_ws(s[0]) {
        lemma_leading_ws_bound(s.drop_first());
        assert forall|k: int| 0 <= k < leading_ws(s) implies is_ws(#[trigger] s[k]) by {
            if k > 0 {
                assert(s.drop_first()[k - 1] == s[k]);
            }
        }
        if leading_ws(s) < s.len() {
            assert(s.drop_first()[leading_ws(s) - 1] == s[leading_ws(s) as int]);
        }
    }
}

/// A run of `n` trailing whitespace characters followed (before) by a non-whitespace
/// character, or the whole text, determines `trailing_ws`.
pub proof fn lemma_trailing_ws_exact(s: Seq<char>, n: nat)
    requires
        n <= s.len(),
        forall|k: int| s.len() - n <= k < s.len() ==> is_ws(#[trigger] s[k]),
        n < s.len() ==> !is_ws(s[s.len() - n - 1]),
    ensures
        trailing_ws(s) == n,
    decreases s.len(),
{
    if n > 0 {
        assert(is_ws(s[s.len() - 1]));
        assert forall|k: int| s.drop_last().len() - (n - 1) <= k < s.drop_last().len() implies is_ws(
            #[trigger] s.drop_last()[k],
        ) by {
            assert(s[k] == s.drop_last()[k]);
        }
        if n - 1 < s.drop_last().len() {
            assert(s.drop_last()[s.drop_last().len() - (n - 1) - 1] == s[s.len() - n - 1]);
        }
        lemma_trailing_ws_exact(s.drop_last(), (n - 1) as nat);
    }
}

pub proof fn lemma_leading_ws_exact(s: Seq<char>, n: nat)
    requires
        n <= s.len(),
        forall|k: int| 0 <= k < n ==> is_ws(#[trigger] s[k]),
        n < s.len() ==> !is_ws(s[n as int]),
    ensures
        leading_ws(s) == n,
    decreases s.len(),
{
    if n > 0 {
        assert(is_ws(s[0]));
        assert forall|k: int| 0 <= k < n - 1 implies is_ws(#[trigger] s.drop_first()[k]) by {
            assert(s[k + 1] == s.drop_first()[k]);
        }
        if n - 1 < s.drop_first().len() {
            assert(s.drop_first()[n - 1] == s[n as int]);
        }
        lemma_leading_ws_exact(s.drop_first(), (n - 1) as nat);
    }
}

/// Exec `trim_end` over characters.
pub fn trim_end_chars(s: &[char]) -> (out: Vec<char>)
    ensures
        out@ == trim_end(s@),
{
    let mut end = s.len();
    while end > 0 && is_whitespace(s[end - 1])
        invariant
            end <= s.len(),
            forall|k: int| end <= k < s.len() ==> is_ws(#[trigger] s@[k]),
        decreases end,
    {
        end -= 1;
    }
    proof {
        lemma_trailing_ws_exact(s@, (s.len() - end) as nat);
    }
    let out = slice_vec(s, 0, end);
    out
}

/// Exec `trim` over characters.
pub fn trim_chars(s: &[char]) -> (out: Vec<char>)
    ensures
        out@ == trim(s@),
{
    let t = trim_end_chars(s);
    let mut start: usize = 0;
    while start < t.len() && is_whitespace(t[start])
        invariant
            start <= t.len(),
            forall|k: int| 0 <= k < start ==> is_ws(#[trigger] t@[k]),
        decreases t.len() - start,
    {
        start += 1;
    }
    proof {
        lemma_leading_ws_exact(t@, start as nat);
    }
    let n = t.len();
    slice_vec(&t, start, n)
}

/// The characters `s[start..end]` as a vector.
pub fn slice_vec(s: &[char], start: usize, end: usize) -> (out: Vec<char>)
    requires
        start <= end <= s.len(),
    ensures
        out@ == s@.subrange(start as int, end as int),
{
    let mut out: Vec<char> = Vec::new();
    let mut i = start;
    while i < end
        invariant
            start <= i <= end <= s.len(),
            out@ == s@.subrange(start as int, i as int),
        decreases end - i,
    {
        out.push(s[i]);
        assert(s@.subrange(start as int, i + 1) == s@.subrange(start as int, i as int).push(
            s@[i as int],
        ));
        i += 1;
    }
    out
}

/// Whether `needle` occurs in `hay` at position `i`.
pub open spec fn occurs_at(hay: Seq<char>, needle: Seq<char>, i: int) -> bool {
    0 <= i && i + needle.len() <= hay.len() && hay.subrange(i, i + needle.len()) == needle
}

/// `str::contains` with a string pattern.
pub open spec fn contains_seq(hay: Seq<char>, needle: Seq<char>) -> bool {
    exists|i: int| occurs_at(hay, needle, i)
}

/// Exec check whether `needle` occurs at position `i` of `hay`.
pub fn occurs_at_exec(hay: &[char], needle: &[char], i: usize) -> (r: bool)
    ensures
        r == occurs_at(hay@, needle@, i as int),
{
    if i > hay.len() || needle.len() > hay.len() - i {
        return false;
    }
    let mut k: usize = 0;
    while k < needle.len()
        invariant
            i + needle.len() <= hay.len(),
            k <= needle.len(),
            forall|j: int| 0 <= j < k ==> hay@[i + j] == needle@[j],
        decreases needle.len() - k,
    {
        if hay[i + k] != needle[k] {
            assert(hay@.subrange(i as int, i + needle.len())[k as int] != needle@[k as int]);
            return false;
        }
        k += 1;
    }
    assert(hay@.subrange(i as int, i + needle.len()) =~= needle@);
    true
}

/// Exec `contains` over characters.
pub fn contains_chars(hay: &[char], needle: &[char]) -> (r: bool)
    ensures
        r == contains_seq(hay@, needle@),
{
    if needle.len() > hay.len() {
        assert forall|j: int| !occurs_at(hay@, needle@, j) by {}
        return false;
    }
    let last = hay.len() - needle.len();
    let mut i: usize = 0;
    while i < last
        invariant
            i <= last,
            last + needle.len() == hay.len(),
            forall|j: int| 0 <= j < i ==> !occurs_at(hay@, needle@, j),
        decreases last - i,
    {
        if occurs_at_exec(hay, needle, i) {
            return true;
        }
        i += 1;
    }
    let r = occurs_at_exec(hay, needle, last);
    if !r {
        assert forall|j: int| !occurs_at(hay@, needle@, j) by {
            if 0 <= j && j < i {
            }
        }
    }
    r
}

/// `str::contains` on string slices.
pub fn str_contains(hay: &str, needle: &str) -> (r: bool)
    ensures
        r == contains_seq(hay@, needle@),
{
    let h = chars_of(hay);
    let n = chars_of(needle);
    contains_chars(&h, &n)
}

/// ASCII lowercase of one character (`char::to_ascii_lowercase`).
pub open spec fn lower_char(c: char) -> char {
    if 'A' <= c && c <= 'Z' {
        ((c as u32) + 32) as char
    } else {
        c
    }
}

/// ASCII lowercase of a text (`str::to_ascii_lowercase`).
pub open spec fn lower_seq(s: Seq<char>) -> Seq<char> {
    s.map_values(|c: char| lower_char(c))
}

pub fn lower_char_exec(c: char) -> (r: char)
    ensures
        r == lower_char(c),
{
    if 'A' <= c && c <= 'Z' {
        let u = (c as u32) + 32;
        assert(0x61 <= u <= 0x7A);
        let r = char_from_ascii(u as u8);
        r
    } else {
        c
    }
}

/// The character for an ASCII code.
pub fn char_from_ascii(b: u8) -> (c: char)
    requires
        b < 128,
    ensures
        c as u32 == b as u32,
        c == (b as u32) as char,
{
    b as char
}

/// Exec ASCII lowercase over characters.
pub fn lower_chars(s: &[char]) -> (out: Vec<char>)
    ensures
        out@ == lower_seq(s@),
{
    let mut out: Vec<char> = Vec::new();
    let mut i: usize = 0;
    while i < s.len()
        invariant
            i <= s.len(),
            out@ == lower_seq(s@.take(i as int)),
        decreases s.len() - i,
    {
        out.push(lower_char_exec(s[i]));
        assert(lower_seq(s@.take(i + 1)) =~= lower_seq(s@.take(i as int)).push(lower_char(s@[i as int])));
        i += 1;
    }
    assert(s@.take(s.len() as int) == s@);
    out
}

/// `str::replace(from_char, to)`: every occurrence of `c` replaced by `rep`.
pub open spec fn replace_char(s: Seq<char>, c: char, rep: Seq<char>) -> Seq<char>
    decreases s.len(),
{
    if s.len() == 0 {
        Seq::empty()
    } else {
        replace_char(s.drop_last(), c, rep) + if s.last() == c {
            rep
        } else {
            seq![s.last()]
        }
    }
}

/// Exec [`replace_char`], appending to `out`.
pub fn push_replaced(out: &mut String, s: &[char], c: char, rep: &str)
    ensures
        final(out)@ == old(out)@ + replace_char(s@, c, rep@),
{
    let mut i: usize = 0;
    while i < s.len()
        invariant
            i <= s.len(),
            out@ == old(out)@ + replace_char(s@.take(i as int), c, rep@),
        decreases s.len() - i,
    {
        let ghost before = out@;
        assert(s@.take(i + 1).drop_last() == s@.take(i as int));
        if s[i] == c {
            push_str(out, rep);
        } else {
            out.push(s[i]);
        }
        assert(out@ =~= old(out)@ + replace_char(s@.take(i + 1), c, rep@));
        i += 1;
    }
    assert(s@.take(s.len() as int) == s@);
}

/// Exec [`replace_char`] on a string slice.
pub fn replace_char_str(s: &str, c: char, rep: &str) -> (out: String)
    ensures
        out@ == replace_char(s@, c, rep@),
{
    let cs = chars_of(s);
    let mut out = String::new();
    push_replaced(&mut out, &cs, c, rep);
    assert(out@ =~= replace_char(s@, c, rep@));
    out
}

/// Decimal digits of a natural number (no leading zeros; `0` is "0").
pub open spec fn nat_digits(n: nat) -> Seq<char>
    decreases n,
{
    if n < 10 {
        seq![digit_char(n)]
    } else {
        nat_digits(n / 10) + seq![digit_char(n % 10)]
    }
}

/// The ASCII digit for `d < 10`.
pub open spec fn digit_char(d: nat) -> char {
    ((d + 48) as u32) as char
}

/// Decimal text of an integer, with a leading `-` when negative (`Display` for integers).
pub open spec fn int_text(i: int) -> Seq<char> {
    if i < 0 {
        seq!['-'] + nat_digits((-i) as nat)
    } else {
        nat_digits(i as nat)
    }
}

/// Exec decimal digits of a `u128`.
pub fn push_u128_digits(out: &mut String, n: u128)
    ensures
        final(out)@ == old(out)@ + nat_digits(n as nat),
    decreases n,
{
    if n >= 10 {
        push_u128_digits(out, n / 10);
    }
    let d = (n % 10) as u8;
    let c = char_from_ascii(d + 48);
    out.push(c);
    assert(out@ =~= old(out)@ + nat_digits(n as nat));
}

/// Decimal text of a `u64`.
pub fn u64_text(n: u64) -> (out: String)
    ensures
        out@ == nat_digits(n as nat),
{
    let mut out = String::new();
    push_u128_digits(&mut out, n as u128);
    assert(out@ =~= nat_digits(n as nat));
    out
}

/// Decimal text of an `i64`.
pub fn i64_text(n: i64) -> (out: String)
    ensures
        out@ == int_text(n as int),
{
    let mut out = String::new();
    if n < 0 {
        out.push('-');
        let m: i128 = -(n as i128);
        push_u128_digits(&mut out, m as u128);
    } else {
        push_u128_digits(&mut out, n as u128);
    }
    assert(out@ =~= int_text(n as int));
    out
}

/// Upper-case hexadecimal digit for `d < 16`.
pub open spec fn hex_digit(d: nat) -> char {
    if d < 10 {
        digit_char(d)
    } else {
        ((d - 10 + 65) as u32) as char
    }
}

/// Two upper-case hexadecimal digits of a byte (`format!("{byte:02X}")`).
pub open spec fn byte_hex(b: u8) -> Seq<char> {
    seq![hex_digit((b / 16) as nat), hex_digit((b % 16) as nat)]
}

/// Upper-case hexadecimal text of a byte string.
pub open spec fn bytes_hex(bytes: Seq<u8>) -> Seq<char>
    decreases bytes.len(),
{
    if bytes.len() == 0 {
        Seq::empty()
    } else {
        bytes_hex(bytes.drop_last()) + byte_hex(bytes.last())
    }
}

fn hex_digit_exec(d: u8) -> (c: char)
    requires
        d < 16,
    ensures
        c == hex_digit(d as nat),
{
    if d < 10 {
        char_from_ascii(d + 48)
    } else {
        char_from_ascii(d - 10 + 65)
    }
}

/// Appends the upper-case hexadecimal text of `bytes`.
pub fn push_bytes_hex(out: &mut String, bytes: &[u8])
    ensures
        final(out)@ == old(out)@ + bytes_hex(bytes@),
{
    let mut i: usize = 0;
    while i < bytes.len()
        invariant
            i <= bytes.len(),
            out@ == old(out)@ + bytes_hex(bytes@.take(i as int)),
        decreases bytes.len() - i,
    {
        let b = bytes[i];
        out.push(hex_digit_exec(b / 16));
        out.push(hex_digit_exec(b % 16));
        assert(bytes@.take(i + 1).drop_last() == bytes@.take(i as int));
        assert(out@ =~= old(out)@ + bytes_hex(bytes@.take(i + 1)));
        i += 1;
    }
    assert(bytes@.take(bytes.len() as int) == bytes@);
}

/// Whether a character is an ASCII digit.
pub open spec fn is_digit(c: char) -> bool {
    '0' <= c && c <= '9'
}

/// Value of a run of ASCII digits.
pub open spec fn digits_value(s: Seq<char>) -> nat
    decreases s.len(),
{
    if s.len() == 0 {
        0
    } else {
        digits_value(s.drop_last()) * 10 + ((s.last() as u32) - 48) as nat
    }
}

/// The digit part of a `u32` literal: the text without one leading `+`.
pub open spec fn unsigned_digits(s: Seq<char>) -> Seq<char> {
    if s.len() > 0 && s[0] == '+' {
        s.drop_first()
    } else {
        s
    }
}

/// `u32::from_str`: an optional leading `+`, then one or more ASCII digits whose value fits.
pub open spec fn parse_u32(s: Seq<char>) -> Option<u32> {
    let digits = unsigned_digits(s);
    if digits.len() > 0 && all_digits(digits) && digits_value(digits) <= u32::MAX {
        Some(digits_value(digits) as u32)
    } else {
        None
    }
}

/// Exec [`parse_u32`].
pub fn parse_u32_exec(s: &[char]) -> (r: Option<u32>)
    ensures
        r == parse_u32(s@),
{
    let start: usize = if s.len() > 0 && s[0] == '+' {
        1
    } else {
        0
    };
    let ghost digits = unsigned_digits(s@);
    assert(digits == s@.skip(start as int));
    if start >= s.len() {
        return None;
    }
    let mut value: u64 = 0;
    let mut i = start;
    let mut overflow = false;
    while i < s.len()
        invariant
            start <= i <= s.len(),
            digits == s@.skip(start as int),
            digits == unsigned_digits(s@),
            forall|k: int| start <= k < i ==> is_digit(#[trigger] s@[k]),
            !overflow ==> value == digits_value(s@.subrange(start as int, i as int)),
            !overflow ==> value <= u32::MAX,
            overflow ==> digits_value(s@.subrange(start as int, i as int)) > u32::MAX,
        decreases s.len() - i,
    {
        let c = s[i];
        if !('0' <= c && c <= '9') {
            assert(digits[i - start] == c);
            assert(!is_digit(digits[i - start]));
            assert(!all_digits(digits));
            return None;
        }
        let ghost prev = s@.subrange(start as int, i as int);
        assert(s@.subrange(start as int, i + 1).drop_last() == prev);
        let d = (c as u32 - 48) as u64;
        if !overflow {
            let next = value * 10 + d;
            if next > u32::MAX as u64 {
                overflow = true;
            } else {
                value = next;
            }
        } else {
            assert(digits_value(s@.subrange(start as int, i + 1)) >= digits_value(prev) * 10) by (
                nonlinear_arith)
                requires
                    digits_value(s@.subrange(start as int, i + 1)) == digits_value(prev) * 10 + d,
            ;
        }
        i += 1;
    }
    assert(s@.subrange(start as int, s.len() as int) == digits);
    assert forall|k: int| 0 <= k < digits.len() implies is_digit(#[trigger] digits[k]) by {
        assert(digits[k] == s@[k + start]);
    }
    assert(all_digits(digits));
    if overflow {
        None
    } else {
        Some(value as u32)
    }
}

/// Whether every character is an ASCII digit.
pub open spec fn all_digits(s: Seq<char>) -> bool {
    forall|k: int| 0 <= k < s.len() ==> is_digit(#[trigger] s[k])
}

/// Index of the first occurrence of `c` in `s`, or `s.len()`.
pub open spec fn find_char(s: Seq<char>, c: char) -> nat
    decreases s.len(),
{
    if s.len() == 0 {
        0
    } else if s[0] == c {
        0
    } else {
        1 + find_char(s.drop_first(), c)
    }
}

pub proof fn lemma_find_char(s: Seq<char>, c: char)
    ensures
        find_char(s, c) <= s.len(),
        forall|k: int| 0 <= k < find_char(s, c) ==> s[k] != c,
        find_char(s, c) < s.len() ==> s[find_char(s, c) as int] == c,
    decreases s.len(),
{
    if s.len() > 0 && s[0] != c {
        lemma_find_char(s.drop_first(), c);
        assert forall|k: int| 0 <= k < find_char(s, c) implies s[k] != c by {
            if k > 0 {
                assert(s.drop_first()[k - 1] == s[k]);
            }
        }
        if find_char(s, c) < s.len() {
            assert(s.drop_first()[find_char(s, c) - 1] == s[find_char(s, c) as int]);
        }
    }
}

pub proof fn lemma_find_char_exact(s: Seq<char>, c: char, n: nat)
    requires
        n <= s.len(),
        forall|k: int| 0 <= k < n ==> s[k] != c,
        n < s.len() ==> s[n as int] == c,
    ensures
        find_char(s, c) == n,
    decreases s.len(),
{
    if n > 0 {
        assert(s[0] != c);
        assert forall|k: int| 0 <= k < n - 1 implies s.drop_first()[k] != c by {
            assert(s[k + 1] == s.drop_first()[k]);
        }
        if n - 1 < s.drop_first().len() {
            assert(s.drop_first()[n - 1] == s[n as int]);
        }
        lemma_find_char_exact(s.drop_first(), c, (n - 1) as nat);
    }
}

/// Exec [`find_char`].
pub fn find_char_exec(s: &[char], c: char) -> (r: usize)
    ensures
        r == find_char(s@, c),
{
    let mut i: usize = 0;
    while i < s.len() && s[i] != c
        invariant
            i <= s.len(),
            forall|k: int| 0 <= k < i ==> s@[k] != c,
        decreases s.len() - i,
    {
        i += 1;
    }
    proof {
        lemma_find_char_exact(s@, c, i as nat);
    }
    i
}

/// The models of a sequence of strings.
pub open spec fn strings_view(v: Seq<String>) -> Seq<Seq<char>> {
    v.map_values(|s: String| s@)
}

/// `[..].join(sep)`: the parts with `sep` between consecutive ones.
pub open spec fn join_with(parts: Seq<Seq<char>>, sep: Seq<char>) -> Seq<char>
    decreases parts.len(),
{
    if parts.len() == 0 {
        Seq::empty()
    } else if parts.len() == 1 {
        parts[0]
    } else {
        join_with(parts.drop_last(), sep) + sep + parts.last()
    }
}

/// Exec [`join_with`].
pub fn join_strings(parts: &Vec<String>, sep: &str) -> (out: String)
    ensures
        out@ == join_with(strings_view(parts@), sep@),
{
    let ghost v = strings_view(parts@);
    let mut out = String::new();
    let mut i: usize = 0;
    while i < parts.len()
        invariant
            i <= parts.len(),
            v == strings_view(parts@),
            out@ == join_with(v.take(i as int), sep@),
        decreases parts.len() - i,
    {
        assert(v.take(i + 1).drop_last() =~= v.take(i as int));
        assert(v.take(i + 1).last() == parts@[i as int]@);
        if i > 0 {
            push_str(&mut out, sep);
        }
        push_str(&mut out, parts[i].as_str());
        assert(i == 0 ==> out@ =~= join_with(v.take(i + 1), sep@));
        assert(out@ =~= join_with(v.take(i + 1), sep@));
        i += 1;
    }
    assert(v.take(parts.len() as int) =~= v);
    out
}

/// Whether text is empty or all whitespace (`str::trim().is_empty()`).
pub open spec fn blank(s: Seq<char>) -> bool {
    forall|i: int| 0 <= i < s.len() ==> is_ws(#[trigger] s[i])
}

/// Exec [`blank`].
pub fn is_blank(s: &str) -> (r: bool)
    ensures
        r == blank(s@),
{
    let cs = chars_of(s);
    let mut i: usize = 0;
    while i < cs.len()
        invariant
            i <= cs.len(),
            cs@ == s@,
            forall|k: int| 0 <= k < i ==> is_ws(#[trigger] cs@[k]),
        decreases cs.len() - i,
    {
        if !is_whitespace(cs[i]) {
            return false;
        }
        i += 1;
    }
    true
}

/// Text with the characters `a..b` removed.
pub open spec fn remove_range(s: Seq<char>, a: int, b: int) -> Seq<char> {
    s.take(a) + s.skip(b)
}

/// Text with `c` inserted before index `i`.
pub open spec fn insert_at(s: Seq<char>, i: int, c: char) -> Seq<char> {
    s.take(i).push(c) + s.skip(i)
}

/// Exec [`remove_range`] on a string.
pub fn string_remove_range(s: &String, a: usize, b: usize) -> (out: String)
    requires
        a <= b <= s@.len(),
    ensures
        out@ == remove_range(s@, a as int, b as int),
{
    let cs = chars_of(s.as_str());
    let mut out = String::new();
    let mut i: usize = 0;
    while i < a
        invariant
            i <= a <= b <= cs.len(),
            cs@ == s@,
            out@ == cs@.take(i as int),
        decreases a - i,
    {
        out.push(cs[i]);
        assert(cs@.take(i + 1) =~= cs@.take(i as int).push(cs@[i as int]));
        i += 1;
    }
    let mut j: usize = b;
    while j < cs.len()
        invariant
            a <= b <= j <= cs.len(),
            cs@ == s@,
            out@ == cs@.take(a as int) + cs@.subrange(b as int, j as int),
        decreases cs.len() - j,
    {
        out.push(cs[j]);
        assert(cs@.subrange(b as int, j + 1) =~= cs@.subrange(b as int, j as int).push(cs@[j as int]));
        j += 1;
    }
    assert(out@ =~= remove_range(s@, a as int, b as int));
    out
}

/// Exec [`insert_at`] on a string.
pub fn string_insert_at(s: &String, i: usize, c: char) -> (out: String)
    requires
        i <= s@.len(),
    ensures
        out@ == insert_at(s@, i as int, c),
{
    let cs = chars_of(s.as_str());
    let mut out = String::new();
    let mut k: usize = 0;
    while k < i
        invariant
            k <= i <= cs.len(),
            cs@ == s@,
            out@ == cs@.take(k as int),
        decreases i - k,
    {
        out.push(cs[k]);
        assert(cs@.take(k + 1) =~= cs@.take(k as int).push(cs@[k as int]));
        k += 1;
    }
    out.push(c);
    let mut j: usize = i;
    while j < cs.len()
        invariant
            i <= j <= cs.len(),
            cs@ == s@,
            out@ == cs@.take(i as int).push(c) + cs@.subrange(i as int, j as int),
        decreases cs.len() - j,
    {
        out.push(cs[j]);
        assert(cs@.subrange(i as int, j + 1) =~= cs@.subrange(i as int, j as int).push(cs@[j as int]));
        j += 1;
    }
    assert(out@ =~= insert_at(s@, i as int, c));
    out
}

/// The number of characters of a string.
pub fn char_count(s: &str) -> (n: usize)
    ensures
        n == s@.len(),
{
    let cs = chars_of(s);
    cs.len()
}

/// Index of the first occurrence of `needle` in `hay` at or after `i`, or `hay.len()`.
pub open spec fn find_seq_from(hay: Seq<char>, needle: Seq<char>, i: int) -> int
    decreases hay.len() - i,
{
    if i < 0 || i >= hay.len() || i + needle.len() > hay.len() {
        hay.len() as int
    } else if occurs_at(hay, needle, i) {
        i
    } else {
        find_seq_from(hay, needle, i + 1)
    }
}

/// Exec [`find_seq_from`] from the start.
pub fn find_seq_exec(hay: &[char], needle: &[char]) -> (r: usize)
    ensures
        r as int == find_seq_from(hay@, needle@, 0),
        r <= hay@.len(),
{
    let mut i: usize = 0;
    while i < hay.len() && needle.len() <= hay.len() - i
        invariant
            i <= hay.len(),
            find_seq_from(hay@, needle@, i as int) == find_seq_from(hay@, needle@, 0),
        decreases hay.len() - i,
    {
        if occurs_at_exec(hay, needle, i) {
            return i;
        }
        i += 1;
    }
    hay.len()
}


/// The decimal digits of a number are ASCII digits that read back as the number.
pub proof fn lemma_nat_digits_read_back(n: nat)
    ensures
        nat_digits(n).len() > 0,
        all_digits(nat_digits(n)),
        digits_value(nat_digits(n)) == n,
    decreases n,
{
    if n < 10 {
        let d = digit_char(n);
        assert((d as u32) == n + 48);
        assert(nat_digits(n).drop_last() =~= Seq::<char>::empty());
        assert(nat_digits(n).last() == d);
        assert(digits_value(nat_digits(n).drop_last()) == 0);
        assert(digits_value(nat_digits(n)) == 0 * 10 + ((d as u32) - 48) as nat);
    } else {
        lemma_nat_digits_read_back(n / 10);
        let p = nat_digits(n / 10);
        let d = digit_char(n % 10);
        let s = nat_digits(n);
        assert(s.drop_last() =~= p);
        assert(s.last() == d);
        assert((d as u32) == n % 10 + 48);
        assert forall|k: int| 0 <= k < s.len() implies is_digit(#[trigger] s[k]) by {
            if k < p.len() {
                assert(s[k] == p[k]);
            }
        }
        assert(digits_value(s) == digits_value(p) * 10 + ((d as u32) - 48) as nat);
        assert(n == (n / 10) * 10 + n % 10) by (nonlinear_arith);
    }
}

} // verus!
