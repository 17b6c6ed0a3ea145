//! MySQL / MariaDB server version parsing and catalog capability flags.
use vstd::prelude::*;
use crate::text::{
    chars_of, contains_chars, contains_seq, find_char, find_char_exec, find_seq_exec, find_seq_from,
    is_digit, lemma_find_char, lower_chars, lower_seq, owned, parse_u32, parse_u32_exec, slice_vec,
    occurs_at,
};

verus! {

/// The server family.
#[derive(Clone, Copy, Debug, Eq, PartialEq, Structural)]
pub enum MySqlFamily {
    OracleMySql,
    MariaDb,
}

/// A parsed server version.
#[derive(Clone, Debug)]
pub struct MySqlServerInfo {
    pub family: MySqlFamily,
    pub major: u32,
    pub minor: u32,
    pub patch: u32,
    pub raw: String,
}

/// The text before the first `c` and, when there is one, the text after it.
pub open spec fn split_once_char(s: Seq<char>, c: char) -> (Seq<char>, Option<Seq<char>>) {
    let i = find_char(s, c);
    if i >= s.len() {
        (s, None)
    } else {
        (s.take(i as int), Some(s.skip(i as int + 1)))
    }
}

/// The leading ASCII digits of a text.
pub open spec fn leading_digits(s: Seq<char>) -> Seq<char>
    decreases s.len(),
{
    if s.len() == 0 || !is_digit(s[0]) {
        Seq::empty()
    } else {
        seq![s[0]] + leading_digits(s.drop_first())
    }
}

/// `major.minor.patch…`: the first two dot-separated parts read as `u32`, the third part's
/// leading digits as the patch number.
pub open spec fn version_triplet(s: Seq<char>) -> Option<(u32, u32, u32)> {
    let (p1, rest1) = split_once_char(s, '.');
    match rest1 {
        None => None,
        Some(r1) => {
            let (p2, rest2) = split_once_char(r1, '.');
            match rest2 {
                None => None,
                Some(r2) => {
                    let p3 = split_once_char(r2, '.').0;
                    match (parse_u32(p1), parse_u32(p2), parse_u32(leading_digits(p3))) {
                        (Some(a), Some(b), Some(c)) => Some((a, b, c)),
                        _ => None,
                    }
                },
            }
        },
    }
}

/// Whether the (lower-cased) version names MariaDB.
pub open spec fn is_mariadb(version: Seq<char>) -> bool {
    contains_seq(lower_seq(version), "mariadb"@)
}

/// The numeric part of a MariaDB version: lower-cased, without a leading `5.5.5-` and cut
/// before `-mariadb`.
pub open spec fn mariadb_numeric(version: Seq<char>) -> Seq<char> {
    let lower = lower_seq(version);
    let body = if lower.len() >= 6 && lower.take(6) == "5.5.5-"@ {
        lower.skip(6)
    } else {
        lower
    };
    body.take(find_seq_from(body, "-mariadb"@, 0))
}

/// What `MySqlServerInfo::parse` reads from a version string.
pub open spec fn server_version(version: Seq<char>) -> Option<(MySqlFamily, (u32, u32, u32))> {
    if is_mariadb(version) {
        match version_triplet(mariadb_numeric(version)) {
            Some(t) => Some((MySqlFamily::MariaDb, t)),
            None => None,
        }
    } else {
        match version_triplet(version) {
            Some(t) => Some((MySqlFamily::OracleMySql, t)),
            None => None,
        }
    }
}

/// Lexicographic `>=` on version triplets.
pub open spec fn at_least(v: (u32, u32, u32), floor: (u32, u32, u32)) -> bool {
    v.0 > floor.0 || (v.0 == floor.0 && (v.1 > floor.1 || (v.1 == floor.1 && v.2 >= floor.2)))
}

/// The catalog needs MySQL 5.6.0 or MariaDB 10.1.0 at least.
pub open spec fn catalog_supported(family: MySqlFamily, v: (u32, u32, u32)) -> bool {
    match family {
        MySqlFamily::OracleMySql => at_least(v, (5, 6, 0)),
        MySqlFamily::MariaDb => at_least(v, (10, 1, 0)),
    }
}

fn split_at_char(s: &Vec<char>, c: char) -> (r: (Vec<char>, Option<Vec<char>>))
    ensures
        r.0@ == split_once_char(s@, c).0,
        match (r.1, split_once_char(s@, c).1) {
            (Some(a), Some(b)) => a@ == b,
            (None, None) => true,
            _ => false,
        },
{
    let i = find_char_exec(s, c);
    proof {
        lemma_find_char(s@, c);
    }
    if i >= s.len() {
        let head = slice_vec(s, 0, s.len());
        assert(head@ =~= s@);
        (head, None)
    } else {
        let head = slice_vec(s, 0, i);
        let tail = slice_vec(s, i + 1, s.len());
        assert(head@ =~= s@.take(i as int));
        assert(tail@ =~= s@.skip(i as int + 1));
        (head, Some(tail))
    }
}

fn leading_digits_exec(s: &Vec<char>) -> (r: Vec<char>)
    ensures
        r@ == leading_digits(s@),
{
    let mut i: usize = 0;
    while i < s.len() && '0' <= s[i] && s[i] <= '9'
        invariant
            i <= s@.len(),
            forall|k: int| 0 <= k < i ==> is_digit(#[trigger] s@[k]),
        decreases s.len() - i,
    {
        i += 1;
    }
    proof {
        lemma_leading_digits(s@, i as int);
    }
    slice_vec(s, 0, i)
}

proof fn lemma_leading_digits(s: Seq<char>, n: int)
    requires
        0 <= n <= s.len(),
        forall|k: int| 0 <= k < n ==> is_digit(#[trigger] s[k]),
        n < s.len() ==> !is_digit(s[n]),
    ensures
        leading_digits(s) == s.subrange(0, n),
    decreases s.len(),
{
    if n > 0 {
        assert forall|k: int| 0 <= k < n - 1 implies is_digit(#[trigger] s.drop_first()[k]) by {
            assert(s.drop_first()[k] == s[k + 1]);
        }
        if n - 1 < s.drop_first().len() {
            assert(s.drop_first()[n - 1] == s[n]);
        }
        lemma_leading_digits(s.drop_first(), n - 1);
    }
    assert(leading_digits(s) =~= s.subrange(0, n));
}

/// Reads `major.minor.patch` (see [`version_triplet`]).
pub fn parse_version_triplet(version: &str) -> (r: Option<(u32, u32, u32)>)
    ensures
        r == version_triplet(version@),
{
    let s = chars_of(version);
    let (p1, rest1) = split_at_char(&s, '.');
    let r1 = match rest1 {
        Some(r) => r,
        None => {
            return None;
        },
    };
    let (p2, rest2) = split_at_char(&r1, '.');
    let r2 = match rest2 {
        Some(r) => r,
        None => {
            return None;
        },
    };
    let (p3, _) = split_at_char(&r2, '.');
    let digits = leading_digits_exec(&p3);
    let major = parse_u32_exec(&p1);
    let minor = parse_u32_exec(&p2);
    let patch = parse_u32_exec(&digits);
    match (major, minor, patch) {
        (Some(a), Some(b), Some(c)) => Some((a, b, c)),
        _ => None,
    }
}

impl MySqlServerInfo {
    /// Parses a server version string (see [`server_version`]); `raw` keeps the string.
    pub fn parse(version: &str) -> (r: Option<MySqlServerInfo>)
        ensures
            match server_version(version@) {
                Some((family, t)) => r matches Some(info) && info.family == family
                    && (info.major, info.minor, info.patch) == t && info.raw@ == version@,
                None => r is None,
            },
    {
        let raw = owned(version);
        let lower = lower_chars(&chars_of(version));
        let needle = chars_of("mariadb");
        let mariadb = contains_chars(&lower, &needle);
        let triplet = if mariadb {
            let prefix = chars_of("5.5.5-");
            let starts = lower.len() >= 6 && crate::text::occurs_at_exec(&lower, &prefix, 0);
            let body = if starts {
                slice_vec(&lower, 6, lower.len())
            } else {
                slice_vec(&lower, 0, lower.len())
            };
            proof {
                reveal_strlit("5.5.5-");
                if starts {
                    assert(lower@.subrange(0, 6) == "5.5.5-"@);
                    assert(lower@.take(6) =~= lower@.subrange(0, 6));
                } else if lower@.len() >= 6 {
                    assert(lower@.take(6) =~= lower@.subrange(0, 6));
                    assert(!occurs_at(lower@, prefix@, 0));
                }
            }
            assert(body@ =~= (if lower@.len() >= 6 && lower@.take(6) == "5.5.5-"@ {
                lower@.skip(6)
            } else {
                lower@
            }));
            let cut_at = find_seq_exec(&body, &chars_of("-mariadb"));
            let numeric = slice_vec(&body, 0, cut_at);
            assert(numeric@ =~= mariadb_numeric(version@));
            parse_version_triplet(&crate::text::string_of(&numeric))
        } else {
            parse_version_triplet(version)
        };
        match triplet {
            Some((major, minor, patch)) => Some(
                MySqlServerInfo {
                    family: if mariadb {
                        MySqlFamily::MariaDb
                    } else {
                        MySqlFamily::OracleMySql
                    },
                    major,
                    minor,
                    patch,
                    raw,
                },
            ),
            None => None,
        }
    }

    /// Whether the server is recent enough for the catalog (see [`catalog_supported`]).
    pub fn supports_catalog(&self) -> (r: bool)
        ensures
            r == catalog_supported(self.family, (self.major, self.minor, self.patch)),
    {
        let (a, b, c) = match self.family {
            MySqlFamily::OracleMySql => (5u32, 6u32, 0u32),
            MySqlFamily::MariaDb => (10u32, 1u32, 0u32),
        };
        self.major > a || (self.major == a && (self.minor > b || (self.minor == b && self.patch >= c)))
    }

    /// `(major, minor, patch)`.
    pub fn triplet(&self) -> (r: (u32, u32, u32))
        ensures
            r == (self.major, self.minor, self.patch),
    {
        (self.major, self.minor, self.patch)
    }
}


/// Catalog support is a version floor, compared part by part (major, then minor, then patch):
/// MySQL from 5.6.0 on, MariaDB from 10.1.0 on. So a version newer than a supported one of the
/// same family is supported too.
pub proof fn law_catalog_support_is_a_version_floor(family: MySqlFamily, v: (u32, u32, u32), w: (u32, u32, u32))
    ensures
        family == MySqlFamily::MariaDb ==> (catalog_supported(family, v) <==> (v.0 > 10 || (v.0 == 10
            && v.1 >= 1))),
        family == MySqlFamily::OracleMySql ==> (catalog_supported(family, v) <==> (v.0 > 5 || (v.0
            == 5 && v.1 >= 6))),
        catalog_supported(family, v) && (w.0 > v.0 || (w.0 == v.0 && (w.1 > v.1 || (w.1 == v.1
            && w.2 >= v.2)))) ==> catalog_supported(family, w),
{
}

} // verus!
