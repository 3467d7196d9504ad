//! The server's settings: port, database path and embedding service URL,
//! each with its default.
use vstd::prelude::*;
use vstd::string::{StrSliceExecFns, StringExecFns};

verus! {

/// The settings of the server.
#[derive(Debug, Clone, PartialEq)]
pub struct AppConfig {
    pub port: u16,
    pub db_path: String,
    pub embed_service_url: String,
}

pub open spec fn is_digit(c: char) -> bool {
    '0' <= c <= '9'
}

/// The value of a string of decimal digits.
pub open spec fn digits_value(s: Seq<char>) -> int
    decreases s.len(),
{
    if s.len() == 0 {
        0
    } else {
        digits_value(s.drop_last()) * 10 + (s.last() as int - '0' as int)
    }
}

/// The digits of a number text: after a leading `+`, if any.
pub open spec fn unsigned_digits(s: Seq<char>) -> Seq<char> {
    if s.len() > 0 && s[0] == '+' {
        s.drop_first()
    } else {
        s
    }
}

/// What `u16::from_str` reads from `s`: an optional `+`, then one or more
/// decimal digits whose value is at most 65535.
pub open spec fn parse_u16(s: Seq<char>) -> Option<u16> {
    let d = unsigned_digits(s);
    if d.len() > 0 && (forall|i: int| 0 <= i < d.len() ==> is_digit(#[trigger] d[i]))
        && digits_value(d) <= 65535 {
        Some(digits_value(d) as u16)
    } else {
        None
    }
}

/// A longer string of digits has at least the value of its prefix.
proof fn lemma_digits_value_grows(s: Seq<char>, i: int)
    requires
        0 <= i <= s.len(),
        forall|k: int| 0 <= k < s.len() ==> is_digit(#[trigger] s[k]),
    ensures
        digits_value(s) >= digits_value(s.take(i)),
        digits_value(s.take(i)) >= 0,
    decreases s.len() - i,
{
    if i < s.len() {
        lemma_digits_value_grows(s, i + 1);
        assert(s.take(i + 1).drop_last() =~= s.take(i));
    } else {
        assert(s.take(i) =~= s);
        lemma_digits_value_nonneg(s);
    }
}

proof fn lemma_digits_value_nonneg(s: Seq<char>)
    requires
        forall|k: int| 0 <= k < s.len() ==> is_digit(#[trigger] s[k]),
    ensures
        digits_value(s) >= 0,
    decreases s.len(),
{
    if s.len() > 0 {
        lemma_digits_value_nonneg(s.drop_last());
    }
}

/// The port number in `s`, as `u16::from_str` reads it (see `parse_u16`).
pub fn parse_port(s: &str) -> (res: Option<u16>)
    ensures
        res == parse_u16(s@),
{
    let n = s.unicode_len();
    let mut start: usize = 0;
    if n > 0 && s.get_char(0) == '+' {
        start = 1;
    }
    let ghost d = unsigned_digits(s@);
    assert(d =~= s@.skip(start as int));
    if start == n {
        return None;
    }
    let mut v: u32 = 0;
    let mut i: usize = start;
    while i < n
        invariant
            start <= i <= n,
            n == s@.len(),
            d == s@.skip(start as int),
            d == unsigned_digits(s@),
            d.len() > 0,
            forall|k: int| 0 <= k < i - start ==> is_digit(#[trigger] d[k]),
            v == digits_value(d.take(i - start)),
            v <= 65535,
        decreases n - i,
    {
        let c = s.get_char(i);
        assert(c == d[i - start]);
        if !('0' <= c && c <= '9') {
            assert(!is_digit(d[i - start]));
            return None;
        }
        assert(d.take(i - start + 1).drop_last() =~= d.take(i - start));
        let next = v * 10 + (c as u32 - '0' as u32);
        if next > 65535 {
            proof {
                assert(digits_value(d.take(i - start + 1)) == next);
                if forall|k: int| 0 <= k < d.len() ==> is_digit(#[trigger] d[k]) {
                    lemma_digits_value_grows(d, i - start + 1);
                }
            }
            return None;
        }
        v = next;
        i += 1;
    }
    assert(d.take(n - start) =~= d);
    Some(v as u16)
}

/// The port that a missing or unreadable setting gives.
pub const DEFAULT_PORT: u16 = 3000;

impl AppConfig {
    /// The settings from the values of `SPINE_PORT`, `SPINE_DB_PATH` and
    /// `SPINE_EMBED_URL` (`None` when a variable is not set): the port when
    /// it reads as a port number, else 3000; the database path, else
    /// `spine.db`; the embedding service URL, else `http://localhost:8100`.
    pub fn from_settings(
        port: Option<String>,
        db_path: Option<String>,
        embed_service_url: Option<String>,
    ) -> (res: Self)
        ensures
            res.port == match port {
                Some(p) => match parse_u16(p@) {
                    Some(n) => n,
                    None => DEFAULT_PORT,
                },
                None => DEFAULT_PORT,
            },
            res.db_path@ == match db_path {
                Some(p) => p@,
                None => "spine.db"@,
            },
            res.embed_service_url@ == match embed_service_url {
                Some(u) => u@,
                None => "http://localhost:8100"@,
            },
    {
        let port = match port {
            Some(p) => match parse_port(p.as_str()) {
                Some(n) => n,
                None => DEFAULT_PORT,
            },
            None => DEFAULT_PORT,
        };
        let db_path = match db_path {
            Some(p) => p,
            None => String::from_str("spine.db"),
        };
        let embed_service_url = match embed_service_url {
            Some(u) => u,
            None => String::from_str("http://localhost:8100"),
        };
        AppConfig { port, db_path, embed_service_url }
    }
}

} // verus!
