//! The server's settings, built from the values of its environment variables.
use vstd::prelude::*;
use crate::text::chars_of;

verus! {

/// The server's settings.
pub struct Config {
    pub port: u16,
    /// Torznab results URL, for example Lodestarr's
    /// `/api/v2.0/indexers/all/results/torznab`.
    pub jackett_url: String,
    pub jackett_apikey: String,
    /// rqbit HTTP API, for example `http://127.0.0.1:9030`.
    pub rqbit_url: String,
}

/// The port listened on when `ANORAK_PORT` is unset or not a port number.
pub const DEFAULT_PORT: u16 = 9341;

/// The rqbit API used when `RQBIT_URL` is unset.
pub open spec fn default_rqbit_url() -> Seq<char> {
    seq!['h', 't', 't', 'p', ':', '/', '/', '1', '2', '7', '.', '0', '.', '0', '.', '1', ':', '9', '0', '3', '0']
}

/// `c` is an ASCII decimal digit.
pub open spec fn is_digit(c: char) -> bool {
    '0' <= c <= '9'
}

/// `s` is made of ASCII decimal digits only.
pub open spec fn all_digits(s: Seq<char>) -> bool {
    forall|i: int| 0 <= i < s.len() ==> is_digit(#[trigger] s[i])
}

/// The value of the decimal digits `s`.
pub open spec fn decimal_value(s: Seq<char>) -> int
    decreases s.len(),
{
    if s.len() == 0 {
        0
    } else {
        decimal_value(s.drop_last()) * 10 + ((s.last() as u32) - ('0' as u32))
    }
}

/// What `str::parse::<u16>` gives for `s`: an optional `+`, then one or more
/// decimal digits whose value fits in 16 bits; `None` for anything else.
pub open spec fn parsed_u16(s: Seq<char>) -> Option<u16> {
    let d = if s.len() > 0 && s[0] == '+' {
        s.skip(1)
    } else {
        s
    };
    if d.len() > 0 && all_digits(d) && decimal_value(d) <= 65535 {
        Some(decimal_value(d) as u16)
    } else {
        None
    }
}

/// The port for the value of `ANORAK_PORT`: its parsed value, or the default.
pub open spec fn port_for(var: Option<Seq<char>>) -> u16 {
    match var {
        Some(s) => match parsed_u16(s) {
            Some(p) => p,
            None => DEFAULT_PORT,
        },
        None => DEFAULT_PORT,
    }
}

/// `str::parse::<u16>`: the value of `s` as a 16-bit unsigned decimal.
pub fn parse_u16(s: &str) -> (r: Option<u16>)
    ensures
        r == parsed_u16(s@),
{
    let cs = chars_of(s);
    let mut i: usize = 0;
    if cs.len() > 0 && cs[0] == '+' {
        i = 1;
    }
    let ghost d = if s@.len() > 0 && s@[0] == '+' {
        s@.skip(1)
    } else {
        s@
    };
    assert(d =~= cs@.skip(i as int));
    if i >= cs.len() {
        return None;
    }
    let start = i;
    let mut value: u32 = 0;
    while i < cs.len()
        invariant
            start <= i <= cs@.len(),
            start < cs@.len(),
            d =~= cs@.skip(start as int),
            cs@ == s@,
            d == (if s@.len() > 0 && s@[0] == '+' {
                s@.skip(1)
            } else {
                s@
            }),
            value <= 65535,
            forall|k: int| start <= k < i ==> is_digit(#[trigger] cs@[k]),
            value == decimal_value(cs@.subrange(start as int, i as int)),
        decreases cs@.len() - i,
    {
        let c = cs[i];
        if !('0' <= c && c <= '9') {
            assert(!is_digit(d[i - start]));
            assert(!all_digits(d));
            assert(parsed_u16(s@) is None);
            return None;
        }
        let digit: u32 = (c as u32) - ('0' as u32);
        assert(cs@.subrange(start as int, i + 1).drop_last() =~= cs@.subrange(start as int, i as int));
        let next: u32 = value * 10 + digit;
        if next > 65535 {
            proof {
                assert(d.take((i + 1 - start) as int) =~= cs@.subrange(start as int, i + 1));
                if all_digits(d) {
                    lemma_decimal_value_prefix(d, (i + 1 - start) as int);
                }
                assert(parsed_u16(s@) is None);
            }
            return None;
        }
        value = next;
        i = i + 1;
    }
    assert(cs@.subrange(start as int, cs@.len() as int) =~= d);
    Some(value as u16)
}

/// The value of a text of decimal digits is at least that of any prefix of it.
pub proof fn lemma_decimal_value_prefix(s: Seq<char>, n: int)
    requires
        0 <= n <= s.len(),
        forall|i: int| 0 <= i < s.len() ==> is_digit(#[trigger] s[i]),
    ensures
        decimal_value(s.take(n)) <= decimal_value(s),
        0 <= decimal_value(s.take(n)),
    decreases s.len(),
{
    if n == s.len() {
        assert(s.take(n) =~= s);
        lemma_decimal_value_nonneg(s);
    } else {
        lemma_decimal_value_prefix(s.drop_last(), n);
        assert(s.drop_last().take(n) =~= s.take(n));
        lemma_decimal_value_nonneg(s.drop_last());
    }
}

/// The value of a text of decimal digits is not negative.
pub proof fn lemma_decimal_value_nonneg(s: Seq<char>)
    requires
        forall|i: int| 0 <= i < s.len() ==> is_digit(#[trigger] s[i]),
    ensures
        0 <= decimal_value(s),
    decreases s.len(),
{
    if s.len() > 0 {
        lemma_decimal_value_nonneg(s.drop_last());
    }
}

impl Config {
    /// The settings for the values of `ANORAK_PORT`, `JACKETT_URL`,
    /// `JACKETT_APIKEY` and `RQBIT_URL` (the two in the middle are required).
    pub fn from_vars(
        port_var: Option<&str>,
        jackett_url: String,
        jackett_apikey: String,
        rqbit_var: Option<String>,
    ) -> (r: Config)
        ensures
            r.port == port_for(
                match port_var {
                    Some(s) => Some(s@),
                    None => None,
                },
            ),
            r.jackett_url == jackett_url,
            r.jackett_apikey == jackett_apikey,
            r.rqbit_url@ == (match rqbit_var {
                Some(u) => u@,
                None => default_rqbit_url(),
            }),
    {
        let port = match port_var {
            Some(s) => match parse_u16(s) {
                Some(p) => p,
                None => DEFAULT_PORT,
            },
            None => DEFAULT_PORT,
        };
        let rqbit_url = match rqbit_var {
            Some(u) => u,
            None => {
                let cs: Vec<char> = vec![
                    'h', 't', 't', 'p', ':', '/', '/', '1', '2', '7', '.', '0', '.', '0', '.', '1',
                    ':', '9', '0', '3', '0',
                ];
                assert(cs@ == default_rqbit_url());
                crate::text::string_of(cs.as_slice())
            },
        };
        Config { port, jackett_url, jackett_apikey, rqbit_url }
    }
}

} // verus!
