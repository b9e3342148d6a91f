//! Settings of the web build, read from the page URL's query string
//! (`?server=URL&bench=1&term=TEXT`).
use vstd::prelude::*;
use crate::text::{find_from, find_from_exec, lemma_find_from, replace_all, replace_all_exec, slice_chars, string_of, chars_of};

verus! {

/// `s` without the characters `c` at its start (`str::trim_start_matches` with a char).
pub open spec fn strip_leading(s: Seq<char>, c: char) -> Seq<char>
    decreases s.len(),
{
    if s.len() > 0 && s[0] == c {
        strip_leading(s.skip(1), c)
    } else {
        s
    }
}

/// The key of a `key=value` pair: the text before the first `=`, or all of
/// it when there is none.
pub open spec fn pair_key(pair: Seq<char>) -> Seq<char> {
    match find_from(pair, seq!['='], 0) {
        Some(i) => pair.take(i as int),
        None => pair,
    }
}

/// The value of a `key=value` pair: the text after the first `=`, or
/// nothing when there is none.
pub open spec fn pair_value(pair: Seq<char>) -> Seq<char> {
    match find_from(pair, seq!['='], 0) {
        Some(i) => pair.skip(i + 1int),
        None => Seq::empty(),
    }
}

/// The value of the first `&`-separated pair of `s` whose key is `name`.
pub open spec fn param_in(s: Seq<char>, name: Seq<char>) -> Option<Seq<char>>
    decreases s.len(),
{
    let end = match find_from(s, seq!['&'], 0) {
        Some(i) => i as int,
        None => s.len() as int,
    };
    let pair = s.take(end);
    if pair_key(pair) == name {
        Some(pair_value(pair))
    } else if end >= s.len() {
        None
    } else {
        proof {
            lemma_find_from(s, seq!['&'], 0);
        }
        param_in(s.skip(end + 1), name)
    }
}

/// The raw value of parameter `name` in the query string `search`
/// (leading `?`s dropped).
pub open spec fn query_param_in(search: Seq<char>, name: Seq<char>) -> Option<Seq<char>> {
    param_in(strip_leading(search, '?'), name)
}

/// A parameter's value as the page gave it, and with `+` read as a space
/// (what is then percent-decoded).
pub struct ParamValue {
    pub raw: String,
    pub spaced: String,
}

/// The key and value of a `key=value` pair.
fn split_pair(pair: &[char]) -> (r: (Vec<char>, Vec<char>))
    ensures
        r.0@ == pair_key(pair@),
        r.1@ == pair_value(pair@),
{
    let eq: Vec<char> = vec!['='];
    assert(eq@ == seq!['=']);
    match find_from_exec(pair, eq.as_slice(), 0) {
        Some(i) => {
            proof {
                lemma_find_from(pair@, seq!['='], 0);
            }
            assert(i + 1 <= pair.len());
            assert(pair@.take(i as int) =~= pair@.subrange(0, i as int));
            assert(pair@.skip(i + 1) =~= pair@.subrange(i + 1, pair@.len() as int));
            (slice_chars(pair, 0, i), slice_chars(pair, i + 1, pair.len()))
        },
        None => {
            assert(pair@.subrange(0, pair@.len() as int) =~= pair@);
            (slice_chars(pair, 0, pair.len()), Vec::new())
        },
    }
}

/// The value of parameter `name` in the query string `search`, if present.
pub fn query_param_value(search: &str, name: &str) -> (r: Option<ParamValue>)
    ensures
        match query_param_in(search@, name@) {
            Some(v) => r matches Some(p) && p.raw@ == v && p.spaced@ == replace_all(
                v,
                seq!['+'],
                seq![' '],
            ),
            None => r is None,
        },
{
    let s = chars_of(search);
    let key = chars_of(name);
    let mut lo: usize = 0;
    assert(s@.skip(0) =~= s@);
    while lo < s.len() && s[lo] == '?'
        invariant
            lo <= s@.len(),
            strip_leading(s@.skip(lo as int), '?') == strip_leading(s@, '?'),
        decreases s@.len() - lo,
    {
        assert(s@.skip(lo as int).skip(1) =~= s@.skip(lo + 1));
        lo = lo + 1;
    }
    let amp: Vec<char> = vec!['&'];
    assert(amp@ == seq!['&']);
    let mut pos: usize = lo;
    loop
        invariant
            lo <= pos <= s@.len(),
            amp@ == seq!['&'],
            key@ == name@,
            param_in(s@.skip(pos as int), name@) == query_param_in(search@, name@),
        decreases s@.len() - pos,
    {
        let ghost t = s@.skip(pos as int);
        proof {
            crate::text::lemma_find_from_shift(s@, seq!['&'], pos as nat, 0);
            assert(pos + 0 == pos);
            lemma_find_from(t, seq!['&'], 0);
        }
        let found = find_from_exec(s.as_slice(), amp.as_slice(), pos);
        let end = match found {
            Some(e) => e,
            None => s.len(),
        };
        let pair = slice_chars(s.as_slice(), pos, end);
        assert(pair@ =~= t.take(end - pos));
        let (k, v) = split_pair(pair.as_slice());
        if crate::server::torznab::same_chars(k.as_slice(), key.as_slice()) {
            let plus: Vec<char> = vec!['+'];
            let space: Vec<char> = vec![' '];
            assert(plus@ == seq!['+']);
            assert(space@ == seq![' ']);
            let spaced = replace_all_exec(v.as_slice(), plus.as_slice(), space.as_slice());
            return Some(ParamValue { raw: string_of(v.as_slice()), spaced: string_of(spaced.as_slice()) });
        }
        if end >= s.len() {
            return None;
        }
        assert(t.skip(end - pos + 1) =~= s@.skip(end + 1));
        pos = end + 1;
    }
}

/// A flag parameter is on: present and not `0`.
pub fn param_flag(value: Option<&str>) -> (r: bool)
    ensures
        r == (match value {
            Some(v) => v@ != seq!['0'],
            None => false,
        }),
{
    match value {
        Some(v) => {
            let cs = chars_of(v);
            proof {
                if cs@.len() == 1 && cs@[0] == '0' {
                    assert(cs@ =~= seq!['0']);
                }
                if cs@ == seq!['0'] {
                    assert(cs@[0] == '0');
                }
            }
            !(cs.len() == 1 && cs[0] == '0')
        },
        None => false,
    }
}

} // verus!
