//! A search: the indexer request URL, the order results are listed in, which
//! results rqbit already has, and the rqbit torrent list.
use vstd::prelude::*;
use vstd::utf8::encode_utf8;
use crate::server::config::Config;
use crate::server::models::Item;
use crate::sort::{RankOrder, is_stable_arrangement, stable_sort};
use crate::text::{
    chars_of, contains, contains_exec, push_all, strip_trailing, strip_trailing_exec, string_of,
};

verus! {

// ---------------------------------------------------------------------------
// Percent-encoding

/// A byte that percent-encoding leaves as it is: an ASCII letter or digit,
/// `-`, `.`, `_` or `~`.
pub open spec fn is_unreserved(b: u8) -> bool {
    ||| 0x30 <= b <= 0x39
    ||| 0x41 <= b <= 0x5A
    ||| 0x61 <= b <= 0x7A
    ||| b == 0x2D
    ||| b == 0x2E
    ||| b == 0x5F
    ||| b == 0x7E
}

/// The upper-case hexadecimal digit for `d` (below 16).
pub open spec fn hex_digit_upper(d: u8) -> char {
    if d < 10 {
        (0x30 + d) as char
    } else {
        (0x41 - 10 + d) as char
    }
}

/// `bytes` percent-encoded: each unreserved byte as its character, each
/// other byte as `%` and two upper-case hexadecimal digits.
pub open spec fn percent_encoded(bytes: Seq<u8>) -> Seq<char>
    decreases bytes.len(),
{
    if bytes.len() == 0 {
        Seq::empty()
    } else {
        let b = bytes[0];
        let first = if is_unreserved(b) {
            seq![b as char]
        } else {
            seq!['%', hex_digit_upper(b / 16), hex_digit_upper(b % 16)]
        };
        first + percent_encoded(bytes.skip(1))
    }
}

/// `urlencoding::encode`: the UTF-8 bytes of `s`, percent-encoded.
#[verifier::external_body]
fn url_encode(s: &str) -> (r: String)
    ensures
        r@ == percent_encoded(encode_utf8(s@)),
{
    urlencoding::encode(s).into_owned()
}

// ---------------------------------------------------------------------------
// Request URLs

/// `/api?apikey=`
pub open spec fn apikey_part() -> Seq<char> {
    seq!['/', 'a', 'p', 'i', '?', 'a', 'p', 'i', 'k', 'e', 'y', '=']
}

/// `&t=search&q=`
pub open spec fn search_part() -> Seq<char> {
    seq!['&', 't', '=', 's', 'e', 'a', 'r', 'c', 'h', '&', 'q', '=']
}

/// `/torrents`
pub open spec fn torrents_part() -> Seq<char> {
    seq!['/', 't', 'o', 'r', 'r', 'e', 'n', 't', 's']
}

/// The indexer search URL: the Torznab results URL without trailing `/`,
/// then `/api?apikey=KEY&t=search&q=TERM` with key and term percent-encoded.
pub open spec fn query_url(jackett_url: Seq<char>, apikey: Seq<char>, term: Seq<char>) -> Seq<char> {
    strip_trailing(jackett_url, '/') + apikey_part() + percent_encoded(encode_utf8(apikey))
        + search_part() + percent_encoded(encode_utf8(term))
}

/// The indexer search URL for `search_query` (the Torznab results path with
/// `/api` appended, which is what Lodestarr accepts).
pub fn format_query_url(config: &Config, search_query: &str) -> (r: String)
    ensures
        r@ == query_url(config.jackett_url@, config.jackett_apikey@, search_query@),
{
    let base = chars_of(config.jackett_url.as_str());
    let mut out = strip_trailing_exec(base.as_slice(), '/');
    let apikey_lit: Vec<char> = vec!['/', 'a', 'p', 'i', '?', 'a', 'p', 'i', 'k', 'e', 'y', '='];
    let search_lit: Vec<char> = vec!['&', 't', '=', 's', 'e', 'a', 'r', 'c', 'h', '&', 'q', '='];
    assert(apikey_lit@ == apikey_part());
    assert(search_lit@ == search_part());
    let key = chars_of(url_encode(config.jackett_apikey.as_str()).as_str());
    let term = chars_of(url_encode(search_query).as_str());
    push_all(&mut out, apikey_lit.as_slice());
    push_all(&mut out, key.as_slice());
    push_all(&mut out, search_lit.as_slice());
    push_all(&mut out, term.as_slice());
    string_of(out.as_slice())
}

/// rqbit's torrent list URL: the rqbit API URL without trailing `/`, then `/torrents`.
pub open spec fn torrents_url_of(rqbit_url: Seq<char>) -> Seq<char> {
    strip_trailing(rqbit_url, '/') + torrents_part()
}

/// rqbit's torrent list URL (listed by GET, added to by POST).
pub fn torrents_url(rqbit_url: &str) -> (r: String)
    ensures
        r@ == torrents_url_of(rqbit_url@),
{
    let base = chars_of(rqbit_url);
    let mut out = strip_trailing_exec(base.as_slice(), '/');
    let lit: Vec<char> = vec!['/', 't', 'o', 'r', 'r', 'e', 'n', 't', 's'];
    assert(lit@ == torrents_part());
    push_all(&mut out, lit.as_slice());
    string_of(out.as_slice())
}

// ---------------------------------------------------------------------------
// Result order

/// The default order of results: most seeders first, then most peers.
pub struct SeedOrder;

/// -1, 0 or 1 as `a` is below, equal to or above `b`.
pub open spec fn int_order(a: int, b: int) -> int {
    if a < b {
        -1
    } else if a > b {
        1
    } else {
        0
    }
}

/// Rank of `x` against `y` in the default order.
pub open spec fn seed_rank(x: Item, y: Item) -> int {
    let r = int_order(y.seeders as int, x.seeders as int);
    if r != 0 {
        r
    } else {
        int_order(y.peers as int, x.peers as int)
    }
}

impl RankOrder for SeedOrder {
    type Elem = Item;

    open spec fn admits(&self, x: Item) -> bool {
        true
    }

    open spec fn rank(&self, x: Item, y: Item) -> int {
        seed_rank(x, y)
    }

    fn rank_exec(&self, x: &Item, y: &Item) -> (r: i8) {
        if x.seeders > y.seeders {
            -1
        } else if x.seeders < y.seeders {
            1
        } else if x.peers > y.peers {
            -1
        } else if x.peers < y.peers {
            1
        } else {
            0
        }
    }

    proof fn lemma_rank(&self, x: Item, y: Item, z: Item) {
    }
}

/// The results of a search: the items in the default order, and the names
/// of the torrents rqbit already has.
pub struct Gathered {
    pub items: Vec<Item>,
    pub known: Vec<String>,
}

impl Gathered {
    /// `items` stably sorted by the default order (most seeders first, then
    /// most peers; ties keep the indexer's order), with the known names.
    pub fn new(items: Vec<Item>, known: Vec<String>) -> (r: Gathered)
        ensures
            r.known == known,
            exists|perm: Seq<int>| is_stable_arrangement(&SeedOrder, items@, r.items@, perm),
    {
        let (sorted, Ghost(perm)) = stable_sort(&SeedOrder, items);
        let r = Gathered { items: sorted, known };
        assert(is_stable_arrangement(&SeedOrder, items@, r.items@, perm));
        r
    }

    /// rqbit already has a torrent whose name contains the title of `item`.
    pub open spec fn spec_is_known(&self, item: &Item) -> bool {
        exists|k: int| 0 <= k < self.known@.len() && contains(#[trigger] self.known@[k]@, item.title@)
    }

    /// rqbit already has a torrent whose name contains the title of `item`.
    pub fn is_known(&self, item: &Item) -> (r: bool)
        ensures
            r == self.spec_is_known(item),
    {
        let title = chars_of(item.title.as_str());
        let mut k: usize = 0;
        while k < self.known.len()
            invariant
                k <= self.known@.len(),
                title@ == item.title@,
                forall|j: int| 0 <= j < k ==> !contains(#[trigger] self.known@[j]@, item.title@),
            decreases self.known@.len() - k,
        {
            let name = chars_of(self.known[k].as_str());
            if contains_exec(name.as_slice(), title.as_slice()) {
                return true;
            }
            k = k + 1;
        }
        false
    }
}

/// Law: a result is known exactly when the name of some torrent rqbit has,
/// at any position of the list, holds the result's title as a run of
/// consecutive characters.
pub proof fn lemma_is_known_any(g: &Gathered, item: &Item)
    ensures
        forall|k: int, i: int|
            0 <= k < g.known@.len() && 0 <= i && i + item.title@.len() <= g.known@[k]@.len() && #[trigger] g.known@[k]@.subrange(
                i,
                i + item.title@.len(),
            ) == item.title@ ==> g.spec_is_known(item),
        g.spec_is_known(item) ==> exists|k: int, i: int|
            0 <= k < g.known@.len() && 0 <= i && i + item.title@.len() <= g.known@[k]@.len() && #[trigger] g.known@[k]@.subrange(
                i,
                i + item.title@.len(),
            ) == item.title@,
{
    assert forall|k: int, i: int|
        0 <= k < g.known@.len() && 0 <= i && i + item.title@.len() <= g.known@[k]@.len() && #[trigger] g.known@[k]@.subrange(
            i,
            i + item.title@.len(),
        ) == item.title@ implies g.spec_is_known(item) by {
        assert(crate::text::occurs_at(g.known@[k]@, item.title@, i));
    }
    if g.spec_is_known(item) {
        let k = choose|k: int| 0 <= k < g.known@.len() && contains(#[trigger] g.known@[k]@, item.title@);
        let i = choose|i: int| crate::text::occurs_at(g.known@[k]@, item.title@, i);
        assert(g.known@[k]@.subrange(i, i + item.title@.len()) == item.title@);
    }
}

/// Law: in the default order, results with more seeders come first, and
/// among equally seeded results those with more peers; every result appears
/// exactly once.
pub proof fn lemma_default_order(items: Seq<Item>, out: Seq<Item>, perm: Seq<int>)
    requires
        is_stable_arrangement(&SeedOrder, items, out, perm),
    ensures
        out.len() == items.len(),
        forall|k: int, l: int|
            0 <= k < l < out.len() ==> out[k].seeders > out[l].seeders || (out[k].seeders
                == out[l].seeders && out[k].peers >= out[l].peers),
        forall|k: int| 0 <= k < out.len() ==> items.contains(#[trigger] out[k]),
{
    assert forall|k: int, l: int| 0 <= k < l < out.len() implies out[k].seeders > out[l].seeders
        || (out[k].seeders == out[l].seeders && out[k].peers >= out[l].peers) by {
        assert(crate::sort::precedes(&SeedOrder, out[k], perm[k], out[l], perm[l]));
    }
    assert forall|k: int| 0 <= k < out.len() implies items.contains(#[trigger] out[k]) by {
        assert(items[perm[k]] == out[k]);
    }
}

// ---------------------------------------------------------------------------
// rqbit's torrent list

/// A JSON value, as the rqbit API answers with; numbers are kept as their text.
pub enum JsonValue {
    Null,
    Bool(bool),
    Number(String),
    Str(String),
    Array(Vec<JsonValue>),
    Object(Vec<(String, JsonValue)>),
}

/// `torrents`
pub open spec fn torrents_key() -> Seq<char> {
    seq!['t', 'o', 'r', 'r', 'e', 'n', 't', 's']
}

/// `name`
pub open spec fn name_key() -> Seq<char> {
    seq!['n', 'a', 'm', 'e']
}

/// The value of the first field of `fields` named `key`.
pub open spec fn field_of(fields: Seq<(String, JsonValue)>, key: Seq<char>) -> Option<JsonValue>
    decreases fields.len(),
{
    if fields.len() == 0 {
        None
    } else if fields[0].0@ == key {
        Some(fields[0].1)
    } else {
        field_of(fields.skip(1), key)
    }
}

/// The field `key` of `v`, if `v` is an object that has it.
pub open spec fn get_field(v: JsonValue, key: Seq<char>) -> Option<JsonValue> {
    match v {
        JsonValue::Object(fields) => field_of(fields@, key),
        _ => None,
    }
}

/// The torrent entries of rqbit's answer: the answer itself when it is an
/// array, else its `torrents` field when that is an array, else none.
pub open spec fn torrent_entries(v: JsonValue) -> Seq<JsonValue> {
    match v {
        JsonValue::Array(a) => a@,
        _ => match get_field(v, torrents_key()) {
            Some(JsonValue::Array(a)) => a@,
            _ => Seq::empty(),
        },
    }
}

/// The `name` strings of `entries`, in order, skipping entries without one.
pub open spec fn entry_names(entries: Seq<JsonValue>) -> Seq<Seq<char>>
    decreases entries.len(),
{
    if entries.len() == 0 {
        Seq::empty()
    } else {
        let first = match get_field(entries[0], name_key()) {
            Some(JsonValue::Str(s)) => seq![s@],
            _ => Seq::empty(),
        };
        first + entry_names(entries.skip(1))
    }
}

/// The value of the first field of `fields` named `key`.
fn field_of_exec<'a>(fields: &'a Vec<(String, JsonValue)>, key: &[char]) -> (r: Option<&'a JsonValue>)
    ensures
        match field_of(fields@, key@) {
            Some(v) => r matches Some(x) && *x == v,
            None => r is None,
        },
{
    let mut k: usize = 0;
    assert(fields@.skip(0) =~= fields@);
    while k < fields.len()
        invariant
            k <= fields@.len(),
            field_of(fields@.skip(k as int), key@) == field_of(fields@, key@),
        decreases fields@.len() - k,
    {
        let name = chars_of(fields[k].0.as_str());
        assert(fields@.skip(k as int)[0] == fields@[k as int]);
        if crate::server::torznab::same_chars(name.as_slice(), key) {
            return Some(&fields[k].1);
        }
        assert(fields@.skip(k as int).skip(1) =~= fields@.skip(k + 1));
        k = k + 1;
    }
    None
}

/// The field `key` of `v`, if `v` is an object that has it.
fn get_field_exec<'a>(v: &'a JsonValue, key: &[char]) -> (r: Option<&'a JsonValue>)
    ensures
        match get_field(*v, key@) {
            Some(x) => r matches Some(y) && *y == x,
            None => r is None,
        },
{
    match v {
        JsonValue::Object(fields) => field_of_exec(fields, key),
        _ => None,
    }
}

/// The names of the torrents in rqbit's answer, in the order it lists them.
pub fn known_torrent_names(v: &JsonValue) -> (r: Vec<String>)
    ensures
        r@.len() == entry_names(torrent_entries(*v)).len(),
        forall|k: int| 0 <= k < r@.len() ==> #[trigger] r@[k]@ == entry_names(torrent_entries(*v))[k],
{
    let tkey: Vec<char> = vec!['t', 'o', 'r', 'r', 'e', 'n', 't', 's'];
    let nkey: Vec<char> = vec!['n', 'a', 'm', 'e'];
    assert(tkey@ == torrents_key());
    assert(nkey@ == name_key());
    let entries: &Vec<JsonValue> = match v {
        JsonValue::Array(a) => a,
        _ => match get_field_exec(v, tkey.as_slice()) {
            Some(JsonValue::Array(a)) => a,
            _ => {
                return Vec::new();
            },
        },
    };
    assert(entries@ == torrent_entries(*v));
    let mut out: Vec<String> = Vec::new();
    let mut k: usize = 0;
    assert(entries@.skip(0) =~= entries@);
    while k < entries.len()
        invariant
            k <= entries@.len(),
            nkey@ == name_key(),
            out@.len() + entry_names(entries@.skip(k as int)).len() == entry_names(entries@).len(),
            forall|j: int| 0 <= j < out@.len() ==> #[trigger] out@[j]@ == entry_names(entries@)[j],
            forall|j: int|
                0 <= j < entry_names(entries@.skip(k as int)).len() ==> entry_names(entries@)[out@.len()
                    + j] == #[trigger] entry_names(entries@.skip(k as int))[j],
        decreases entries@.len() - k,
    {
        let ghost rest = entries@.skip(k as int);
        assert(rest[0] == entries@[k as int]);
        assert(rest.skip(1) =~= entries@.skip(k + 1));
        let ghost first = match get_field(rest[0], name_key()) {
            Some(JsonValue::Str(s)) => seq![s@],
            _ => Seq::<Seq<char>>::empty(),
        };
        assert(entry_names(rest) == first + entry_names(entries@.skip(k + 1)));
        match get_field_exec(&entries[k], nkey.as_slice()) {
            Some(JsonValue::Str(s)) => {
                let ghost old_len = out@.len();
                out.push(s.clone());
                assert(entry_names(rest)[0] == s@);
                assert forall|j: int|
                    0 <= j < entry_names(entries@.skip(k + 1)).len() implies entry_names(
                    entries@,
                )[out@.len() + j] == #[trigger] entry_names(entries@.skip(k + 1))[j] by {
                    assert(entry_names(rest)[j + 1] == entry_names(entries@.skip(k + 1))[j]);
                }
            },
            _ => {
                assert(entry_names(rest) =~= entry_names(entries@.skip(k + 1)));
            },
        }
        k = k + 1;
    }
    out
}

} // verus!
