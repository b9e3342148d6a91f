//! Normalization of a Torznab feed before it is parsed: the feed parser
//! rejects repeated `<torznab:attr .../>` elements (as a duplicate field
//! `attr`), so the `seeders`, `peers` and `magneturl` attributes are lifted
//! into elements of their own and the other attributes are dropped.
use vstd::prelude::*;
use crate::text::{
    occurs_at, chars_of, find, find_from, find_from_exec, lemma_find_contains, lemma_find_from, lemma_find_from_shift,
    push_all, slice_chars, string_of, trim, trim_exec,
};

verus! {

/// `<torznab:attr `, the opening of an attribute element.
pub open spec fn attr_open() -> Seq<char> {
    seq!['<', 't', 'o', 'r', 'z', 'n', 'a', 'b', ':', 'a', 't', 't', 'r', ' ']
}

/// `/>`, the end of an empty element.
pub open spec fn tag_close() -> Seq<char> {
    seq!['/', '>']
}

pub open spec fn seeders_name() -> Seq<char> {
    seq!['s', 'e', 'e', 'd', 'e', 'r', 's']
}

pub open spec fn peers_name() -> Seq<char> {
    seq!['p', 'e', 'e', 'r', 's']
}

pub open spec fn magneturl_name() -> Seq<char> {
    seq!['m', 'a', 'g', 'n', 'e', 't', 'u', 'r', 'l']
}

pub open spec fn name_key() -> Seq<char> {
    seq!['n', 'a', 'm', 'e']
}

pub open spec fn value_key() -> Seq<char> {
    seq!['v', 'a', 'l', 'u', 'e']
}

/// The value of attribute `key` in `tag`: the text between the first
/// `key="` and the next `"`; `None` when either is missing.
pub open spec fn attr_value(tag: Seq<char>, key: Seq<char>) -> Option<Seq<char>> {
    let pattern = key + seq!['=', '"'];
    match find(tag, pattern) {
        None => None,
        Some(p) => {
            let start = (p + pattern.len()) as int;
            match find(tag.skip(start), seq!['"']) {
                None => None,
                Some(q) => Some(tag.subrange(start, start + q)),
            }
        },
    }
}

/// The attribute names that are kept.
pub open spec fn is_lifted_name(name: Seq<char>) -> bool {
    name == seeders_name() || name == peers_name() || name == magneturl_name()
}

/// What an attribute element becomes: `<name>value</name>` for a kept name
/// with a value, nothing otherwise.
pub open spec fn lifted(tag: Seq<char>) -> Seq<char> {
    match (attr_value(tag, name_key()), attr_value(tag, value_key())) {
        (Some(name), Some(value)) => if is_lifted_name(name) {
            seq!['<'] + name + seq!['>'] + value + seq!['<', '/'] + name + seq!['>']
        } else {
            Seq::empty()
        },
        _ => Seq::empty(),
    }
}

/// `xml` with each closed attribute element replaced by what it is lifted
/// to; from an attribute element that is never closed on, the text is kept
/// as it is.
pub open spec fn normalized(xml: Seq<char>) -> Seq<char>
    decreases xml.len(),
{
    match find(xml, attr_open()) {
        None => xml,
        Some(start) => {
            let after = xml.skip(start as int);
            match find(after, tag_close()) {
                None => xml,
                Some(i) => {
                    proof {
                        lemma_find_contains(xml, attr_open());
                        lemma_find_contains(after, tag_close());
                    }
                    let end = i + 2int;
                    xml.take(start as int) + lifted(after.take(end)) + normalized(after.skip(end))
                },
            }
        },
    }
}

/// A Torznab feed as it is handed to the parser: trimmed, then normalized.
pub open spec fn prepared(xml: Seq<char>) -> Seq<char> {
    normalized(trim(xml))
}

/// Value of attribute `key` in `tag` (`key="value"`), if present.
pub fn xml_attr(tag: &str, key: &str) -> (r: Option<String>)
    ensures
        match attr_value(tag@, key@) {
            Some(v) => r matches Some(s) && s@ == v,
            None => r is None,
        },
{
    let t = chars_of(tag);
    let k = chars_of(key);
    match attr_value_chars(t.as_slice(), k.as_slice()) {
        Some(v) => Some(string_of(v.as_slice())),
        None => None,
    }
}

/// [`xml_attr`] on characters.
pub fn attr_value_chars(tag: &[char], key: &[char]) -> (r: Option<Vec<char>>)
    ensures
        match attr_value(tag@, key@) {
            Some(v) => r matches Some(s) && s@ == v,
            None => r is None,
        },
{
    let mut pattern: Vec<char> = Vec::new();
    push_all(&mut pattern, key);
    pattern.push('=');
    pattern.push('"');
    assert(pattern@ =~= key@ + seq!['=', '"']);
    let found = find_from_exec(tag, pattern.as_slice(), 0);
    match found {
        None => None,
        Some(p) => {
            proof {
                lemma_find_contains(tag@, pattern@);
                assert(occurs_at(tag@, pattern@, p as int));
                assert(p + pattern.len() <= tag.len());
            }
            let start = p + pattern.len();
            let quote: Vec<char> = vec!['"'];
            assert(quote@ == seq!['"']);
            proof {
                lemma_find_from_shift(tag@, quote@, start as nat, 0);
            }
            match find_from_exec(tag, quote.as_slice(), start) {
                None => None,
                Some(e) => {
                    proof {
                        lemma_find_contains(tag@.skip(start as int), quote@);
                    }
                    Some(slice_chars(tag, start, e))
                },
            }
        },
    }
}

/// What an attribute element is lifted to.
fn lifted_chars(tag: &[char]) -> (r: Vec<char>)
    ensures
        r@ == lifted(tag@),
{
    let nk: Vec<char> = vec!['n', 'a', 'm', 'e'];
    let vk: Vec<char> = vec!['v', 'a', 'l', 'u', 'e'];
    assert(nk@ == name_key());
    assert(vk@ == value_key());
    let name = attr_value_chars(tag, nk.as_slice());
    let value = attr_value_chars(tag, vk.as_slice());
    match (name, value) {
        (Some(name), Some(value)) => {
            let seeders: Vec<char> = vec!['s', 'e', 'e', 'd', 'e', 'r', 's'];
            let peers: Vec<char> = vec!['p', 'e', 'e', 'r', 's'];
            let magneturl: Vec<char> = vec!['m', 'a', 'g', 'n', 'e', 't', 'u', 'r', 'l'];
            assert(seeders@ == seeders_name());
            assert(peers@ == peers_name());
            assert(magneturl@ == magneturl_name());
            if same_chars(name.as_slice(), seeders.as_slice()) || same_chars(
                name.as_slice(),
                peers.as_slice(),
            ) || same_chars(name.as_slice(), magneturl.as_slice()) {
                let mut out: Vec<char> = Vec::new();
                out.push('<');
                push_all(&mut out, name.as_slice());
                out.push('>');
                push_all(&mut out, value.as_slice());
                out.push('<');
                out.push('/');
                push_all(&mut out, name.as_slice());
                out.push('>');
                assert(out@ =~= seq!['<'] + name@ + seq!['>'] + value@ + seq!['<', '/'] + name@
                    + seq!['>']);
                out
            } else {
                Vec::new()
            }
        },
        _ => Vec::new(),
    }
}

/// `a` and `b` hold the same characters.
pub fn same_chars(a: &[char], b: &[char]) -> (r: bool)
    ensures
        r == (a@ == b@),
{
    if a.len() != b.len() {
        return false;
    }
    let mut i: usize = 0;
    while i < a.len()
        invariant
            a@.len() == b@.len(),
            i <= a@.len(),
            forall|k: int| 0 <= k < i ==> a@[k] == b@[k],
        decreases a@.len() - i,
    {
        if a[i] != b[i] {
            return false;
        }
        i = i + 1;
    }
    assert(a@ =~= b@);
    true
}

/// Lifts `seeders`/`peers`/`magneturl` attribute elements into elements of
/// their own and drops the other attribute elements, as [`normalized`] states.
pub fn normalize_torznab_xml(xml: &str) -> (r: String)
    ensures
        r@ == normalized(xml@),
{
    let cs = chars_of(xml);
    let out = normalize_chars(cs.as_slice());
    string_of(out.as_slice())
}

/// The feed as it is handed to the parser: trimmed, then normalized.
pub fn prepare_torznab_xml(xml: &str) -> (r: String)
    ensures
        r@ == prepared(xml@),
{
    let cs = chars_of(xml);
    let t = trim_exec(cs.as_slice());
    let out = normalize_chars(t.as_slice());
    string_of(out.as_slice())
}

/// One step of [`normalized`] on the part of `s` from `pos` on, with the
/// attribute element found at `start` and closed at `e`.
proof fn lemma_normalized_step(s: Seq<char>, pos: int, start: int, e: int)
    requires
        0 <= pos <= s.len(),
        pos <= start <= e,
        find(s.skip(pos), attr_open()) == Some((start - pos) as nat),
        find(s.skip(start), tag_close()) == Some((e - start) as nat),
    ensures
        start < e,
        e + 2 <= s.len(),
        normalized(s.skip(pos)) == s.subrange(pos, start) + lifted(s.subrange(start, e + 2))
            + normalized(s.skip(e + 2)),
{
    let t = s.skip(pos);
    let after = s.skip(start);
    lemma_find_contains(t, attr_open());
    lemma_find_contains(after, tag_close());
    assert(t.skip(start - pos) =~= after);
    assert(after[0] == '<');
    assert(after.subrange(0, 2)[0] == '<');
    let rel = e - start + 2;
    assert(t.take(start - pos) =~= s.subrange(pos, start));
    assert(after.take(rel) =~= s.subrange(start, e + 2));
    assert(after.skip(rel) =~= s.skip(e + 2));
}

/// [`normalized`] on the part of `s` from `pos` on, when the attribute
/// element found at `start` is never closed: that part is kept as it is.
proof fn lemma_normalized_unclosed(s: Seq<char>, pos: int, start: int)
    requires
        0 <= pos <= start <= s.len(),
        find(s.skip(pos), attr_open()) == Some((start - pos) as nat),
        find(s.skip(start), tag_close()) is None,
    ensures
        normalized(s.skip(pos)) == s.skip(pos),
{
    let t = s.skip(pos);
    assert(t.skip(start - pos) =~= s.skip(start));
}

/// [`normalize_torznab_xml`] on characters.
pub fn normalize_chars(s: &[char]) -> (r: Vec<char>)
    ensures
        r@ == normalized(s@),
{
    let open: Vec<char> = vec!['<', 't', 'o', 'r', 'z', 'n', 'a', 'b', ':', 'a', 't', 't', 'r', ' '];
    let close: Vec<char> = vec!['/', '>'];
    assert(open@ == attr_open());
    assert(close@ == tag_close());
    let mut out: Vec<char> = Vec::new();
    let mut pos: usize = 0;
    assert(s@.skip(0) =~= s@);
    loop
        invariant
            pos <= s@.len(),
            open@ == attr_open(),
            close@ == tag_close(),
            out@ + normalized(s@.skip(pos as int)) == normalized(s@),
        decreases s@.len() - pos,
    {
        let ghost before = out@;
        proof {
            lemma_find_from_shift(s@, attr_open(), pos as nat, 0);
            assert(pos + 0 == pos);
        }
        let found = find_from_exec(s, open.as_slice(), pos);
        if found.is_none() {
            push_all(&mut out, slice_chars(s, pos, s.len()).as_slice());
            assert(s@.subrange(pos as int, s@.len() as int) =~= s@.skip(pos as int));
            return out;
        }
        let start = found.unwrap();
        proof {
            lemma_find_contains(s@.skip(pos as int), attr_open());
            lemma_find_from_shift(s@, tag_close(), start as nat, 0);
            assert(start + 0 == start);
        }
        let closing = find_from_exec(s, close.as_slice(), start);
        if closing.is_none() {
            proof {
                lemma_normalized_unclosed(s@, pos as int, start as int);
            }
            push_all(&mut out, slice_chars(s, pos, s.len()).as_slice());
            assert(s@.subrange(pos as int, s@.len() as int) =~= s@.skip(pos as int));
            return out;
        }
        let e = closing.unwrap();
        proof {
            lemma_normalized_step(s@, pos as int, start as int, e as int);
            assert(e + 2 <= s.len());
        }
        let end = e + 2;
        push_all(&mut out, slice_chars(s, pos, start).as_slice());
        let tag = slice_chars(s, start, end);
        let lifted_tag = lifted_chars(tag.as_slice());
        push_all(&mut out, lifted_tag.as_slice());
        assert(out@ + normalized(s@.skip(end as int)) =~= before + normalized(s@.skip(pos as int)));
        pos = end;
    }
}

/// The first occurrence of `pat` in `tag` is at `p` when it occurs there and
/// nowhere before.
proof fn lemma_first_at(tag: Seq<char>, pat: Seq<char>, p: int)
    requires
        occurs_at(tag, pat, p),
        forall|j: int| 0 <= j < p ==> !occurs_at(tag, pat, j),
    ensures
        find(tag, pat) == Some(p as nat),
{
    lemma_find_from(tag, pat, 0);
    match find(tag, pat) {
        Some(k) => {
            if (k as int) < p {
                assert(!occurs_at(tag, pat, k as int));
            }
        },
        None => {
            assert(!occurs_at(tag, pat, p));
        },
    }
}

/// The value of attribute `key` in `tag`, when `key="` first occurs at `p`
/// and the next `"` comes `n` characters after it.
proof fn lemma_attr_value_at(tag: Seq<char>, key: Seq<char>, p: int, n: int)
    requires
        occurs_at(tag, key + seq!['=', '"'], p),
        forall|j: int| 0 <= j < p ==> !occurs_at(tag, key + seq!['=', '"'], j),
        0 <= n,
        p + key.len() + 2 + n < tag.len(),
        forall|m: int| p + key.len() + 2 <= m < p + key.len() + 2 + n ==> tag[m] != '"',
        tag[p + key.len() + 2 + n] == '"',
    ensures
        attr_value(tag, key) == Some(tag.subrange(p + key.len() + 2, p + key.len() + 2 + n)),
{
    let pattern = key + seq!['=', '"'];
    lemma_first_at(tag, pattern, p);
    let start = p + pattern.len();
    let rest = tag.skip(start);
    assert(occurs_at(rest, seq!['"'], n)) by {
        assert(rest.subrange(n, n + 1) =~= seq!['"']);
    }
    assert forall|j: int| 0 <= j < n implies !occurs_at(rest, seq!['"'], j) by {
        if occurs_at(rest, seq!['"'], j) {
            assert(rest.subrange(j, j + 1)[0] == rest[j]);
            assert(rest[j] == tag[start + j]);
        }
    }
    lemma_first_at(rest, seq!['"'], n);
}

/// `name="`
pub open spec fn name_eq() -> Seq<char> {
    seq!['n', 'a', 'm', 'e', '=', '"']
}

/// `" value="`
pub open spec fn value_eq() -> Seq<char> {
    seq!['"', ' ', 'v', 'a', 'l', 'u', 'e', '=', '"']
}

/// `"/>`
pub open spec fn quote_close() -> Seq<char> {
    seq!['"', '/', '>']
}

/// The attribute element `<torznab:attr name="N" value="V"/>`.
pub open spec fn attr_tag(name: Seq<char>, value: Seq<char>) -> Seq<char> {
    attr_open() + name_eq() + name + value_eq() + value + quote_close()
}

/// Where the parts of `attr_tag(name, value)` stand.
#[verifier::spinoff_prover]
#[verifier::rlimit(60)]
proof fn lemma_attr_tag_layout(name: Seq<char>, value: Seq<char>)
    ensures
        ({
            let tag = attr_tag(name, value);
            let nl = name.len() as int;
            let vl = value.len() as int;
            &&& tag.len() == 32 + nl + vl
            &&& forall|m: int| 0 <= m < 14 ==> #[trigger] tag[m] == attr_open()[m]
            &&& forall|m: int| 14 <= m < 20 ==> #[trigger] tag[m] == name_eq()[m - 14]
            &&& forall|m: int| 20 <= m < 20 + nl ==> #[trigger] tag[m] == name[m - 20]
            &&& forall|m: int| 20 + nl <= m < 29 + nl ==> #[trigger] tag[m] == value_eq()[m - 20 - nl]
            &&& forall|m: int| 29 + nl <= m < 29 + nl + vl ==> #[trigger] tag[m] == value[m - 29 - nl]
            &&& tag[29 + nl + vl] == '"'
        }),
{
    let a1 = attr_open() + name_eq();
    let a2 = a1 + name;
    let a3 = a2 + value_eq();
    let a4 = a3 + value;
    let tag = a4 + quote_close();
    assert(tag == attr_tag(name, value));
}

/// The `name` attribute of `attr_tag(name, value)` is `name`.
#[verifier::spinoff_prover]
#[verifier::rlimit(60)]
proof fn lemma_attr_tag_name(name: Seq<char>, value: Seq<char>)
    requires
        !name.contains('"'),
    ensures
        attr_value(attr_tag(name, value), name_key()) == Some(name),
{
    lemma_attr_tag_layout(name, value);
    let tag = attr_tag(name, value);
    let nl = name.len() as int;
    let np = name_key() + seq!['=', '"'];
    assert(np =~= name_eq());
    assert(occurs_at(tag, np, 14)) by {
        assert(tag.subrange(14, 20) =~= np);
    }
    let o = attr_open();
    assert(o[0] == '<' && o[1] == 't' && o[2] == 'o' && o[3] == 'r' && o[4] == 'z' && o[5] == 'n' && o[6]
        == 'a' && o[7] == 'b' && o[8] == ':' && o[9] == 'a' && o[10] == 't' && o[11] == 't' && o[12] == 'r'
        && o[13] == ' ');
    assert forall|j: int| 0 <= j < 14 implies !occurs_at(tag, np, j) by {
        if occurs_at(tag, np, j) {
            assert(tag.subrange(j, j + 6)[0] == tag[j]);
            assert(tag.subrange(j, j + 6)[2] == tag[j + 2]);
            assert(tag[j] == 'n');
            assert(j == 5);
            assert(tag[7] == 'b');
        }
    }
    assert forall|m: int| 20 <= m < 20 + nl implies tag[m] != '"' by {
        if name[m - 20] == '"' {
            assert(name.contains('"'));
        }
    }
    assert(tag[20 + nl] == value_eq()[0]);
    lemma_attr_value_at(tag, name_key(), 14, nl);
    assert(tag.subrange(20, 20 + nl) =~= name);
}

/// The `value` attribute of `attr_tag(name, value)` is `value`.
#[verifier::spinoff_prover]
#[verifier::rlimit(60)]
proof fn lemma_attr_tag_value(name: Seq<char>, value: Seq<char>)
    requires
        !name.contains('v'),
        !value.contains('"'),
    ensures
        attr_value(attr_tag(name, value), value_key()) == Some(value),
{
    lemma_attr_tag_layout(name, value);
    let tag = attr_tag(name, value);
    let nl = name.len() as int;
    let vl = value.len() as int;
    let vp = value_key() + seq!['=', '"'];
    assert(occurs_at(tag, vp, 22 + nl)) by {
        assert(tag.subrange(22 + nl, 29 + nl) =~= vp);
    }
    assert forall|j: int| 0 <= j < 22 + nl implies !occurs_at(tag, vp, j) by {
        if occurs_at(tag, vp, j) {
            assert(tag.subrange(j, j + 7)[0] == tag[j]);
            if 20 <= j < 20 + nl {
                assert(name[j - 20] == 'v');
                assert(name.contains('v'));
            }
        }
    }
    assert forall|m: int| 29 + nl <= m < 29 + nl + vl implies tag[m] != '"' by {
        if value[m - 29 - nl] == '"' {
            assert(value.contains('"'));
        }
    }
    lemma_attr_value_at(tag, value_key(), 22 + nl, vl);
    assert(tag.subrange(29 + nl, 29 + nl + vl) =~= value);
}

/// Law: an attribute element `<torznab:attr name="N" value="V"/>` (with no
/// `"` in `N` or `V`, and no `v` in `N`) becomes `<N>V</N>` when `N` is
/// `seeders`, `peers` or `magneturl`, and nothing otherwise.
pub proof fn lemma_lifted_attr(name: Seq<char>, value: Seq<char>)
    requires
        !name.contains('"'),
        !name.contains('v'),
        !value.contains('"'),
    ensures
        (name == seq!['s', 'e', 'e', 'd', 'e', 'r', 's'] || name == seq!['p', 'e', 'e', 'r', 's'] || name
            == seq!['m', 'a', 'g', 'n', 'e', 't', 'u', 'r', 'l']) ==> lifted(attr_tag(name, value)) == seq!['<']
            + name + seq!['>'] + value + seq!['<', '/'] + name + seq!['>'],
        !(name == seq!['s', 'e', 'e', 'd', 'e', 'r', 's'] || name == seq!['p', 'e', 'e', 'r', 's'] || name
            == seq!['m', 'a', 'g', 'n', 'e', 't', 'u', 'r', 'l']) ==> lifted(attr_tag(name, value)).len() == 0,
{
    lemma_attr_tag_name(name, value);
    lemma_attr_tag_value(name, value);
}

/// Law: a feed without attribute elements is left as it is.
pub proof fn lemma_normalized_identity(xml: Seq<char>)
    requires
        find(xml, attr_open()) is None,
    ensures
        normalized(xml) == xml,
{
}

/// A text without `<` holds no attribute element.
proof fn lemma_no_open(s: Seq<char>)
    requires
        !s.contains('<'),
    ensures
        find(s, attr_open()) is None,
{
    lemma_find_from(s, attr_open(), 0);
    if let Some(k) = find(s, attr_open()) {
        assert(s.subrange(k as int, k + 14int)[0] == s[k as int]);
    }
}

/// Law: an attribute element between texts without `<` is replaced by
/// what it is lifted to, and the texts around it are kept as they are.
#[verifier::spinoff_prover]
#[verifier::rlimit(60)]
pub proof fn lemma_normalize_one(pre: Seq<char>, name: Seq<char>, value: Seq<char>, post: Seq<char>)
    requires
        !pre.contains('<'),
        !post.contains('<'),
        !name.contains('>'),
        !value.contains('>'),
    ensures
        normalized(pre + attr_tag(name, value) + post) == pre + lifted(attr_tag(name, value)) + post,
{
    lemma_attr_tag_layout(name, value);
    let tag = attr_tag(name, value);
    let x = pre + tag + post;
    let pl = pre.len() as int;
    let tl = tag.len() as int;
    let nl = name.len() as int;
    let vl = value.len() as int;
    let o = attr_open();
    assert(o[0] == '<' && o[1] == 't' && o[2] == 'o' && o[3] == 'r' && o[4] == 'z' && o[5] == 'n' && o[6]
        == 'a' && o[7] == 'b' && o[8] == ':' && o[9] == 'a' && o[10] == 't' && o[11] == 't' && o[12] == 'r'
        && o[13] == ' ');
    // the element opens right after `pre`
    assert(occurs_at(x, o, pl)) by {
        assert(x.subrange(pl, pl + 14) =~= o);
    }
    assert forall|j: int| 0 <= j < pl implies !occurs_at(x, o, j) by {
        if occurs_at(x, o, j) {
            assert(x.subrange(j, j + 14)[0] == x[j]);
            assert(x[j] == pre[j]);
            assert(pre.contains('<'));
        }
    }
    lemma_first_at(x, o, pl);
    // it closes at its own end
    let after = x.skip(pl);
    assert(after =~= tag + post);
    let c = tag_close();
    assert(occurs_at(after, c, tl - 2)) by {
        assert(after.subrange(tl - 2, tl) =~= c);
    }
    assert forall|j: int| 0 <= j < tl - 2 implies !occurs_at(after, c, j) by {
        if occurs_at(after, c, j) {
            assert(after.subrange(j, j + 2)[1] == after[j + 1]);
            assert(after[j + 1] == tag[j + 1]);
            let m = j + 1;
            if 20 <= m < 20 + nl {
                assert(name[m - 20] == '>');
                assert(name.contains('>'));
            }
            if 29 + nl <= m < 29 + nl + vl {
                assert(value[m - 29 - nl] == '>');
                assert(value.contains('>'));
            }
        }
    }
    lemma_first_at(after, c, tl - 2);
    assert(x.take(pl) =~= pre);
    assert(after.take(tl) =~= tag);
    assert(after.skip(tl) =~= post);
    lemma_no_open(post);
    lemma_normalized_identity(post);
}

} // verus!
