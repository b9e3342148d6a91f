//! The records the server reads from a Torznab feed and from request forms,
//! and the choice of the link that a result is grabbed by.
use vstd::prelude::*;
use crate::text::{
    ascii_lower_starts_with, ascii_lowercase, chars_of, contains, lemma_replace_absent, lemma_replace_len,
    occurs_at,
    replace_all, replace_all_exec, starts_with, string_of, trim, trim_exec,
};

verus! {

/// A Torznab feed: one channel.
pub struct Rss {
    pub channel: Channel,
}

/// A feed channel: its items, none when the feed lists none.
pub struct Channel {
    pub item: Vec<Item>,
}

/// One search result of the feed.
pub struct Item {
    pub title: String,
    pub guid: String,
    /// Torznab/Jackett often put the magnet here (guid is frequently a page URL).
    pub link: String,
    pub comments: String,
    pub pub_date: String,
    pub size: u64,
    pub files: u32,
    pub description: String,
    pub category: Vec<String>,
    /// Lifted from a `torznab:attr` element before the feed is parsed.
    pub seeders: u32,
    /// Lifted from a `torznab:attr` element before the feed is parsed.
    pub peers: u32,
    /// Lifted from a `torznab:attr` element before the feed is parsed.
    pub magneturl: String,
}

/// A search form: the term to search for.
pub struct Query {
    pub search_term: String,
}

/// A grab form: the (percent-encoded) magnet to hand to rqbit.
pub struct SendToTransmission {
    pub magnet: String,
}

pub open spec fn amp_entity() -> Seq<char> {
    seq!['&', 'a', 'm', 'p', ';']
}

pub open spec fn lt_entity() -> Seq<char> {
    seq!['&', 'l', 't', ';']
}

pub open spec fn gt_entity() -> Seq<char> {
    seq!['&', 'g', 't', ';']
}

pub open spec fn quot_entity() -> Seq<char> {
    seq!['&', 'q', 'u', 'o', 't', ';']
}

pub open spec fn apos_entity() -> Seq<char> {
    seq!['&', '#', '3', '9', ';']
}

/// `s` with the five basic XML entities decoded, one after the other in the
/// order `&amp;`, `&lt;`, `&gt;`, `&quot;`, `&#39;` (so `&amp;lt;` becomes `<`).
pub open spec fn entities_decoded(s: Seq<char>) -> Seq<char> {
    let s1 = replace_all(s, amp_entity(), seq!['&']);
    let s2 = replace_all(s1, lt_entity(), seq!['<']);
    let s3 = replace_all(s2, gt_entity(), seq!['>']);
    let s4 = replace_all(s3, quot_entity(), seq!['"']);
    replace_all(s4, apos_entity(), seq!['\''])
}

/// Decodes `&amp;`, `&lt;`, `&gt;`, `&quot;` and `&#39;`, in that order.
pub fn decode_basic_entities(s: &str) -> (r: String)
    ensures
        r@ == entities_decoded(s@),
{
    let cs = chars_of(s);
    let r = decode_entity_chars(cs.as_slice());
    string_of(r.as_slice())
}

/// [`decode_basic_entities`] on characters.
pub fn decode_entity_chars(cs: &[char]) -> (r: Vec<char>)
    ensures
        r@ == entities_decoded(cs@),
{
    let amp: Vec<char> = vec!['&', 'a', 'm', 'p', ';'];
    let lt: Vec<char> = vec!['&', 'l', 't', ';'];
    let gt: Vec<char> = vec!['&', 'g', 't', ';'];
    let quot: Vec<char> = vec!['&', 'q', 'u', 'o', 't', ';'];
    let apos: Vec<char> = vec!['&', '#', '3', '9', ';'];
    assert(amp@ == amp_entity());
    assert(lt@ == lt_entity());
    assert(gt@ == gt_entity());
    assert(quot@ == quot_entity());
    assert(apos@ == apos_entity());
    let r_amp: Vec<char> = vec!['&'];
    let r_lt: Vec<char> = vec!['<'];
    let r_gt: Vec<char> = vec!['>'];
    let r_quot: Vec<char> = vec!['"'];
    let r_apos: Vec<char> = vec!['\''];
    assert(r_amp@ == seq!['&']);
    assert(r_lt@ == seq!['<']);
    assert(r_gt@ == seq!['>']);
    assert(r_quot@ == seq!['"']);
    assert(r_apos@ == seq!['\'']);
    let s1 = replace_all_exec(cs, amp.as_slice(), r_amp.as_slice());
    let s2 = replace_all_exec(s1.as_slice(), lt.as_slice(), r_lt.as_slice());
    let s3 = replace_all_exec(s2.as_slice(), gt.as_slice(), r_gt.as_slice());
    let s4 = replace_all_exec(s3.as_slice(), quot.as_slice(), r_quot.as_slice());
    replace_all_exec(s4.as_slice(), apos.as_slice(), r_apos.as_slice())
}

/// A pattern that begins with `&` does not occur in a text without `&`.
proof fn lemma_no_amp_absent(s: Seq<char>, pat: Seq<char>)
    requires
        !s.contains('&'),
        pat.len() > 0,
        pat[0] == '&',
    ensures
        !contains(s, pat),
{
    assert forall|i: int| !occurs_at(s, pat, i) by {
        if occurs_at(s, pat, i) {
            assert(s.subrange(i, i + pat.len())[0] == s[i]);
        }
    }
}

/// Law: a text without `&` has no entity to decode and is left as it is.
pub proof fn lemma_entities_decoded_identity(s: Seq<char>)
    requires
        !s.contains('&'),
    ensures
        entities_decoded(s) == s,
{
    lemma_no_amp_absent(s, amp_entity());
    lemma_replace_absent(s, amp_entity(), seq!['&']);
    lemma_no_amp_absent(s, lt_entity());
    lemma_replace_absent(s, lt_entity(), seq!['<']);
    lemma_no_amp_absent(s, gt_entity());
    lemma_replace_absent(s, gt_entity(), seq!['>']);
    lemma_no_amp_absent(s, quot_entity());
    lemma_replace_absent(s, quot_entity(), seq!['"']);
    lemma_no_amp_absent(s, apos_entity());
    lemma_replace_absent(s, apos_entity(), seq!['\'']);
}

/// Law: decoding entities never lengthens a text, and never empties a
/// non-empty one.
pub proof fn lemma_entities_decoded_len(s: Seq<char>)
    ensures
        entities_decoded(s).len() <= s.len(),
        s.len() > 0 ==> entities_decoded(s).len() > 0,
{
    let s1 = replace_all(s, amp_entity(), seq!['&']);
    let s2 = replace_all(s1, lt_entity(), seq!['<']);
    let s3 = replace_all(s2, gt_entity(), seq!['>']);
    let s4 = replace_all(s3, quot_entity(), seq!['"']);
    lemma_replace_len(s, amp_entity(), seq!['&']);
    lemma_replace_len(s1, lt_entity(), seq!['<']);
    lemma_replace_len(s2, gt_entity(), seq!['>']);
    lemma_replace_len(s3, quot_entity(), seq!['"']);
    lemma_replace_len(s4, apos_entity(), seq!['\'']);
}

/// `magnet:`, the prefix that marks a magnet link.
pub open spec fn magnet_prefix() -> Seq<char> {
    seq!['m', 'a', 'g', 'n', 'e', 't', ':']
}

/// `s` is a magnet link: it begins with `magnet:` in any ASCII case.
pub open spec fn is_magnet(s: Seq<char>) -> bool {
    starts_with(ascii_lowercase(s), magnet_prefix())
}

/// A link field as a candidate link: trimmed, then entity-decoded.
pub open spec fn link_candidate(s: Seq<char>) -> Seq<char> {
    entities_decoded(trim(s))
}

/// The link chosen from `link`, `magneturl` and `guid`, in that order of
/// preference: the first candidate that is a magnet, else the first that is
/// not empty, else the empty text.
pub open spec fn chosen_link(link: Seq<char>, magneturl: Seq<char>, guid: Seq<char>) -> Seq<char> {
    let a = link_candidate(link);
    let b = link_candidate(magneturl);
    let c = link_candidate(guid);
    if is_magnet(a) {
        a
    } else if is_magnet(b) {
        b
    } else if is_magnet(c) {
        c
    } else if a.len() > 0 {
        a
    } else if b.len() > 0 {
        b
    } else {
        c
    }
}

impl Item {
    /// The link this item is grabbed by, as [`Item::magnet_link`] chooses it.
    pub open spec fn spec_magnet_link(&self) -> Seq<char> {
        chosen_link(self.link@, self.magneturl@, self.guid@)
    }

    /// Prefer real magnets over guid (which is often a details-page URL).
    /// `link` is preferred over `magneturl` because link is XML-decoded by
    /// the feed parser, while magneturl is lifted from attribute values that
    /// may still contain `&amp;` entities.
    pub fn magnet_link(&self) -> (r: String)
        ensures
            r@ == self.spec_magnet_link(),
    {
        let a = link_candidate_exec(self.link.as_str());
        let b = link_candidate_exec(self.magneturl.as_str());
        let c = link_candidate_exec(self.guid.as_str());
        let prefix: Vec<char> = vec!['m', 'a', 'g', 'n', 'e', 't', ':'];
        assert(prefix@ == magnet_prefix());
        let r = if ascii_lower_starts_with(a.as_slice(), prefix.as_slice()) {
            a
        } else if ascii_lower_starts_with(b.as_slice(), prefix.as_slice()) {
            b
        } else if ascii_lower_starts_with(c.as_slice(), prefix.as_slice()) {
            c
        } else if a.len() > 0 {
            a
        } else if b.len() > 0 {
            b
        } else {
            c
        };
        string_of(r.as_slice())
    }
}

/// A link field as a candidate link: trimmed, then entity-decoded.
fn link_candidate_exec(s: &str) -> (r: Vec<char>)
    ensures
        r@ == link_candidate(s@),
{
    let cs = chars_of(s);
    let t = trim_exec(cs.as_slice());
    decode_entity_chars(t.as_slice())
}

/// Law: the order of preference among the candidates. The first of
/// `link`, `magneturl`, `guid` that is a magnet is chosen; when none is,
/// the first that is not empty is chosen; when all are empty, the chosen
/// link is empty.
pub proof fn lemma_magnet_link_order(item: &Item)
    ensures
        ({
            let a = link_candidate(item.link@);
            let b = link_candidate(item.magneturl@);
            let c = link_candidate(item.guid@);
            let r = item.spec_magnet_link();
            &&& is_magnet(a) ==> r == a
            &&& !is_magnet(a) && is_magnet(b) ==> r == b
            &&& !is_magnet(a) && !is_magnet(b) && is_magnet(c) ==> r == c
            &&& !is_magnet(a) && !is_magnet(b) && !is_magnet(c) && a.len() > 0 ==> r == a
            &&& !is_magnet(a) && !is_magnet(b) && !is_magnet(c) && a.len() == 0 && b.len() > 0 ==> r == b
            &&& !is_magnet(a) && !is_magnet(b) && !is_magnet(c) && a.len() == 0 && b.len() == 0 ==> r == c
            &&& a.len() == 0 && b.len() == 0 && c.len() == 0 ==> r.len() == 0
        }),
{
}

/// Law: whenever one of the three fields holds a magnet, the chosen link is
/// a magnet; and the chosen link is always one of the three candidates.
pub proof fn lemma_magnet_link_prefers_magnets(item: &Item)
    ensures
        is_magnet(link_candidate(item.link@)) || is_magnet(link_candidate(item.magneturl@))
            || is_magnet(link_candidate(item.guid@)) ==> is_magnet(item.spec_magnet_link()),
        item.spec_magnet_link() == link_candidate(item.link@) || item.spec_magnet_link()
            == link_candidate(item.magneturl@) || item.spec_magnet_link() == link_candidate(
            item.guid@,
        ),
        item.spec_magnet_link().len() == 0 ==> link_candidate(item.link@).len() == 0
            && link_candidate(item.magneturl@).len() == 0 && link_candidate(item.guid@).len()
            == 0,
{
}

} // verus!
