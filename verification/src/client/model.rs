//! Filter and sort logic of the results view, the same as the web UI's: the
//! rows to show are the kept ones, stably sorted by a primary and an
//! optional secondary sort, starting from the server's order.
use vstd::prelude::*;
use std::cmp::Ordering;
use crate::client::api::ApiItem;
use crate::sort::{RankOrder, is_stable_arrangement, stable_sort};
use crate::text::{chars_of, contains, contains_exec, lemma_lex_order, lemma_lex_order_first_difference, lex_order, lex_order_exec, trim, trim_bounds, trim_exec};

verus! {

/// What a column sorts by.
#[derive(Clone, Copy, Debug, PartialEq, Eq, Structural)]
pub enum SortKey {
    Seeders,
    Size,
    Date,
    Name,
}

/// A sort: a key and a direction.
#[derive(Clone, Copy, Debug, PartialEq, Eq, Structural)]
pub struct SortSpec {
    pub key: SortKey,
    /// true = ascending.
    pub asc: bool,
}

impl SortSpec {
    /// The server's order, most seeds first, as a value.
    pub open spec fn spec_default() -> SortSpec {
        SortSpec { key: SortKey::Seeders, asc: false }
    }

    /// The server's order: most seeds first.
    pub fn default_order() -> (r: SortSpec)
        ensures
            r == SortSpec::spec_default(),
    {
        SortSpec { key: SortKey::Seeders, asc: false }
    }

    /// The eight choices of the sort menus, in the web UI's order.
    pub open spec fn spec_options() -> Seq<SortSpec> {
        seq![
            SortSpec { key: SortKey::Seeders, asc: false },
            SortSpec { key: SortKey::Seeders, asc: true },
            SortSpec { key: SortKey::Size, asc: false },
            SortSpec { key: SortKey::Size, asc: true },
            SortSpec { key: SortKey::Date, asc: false },
            SortSpec { key: SortKey::Date, asc: true },
            SortSpec { key: SortKey::Name, asc: true },
            SortSpec { key: SortKey::Name, asc: false },
        ]
    }

    /// The eight choices of the sort menus, in the web UI's order.
    pub fn options() -> (r: Vec<SortSpec>)
        ensures
            r@ == SortSpec::spec_options(),
    {
        let r = vec![
            SortSpec { key: SortKey::Seeders, asc: false },
            SortSpec { key: SortKey::Seeders, asc: true },
            SortSpec { key: SortKey::Size, asc: false },
            SortSpec { key: SortKey::Size, asc: true },
            SortSpec { key: SortKey::Date, asc: false },
            SortSpec { key: SortKey::Date, asc: true },
            SortSpec { key: SortKey::Name, asc: true },
            SortSpec { key: SortKey::Name, asc: false },
        ];
        assert(r@ =~= SortSpec::spec_options());
        r
    }

    /// The menu label of this sort.
    pub open spec fn spec_label(self) -> Seq<char> {
        match (self.key, self.asc) {
            (SortKey::Seeders, false) => "Most seeds"@,
            (SortKey::Seeders, true) => "Least seeds"@,
            (SortKey::Size, false) => "Largest"@,
            (SortKey::Size, true) => "Smallest"@,
            (SortKey::Date, false) => "Newest"@,
            (SortKey::Date, true) => "Oldest"@,
            (SortKey::Name, true) => "Title A–Z"@,
            (SortKey::Name, false) => "Title Z–A"@,
        }
    }

    /// Same eight labels as the web UI's sort menu.
    pub fn label(&self) -> (r: &'static str)
        ensures
            r@ == self.spec_label(),
    {
        match (self.key, self.asc) {
            (SortKey::Seeders, false) => "Most seeds",
            (SortKey::Seeders, true) => "Least seeds",
            (SortKey::Size, false) => "Largest",
            (SortKey::Size, true) => "Smallest",
            (SortKey::Date, false) => "Newest",
            (SortKey::Date, true) => "Oldest",
            (SortKey::Name, true) => "Title A–Z",
            (SortKey::Name, false) => "Title Z–A",
        }
    }
}

// ---------------------------------------------------------------------------
// Ranking rows

/// The date a row sorts by: its date, or 0 when it has none.
pub open spec fn date_or_zero(d: Option<i64>) -> i64 {
    match d {
        Some(x) => x,
        None => 0,
    }
}

/// Rank of row `a` (lower-cased title `an`) against row `b` by `key`,
/// ascending: -1, 0 or 1.
pub open spec fn key_rank(a: ApiItem, an: Seq<char>, b: ApiItem, bn: Seq<char>, key: SortKey) -> int {
    match key {
        SortKey::Seeders => if a.seeders < b.seeders {
            -1
        } else if a.seeders > b.seeders {
            1
        } else {
            0
        },
        SortKey::Size => if a.size < b.size {
            -1
        } else if a.size > b.size {
            1
        } else {
            0
        },
        SortKey::Date => if date_or_zero(a.date) < date_or_zero(b.date) {
            -1
        } else if date_or_zero(a.date) > date_or_zero(b.date) {
            1
        } else {
            0
        },
        SortKey::Name => lex_order(an, bn),
    }
}

/// Rank of row `a` against row `b` by the sort `spec`: -1, 0 or 1.
pub open spec fn spec_rank(a: ApiItem, an: Seq<char>, b: ApiItem, bn: Seq<char>, spec: SortSpec) -> int {
    if spec.asc {
        key_rank(a, an, b, bn, spec.key)
    } else {
        -key_rank(a, an, b, bn, spec.key)
    }
}

/// Rank of row `a` against row `b` by `primary`, then by `secondary` on a tie.
pub open spec fn pair_rank(
    a: ApiItem,
    an: Seq<char>,
    b: ApiItem,
    bn: Seq<char>,
    primary: SortSpec,
    secondary: Option<SortSpec>,
) -> int {
    let r = spec_rank(a, an, b, bn, primary);
    if r != 0 {
        r
    } else {
        match secondary {
            Some(s) => spec_rank(a, an, b, bn, s),
            None => 0,
        }
    }
}

/// `key_rank` is a total preorder.
pub proof fn lemma_key_rank(
    a: ApiItem,
    an: Seq<char>,
    b: ApiItem,
    bn: Seq<char>,
    c: ApiItem,
    cn: Seq<char>,
    key: SortKey,
)
    ensures
        -1 <= key_rank(a, an, b, bn, key) <= 1,
        key_rank(a, an, b, bn, key) == -key_rank(b, bn, a, an, key),
        key_rank(a, an, b, bn, key) <= 0 && key_rank(b, bn, c, cn, key) <= 0 ==> key_rank(
            a,
            an,
            c,
            cn,
            key,
        ) <= 0,
        key_rank(a, an, b, bn, key) == 0 && key_rank(b, bn, c, cn, key) == 0 ==> key_rank(
            a,
            an,
            c,
            cn,
            key,
        ) == 0,
{
    lemma_lex_order(an, bn, cn);
    lemma_lex_order(bn, cn, an);
    lemma_lex_order(an, cn, bn);
}

/// `key_rank` facts for every arrangement of three rows.
proof fn lemma_key_rank_all(
    a: ApiItem,
    an: Seq<char>,
    b: ApiItem,
    bn: Seq<char>,
    c: ApiItem,
    cn: Seq<char>,
    key: SortKey,
)
    ensures
        key_rank(a, an, b, bn, key) == -key_rank(b, bn, a, an, key),
        key_rank(b, bn, c, cn, key) == -key_rank(c, cn, b, bn, key),
        key_rank(a, an, c, cn, key) == -key_rank(c, cn, a, an, key),
        key_rank(a, an, b, bn, key) <= 0 && key_rank(b, bn, c, cn, key) <= 0 ==> key_rank(a, an, c, cn, key) <= 0,
        key_rank(b, bn, c, cn, key) <= 0 && key_rank(c, cn, a, an, key) <= 0 ==> key_rank(b, bn, a, an, key) <= 0,
        key_rank(c, cn, a, an, key) <= 0 && key_rank(a, an, b, bn, key) <= 0 ==> key_rank(c, cn, b, bn, key) <= 0,
        key_rank(a, an, c, cn, key) <= 0 && key_rank(c, cn, b, bn, key) <= 0 ==> key_rank(a, an, b, bn, key) <= 0,
        key_rank(b, bn, a, an, key) <= 0 && key_rank(a, an, c, cn, key) <= 0 ==> key_rank(b, bn, c, cn, key) <= 0,
        key_rank(c, cn, b, bn, key) <= 0 && key_rank(b, bn, a, an, key) <= 0 ==> key_rank(c, cn, a, an, key) <= 0,
{
    lemma_key_rank(a, an, b, bn, c, cn, key);
    lemma_key_rank(b, bn, c, cn, a, an, key);
    lemma_key_rank(c, cn, a, an, b, bn, key);
    lemma_key_rank(a, an, c, cn, b, bn, key);
    lemma_key_rank(b, bn, a, an, c, cn, key);
    lemma_key_rank(c, cn, b, bn, a, an, key);
}

/// `pair_rank` is a total preorder.
pub proof fn lemma_pair_rank(
    a: ApiItem,
    an: Seq<char>,
    b: ApiItem,
    bn: Seq<char>,
    c: ApiItem,
    cn: Seq<char>,
    primary: SortSpec,
    secondary: Option<SortSpec>,
)
    ensures
        pair_rank(a, an, b, bn, primary, secondary) == -pair_rank(b, bn, a, an, primary, secondary),
        pair_rank(a, an, b, bn, primary, secondary) <= 0 && pair_rank(b, bn, c, cn, primary, secondary)
            <= 0 ==> pair_rank(a, an, c, cn, primary, secondary) <= 0,
{
    lemma_key_rank_all(a, an, b, bn, c, cn, primary.key);
    if let Some(s) = secondary {
        lemma_key_rank_all(a, an, b, bn, c, cn, s.key);
    }
}

/// Rank of row `i` against row `j` of a results view.
pub open spec fn view_rank(
    items: Seq<ApiItem>,
    names: Seq<String>,
    primary: SortSpec,
    secondary: Option<SortSpec>,
    i: int,
    j: int,
) -> int {
    pair_rank(items[i], names[i]@, items[j], names[j]@, primary, secondary)
}

/// The order of a results view's rows, for sorting their indices.
pub struct ViewOrder<'a> {
    pub items: &'a [ApiItem],
    pub names: &'a [String],
    pub name_chars: Vec<Vec<char>>,
    pub primary: SortSpec,
    pub secondary: Option<SortSpec>,
}

impl<'a> ViewOrder<'a> {
    pub open spec fn wf(&self) -> bool {
        &&& self.names@.len() >= self.items@.len()
        &&& self.name_chars@.len() == self.names@.len()
        &&& forall|i: int| 0 <= i < self.names@.len() ==> (#[trigger] self.name_chars@[i])@
            == self.names@[i]@
    }
}

/// Rank of row `a` against row `b` by `spec`, computed.
fn spec_rank_exec(a: &ApiItem, an: &[char], b: &ApiItem, bn: &[char], spec: SortSpec) -> (r: i8)
    ensures
        r == spec_rank(*a, an@, *b, bn@, spec),
{
    let k: i8 = match spec.key {
        SortKey::Seeders => if a.seeders < b.seeders {
            -1
        } else if a.seeders > b.seeders {
            1
        } else {
            0
        },
        SortKey::Size => if a.size < b.size {
            -1
        } else if a.size > b.size {
            1
        } else {
            0
        },
        SortKey::Date => {
            let da = match a.date {
                Some(x) => x,
                None => 0,
            };
            let db = match b.date {
                Some(x) => x,
                None => 0,
            };
            if da < db {
                -1
            } else if da > db {
                1
            } else {
                0
            }
        },
        SortKey::Name => lex_order_exec(an, bn),
    };
    proof {
        lemma_key_rank(*a, an@, *b, bn@, *a, an@, spec.key);
    }
    if spec.asc {
        k
    } else {
        -k
    }
}

impl<'a> RankOrder for ViewOrder<'a> {
    type Elem = usize;

    open spec fn admits(&self, x: usize) -> bool {
        self.wf() && x < self.items@.len()
    }

    open spec fn rank(&self, x: usize, y: usize) -> int {
        view_rank(self.items@, self.names@, self.primary, self.secondary, x as int, y as int)
    }

    fn rank_exec(&self, x: &usize, y: &usize) -> (r: i8) {
        let i = *x;
        let j = *y;
        let r = spec_rank_exec(
            &self.items[i],
            self.name_chars[i].as_slice(),
            &self.items[j],
            self.name_chars[j].as_slice(),
            self.primary,
        );
        if r != 0 {
            return r;
        }
        match self.secondary {
            Some(s) => spec_rank_exec(
                &self.items[i],
                self.name_chars[i].as_slice(),
                &self.items[j],
                self.name_chars[j].as_slice(),
                s,
            ),
            None => 0,
        }
    }

    proof fn lemma_rank(&self, x: usize, y: usize, z: usize) {
        lemma_pair_rank(
            self.items@[x as int],
            self.names@[x as int]@,
            self.items@[y as int],
            self.names@[y as int]@,
            self.items@[z as int],
            self.names@[z as int]@,
            self.primary,
            self.secondary,
        );
    }
}

/// Compares one row against another by one sort: `Less` when `a` goes first.
pub fn cmp_one(a: &ApiItem, a_name: &str, b: &ApiItem, b_name: &str, spec: SortSpec) -> (r: Ordering)
    ensures
        (r == Ordering::Less) == (spec_rank(*a, a_name@, *b, b_name@, spec) < 0),
        (r == Ordering::Equal) == (spec_rank(*a, a_name@, *b, b_name@, spec) == 0),
        (r == Ordering::Greater) == (spec_rank(*a, a_name@, *b, b_name@, spec) > 0),
{
    let an = chars_of(a_name);
    let bn = chars_of(b_name);
    let k = spec_rank_exec(a, an.as_slice(), b, bn.as_slice(), spec);
    if k < 0 {
        Ordering::Less
    } else if k > 0 {
        Ordering::Greater
    } else {
        Ordering::Equal
    }
}

// ---------------------------------------------------------------------------
// The view

/// The rows to show, as [`compute_view`] orders them: the indices `i` of the
/// rows with `keep[i]`, each once, with row `view[k]` before row `view[l]`
/// (`k < l`) exactly when it ranks lower, or ties and came first.
pub open spec fn is_view_of(
    items: Seq<ApiItem>,
    names: Seq<String>,
    keep: Seq<bool>,
    primary: SortSpec,
    secondary: Option<SortSpec>,
    view: Seq<usize>,
) -> bool {
    &&& forall|k: int| 0 <= k < view.len() ==> #[trigger] view[k] < items.len() && keep[view[k] as int]
    &&& forall|i: int| 0 <= i < items.len() && #[trigger] keep[i] ==> view.contains(i as usize)
    &&& forall|k: int, l: int| 0 <= k < l < view.len() ==> view[k] != view[l]
    &&& forall|k: int, l: int|
        0 <= k < l < view.len() ==> {
            let r = view_rank(items, names, primary, secondary, view[k] as int, view[l] as int);
            r < 0 || (r == 0 && #[trigger] view[k] < #[trigger] view[l])
        }
}

/// Indices of rows to show: those with `keep` set, stably sorted by
/// `primary`, then `secondary`, starting from the server's order.
pub fn compute_view(
    items: &[ApiItem],
    names_lower: &[String],
    keep: &[bool],
    primary: SortSpec,
    secondary: Option<SortSpec>,
) -> (r: Vec<usize>)
    requires
        names_lower@.len() >= items@.len(),
        keep@.len() >= items@.len(),
    ensures
        is_view_of(items@, names_lower@, keep@, primary, secondary, r@),
{
    let mut kept: Vec<usize> = Vec::new();
    let mut i: usize = 0;
    while i < items.len()
        invariant
            i <= items@.len(),
            keep@.len() >= items@.len(),
            forall|k: int| 0 <= k < kept@.len() ==> #[trigger] kept@[k] < i && keep@[kept@[k] as int],
            forall|k: int, l: int| 0 <= k < l < kept@.len() ==> kept@[k] < kept@[l],
            forall|j: int| 0 <= j < i && #[trigger] keep@[j] ==> kept@.contains(j as usize),
        decreases items@.len() - i,
    {
        let ghost old_kept = kept@;
        if keep[i] {
            kept.push(i);
        }
        proof {
            assert forall|j: int| 0 <= j < i + 1 && #[trigger] keep@[j] implies kept@.contains(
                j as usize,
            ) by {
                if j == i {
                    assert(kept@[kept@.len() - 1] == i);
                } else {
                    assert(old_kept.contains(j as usize));
                    let w = choose|w: int| 0 <= w < old_kept.len() && old_kept[w] == j as usize;
                    assert(kept@[w] == j as usize);
                }
            }
        }
        i = i + 1;
    }
    let mut name_chars: Vec<Vec<char>> = Vec::new();
    let mut n: usize = 0;
    while n < names_lower.len()
        invariant
            n <= names_lower@.len(),
            name_chars@.len() == n,
            forall|k: int| 0 <= k < n ==> (#[trigger] name_chars@[k])@ == names_lower@[k]@,
        decreases names_lower@.len() - n,
    {
        name_chars.push(chars_of(names_lower[n].as_str()));
        n = n + 1;
    }
    let order = ViewOrder { items, names: names_lower, name_chars, primary, secondary };
    assert(order.wf());
    let ghost input = kept@;
    let (sorted, Ghost(perm)) = stable_sort(&order, kept);
    assert(is_stable_arrangement(&order, input, sorted@, perm));
    proof {
        let v = sorted@;
        assert forall|k: int, l: int| 0 <= k < l < v.len() implies {
            let r = view_rank(items@, names_lower@, primary, secondary, v[k] as int, v[l] as int);
            r < 0 || (r == 0 && #[trigger] v[k] < #[trigger] v[l])
        } by {
            assert(crate::sort::precedes(&order, v[k], perm[k], v[l], perm[l]));
            assert(v[k] == input[perm[k]]);
            assert(v[l] == input[perm[l]]);
            if perm[k] < perm[l] {
                assert(input[perm[k]] < input[perm[l]]);
            }
        }
        assert forall|k: int, l: int| 0 <= k < l < v.len() implies v[k] != v[l] by {
            assert(v[k] == input[perm[k]]);
            assert(v[l] == input[perm[l]]);
            if perm[k] < perm[l] {
                assert(input[perm[k]] < input[perm[l]]);
            } else {
                assert(input[perm[l]] < input[perm[k]]);
            }
        }
        assert forall|k: int| 0 <= k < v.len() implies #[trigger] v[k] < items@.len() && keep@[v[k] as int] by {
            assert(v[k] == input[perm[k]]);
        }
        assert forall|j: int| 0 <= j < items@.len() && #[trigger] keep@[j] implies v.contains(j as usize) by {
            let w = choose|w: int| 0 <= w < input.len() && input[w] == j as usize;
            lemma_perm_onto(perm, input.len() as int, w);
            let k = choose|k: int| 0 <= k < perm.len() && perm[k] == w;
            assert(v[k] == input[perm[k]]);
        }
    }
    sorted
}

/// `n` distinct positions below `n` take every position below `n`.
pub proof fn lemma_perm_onto(perm: Seq<int>, n: int, w: int)
    requires
        perm.len() == n,
        0 <= w < n,
        forall|k: int| 0 <= k < n ==> 0 <= #[trigger] perm[k] < n,
        forall|k: int, l: int| 0 <= k < l < n ==> perm[k] != perm[l],
    ensures
        exists|k: int| 0 <= k < perm.len() && perm[k] == w,
{
    if !(exists|k: int| 0 <= k < perm.len() && perm[k] == w) {
        let s = perm.to_set();
        let full = Set::new(|x: int| 0 <= x < n && x != w);
        assert(s.subset_of(full));
        vstd::set_lib::lemma_int_range(0, n);
        assert(full =~= vstd::set_lib::set_int_range(0, n).remove(w));
        vstd::set_lib::lemma_len_subset(s, full);
        assert(perm.no_duplicates());
        perm.unique_seq_to_set();
    }
}

/// The lower-case form of `s` (Unicode lower-casing, as `str::to_lowercase` does).
pub uninterp spec fn unicode_lowercase(s: Seq<char>) -> Seq<char>;

/// `str::to_lowercase`: the Unicode lower-case form of `s`. The contract
/// names the result, and says that the empty text stays empty.
#[verifier::external_body]
pub(crate) fn lowercase(s: &str) -> (r: String)
    ensures
        r@ == unicode_lowercase(s@),
        s@.len() == 0 ==> r@.len() == 0,
{
    s.to_lowercase()
}

/// A row's title passes the title filter `filter`: the filter, trimmed and
/// lower-cased, is empty or occurs in the row's lower-cased title.
pub open spec fn title_passes(filter: Seq<char>, name_lower: Seq<char>) -> bool {
    let q = unicode_lowercase(trim(filter));
    q.len() == 0 || contains(name_lower, q)
}

/// Whether a row with lower-cased title `name_lower` passes the title filter `filter`.
pub fn title_matches(filter: &str, name_lower: &str) -> (r: bool)
    ensures
        r == title_passes(filter@, name_lower@),
        trim(filter@).len() == 0 ==> r,
{
    let f = chars_of(filter);
    let t = crate::text::string_of(trim_exec(f.as_slice()).as_slice());
    let q = chars_of(lowercase(t.as_str()).as_str());
    if q.len() == 0 {
        return true;
    }
    let n = chars_of(name_lower);
    contains_exec(n.as_slice(), q.as_slice())
}

/// Whether the title filter `filter` is set: something is left of it once trimmed.
pub fn title_filter_set(filter: &str) -> (r: bool)
    ensures
        r == (trim(filter@).len() > 0),
{
    let f = chars_of(filter);
    let (lo, hi) = trim_bounds(f.as_slice());
    lo < hi
}

/// Law: each sort key ranks rows by the row's own field: seeders and byte
/// size as whole numbers, the date as Unix seconds (0 when missing), and the
/// lower-cased title character by character, a title that is a proper
/// prefix of the other coming first.
pub proof fn lemma_key_rank_fields(a: ApiItem, an: Seq<char>, b: ApiItem, bn: Seq<char>)
    ensures
        (key_rank(a, an, b, bn, SortKey::Seeders) < 0) == (a.seeders < b.seeders),
        (key_rank(a, an, b, bn, SortKey::Seeders) == 0) == (a.seeders == b.seeders),
        (key_rank(a, an, b, bn, SortKey::Seeders) > 0) == (a.seeders > b.seeders),
        (key_rank(a, an, b, bn, SortKey::Size) < 0) == (a.size < b.size),
        (key_rank(a, an, b, bn, SortKey::Size) == 0) == (a.size == b.size),
        (key_rank(a, an, b, bn, SortKey::Size) > 0) == (a.size > b.size),
        ({
            let da: int = match a.date {
                Some(x) => x as int,
                None => 0,
            };
            let db: int = match b.date {
                Some(x) => x as int,
                None => 0,
            };
            &&& (key_rank(a, an, b, bn, SortKey::Date) < 0) == (da < db)
            &&& (key_rank(a, an, b, bn, SortKey::Date) == 0) == (da == db)
            &&& (key_rank(a, an, b, bn, SortKey::Date) > 0) == (da > db)
        }),
        (key_rank(a, an, b, bn, SortKey::Name) == 0) == (an == bn),
        key_rank(a, an, b, bn, SortKey::Name) == -key_rank(b, bn, a, an, SortKey::Name),
        forall|i: int|
            #![trigger an[i], bn[i]]
            0 <= i < an.len() && i < bn.len() && an.take(i) == bn.take(i) && an[i] < bn[i] ==> key_rank(
                a,
                an,
                b,
                bn,
                SortKey::Name,
            ) < 0,
        forall|i: int|
            0 <= i == an.len() && i < bn.len() && an == #[trigger] bn.take(i) ==> key_rank(a, an, b, bn, SortKey::Name) < 0,
{
    lemma_lex_order(an, bn, an);
    assert forall|i: int|
        #![trigger an[i], bn[i]]
        0 <= i < an.len() && i < bn.len() && an.take(i) == bn.take(i) && an[i] < bn[i] implies key_rank(
            a,
            an,
            b,
            bn,
            SortKey::Name,
        ) < 0 by {
        assert forall|k: int| 0 <= k < i implies an[k] == bn[k] by {
            assert(an.take(i)[k] == bn.take(i)[k]);
        }
        lemma_lex_order_first_difference(an, bn, i);
    }
    assert forall|i: int|
        0 <= i == an.len() && i < bn.len() && an == #[trigger] bn.take(i) implies key_rank(a, an, b, bn, SortKey::Name)
            < 0 by {
        assert forall|k: int| 0 <= k < i implies an[k] == bn[k] by {
            assert(bn.take(i)[k] == bn[k]);
        }
        lemma_lex_order_first_difference(an, bn, i);
    }
}

/// Law: a view sorted by one column alone lists its rows by that column's
/// field, largest first when descending and smallest first when ascending,
/// rows with equal fields in the server's order.
pub proof fn lemma_view_by_column(
    items: Seq<ApiItem>,
    names: Seq<String>,
    keep: Seq<bool>,
    primary: SortSpec,
    view: Seq<usize>,
)
    requires
        is_view_of(items, names, keep, primary, None, view),
    ensures
        forall|k: int, l: int|
            #![trigger view[k], view[l]]
            0 <= k < l < view.len() ==> {
                let a = items[view[k] as int];
                let b = items[view[l] as int];
                let da: int = match a.date {
                    Some(x) => x as int,
                    None => 0,
                };
                let db: int = match b.date {
                    Some(x) => x as int,
                    None => 0,
                };
                &&& primary.key == SortKey::Size && !primary.asc ==> a.size > b.size || (a.size == b.size
                    && view[k] < view[l])
                &&& primary.key == SortKey::Size && primary.asc ==> a.size < b.size || (a.size == b.size
                    && view[k] < view[l])
                &&& primary.key == SortKey::Seeders && !primary.asc ==> a.seeders > b.seeders || (a.seeders
                    == b.seeders && view[k] < view[l])
                &&& primary.key == SortKey::Seeders && primary.asc ==> a.seeders < b.seeders || (a.seeders
                    == b.seeders && view[k] < view[l])
                &&& primary.key == SortKey::Date && !primary.asc ==> da > db || (da == db && view[k] < view[l])
                &&& primary.key == SortKey::Date && primary.asc ==> da < db || (da == db && view[k] < view[l])
                &&& primary.key == SortKey::Name && names[view[k] as int]@ == names[view[l] as int]@ ==> view[k]
                    < view[l]
            },
{
    assert forall|k: int, l: int| #![trigger view[k], view[l]] 0 <= k < l < view.len() implies {
        let a = items[view[k] as int];
        let b = items[view[l] as int];
        let da: int = match a.date {
            Some(x) => x as int,
            None => 0,
        };
        let db: int = match b.date {
            Some(x) => x as int,
            None => 0,
        };
        &&& primary.key == SortKey::Size && !primary.asc ==> a.size > b.size || (a.size == b.size
            && view[k] < view[l])
        &&& primary.key == SortKey::Size && primary.asc ==> a.size < b.size || (a.size == b.size
            && view[k] < view[l])
        &&& primary.key == SortKey::Seeders && !primary.asc ==> a.seeders > b.seeders || (a.seeders
            == b.seeders && view[k] < view[l])
        &&& primary.key == SortKey::Seeders && primary.asc ==> a.seeders < b.seeders || (a.seeders
            == b.seeders && view[k] < view[l])
        &&& primary.key == SortKey::Date && !primary.asc ==> da > db || (da == db && view[k] < view[l])
        &&& primary.key == SortKey::Date && primary.asc ==> da < db || (da == db && view[k] < view[l])
        &&& primary.key == SortKey::Name && names[view[k] as int]@ == names[view[l] as int]@ ==> view[k]
            < view[l]
    } by {
        let a = items[view[k] as int];
        let b = items[view[l] as int];
        let an = names[view[k] as int]@;
        let bn = names[view[l] as int]@;
        let r = view_rank(items, names, primary, None, view[k] as int, view[l] as int);
        assert(r < 0 || (r == 0 && view[k] < view[l]));
        lemma_key_rank_fields(a, an, b, bn);
    }
}

/// Law: with every row kept and the server's order as the only sort, the
/// view lists rows with more seeders first, ties in the server's order.
pub proof fn lemma_default_view(
    items: Seq<ApiItem>,
    names: Seq<String>,
    keep: Seq<bool>,
    view: Seq<usize>,
)
    requires
        is_view_of(items, names, keep, SortSpec::spec_default(), None, view),
    ensures
        forall|k: int, l: int|
            0 <= k < l < view.len() ==> items[view[k] as int].seeders > items[view[l] as int].seeders
                || (items[view[k] as int].seeders == items[view[l] as int].seeders && view[k]
                < view[l]),
{
    assert forall|k: int, l: int| 0 <= k < l < view.len() implies items[view[k] as int].seeders
        > items[view[l] as int].seeders || (items[view[k] as int].seeders == items[view[l] as int].seeders
        && view[k] < view[l]) by {
        let r = view_rank(items, names, SortSpec::spec_default(), None, view[k] as int, view[l] as int);
        assert(r < 0 || (r == 0 && view[k] < view[l]));
    }
}

} // verus!
