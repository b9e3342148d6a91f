//! Stable sorting by a total preorder, with the arrangement it produces stated
//! exactly: the output is the input permuted so that it is ordered by rank and,
//! among equal ranks, by position in the input.
use vstd::prelude::*;

verus! {

/// A total preorder on the values of `Elem` that `admits`: `rank(x, y)` is
/// negative when `x` goes first, positive when `y` does, 0 when they tie.
pub trait RankOrder {
    type Elem;

    spec fn admits(&self, x: Self::Elem) -> bool;

    spec fn rank(&self, x: Self::Elem, y: Self::Elem) -> int;

    fn rank_exec(&self, x: &Self::Elem, y: &Self::Elem) -> (r: i8)
        requires
            self.admits(*x),
            self.admits(*y),
        ensures
            r == self.rank(*x, *y),
    ;

    proof fn lemma_rank(&self, x: Self::Elem, y: Self::Elem, z: Self::Elem)
        requires
            self.admits(x),
            self.admits(y),
            self.admits(z),
        ensures
            self.rank(x, y) == -self.rank(y, x),
            self.rank(x, y) <= 0 && self.rank(y, z) <= 0 ==> self.rank(x, z) <= 0,
    ;
}

/// `x`, which stood at position `px`, comes before `y`, which stood at `py`:
/// it ranks lower, or ties and stood earlier.
pub open spec fn precedes<O: RankOrder>(o: &O, x: O::Elem, px: int, y: O::Elem, py: int) -> bool {
    o.rank(x, y) < 0 || (o.rank(x, y) == 0 && px < py)
}

/// `out` is `input` rearranged by `perm` (`out[k] == input[perm[k]]`, the
/// `perm[k]` distinct positions of `input`), in rank order, ties kept in
/// the order of the input.
pub open spec fn is_stable_arrangement<O: RankOrder>(
    o: &O,
    input: Seq<O::Elem>,
    out: Seq<O::Elem>,
    perm: Seq<int>,
) -> bool {
    &&& out.len() == input.len()
    &&& perm.len() == input.len()
    &&& forall|k: int| 0 <= k < out.len() ==> 0 <= #[trigger] perm[k] < input.len()
    &&& forall|k: int| 0 <= k < out.len() ==> #[trigger] out[k] == input[perm[k]]
    &&& forall|k: int, l: int| 0 <= k < l < out.len() ==> perm[k] != perm[l]
    &&& forall|k: int, l: int|
        0 <= k < l < out.len() ==> precedes(o, #[trigger] out[k], perm[k], #[trigger] out[l], perm[l])
}

/// Sorts `v` stably by the order `o`, returning the arrangement's permutation as well.
pub fn stable_sort<O: RankOrder>(o: &O, v: Vec<O::Elem>) -> (r: (Vec<O::Elem>, Ghost<Seq<int>>))
    requires
        forall|k: int| 0 <= k < v@.len() ==> o.admits(#[trigger] v@[k]),
    ensures
        is_stable_arrangement(o, v@, r.0@, r.1@),
{
    let ghost input = v@;
    let mut rest = v;
    let mut out: Vec<O::Elem> = Vec::new();
    let ghost mut perm: Seq<int> = Seq::empty();
    let mut i: usize = 0;
    let n = rest.len();
    while i < n
        invariant
            n == input.len(),
            i <= n,
            rest@ == input.skip(i as int),
            forall|k: int| 0 <= k < input.len() ==> o.admits(#[trigger] input[k]),
            is_stable_arrangement(o, input.take(i as int), out@, perm),
        decreases n - i,
    {
        assert(rest@.len() > 0);
        let x = rest.remove(0);
        assert(x == input[i as int]);
        assert(rest@ =~= input.skip(i + 1));
        let mut p: usize = out.len();
        while p > 0 && o.rank_exec(&x, &out[p - 1]) < 0
            invariant
                p <= out@.len(),
                o.admits(x),
                forall|k: int| 0 <= k < out@.len() ==> o.admits(#[trigger] out@[k]),
                forall|k: int| p <= k < out@.len() ==> o.rank(x, #[trigger] out@[k]) < 0,
            decreases p,
        {
            p = p - 1;
        }
        proof {
            let s = out@;
            assert forall|k: int| 0 <= k < p implies o.rank(#[trigger] s[k], x) <= 0 by {
                assert(o.rank(x, s[p - 1]) >= 0);
                o.lemma_rank(x, s[p - 1], x);
                if k < p - 1 {
                    assert(precedes(o, s[k], perm[k], s[p - 1], perm[p - 1]));
                    o.lemma_rank(s[k], s[p - 1], x);
                }
            }
            assert forall|k: int| p <= k < s.len() implies o.rank(x, #[trigger] s[k]) < 0 by {}
        }
        let ghost old_out = out@;
        let ghost old_perm = perm;
        out.insert(p, x);
        proof {
            perm = old_perm.insert(p as int, i as int);
            let s = out@;
            assert(input.take(i + 1).len() == i + 1);
            assert forall|k: int| 0 <= k < s.len() implies #[trigger] s[k] == input.take(i + 1)[perm[k]]
                && 0 <= perm[k] < i + 1 by {
                if k < p {
                    assert(s[k] == old_out[k]);
                } else if k > p {
                    assert(s[k] == old_out[k - 1]);
                }
            }
            assert forall|k: int, l: int| 0 <= k < l < s.len() implies perm[k] != perm[l] by {
                if k < p && l > p {
                    assert(perm[l] == old_perm[l - 1]);
                } else if k > p {
                    assert(perm[k] == old_perm[k - 1]);
                }
            }
            assert forall|k: int, l: int| 0 <= k < l < s.len() implies precedes(
                o,
                #[trigger] s[k],
                perm[k],
                #[trigger] s[l],
                perm[l],
            ) by {
                if l < p {
                    assert(precedes(o, old_out[k], old_perm[k], old_out[l], old_perm[l]));
                } else if l == p {
                    assert(o.rank(old_out[k], x) <= 0);
                    assert(old_perm[k] < i);
                } else if k < p {
                    assert(precedes(o, old_out[k], old_perm[k], old_out[l - 1], old_perm[l - 1]));
                } else if k == p {
                    assert(o.rank(x, old_out[l - 1]) < 0);
                    o.lemma_rank(x, old_out[l - 1], x);
                } else {
                    assert(precedes(o, old_out[k - 1], old_perm[k - 1], old_out[l - 1], old_perm[l - 1]));
                }
            }
        }
        i = i + 1;
    }
    assert(input.take(n as int) =~= input);
    (out, Ghost(perm))
}

} // verus!
