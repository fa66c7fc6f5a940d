//! Enumeration of the unordered body pairs `{i, j}` of a collection of `n`
//! bodies, each visited exactly once, in the order the force pass walks
//! them: `(0,1), (0,2), ..., (0,n-1), (1,2), ...`.

use vstd::prelude::*;

verus! {

/// The pairs whose first element is exactly `i`: `(i, i+1), ..., (i, n-1)`.
pub open spec fn row_pairs(i: int, n: int) -> Seq<(int, int)> {
    if n - i - 1 >= 0 {
        Seq::new((n - i - 1) as nat, |k: int| (i, i + 1 + k))
    } else {
        Seq::empty()
    }
}

/// All pairs whose first element is below `i`, rows in increasing order of
/// the first element.
pub open spec fn pairs_below(i: int, n: int) -> Seq<(int, int)>
    decreases i,
{
    if i <= 0 {
        Seq::empty()
    } else {
        pairs_below(i - 1, n) + row_pairs(i - 1, n)
    }
}

/// Every unordered pair of distinct indices below `n`, each exactly once.
pub open spec fn pair_seq(n: int) -> Seq<(int, int)> {
    pairs_below(n, n)
}

/// The pair `(a, b)` occurs somewhere in `s`.
pub open spec fn contains_pair(s: Seq<(int, int)>, a: int, b: int) -> bool {
    exists|k: int| 0 <= k < s.len() && s[k] == (a, b)
}

/// The pairs with first element below `i` are exactly the `(a, b)` with
/// `0 <= a < i` and `a < b < n`, each exactly once.
proof fn lemma_pairs_below_exact(i: int, n: int)
    requires
        0 <= i <= n,
    ensures
        forall|k: int|
            0 <= k < pairs_below(i, n).len() ==> 0 <= (#[trigger] pairs_below(i, n)[k]).0 < i
                && pairs_below(i, n)[k].0 < pairs_below(i, n)[k].1 < n,
        forall|a: int, b: int|
            0 <= a < i && a < b < n ==> #[trigger] contains_pair(pairs_below(i, n), a, b),
        forall|k1: int, k2: int|
            0 <= k1 < k2 < pairs_below(i, n).len() ==> pairs_below(i, n)[k1]
                != pairs_below(i, n)[k2],
    decreases i,
{
    if i > 0 {
        lemma_pairs_below_exact(i - 1, n);
        let prefix = pairs_below(i - 1, n);
        let row = row_pairs(i - 1, n);
        let whole = pairs_below(i, n);
        assert(whole == prefix + row);
        assert forall|k: int|
            0 <= k < whole.len() implies 0 <= (#[trigger] whole[k]).0 < i
                && whole[k].0 < whole[k].1 < n by {
            if k < prefix.len() {
                assert(whole[k] == prefix[k]);
            } else {
                assert(whole[k] == row[k - prefix.len()]);
            }
        }
        assert forall|a: int, b: int| 0 <= a < i && a < b < n implies #[trigger] contains_pair(
            whole,
            a,
            b,
        ) by {
            if a < i - 1 {
                assert(contains_pair(prefix, a, b));
                let k = choose|k: int| 0 <= k < prefix.len() && prefix[k] == (a, b);
                assert(whole[k] == (a, b));
            } else {
                let k = prefix.len() + (b - a - 1);
                assert(row[b - a - 1] == (a, b));
                assert(whole[k as int] == (a, b));
            }
        }
        assert forall|k1: int, k2: int| 0 <= k1 < k2 < whole.len() implies whole[k1]
            != whole[k2] by {
            if k2 < prefix.len() {
                assert(whole[k1] == prefix[k1] && whole[k2] == prefix[k2]);
            } else if k1 >= prefix.len() {
                assert(whole[k1] == row[k1 - prefix.len()]);
                assert(whole[k2] == row[k2 - prefix.len()]);
            } else {
                assert(whole[k1] == prefix[k1]);
                assert(whole[k2] == row[k2 - prefix.len()]);
                assert(whole[k1].0 < i - 1 && whole[k2].0 == i - 1);
            }
        }
    }
}

/// The force pass visits each unordered pair of distinct indices exactly
/// once: every entry of `pair_seq(n)` is an ordered pair of distinct valid
/// indices, no entry repeats, and every such pair occurs.
pub proof fn lemma_each_unordered_pair_once(n: int)
    requires
        n >= 0,
    ensures
        forall|k: int|
            0 <= k < pair_seq(n).len() ==> 0 <= (#[trigger] pair_seq(n)[k]).0
                && pair_seq(n)[k].0 < pair_seq(n)[k].1 < n,
        forall|a: int, b: int| 0 <= a < b < n ==> #[trigger] contains_pair(pair_seq(n), a, b),
        forall|k1: int, k2: int|
            0 <= k1 < k2 < pair_seq(n).len() ==> pair_seq(n)[k1] != pair_seq(n)[k2],
{
    lemma_pairs_below_exact(n, n);
}

/// The view of a built pair table as mathematical index pairs.
pub open spec fn pairs_view(s: Seq<(usize, usize)>) -> Seq<(int, int)> {
    s.map_values(|p: (usize, usize)| (p.0 as int, p.1 as int))
}

/// Build the table of unordered pairs over `n` indices, in pass order.
pub(crate) fn build_pairs(n: usize) -> (r: Vec<(usize, usize)>)
    ensures
        pairs_view(r@) == pair_seq(n as int),
        forall|k: int| 0 <= k < r@.len() ==> #[trigger] r@[k].0 < r@[k].1 < n,
{
    let mut r: Vec<(usize, usize)> = Vec::new();
    let mut i: usize = 0;
    proof {
        assert(pairs_view(r@) =~= pairs_below(0, n as int));
    }
    while i < n
        invariant
            i <= n,
            pairs_view(r@) == pairs_below(i as int, n as int),
            forall|k: int| 0 <= k < r@.len() ==> #[trigger] r@[k].0 < r@[k].1 < n,
        decreases n - i,
    {
        let ghost row_start = r@.len() as int;
        let mut j: usize = i + 1;
        while j < n
            invariant
                i < n,
                i + 1 <= j <= n,
                r@.len() == row_start + (j - i - 1),
                pairs_view(r@) == pairs_below(i as int, n as int) + row_pairs(i as int, n as int).take(j - i - 1),
                forall|k: int| 0 <= k < r@.len() ==> #[trigger] r@[k].0 < r@[k].1 < n,
            decreases n - j,
        {
            let ghost prev = r@;
            r.push((i, j));
            proof {
                let m = pairs_view(r@);
                let expect = pairs_below(i as int, n as int) + row_pairs(i as int, n as int).take(
                    j - i,
                );
                assert(row_pairs(i as int, n as int).len() == n - i - 1);
                assert(pairs_view(prev).len() == prev.len());
                assert(pairs_view(prev).len() == pairs_below(i as int, n as int).len() + (j - i
                    - 1));
                assert(m.len() == prev.len() + 1);
                assert(row_pairs(i as int, n as int).take(j - i).len() == j - i);
                assert(m.len() == expect.len());
                assert forall|k: int| 0 <= k < m.len() implies m[k] == expect[k] by {
                    if k < prev.len() {
                        assert(r@[k] == prev[k]);
                        assert(m[k] == pairs_view(prev)[k]);
                    } else {
                        assert(r@[k] == (i, j));
                        assert(expect[k] == row_pairs(i as int, n as int)[j - i - 1]);
                        assert(row_pairs(i as int, n as int)[j - i - 1] == (i as int, j as int));
                    }
                }
                assert(m =~= expect);
            }
            j += 1;
        }
        i += 1;
        proof {
            assert(row_pairs(i - 1, n as int).take(n - i) =~= row_pairs(i - 1, n as int));
            assert(pairs_view(r@) =~= pairs_below(i as int, n as int));
        }
    }
    proof {
        assert(pairs_view(r@) == pair_seq(n as int));
    }
    r
}

} // verus!
