use vstd::prelude::*;
use vstd::relations::{sorted_by, total_ordering};
use vstd::seq_lib::{lemma_sorted_unique, to_multiset_update};

verus! {

/// The order in which prices are sorted: ascending.
pub open spec fn price_le() -> spec_fn(i128, i128) -> bool {
    |a: i128, b: i128| a <= b
}

/// The prices in ascending order.
pub open spec fn sorted_prices(prices: Seq<i128>) -> Seq<i128> {
    prices.sort_by(price_le())
}

/// Half of `x`, rounded toward zero, as integer division by two does.
pub open spec fn half_toward_zero(x: int) -> int {
    if x >= 0 {
        x / 2
    } else {
        -((-x) / 2)
    }
}

/// The median of the prices: the middle price once sorted, or, for an even
/// number of prices, the mean of the two middle ones rounded toward zero;
/// 0 when there are no prices.
pub open spec fn median(prices: Seq<i128>) -> int {
    let n = prices.len() as int;
    let t = sorted_prices(prices);
    if n == 0 {
        0
    } else if n % 2 == 0 {
        half_toward_zero(t[n / 2 - 1] + t[n / 2])
    } else {
        t[n / 2] as int
    }
}

/// The median can be computed in `i128`: for an even number of prices, the
/// sum of the two middle prices fits.
pub open spec fn median_fits(prices: Seq<i128>) -> bool {
    let n = prices.len() as int;
    let t = sorted_prices(prices);
    n > 0 && n % 2 == 0 ==> i128::MIN <= t[n / 2 - 1] + t[n / 2] <= i128::MAX
}

/// The sorted prices are a sorted permutation of the prices, and the only one.
pub proof fn lemma_sorted_prices(prices: Seq<i128>)
    ensures
        sorted_by(sorted_prices(prices), price_le()),
        sorted_prices(prices).to_multiset() == prices.to_multiset(),
        sorted_prices(prices).len() == prices.len(),
        forall|t: Seq<i128>|
            sorted_by(t, price_le()) && t.to_multiset() == prices.to_multiset() ==> t
                == sorted_prices(prices),
{
    broadcast use vstd::seq_lib::group_to_multiset_ensures;

    assert(total_ordering(price_le()));
    prices.lemma_sort_by_ensures(price_le());
    assert(sorted_prices(prices).len() == sorted_prices(prices).to_multiset().len());
    assert forall|t: Seq<i128>|
        sorted_by(t, price_le()) && t.to_multiset() == prices.to_multiset() implies t
        == sorted_prices(prices) by {
        lemma_sorted_unique(t, sorted_prices(prices), price_le());
    }
}

/// Sorts the prices in ascending order, in place: for each position in turn,
/// every later price smaller than the one there is swapped into it.
pub fn sort_prices(prices: &mut Vec<i128>)
    ensures
        final(prices)@ == sorted_prices(old(prices)@),
{
    broadcast use vstd::seq_lib::group_to_multiset_ensures;
    broadcast use vstd::multiset::group_multiset_axioms;

    let ghost unsorted = prices@;
    let n = prices.len();
    if n <= 1 {
        proof {
            lemma_sorted_prices(unsorted);
            assert(sorted_by(unsorted, price_le()));
        }
        return;
    }
    let mut i: usize = 0;
    while i < n
        invariant
            n == prices@.len(),
            i <= n,
            prices@.to_multiset() == unsorted.to_multiset(),
            forall|a: int, b: int| 0 <= a < b < i ==> prices@[a] <= prices@[b],
            forall|a: int, b: int| 0 <= a < i <= b < n ==> prices@[a] <= prices@[b],
        decreases n - i,
    {
        let mut j: usize = i + 1;
        while j < n
            invariant
                n == prices@.len(),
                i < n,
                i + 1 <= j <= n,
                prices@.to_multiset() == unsorted.to_multiset(),
                forall|a: int, b: int| 0 <= a < b < i ==> prices@[a] <= prices@[b],
                forall|a: int, b: int| 0 <= a < i <= b < n ==> prices@[a] <= prices@[b],
                forall|k: int| i < k < j ==> prices@[i as int] <= prices@[k],
            decreases n - j,
        {
            if prices[i] > prices[j] {
                let ghost before = prices@;
                let tmp = prices[i];
                let pj = prices[j];
                prices.set(i, pj);
                prices.set(j, tmp);
                proof {
                    let s1 = before.update(i as int, pj);
                    assert(prices@ == s1.update(j as int, tmp));
                    to_multiset_update(before, i as int, pj);
                    to_multiset_update(s1, j as int, tmp);
                    let m0 = before.to_multiset();
                    assert(s1[j as int] == pj);
                    assert(before[i as int] == tmp);
                    assert(before.contains(tmp));
                    before.to_multiset_ensures();
                    assert(m0.count(tmp) > 0);
                    assert forall|x: i128| #[trigger] prices@.to_multiset().count(x) == m0.count(
                        x,
                    ) by {}
                    assert(prices@.to_multiset() =~= before.to_multiset());
                }
            }
            j = j + 1;
        }
        i = i + 1;
    }
    proof {
        lemma_sorted_prices(unsorted);
        assert(sorted_by(prices@, price_le()));
    }
}

/// The median of the prices (see [`median`]), computed on a sorted copy.
pub fn compute_median(prices: &Vec<i128>) -> (m: i128)
    requires
        median_fits(prices@),
    ensures
        m == median(prices@),
{
    let n = prices.len();
    if n == 0 {
        return 0;
    }
    let mut sorted = prices.clone();
    sort_prices(&mut sorted);
    proof {
        lemma_sorted_prices(prices@);
    }
    if n % 2 == 0 {
        let mid = n / 2;
        let a = sorted[mid - 1];
        let b = sorted[mid];
        (a + b) / 2
    } else {
        sorted[n / 2]
    }
}

/// The median of positive prices is not negative.
pub proof fn lemma_median_of_positive(prices: Seq<i128>)
    requires
        forall|i: int| 0 <= i < prices.len() ==> prices[i] > 0,
    ensures
        median(prices) >= 0,
{
    lemma_sorted_prices(prices);
    prices.lemma_sort_by_ensures(price_le());
    let t = sorted_prices(prices);
    assert forall|k: int| 0 <= k < t.len() implies t[k] > 0 by {
        assert(t.contains(t[k]));
        assert(prices.contains(t[k]));
    }
}

/// Whether the median of the prices can be computed in `i128`.
pub fn median_is_computable(prices: &Vec<i128>) -> (r: bool)
    ensures
        r == median_fits(prices@),
{
    let n = prices.len();
    if n == 0 || n % 2 == 1 {
        return true;
    }
    let mut sorted = prices.clone();
    sort_prices(&mut sorted);
    proof {
        lemma_sorted_prices(prices@);
    }
    let a = sorted[n / 2 - 1];
    let b = sorted[n / 2];
    a.checked_add(b).is_some()
}

} // verus!
