use vstd::prelude::*;

use crate::row::{key_of, KeyV, RowV};
use vstd::seq_lib::{commutative_foldl, lemma_fold_left_permutation};

verus! {

/// Per-row quantities the statistics sum over; a missing optional value
/// counts as zero, exactly as the aggregation treats it.
pub open spec fn profit_of(r: RowV) -> int {
    r.profit_total
}

pub open spec fn trades_of(r: RowV) -> int {
    r.total_trades
}

pub open spec fn wins_of(r: RowV) -> int {
    r.wins
}

pub open spec fn holding_of(r: RowV) -> int {
    match r.winner_holding_avg_s {
        Some(v) => v,
        None => 0,
    }
}

pub open spec fn drawdown_of(r: RowV) -> int {
    match r.max_drawdown {
        Some(v) => v,
        None => 0,
    }
}

pub open spec fn rejected_of(r: RowV) -> int {
    match r.rejected_signals {
        Some(v) => v,
        None => 0,
    }
}

pub open spec fn gain_of(r: RowV) -> int {
    if r.profit_total > 0 {
        r.profit_total
    } else {
        0
    }
}

pub open spec fn loss_abs_of(r: RowV) -> int {
    if r.profit_total < 0 {
        -r.profit_total
    } else {
        0
    }
}

pub open spec fn neg_of(r: RowV) -> int {
    if r.profit_total < 0 {
        1
    } else {
        0
    }
}

/// Squared deviation of a row's profit from a given mean.
pub open spec fn sq_dev_of(r: RowV, mean: int) -> int {
    (mean - r.profit_total) * (mean - r.profit_total)
}

/// Sum of a per-row quantity over a cohort.
pub open spec fn sum_of(c: Seq<RowV>, f: spec_fn(RowV) -> int) -> int {
    c.fold_left(0, |acc: int, r: RowV| acc + f(r))
}

/// The selectors as function values, so every contract applies the same
/// function term to `sum_of`.
pub open spec fn profit_fn() -> spec_fn(RowV) -> int {
    |r: RowV| profit_of(r)
}

pub open spec fn trades_fn() -> spec_fn(RowV) -> int {
    |r: RowV| trades_of(r)
}

pub open spec fn wins_fn() -> spec_fn(RowV) -> int {
    |r: RowV| wins_of(r)
}

pub open spec fn holding_fn() -> spec_fn(RowV) -> int {
    |r: RowV| holding_of(r)
}

pub open spec fn drawdown_fn() -> spec_fn(RowV) -> int {
    |r: RowV| drawdown_of(r)
}

pub open spec fn rejected_fn() -> spec_fn(RowV) -> int {
    |r: RowV| rejected_of(r)
}

pub open spec fn gain_fn() -> spec_fn(RowV) -> int {
    |r: RowV| gain_of(r)
}

pub open spec fn loss_abs_fn() -> spec_fn(RowV) -> int {
    |r: RowV| loss_abs_of(r)
}

pub open spec fn neg_fn() -> spec_fn(RowV) -> int {
    |r: RowV| neg_of(r)
}

pub open spec fn sq_dev_fn(mean: int) -> spec_fn(RowV) -> int {
    |r: RowV| sq_dev_of(r, mean)
}

/// Largest profit over a cohort, if it has any rows.
pub open spec fn max_profit_of(c: Seq<RowV>) -> Option<int> {
    c.fold_left(
        None,
        |acc: Option<int>, r: RowV|
            match acc {
                None => Some(r.profit_total),
                Some(m) => Some(
                    if r.profit_total > m {
                        r.profit_total
                    } else {
                        m
                    },
                ),
            },
    )
}

/// Smallest profit over a cohort, if it has any rows.
pub open spec fn min_profit_of(c: Seq<RowV>) -> Option<int> {
    c.fold_left(
        None,
        |acc: Option<int>, r: RowV|
            match acc {
                None => Some(r.profit_total),
                Some(m) => Some(
                    if r.profit_total < m {
                        r.profit_total
                    } else {
                        m
                    },
                ),
            },
    )
}

/// The distinct cohort keys of a row sequence, in order of first
/// appearance.
pub open spec fn first_keys(c: Seq<RowV>) -> Seq<KeyV> {
    c.fold_left(
        Seq::<KeyV>::empty(),
        |ks: Seq<KeyV>, r: RowV|
            if ks.contains(key_of(r)) {
                ks
            } else {
                ks.push(key_of(r))
            },
    )
}

/// Membership of one cohort.
pub open spec fn key_pred(k: KeyV) -> spec_fn(RowV) -> bool {
    |r: RowV| key_of(r) == k
}

/// The rows of the cohort with key `k`, in input order.
pub open spec fn cohort_of(c: Seq<RowV>, k: KeyV) -> Seq<RowV> {
    c.filter(key_pred(k))
}

/// Extending a prefix by one row adds that row's quantity to the sum.
pub proof fn lemma_sum_take_step(c: Seq<RowV>, f: spec_fn(RowV) -> int, i: int)
    requires
        0 <= i < c.len(),
    ensures
        sum_of(c.take(i + 1), f) == sum_of(c.take(i), f) + f(c[i]),
{
    assert(c.take(i + 1).drop_last() =~= c.take(i));
    assert(c.take(i + 1).last() == c[i]);
}

/// Extending a prefix by one row updates the running maximum.
pub proof fn lemma_max_take_step(c: Seq<RowV>, i: int)
    requires
        0 <= i < c.len(),
    ensures
        max_profit_of(c.take(i + 1)) == match max_profit_of(c.take(i)) {
            None => Some(c[i].profit_total),
            Some(m) => Some(
                if c[i].profit_total > m {
                    c[i].profit_total
                } else {
                    m
                },
            ),
        },
{
    assert(c.take(i + 1).drop_last() =~= c.take(i));
    assert(c.take(i + 1).last() == c[i]);
}

/// Extending a prefix by one row updates the running minimum.
pub proof fn lemma_min_take_step(c: Seq<RowV>, i: int)
    requires
        0 <= i < c.len(),
    ensures
        min_profit_of(c.take(i + 1)) == match min_profit_of(c.take(i)) {
            None => Some(c[i].profit_total),
            Some(m) => Some(
                if c[i].profit_total < m {
                    c[i].profit_total
                } else {
                    m
                },
            ),
        },
{
    assert(c.take(i + 1).drop_last() =~= c.take(i));
    assert(c.take(i + 1).last() == c[i]);
}

/// Extending a prefix by one row keeps the key list, or appends the row's
/// key if it is new.
pub proof fn lemma_first_keys_take_step(c: Seq<RowV>, i: int)
    requires
        0 <= i < c.len(),
    ensures
        first_keys(c.take(i + 1)) == if first_keys(c.take(i)).contains(key_of(c[i])) {
            first_keys(c.take(i))
        } else {
            first_keys(c.take(i)).push(key_of(c[i]))
        },
{
    assert(c.take(i + 1).drop_last() =~= c.take(i));
    assert(c.take(i + 1).last() == c[i]);
}

/// Extending a prefix by one row extends exactly the cohort of that row's
/// key and no other.
pub proof fn lemma_cohort_take_step(c: Seq<RowV>, k: KeyV, i: int)
    requires
        0 <= i < c.len(),
    ensures
        cohort_of(c.take(i + 1), k) == if key_of(c[i]) == k {
            cohort_of(c.take(i), k).push(c[i])
        } else {
            cohort_of(c.take(i), k)
        },
{
    reveal(Seq::filter);
    assert(c.take(i + 1).drop_last() =~= c.take(i));
    assert(c.take(i + 1).last() == c[i]);
}

/// A cohort sum does not depend on the order rows arrived in.
pub proof fn lemma_sum_permutation(c1: Seq<RowV>, c2: Seq<RowV>, f: spec_fn(RowV) -> int)
    requires
        c1.to_multiset() == c2.to_multiset(),
    ensures
        sum_of(c1, f) == sum_of(c2, f),
{
    let g = |acc: int, r: RowV| acc + f(r);
    assert(commutative_foldl(g)) by {
        assert forall|x: RowV, y: RowV, v: int| #[trigger] g(g(v, x), y) == g(g(v, y), x) by {}
    }
    lemma_fold_left_permutation(c1, c2, g, 0);
}

/// The cohort maximum does not depend on the order rows arrived in.
pub proof fn lemma_max_permutation(c1: Seq<RowV>, c2: Seq<RowV>)
    requires
        c1.to_multiset() == c2.to_multiset(),
    ensures
        max_profit_of(c1) == max_profit_of(c2),
{
    let g = |acc: Option<int>, r: RowV|
        match acc {
            None => Some(r.profit_total),
            Some(m) => Some(
                if r.profit_total > m {
                    r.profit_total
                } else {
                    m
                },
            ),
        };
    assert(commutative_foldl(g)) by {
        assert forall|x: RowV, y: RowV, v: Option<int>| #[trigger]
            g(g(v, x), y) == g(g(v, y), x) by {}
    }
    lemma_fold_left_permutation(c1, c2, g, None);
}

/// The cohort minimum does not depend on the order rows arrived in.
pub proof fn lemma_min_permutation(c1: Seq<RowV>, c2: Seq<RowV>)
    requires
        c1.to_multiset() == c2.to_multiset(),
    ensures
        min_profit_of(c1) == min_profit_of(c2),
{
    let g = |acc: Option<int>, r: RowV|
        match acc {
            None => Some(r.profit_total),
            Some(m) => Some(
                if r.profit_total < m {
                    r.profit_total
                } else {
                    m
                },
            ),
        };
    assert(commutative_foldl(g)) by {
        assert forall|x: RowV, y: RowV, v: Option<int>| #[trigger]
            g(g(v, x), y) == g(g(v, y), x) by {}
    }
    lemma_fold_left_permutation(c1, c2, g, None);
}

/// A sum over rows that all contribute zero is zero.
pub proof fn lemma_sum_zero(c: Seq<RowV>, f: spec_fn(RowV) -> int)
    requires
        forall|i: int| 0 <= i < c.len() ==> f(c[i]) == 0,
    ensures
        sum_of(c, f) == 0,
    decreases c.len(),
{
    if c.len() > 0 {
        assert(forall|i: int| 0 <= i < c.drop_last().len() ==> c.drop_last()[i] == c[i]);
        lemma_sum_zero(c.drop_last(), f);
        assert(f(c.last()) == 0);
    }
}

/// The distinct-key list has no duplicates and holds exactly the keys
/// that occur in the sequence.
pub proof fn lemma_first_keys_props(c: Seq<RowV>)
    ensures
        first_keys(c).no_duplicates(),
        forall|k: KeyV|
            #[trigger] first_keys(c).contains(k) <==> exists|i: int|
                0 <= i < c.len() && key_of(c[i]) == k,
    decreases c.len(),
{
    if c.len() == 0 {
    } else {
        let d = c.drop_last();
        lemma_first_keys_props(d);
        let ks = first_keys(d);
        let x = key_of(c.last());
        assert(first_keys(c) == if ks.contains(x) {
            ks
        } else {
            ks.push(x)
        });
        assert(forall|i: int| 0 <= i < d.len() ==> d[i] == c[i]);
        if ks.contains(x) {
            assert forall|k: KeyV| #[trigger] first_keys(c).contains(k) implies exists|i: int|
                0 <= i < c.len() && key_of(c[i]) == k by {
                let i = choose|i: int| 0 <= i < d.len() && key_of(d[i]) == k;
                assert(key_of(c[i]) == k);
            }
            assert forall|k: KeyV|
                exists|i: int| 0 <= i < c.len() && key_of(c[i]) == k implies #[trigger] first_keys(
                c,
            ).contains(k) by {
                let i = choose|i: int| 0 <= i < c.len() && key_of(c[i]) == k;
                if i < c.len() - 1 {
                    assert(key_of(d[i]) == k);
                } else {
                    assert(k == x);
                }
            }
        } else {
            assert(first_keys(c) == ks.push(x));
            assert forall|k: KeyV| #[trigger] first_keys(c).contains(k) implies exists|i: int|
                0 <= i < c.len() && key_of(c[i]) == k by {
                let j = choose|j: int| 0 <= j < ks.push(x).len() && ks.push(x)[j] == k;
                if j < ks.len() {
                    assert(ks.contains(k));
                    let i = choose|i: int| 0 <= i < d.len() && key_of(d[i]) == k;
                    assert(key_of(c[i]) == k);
                } else {
                    assert(k == x);
                    assert(key_of(c[c.len() - 1]) == k);
                }
            }
            assert forall|k: KeyV|
                exists|i: int| 0 <= i < c.len() && key_of(c[i]) == k implies #[trigger] first_keys(
                c,
            ).contains(k) by {
                let i = choose|i: int| 0 <= i < c.len() && key_of(c[i]) == k;
                if i < c.len() - 1 {
                    assert(key_of(d[i]) == k);
                    assert(ks.contains(k));
                    let j = choose|j: int| 0 <= j < ks.len() && ks[j] == k;
                    assert(ks.push(x)[j] == k);
                } else {
                    assert(ks.push(x)[ks.len() as int] == x);
                }
            }
            assert(!ks.contains(x));
            assert(first_keys(c).no_duplicates()) by {
                assert(forall|j: int| 0 <= j < ks.len() ==> ks.push(x)[j] == ks[j]);
                assert(forall|i: int, j: int|
                    0 <= i < j < ks.push(x).len() ==> ks.push(x)[i] != ks.push(x)[j]) by {
                    assert forall|i: int, j: int|
                        0 <= i < j < ks.push(x).len() implies ks.push(x)[i] != ks.push(x)[j] by {
                        if j < ks.len() {
                        } else {
                            assert(ks.push(x)[j] == x);
                            assert(ks.contains(ks[i]));
                        }
                    }
                }
            }
        }
    }
}

/// A key no row carries has an empty cohort.
pub proof fn lemma_cohort_of_none(c: Seq<RowV>, k: KeyV)
    requires
        forall|i: int| 0 <= i < c.len() ==> key_of(c[i]) != k,
    ensures
        cohort_of(c, k) == Seq::<RowV>::empty(),
    decreases c.len(),
{
    reveal(Seq::filter);
    if c.len() > 0 {
        assert(forall|i: int| 0 <= i < c.drop_last().len() ==> c.drop_last()[i] == c[i]);
        lemma_cohort_of_none(c.drop_last(), k);
        assert(key_of(c.last()) != k);
    } else {
        assert(c.filter(key_pred(k)) =~= Seq::<RowV>::empty());
    }
}

/// Every member of a cohort carries the cohort's key, and a cohort is no
/// longer than its source.
pub proof fn lemma_cohort_members(c: Seq<RowV>, k: KeyV)
    ensures
        cohort_of(c, k).len() <= c.len(),
        forall|i: int|
            0 <= i < cohort_of(c, k).len() ==> key_of(#[trigger] cohort_of(c, k)[i]) == k,
{
    c.lemma_filter_len(key_pred(k));
    assert forall|i: int| 0 <= i < cohort_of(c, k).len() implies key_of(
        #[trigger] cohort_of(c, k)[i],
    ) == k by {
        c.lemma_filter_pred(key_pred(k), i);
    }
}

} // verus!
