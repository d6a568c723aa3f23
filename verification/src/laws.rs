use vstd::prelude::*;

use crate::arith::NO_LOSS_PROFIT_FACTOR;
use crate::monthly::monthly_of;
use crate::row::{key_of, stamp_of, KeyV, RowV};
use crate::stats::{
    cohort_of, drawdown_fn, first_keys, gain_fn, holding_fn, key_pred, lemma_first_keys_props,
    lemma_max_permutation, lemma_min_permutation, lemma_sum_permutation, lemma_sum_zero,
    loss_abs_fn, max_profit_of, min_profit_of, neg_fn, profit_fn, rejected_fn, sq_dev_fn, sum_of,
    trades_fn, wins_fn,
};
use crate::summary::{distinct_stamps, reduce_spec};
use vstd::multiset::Multiset;

verus! {

/// The row-source data invariant: two rows of the same cohort never share
/// a month stamp.
pub open spec fn distinct_stamps_by_key(s: Seq<RowV>) -> bool {
    forall|i: int, j: int|
        0 <= i < j < s.len() && key_of(s[i]) == key_of(s[j]) ==> stamp_of(s[i].timerange)
            != stamp_of(s[j].timerange)
}

/// A value sitting at two positions counts at least twice.
proof fn lemma_dup_count(s: Seq<RowV>, i: int, j: int)
    requires
        0 <= i < j < s.len(),
        s[i] == s[j],
    ensures
        s.to_multiset().count(s[i]) >= 2,
{
    broadcast use vstd::seq_lib::group_to_multiset_ensures;
    broadcast use vstd::multiset::group_multiset_axioms;

    let v = s[i];
    assert(s.remove(j).to_multiset() =~= s.to_multiset().remove(v));
    assert(s.remove(j)[i] == v);
    assert(s.remove(j).contains(v));
    assert(s.remove(j).to_multiset().count(v) > 0);
    assert(s.to_multiset().remove(v).count(v) >= 1);
    assert(s.to_multiset().count(v) >= 2);
}

/// A value counted at least twice sits at two positions.
proof fn lemma_count_two_indices(s: Seq<RowV>, v: RowV)
    requires
        s.to_multiset().count(v) >= 2,
    ensures
        exists|i: int, j: int| 0 <= i < j < s.len() && s[i] == v && s[j] == v,
{
    broadcast use vstd::seq_lib::group_to_multiset_ensures;
    broadcast use vstd::multiset::group_multiset_axioms;

    assert(s.contains(v));
    let i = choose|i: int| 0 <= i < s.len() && s[i] == v;
    assert(s.remove(i).to_multiset() =~= s.to_multiset().remove(s[i]));
    assert(s.remove(i).to_multiset().count(v) >= 1);
    assert(s.remove(i).contains(v));
    let i2 = choose|i2: int| 0 <= i2 < s.remove(i).len() && s.remove(i)[i2] == v;
    if i2 < i {
        assert(s[i2] == v);
        assert(0 <= i2 < i < s.len() && s[i2] == v && s[i] == v);
    } else {
        assert(s[i2 + 1] == v);
        assert(0 <= i < i2 + 1 < s.len() && s[i] == v && s[i2 + 1] == v);
    }
}

/// Filtering commutes with forgetting order.
proof fn lemma_filter_multiset_commute(s: Seq<RowV>, p: spec_fn(RowV) -> bool)
    ensures
        s.filter(p).to_multiset() == s.to_multiset().filter(p),
    decreases s.len(),
{
    reveal(Seq::filter);
    broadcast use vstd::seq_lib::group_to_multiset_ensures;
    broadcast use vstd::multiset::group_multiset_axioms;

    if s.len() == 0 {
        assert(s.filter(p) == s);
        assert(s.to_multiset().len() == 0);
        assert(s.to_multiset() =~= Multiset::<RowV>::empty()) by {
            assert(forall|v: RowV|
                s.to_multiset().count(v) == 0 && Multiset::<RowV>::empty().count(v) == 0);
        }
        assert(Multiset::<RowV>::empty().filter(p) =~= Multiset::<RowV>::empty());
        assert(s.filter(p).to_multiset() =~= Multiset::<RowV>::empty());
    } else {
        let d = s.drop_last();
        let x = s.last();
        lemma_filter_multiset_commute(d, p);
        assert(d.push(x) =~= s);
        assert(d.push(x).to_multiset() =~= d.to_multiset().insert(x));
        if p(x) {
            assert(s.filter(p) == d.filter(p).push(x));
            assert(d.filter(p).push(x).to_multiset() =~= d.filter(p).to_multiset().insert(x));
            assert(d.to_multiset().insert(x).filter(p) =~= d.to_multiset().filter(p).insert(x));
        } else {
            assert(s.filter(p) == d.filter(p));
            assert(d.to_multiset().insert(x).filter(p) =~= d.to_multiset().filter(p));
        }
    }
}

/// A reordering of the rows reorders each cohort.
proof fn lemma_cohort_permutation(a: Seq<RowV>, b: Seq<RowV>, k: KeyV)
    requires
        a.to_multiset() == b.to_multiset(),
    ensures
        cohort_of(a, k).to_multiset() == cohort_of(b, k).to_multiset(),
{
    lemma_filter_multiset_commute(a, key_pred(k));
    lemma_filter_multiset_commute(b, key_pred(k));
}

/// Under the distinct-stamp invariant the monthly map is exactly one
/// entry per row: its domain is the set of stamps, and each stamp maps to
/// its row's profit.
proof fn lemma_monthly_char(c: Seq<RowV>)
    requires
        distinct_stamps(c),
    ensures
        forall|k: int|
            #[trigger] monthly_of(c).dom().contains(k) <==> exists|i: int|
                0 <= i < c.len() && stamp_of(c[i].timerange) == k,
        forall|i: int|
            0 <= i < c.len() ==> monthly_of(c)[stamp_of(#[trigger] c[i].timerange)]
                == c[i].profit_total,
    decreases c.len(),
{
    if c.len() > 0 {
        let d = c.drop_last();
        let x = c.last();
        assert(forall|i: int| 0 <= i < d.len() ==> d[i] == c[i]);
        lemma_monthly_char(d);
        assert(monthly_of(c) == monthly_of(d).insert(stamp_of(x.timerange), x.profit_total));
        assert forall|i: int| 0 <= i < c.len() implies monthly_of(c)[stamp_of(
            #[trigger] c[i].timerange,
        )] == c[i].profit_total by {
            if i < c.len() - 1 {
                assert(stamp_of(c[i].timerange) != stamp_of(x.timerange));
            }
        }
        assert forall|k: int| #[trigger] monthly_of(c).dom().contains(k) implies exists|i: int|
            0 <= i < c.len() && stamp_of(c[i].timerange) == k by {
            if k == stamp_of(x.timerange) {
                assert(stamp_of(c[c.len() - 1].timerange) == k);
            } else {
                let i = choose|i: int| 0 <= i < d.len() && stamp_of(d[i].timerange) == k;
                assert(stamp_of(c[i].timerange) == k);
            }
        }
    }
}

/// The distinct-stamp invariant survives reordering.
proof fn lemma_distinct_transfer(c1: Seq<RowV>, c2: Seq<RowV>)
    requires
        c1.to_multiset() == c2.to_multiset(),
        distinct_stamps(c1),
    ensures
        distinct_stamps(c2),
{
    broadcast use vstd::seq_lib::group_to_multiset_ensures;

    assert forall|i: int, j: int| 0 <= i < j < c2.len() implies stamp_of(
        c2[i].timerange,
    ) != stamp_of(c2[j].timerange) by {
        if stamp_of(c2[i].timerange) == stamp_of(c2[j].timerange) {
            if c2[i] == c2[j] {
                lemma_dup_count(c2, i, j);
                lemma_count_two_indices(c1, c2[i]);
                let (a, b) = choose|a: int, b: int|
                    0 <= a < b < c1.len() && c1[a] == c2[i] && c1[b] == c2[i];
                assert(stamp_of(c1[a].timerange) == stamp_of(c1[b].timerange));
            } else {
                assert(c2.contains(c2[i]));
                assert(c1.contains(c2[i]));
                assert(c2.contains(c2[j]));
                assert(c1.contains(c2[j]));
                let a = choose|a: int| 0 <= a < c1.len() && c1[a] == c2[i];
                let b = choose|b: int| 0 <= b < c1.len() && c1[b] == c2[j];
                assert(a != b);
                assert(stamp_of(c1[a].timerange) == stamp_of(c1[b].timerange));
            }
        }
    }
}

/// Two orderings of one cohort reduce to the same summary.
proof fn lemma_reduce_permutation(c1: Seq<RowV>, c2: Seq<RowV>, k: KeyV)
    requires
        c1.to_multiset() == c2.to_multiset(),
        c1.len() > 0,
        distinct_stamps(c1),
        forall|i: int| 0 <= i < c1.len() ==> key_of(#[trigger] c1[i]) == k,
        forall|i: int| 0 <= i < c2.len() ==> key_of(#[trigger] c2[i]) == k,
    ensures
        reduce_spec(c1) == reduce_spec(c2),
{
    broadcast use vstd::seq_lib::group_to_multiset_ensures;

    assert(c1.to_multiset().len() == c1.len());
    assert(c2.to_multiset().len() == c2.len());
    assert(c1.len() == c2.len());
    assert(c2.len() > 0);
    lemma_sum_permutation(c1, c2, profit_fn());
    lemma_sum_permutation(c1, c2, trades_fn());
    lemma_sum_permutation(c1, c2, wins_fn());
    lemma_sum_permutation(c1, c2, holding_fn());
    lemma_sum_permutation(c1, c2, drawdown_fn());
    lemma_sum_permutation(c1, c2, rejected_fn());
    lemma_sum_permutation(c1, c2, gain_fn());
    lemma_sum_permutation(c1, c2, loss_abs_fn());
    lemma_sum_permutation(c1, c2, neg_fn());
    lemma_max_permutation(c1, c2);
    lemma_min_permutation(c1, c2);
    let avg = crate::arith::div_trunc(sum_of(c1, profit_fn()), c1.len() as int);
    lemma_sum_permutation(c1, c2, sq_dev_fn(avg));
    lemma_distinct_transfer(c1, c2);
    lemma_monthly_char(c1);
    lemma_monthly_char(c2);
    assert(monthly_of(c1) =~= monthly_of(c2)) by {
        assert forall|k2: int| #[trigger] monthly_of(c1).dom().contains(k2) implies monthly_of(
            c2,
        ).dom().contains(k2) && monthly_of(c1)[k2] == monthly_of(c2)[k2] by {
            let i = choose|i: int| 0 <= i < c1.len() && stamp_of(c1[i].timerange) == k2;
            assert(c1.contains(c1[i]));
            assert(c1.to_multiset().count(c1[i]) > 0);
            assert(c2.to_multiset().count(c1[i]) > 0);
            assert(c2.contains(c1[i]));
            let j = choose|j: int| 0 <= j < c2.len() && c2[j] == c1[i];
            assert(stamp_of(c2[j].timerange) == k2);
            assert(monthly_of(c1)[k2] == c1[i].profit_total);
            assert(monthly_of(c2)[k2] == c2[j].profit_total);
        }
        assert forall|k2: int| #[trigger] monthly_of(c2).dom().contains(k2) implies monthly_of(
            c1,
        ).dom().contains(k2) by {
            let j = choose|j: int| 0 <= j < c2.len() && stamp_of(c2[j].timerange) == k2;
            assert(c2.contains(c2[j]));
            assert(c2.to_multiset().count(c2[j]) > 0);
            assert(c1.to_multiset().count(c2[j]) > 0);
            assert(c1.contains(c2[j]));
            let i = choose|i: int| 0 <= i < c1.len() && c1[i] == c2[j];
            assert(stamp_of(c1[i].timerange) == k2);
        }
    }
    assert(key_of(c1[0]) == k && key_of(c2[0]) == k);
    assert(c1[0].strategy == c2[0].strategy && c1[0].timeframe == c2[0].timeframe
        && c1[0].minimal_roi == c2[0].minimal_roi && c1[0].stoploss == c2[0].stoploss
        && c1[0].max_open_trades == c2[0].max_open_trades && c1[0].trailing_stop
        == c2[0].trailing_stop && c1[0].trailing_stop_positive == c2[0].trailing_stop_positive
        && c1[0].trailing_stop_positive_offset == c2[0].trailing_stop_positive_offset
        && c1[0].trailing_only_offset_is_reached == c2[0].trailing_only_offset_is_reached
        && c1[0].entry_pricing == c2[0].entry_pricing && c1[0].exit_pricing == c2[0].exit_pricing
        && c1[0].check_depth_of_market_enable == c2[0].check_depth_of_market_enable);
}

/// Grouping and reduction are insertion-order independent: two orderings
/// of the same rows (equal as multisets, under the row source's
/// distinct-stamp invariant) yield the same set of cohort keys, and for
/// every key the same summary record.  Since a summary carries its whole
/// key, the two orderings produce the same set of summary records.
pub proof fn lemma_summarize_order_independent(a: Seq<RowV>, b: Seq<RowV>)
    requires
        a.to_multiset() == b.to_multiset(),
        distinct_stamps_by_key(a),
    ensures
        first_keys(a).len() == first_keys(b).len(),
        forall|k: KeyV| first_keys(a).contains(k) <==> first_keys(b).contains(k),
        forall|k: KeyV|
            #[trigger] first_keys(a).contains(k) ==> reduce_spec(cohort_of(a, k)) == reduce_spec(
                cohort_of(b, k),
            ),
{
    broadcast use vstd::seq_lib::group_to_multiset_ensures;

    lemma_first_keys_props(a);
    lemma_first_keys_props(b);
    assert forall|k: KeyV| first_keys(a).contains(k) implies first_keys(b).contains(k) by {
        let i = choose|i: int| 0 <= i < a.len() && key_of(a[i]) == k;
        assert(a.contains(a[i]));
        assert(a.to_multiset().count(a[i]) > 0);
        assert(b.to_multiset().count(a[i]) > 0);
        assert(b.contains(a[i]));
        let j = choose|j: int| 0 <= j < b.len() && b[j] == a[i];
        assert(key_of(b[j]) == k);
    }
    assert forall|k: KeyV| first_keys(b).contains(k) implies first_keys(a).contains(k) by {
        let j = choose|j: int| 0 <= j < b.len() && key_of(b[j]) == k;
        assert(b.contains(b[j]));
        assert(b.to_multiset().count(b[j]) > 0);
        assert(a.to_multiset().count(b[j]) > 0);
        assert(a.contains(b[j]));
        let i = choose|i: int| 0 <= i < a.len() && a[i] == b[j];
        assert(key_of(a[i]) == k);
    }
    assert(first_keys(a).len() == first_keys(b).len()) by {
        broadcast use vstd::set::group_set_axioms;

        first_keys(a).unique_seq_to_set();
        first_keys(b).unique_seq_to_set();
        assert(first_keys(a).to_set() =~= first_keys(b).to_set());
    }
    assert forall|k: KeyV| #[trigger] first_keys(a).contains(k) implies reduce_spec(
        cohort_of(a, k),
    ) == reduce_spec(cohort_of(b, k)) by {
        lemma_cohort_permutation(a, b, k);
        crate::stats::lemma_cohort_members(a, k);
        crate::stats::lemma_cohort_members(b, k);
        let c1 = cohort_of(a, k);
        let c2 = cohort_of(b, k);
        assert(c1.len() > 0) by {
            let i = choose|i: int| 0 <= i < a.len() && key_of(a[i]) == k;
            a.lemma_filter_contains(key_pred(k), i);
        }
        assert(distinct_stamps(c1)) by {
            lemma_filter_multiset_commute(a, key_pred(k));
            broadcast use vstd::multiset::group_multiset_axioms;

            assert forall|i: int, j: int| 0 <= i < j < c1.len() implies stamp_of(
                c1[i].timerange,
            ) != stamp_of(c1[j].timerange) by {
                if stamp_of(c1[i].timerange) == stamp_of(c1[j].timerange) {
                    if c1[i] == c1[j] {
                        lemma_dup_count(c1, i, j);
                        assert(a.to_multiset().count(c1[i]) >= 2);
                        lemma_count_two_indices(a, c1[i]);
                        let (x, y) = choose|x: int, y: int|
                            0 <= x < y < a.len() && a[x] == c1[i] && a[y] == c1[i];
                        assert(key_of(a[x]) == key_of(a[y]));
                    } else {
                        assert(c1.contains(c1[i]));
                        assert(c1.to_multiset().count(c1[i]) > 0);
                        assert(a.to_multiset().count(c1[i]) > 0);
                        assert(a.contains(c1[i]));
                        assert(c1.contains(c1[j]));
                        assert(c1.to_multiset().count(c1[j]) > 0);
                        assert(a.to_multiset().count(c1[j]) > 0);
                        assert(a.contains(c1[j]));
                        let x = choose|x: int| 0 <= x < a.len() && a[x] == c1[i];
                        let y = choose|y: int| 0 <= y < a.len() && a[y] == c1[j];
                        assert(x != y);
                        assert(key_of(a[x]) == key_of(a[y]));
                    }
                }
            }
        }
        lemma_reduce_permutation(c1, c2, k);
    }
}

/// For a cohort whose every month is profitable there is no losing month:
/// the profit factor is the no-loss sentinel (the fixed constant 999 as a
/// fixed-point value) and the count of negative months is zero.
pub proof fn lemma_all_positive_cohort(c: Seq<RowV>)
    requires
        c.len() > 0,
        forall|i: int| 0 <= i < c.len() ==> (#[trigger] c[i]).profit_total > 0,
    ensures
        reduce_spec(c).profit_factor == NO_LOSS_PROFIT_FACTOR as int,
        reduce_spec(c).neg_months == 0,
        sum_of(c, loss_abs_fn()) == 0,
{
    assert(forall|i: int| 0 <= i < c.len() ==> loss_abs_fn()(#[trigger] c[i]) == 0);
    assert(forall|i: int| 0 <= i < c.len() ==> neg_fn()(#[trigger] c[i]) == 0);
    lemma_sum_zero(c, loss_abs_fn());
    lemma_sum_zero(c, neg_fn());
}

/// The extrema bound every month's profit.
pub proof fn lemma_extrema_bound(c: Seq<RowV>)
    requires
        c.len() > 0,
    ensures
        max_profit_of(c) is Some,
        min_profit_of(c) is Some,
        forall|i: int|
            0 <= i < c.len() ==> (#[trigger] c[i]).profit_total <= max_profit_of(c).unwrap(),
        forall|i: int|
            0 <= i < c.len() ==> min_profit_of(c).unwrap() <= (#[trigger] c[i]).profit_total,
    decreases c.len(),
{
    let d = c.drop_last();
    assert(forall|i: int| 0 <= i < d.len() ==> d[i] == c[i]);
    if d.len() > 0 {
        lemma_extrema_bound(d);
    }
}

/// The smallest and largest monthly profit agree only when every month's
/// profit is the same.
pub proof fn lemma_min_max_equal(c: Seq<RowV>)
    requires
        c.len() > 0,
        reduce_spec(c).min_profit_month == reduce_spec(c).max_profit_month,
    ensures
        forall|i: int|
            0 <= i < c.len() ==> (#[trigger] c[i]).profit_total == reduce_spec(
                c,
            ).max_profit_month,
{
    lemma_extrema_bound(c);
}

/// A cohort without a single trade has zero rates, zero average profit
/// and zero expectancy; the zero guards make the empty denominators a
/// defined edge case, not an error.
pub proof fn lemma_no_trades_cohort(c: Seq<RowV>)
    requires
        c.len() > 0,
        sum_of(c, trades_fn()) == 0,
    ensures
        reduce_spec(c).win_rate == 0,
        reduce_spec(c).loss_rate == 0,
        reduce_spec(c).avg_trade_profit == 0,
        reduce_spec(c).expectancy == 0,
{
}

/// Two rows that differ in their strategy name alone still found two
/// distinct cohorts.
pub proof fn lemma_distinct_strategies(r1: RowV, r2: RowV)
    requires
        r1.strategy != r2.strategy,
    ensures
        key_of(r1) != key_of(r2),
        first_keys(seq![r1, r2]) == seq![key_of(r1), key_of(r2)],
{
    let s = seq![r1, r2];
    reveal_with_fuel(Seq::fold_left, 3);
    assert(s.drop_last() =~= seq![r1]);
    assert(s.last() == r2);
    assert(seq![r1].drop_last() =~= Seq::<RowV>::empty());
    assert(seq![r1].last() == r1);
    assert(first_keys(seq![r1]) == Seq::<KeyV>::empty().push(key_of(r1)));
    assert(!first_keys(seq![r1]).contains(key_of(r2))) by {
        assert(first_keys(seq![r1]).len() == 1);
        assert(first_keys(seq![r1])[0] == key_of(r1));
    }
    assert(first_keys(s) == first_keys(seq![r1]).push(key_of(r2)));
    assert(first_keys(s) =~= seq![key_of(r1), key_of(r2)]);
}

/// A row with missing optional fields contributes zero to the holding
/// time, drawdown and rejected-signal sums, rather than failing.
pub proof fn lemma_missing_optionals_are_zero(r: RowV)
    requires
        r.winner_holding_avg_s is None,
        r.max_drawdown is None,
        r.rejected_signals is None,
    ensures
        holding_fn()(r) == 0,
        drawdown_fn()(r) == 0,
        rejected_fn()(r) == 0,
{
}

} // verus!
