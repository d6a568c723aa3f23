use vstd::prelude::*;

use crate::arith::{
    abs_of, div_trunc, div_trunc_i128, div_trunc_i64, isqrt_spec, isqrt_u128,
    lemma_div_trunc_mean_bound, lemma_div_trunc_props, AMOUNT_LIMIT, MAX_INPUT_ROWS,
    NO_LOSS_PROFIT_FACTOR, SCALE,
};
use crate::monthly::{
    has_stamp, lemma_monthly_take_step, monthly_insert, monthly_of, pair_sum, pairs_to_map,
    strictly_sorted,
};
use crate::row::{key_of, key_eq, parse_stamp, stamp_of, valid_stamp, BacktestRow, RowV};
use crate::stats::{
    cohort_of, drawdown_fn, first_keys, gain_fn, holding_fn, key_pred, lemma_cohort_members,
    lemma_cohort_of_none, lemma_cohort_take_step, lemma_first_keys_props,
    lemma_first_keys_take_step, lemma_max_take_step, lemma_min_take_step, lemma_sum_take_step,
    loss_abs_fn, max_profit_of, min_profit_of, neg_fn, profit_fn, rejected_fn, sq_dev_fn,
    sq_dev_of, sum_of, trades_fn, wins_fn,
};
use vstd::arithmetic::div_mod::{lemma_div_by_multiple, lemma_div_is_ordered};

verus! {

/// A row whose shape breaks the schema contract: such a failure aborts the
/// whole aggregation rather than silently dropping the row.
#[derive(Clone, Copy, Debug, PartialEq, Eq, Structural)]
pub enum SchemaError {
    /// A time-range label without an eight-digit month stamp up front.
    MalformedTimerange,
}

/// One summary record per strategy cohort: the twelve configuration fields
/// of the cohort key, and the aggregate statistics over the cohort's rows.
/// Fractional fields are fixed-point values at [`SCALE`].
#[derive(Clone, Debug)]
pub struct StrategyGridRow {
    pub strategy: String,
    pub timeframe: String,
    pub minimal_roi: String,
    pub stoploss: String,
    pub max_open_trades: i32,
    pub trailing_stop: bool,
    pub trailing_stop_positive: i64,
    pub trailing_stop_positive_offset: i64,
    pub trailing_only_offset_is_reached: bool,
    pub entry_price: String,
    pub exit_price: String,
    pub check_depth_of_market_enable: bool,
    pub total_profit: i64,
    pub total_trades: i64,
    pub wins: i64,
    pub win_rate: i64,
    pub win_time: i64,
    pub drawdown_perc: i64,
    pub rejected_signals: i64,
    pub neg_months: usize,
    pub avg_monthly_profit: i64,
    pub std_monthly_profit: i64,
    pub max_profit_month: i64,
    pub min_profit_month: i64,
    pub avg_trade_profit: i64,
    pub losses: i64,
    pub loss_rate: i64,
    pub expectancy: i64,
    pub profit_factor: i64,
    pub monthly: Vec<(u32, i64)>,
}

/// The mathematical image of a summary record; the monthly series is seen
/// as the map from month stamp to that month's profit.
pub ghost struct SummaryV {
    pub strategy: Seq<char>,
    pub timeframe: Seq<char>,
    pub minimal_roi: Seq<char>,
    pub stoploss: Seq<char>,
    pub max_open_trades: int,
    pub trailing_stop: bool,
    pub trailing_stop_positive: int,
    pub trailing_stop_positive_offset: int,
    pub trailing_only_offset_is_reached: bool,
    pub entry_price: Seq<char>,
    pub exit_price: Seq<char>,
    pub check_depth_of_market_enable: bool,
    pub total_profit: int,
    pub total_trades: int,
    pub wins: int,
    pub win_rate: int,
    pub win_time: int,
    pub drawdown_perc: int,
    pub rejected_signals: int,
    pub neg_months: int,
    pub avg_monthly_profit: int,
    pub std_monthly_profit: int,
    pub max_profit_month: int,
    pub min_profit_month: int,
    pub avg_trade_profit: int,
    pub losses: int,
    pub loss_rate: int,
    pub expectancy: int,
    pub profit_factor: int,
    pub monthly: Map<int, int>,
}

impl View for StrategyGridRow {
    type V = SummaryV;

    open spec fn view(&self) -> SummaryV {
        SummaryV {
            strategy: self.strategy@,
            timeframe: self.timeframe@,
            minimal_roi: self.minimal_roi@,
            stoploss: self.stoploss@,
            max_open_trades: self.max_open_trades as int,
            trailing_stop: self.trailing_stop,
            trailing_stop_positive: self.trailing_stop_positive as int,
            trailing_stop_positive_offset: self.trailing_stop_positive_offset as int,
            trailing_only_offset_is_reached: self.trailing_only_offset_is_reached,
            entry_price: self.entry_price@,
            exit_price: self.exit_price@,
            check_depth_of_market_enable: self.check_depth_of_market_enable,
            total_profit: self.total_profit as int,
            total_trades: self.total_trades as int,
            wins: self.wins as int,
            win_rate: self.win_rate as int,
            win_time: self.win_time as int,
            drawdown_perc: self.drawdown_perc as int,
            rejected_signals: self.rejected_signals as int,
            neg_months: self.neg_months as int,
            avg_monthly_profit: self.avg_monthly_profit as int,
            std_monthly_profit: self.std_monthly_profit as int,
            max_profit_month: self.max_profit_month as int,
            min_profit_month: self.min_profit_month as int,
            avg_trade_profit: self.avg_trade_profit as int,
            losses: self.losses as int,
            loss_rate: self.loss_rate as int,
            expectancy: self.expectancy as int,
            profit_factor: self.profit_factor as int,
            monthly: pairs_to_map(self.monthly@),
        }
    }
}

/// The mathematical images of the input rows.
pub open spec fn row_models(rows: Seq<BacktestRow>) -> Seq<RowV> {
    rows.map_values(|r: BacktestRow| r@)
}

/// The rows a group of indices points at.
pub open spec fn cohort_models(g: Seq<usize>, ms: Seq<RowV>) -> Seq<RowV> {
    g.map_values(|x: usize| ms[x as int])
}

/// No two rows of the cohort share a month stamp (the documented data
/// invariant of the row source).
pub open spec fn distinct_stamps(c: Seq<RowV>) -> bool {
    forall|i: int, j: int|
        0 <= i < j < c.len() ==> stamp_of(c[i].timerange) != stamp_of(c[j].timerange)
}

/// Every row is within the aggregator's schema bounds.
pub open spec fn rows_wf(rows: Seq<BacktestRow>) -> bool {
    forall|i: int| 0 <= i < rows.len() ==> (#[trigger] rows[i])@.well_formed()
}

/// The stamps vector carries each row's parsed month stamp.
pub open spec fn stamps_ok(rows: Seq<BacktestRow>, stamps: Seq<u32>) -> bool {
    &&& stamps.len() == rows.len()
    &&& forall|i: int|
        0 <= i < rows.len() ==> valid_stamp((#[trigger] rows[i])@.timerange) && stamps[i] as int
            == stamp_of(rows[i]@.timerange)
}

/// A well-formed group of row indices.
pub open spec fn group_ok(rows: Seq<BacktestRow>, g: Seq<usize>) -> bool {
    &&& 1 <= g.len() <= MAX_INPUT_ROWS
    &&& forall|l: int| 0 <= l < g.len() ==> (#[trigger] g[l]) < rows.len()
}

/// The reduction of one non-empty cohort to its summary record, exactly as
/// spelled out for each statistic: totals are plain sums; rates are
/// fixed-point ratios guarded against empty denominators; the expectancy is
/// `win_rate * avg_trade_profit - loss_rate * |avg_trade_profit|`; the
/// profit factor is total gain over total absolute loss, capped at
/// `i64::MAX`, with the fixed sentinel for a cohort without losses; the
/// standard deviation is the population deviation of the monthly profits
/// (integer square root); the per-row means divide by the row count; and
/// the monthly map keys each row's profit by its month stamp.
pub open spec fn reduce_spec(c: Seq<RowV>) -> SummaryV
    recommends
        c.len() > 0,
{
    let n = c.len() as int;
    let r0 = c[0];
    let tt = sum_of(c, trades_fn());
    let w = sum_of(c, wins_fn());
    let losses = tt - w;
    let profit_total = sum_of(c, profit_fn());
    let win_rate = if tt > 0 {
        w * SCALE / tt
    } else {
        0
    };
    let loss_rate = if tt > 0 {
        losses * SCALE / tt
    } else {
        0
    };
    let avg_trade = if tt > 0 {
        div_trunc(profit_total, tt)
    } else {
        0
    };
    let expectancy = div_trunc(win_rate * avg_trade - loss_rate * abs_of(avg_trade), SCALE as int);
    let gain = sum_of(c, gain_fn());
    let loss_abs = sum_of(c, loss_abs_fn());
    let profit_factor = if loss_abs > 0 {
        vstd::math::min(gain * SCALE / loss_abs, i64::MAX as int)
    } else {
        NO_LOSS_PROFIT_FACTOR as int
    };
    let avg_monthly = div_trunc(profit_total, n);
    let variance = sum_of(c, sq_dev_fn(avg_monthly)) / n;
    SummaryV {
        strategy: r0.strategy,
        timeframe: r0.timeframe,
        minimal_roi: r0.minimal_roi,
        stoploss: r0.stoploss,
        max_open_trades: r0.max_open_trades,
        trailing_stop: r0.trailing_stop,
        trailing_stop_positive: r0.trailing_stop_positive,
        trailing_stop_positive_offset: r0.trailing_stop_positive_offset,
        trailing_only_offset_is_reached: r0.trailing_only_offset_is_reached,
        entry_price: r0.entry_pricing,
        exit_price: r0.exit_pricing,
        check_depth_of_market_enable: r0.check_depth_of_market_enable,
        total_profit: profit_total,
        total_trades: tt,
        wins: w,
        win_rate,
        win_time: div_trunc(sum_of(c, holding_fn()), n),
        drawdown_perc: div_trunc(sum_of(c, drawdown_fn()), n),
        rejected_signals: div_trunc(sum_of(c, rejected_fn()) * SCALE, n),
        neg_months: sum_of(c, neg_fn()),
        avg_monthly_profit: avg_monthly,
        std_monthly_profit: isqrt_spec(variance as nat) as int,
        max_profit_month: max_profit_of(c).unwrap(),
        min_profit_month: min_profit_of(c).unwrap(),
        avg_trade_profit: avg_trade,
        losses,
        loss_rate,
        expectancy,
        profit_factor,
        monthly: monthly_of(c),
    }
}

/// The running sums one pass over a cohort produces.
struct CohortSums {
    profit_sum: i64,
    trades_sum: i64,
    wins_sum: i64,
    holding_sum: i64,
    drawdown_sum: i64,
    rejected_sum: i64,
    gain_sum: i64,
    loss_abs_sum: i64,
    neg_count: usize,
    max_p: i64,
    min_p: i64,
    monthly: Vec<(u32, i64)>,
}

/// One pass over the cohort: every sum, the running extrema, and the
/// monthly profit series.
#[verifier::rlimit(80)]
fn accumulate_cohort(rows: &Vec<BacktestRow>, stamps: &Vec<u32>, g: &Vec<usize>) -> (s: CohortSums)
    requires
        rows@.len() <= MAX_INPUT_ROWS,
        rows_wf(rows@),
        stamps_ok(rows@, stamps@),
        group_ok(rows@, g@),
    ensures
        ({
            let c = cohort_models(g@, row_models(rows@));
            &&& s.profit_sum as int == sum_of(c, profit_fn())
            &&& s.trades_sum as int == sum_of(c, trades_fn())
            &&& s.wins_sum as int == sum_of(c, wins_fn())
            &&& s.holding_sum as int == sum_of(c, holding_fn())
            &&& s.drawdown_sum as int == sum_of(c, drawdown_fn())
            &&& s.rejected_sum as int == sum_of(c, rejected_fn())
            &&& s.gain_sum as int == sum_of(c, gain_fn())
            &&& s.loss_abs_sum as int == sum_of(c, loss_abs_fn())
            &&& s.neg_count as int == sum_of(c, neg_fn())
            &&& Some(s.max_p as int) == max_profit_of(c)
            &&& Some(s.min_p as int) == min_profit_of(c)
            &&& pairs_to_map(s.monthly@) == monthly_of(c)
            &&& strictly_sorted(s.monthly@)
            &&& (distinct_stamps(c) ==> pair_sum(s.monthly@) == s.profit_sum as int)
            &&& abs_of(s.profit_sum as int) <= c.len() * AMOUNT_LIMIT
            &&& abs_of(s.holding_sum as int) <= c.len() * AMOUNT_LIMIT
            &&& abs_of(s.drawdown_sum as int) <= c.len() * AMOUNT_LIMIT
            &&& 0 <= s.wins_sum <= s.trades_sum
            &&& s.trades_sum as int <= c.len() * AMOUNT_LIMIT
            &&& 0 <= s.rejected_sum
            &&& s.rejected_sum as int <= c.len() * (i32::MAX as int)
            &&& 0 <= s.gain_sum
            &&& s.gain_sum as int <= c.len() * AMOUNT_LIMIT
            &&& 0 <= s.loss_abs_sum
            &&& s.loss_abs_sum as int <= c.len() * AMOUNT_LIMIT
            &&& s.neg_count as int <= c.len()
        }),
{
    let ghost ms = row_models(rows@);
    let ghost c = cohort_models(g@, ms);
    let n = g.len();
    let mut profit_sum: i64 = 0;
    let mut trades_sum: i64 = 0;
    let mut wins_sum: i64 = 0;
    let mut holding_sum: i64 = 0;
    let mut drawdown_sum: i64 = 0;
    let mut rejected_sum: i64 = 0;
    let mut gain_sum: i64 = 0;
    let mut loss_abs_sum: i64 = 0;
    let mut neg_count: usize = 0;
    let mut max_p: i64 = 0;
    let mut min_p: i64 = 0;
    let mut monthly: Vec<(u32, i64)> = Vec::new();
    for k in 0..n
        invariant
            rows@.len() <= MAX_INPUT_ROWS,
            rows_wf(rows@),
            stamps_ok(rows@, stamps@),
            group_ok(rows@, g@),
            ms == row_models(rows@),
            c == cohort_models(g@, ms),
            n == g@.len(),
            profit_sum as int == sum_of(c.take(k as int), profit_fn()),
            trades_sum as int == sum_of(c.take(k as int), trades_fn()),
            wins_sum as int == sum_of(c.take(k as int), wins_fn()),
            holding_sum as int == sum_of(c.take(k as int), holding_fn()),
            drawdown_sum as int == sum_of(c.take(k as int), drawdown_fn()),
            rejected_sum as int == sum_of(c.take(k as int), rejected_fn()),
            gain_sum as int == sum_of(c.take(k as int), gain_fn()),
            loss_abs_sum as int == sum_of(c.take(k as int), loss_abs_fn()),
            neg_count as int == sum_of(c.take(k as int), neg_fn()),
            k > 0 ==> Some(max_p as int) == max_profit_of(c.take(k as int)),
            k > 0 ==> Some(min_p as int) == min_profit_of(c.take(k as int)),
            k > 0 ==> -AMOUNT_LIMIT <= max_p <= AMOUNT_LIMIT,
            k > 0 ==> -AMOUNT_LIMIT <= min_p <= AMOUNT_LIMIT,
            pairs_to_map(monthly@) == monthly_of(c.take(k as int)),
            strictly_sorted(monthly@),
            forall|st: u32|
                has_stamp(monthly@, st) <==> exists|j: int|
                    0 <= j < k && stamp_of(c[j].timerange) == st as int,
            distinct_stamps(c.take(k as int)) ==> pair_sum(monthly@) == profit_sum as int,
            abs_of(profit_sum as int) <= k * AMOUNT_LIMIT,
            abs_of(holding_sum as int) <= k * AMOUNT_LIMIT,
            abs_of(drawdown_sum as int) <= k * AMOUNT_LIMIT,
            0 <= wins_sum <= trades_sum,
            trades_sum as int <= k * AMOUNT_LIMIT,
            0 <= rejected_sum,
            rejected_sum as int <= k * (i32::MAX as int),
            0 <= gain_sum,
            gain_sum as int <= k * AMOUNT_LIMIT,
            0 <= loss_abs_sum,
            loss_abs_sum as int <= k * AMOUNT_LIMIT,
            neg_count as int <= k,
    {
        let idx = g[k];
        let ghost rv = c[k as int];
        proof {
            assert(rv == ms[idx as int]);
            assert(rv == rows@[idx as int]@);
            assert(rv.well_formed());
            lemma_sum_take_step(c, profit_fn(), k as int);
            lemma_sum_take_step(c, trades_fn(), k as int);
            lemma_sum_take_step(c, wins_fn(), k as int);
            lemma_sum_take_step(c, holding_fn(), k as int);
            lemma_sum_take_step(c, drawdown_fn(), k as int);
            lemma_sum_take_step(c, rejected_fn(), k as int);
            lemma_sum_take_step(c, gain_fn(), k as int);
            lemma_sum_take_step(c, loss_abs_fn(), k as int);
            lemma_sum_take_step(c, neg_fn(), k as int);
            lemma_max_take_step(c, k as int);
            lemma_min_take_step(c, k as int);
            lemma_monthly_take_step(c, k as int);
        }
        let profit = rows[idx].profit_total;
        profit_sum = profit_sum + profit;
        trades_sum = trades_sum + (rows[idx].total_trades as i64);
        wins_sum = wins_sum + (rows[idx].wins as i64);
        let h = match rows[idx].winner_holding_avg_s {
            Some(v) => v,
            None => 0,
        };
        holding_sum = holding_sum + h;
        let dd = match rows[idx].max_drawdown {
            Some(v) => v,
            None => 0,
        };
        drawdown_sum = drawdown_sum + dd;
        let rj = match rows[idx].rejected_signals {
            Some(v) => v,
            None => 0,
        };
        rejected_sum = rejected_sum + (rj as i64);
        if profit > 0 {
            gain_sum = gain_sum + profit;
        }
        if profit < 0 {
            loss_abs_sum = loss_abs_sum + (-profit);
            neg_count = neg_count + 1;
        }
        if k == 0 {
            max_p = profit;
            min_p = profit;
        } else {
            if profit > max_p {
                max_p = profit;
            }
            if profit < min_p {
                min_p = profit;
            }
        }
        let ghost pre_monthly = monthly@;
        monthly_insert(&mut monthly, stamps[idx], profit);
        proof {
            assert(stamps@[idx as int] as int == stamp_of(rv.timerange));
            assert(pairs_to_map(monthly@) == monthly_of(c.take(k as int)).insert(
                stamp_of(rv.timerange),
                rv.profit_total,
            ));
            assert forall|st: u32| has_stamp(monthly@, st) implies exists|j: int|
                0 <= j < k + 1 && stamp_of(c[j].timerange) == st as int by {
                if st == stamps@[idx as int] {
                    assert(stamp_of(c[k as int].timerange) == st as int);
                } else {
                    assert(has_stamp(pre_monthly, st));
                    let j = choose|j: int| 0 <= j < k && stamp_of(c[j].timerange) == st as int;
                    assert(0 <= j < k + 1 && stamp_of(c[j].timerange) == st as int);
                }
            }
            assert forall|st: u32|
                (exists|j: int|
                    0 <= j < k + 1 && stamp_of(c[j].timerange) == st as int) implies has_stamp(
                monthly@,
                st,
            ) by {
                let j = choose|j: int| 0 <= j < k + 1 && stamp_of(c[j].timerange) == st as int;
                if j < k {
                    assert(has_stamp(pre_monthly, st));
                } else {
                    assert(st == stamps@[idx as int]);
                }
            }
            if distinct_stamps(c.take(k + 1)) {
                assert(distinct_stamps(c.take(k as int))) by {
                    assert(forall|i: int, j: int|
                        0 <= i < j < k ==> c.take(k + 1)[i] == c[i] && c.take(k + 1)[j] == c[j]);
                }
                assert(!has_stamp(pre_monthly, stamps@[idx as int])) by {
                    if has_stamp(pre_monthly, stamps@[idx as int]) {
                        let j = choose|j: int|
                            0 <= j < k && stamp_of(c[j].timerange) == stamps@[idx as int] as int;
                        assert(c.take(k + 1)[j] == c[j]);
                        assert(c.take(k + 1)[k as int] == c[k as int]);
                        assert(stamp_of(c[j].timerange) == stamp_of(c[k as int].timerange));
                    }
                }
                assert(pair_sum(monthly@) == profit_sum as int);
            }
        }
    }
    proof {
        assert(c.take(n as int) =~= c);
    }
    CohortSums {
        profit_sum,
        trades_sum,
        wins_sum,
        holding_sum,
        drawdown_sum,
        rejected_sum,
        gain_sum,
        loss_abs_sum,
        neg_count,
        max_p,
        min_p,
        monthly,
    }
}

/// Second pass: the total squared deviation of the monthly profits from
/// the given mean.
fn sq_dev_total(rows: &Vec<BacktestRow>, g: &Vec<usize>, mean: i64) -> (acc: i128)
    requires
        rows@.len() <= MAX_INPUT_ROWS,
        rows_wf(rows@),
        group_ok(rows@, g@),
        -AMOUNT_LIMIT <= mean <= AMOUNT_LIMIT,
    ensures
        acc as int == sum_of(cohort_models(g@, row_models(rows@)), sq_dev_fn(mean as int)),
        0 <= acc,
        acc as int <= cohort_models(g@, row_models(rows@)).len()
            * 4_000_000_000_000_000_000_000_000,
{
    let ghost ms = row_models(rows@);
    let ghost c = cohort_models(g@, ms);
    let n = g.len();
    let mut acc: i128 = 0;
    for k in 0..n
        invariant
            rows@.len() <= MAX_INPUT_ROWS,
            rows_wf(rows@),
            group_ok(rows@, g@),
            -AMOUNT_LIMIT <= mean <= AMOUNT_LIMIT,
            ms == row_models(rows@),
            c == cohort_models(g@, ms),
            n == g@.len(),
            acc as int == sum_of(c.take(k as int), sq_dev_fn(mean as int)),
            0 <= acc,
            acc as int <= k * 4_000_000_000_000_000_000_000_000,
    {
        let idx = g[k];
        let ghost rv = c[k as int];
        proof {
            assert(rv == rows@[idx as int]@);
            assert(rv.well_formed());
            lemma_sum_take_step(c, sq_dev_fn(mean as int), k as int);
        }
        let p = rows[idx].profit_total;
        let d: i128 = (mean as i128) - (p as i128);
        assert(0 <= d * d <= 4_000_000_000_000_000_000_000_000) by (nonlinear_arith)
            requires
                -2_000_000_000_000 <= d <= 2_000_000_000_000,
        ;
        let sq = d * d;
        proof {
            assert(sq as int == sq_dev_of(rv, mean as int));
        }
        acc = acc + sq;
    }
    proof {
        assert(c.take(n as int) =~= c);
    }
    acc
}

/// Reduces one cohort to its summary record.
#[verifier::rlimit(80)]
fn reduce_cohort(rows: &Vec<BacktestRow>, stamps: &Vec<u32>, g: &Vec<usize>) -> (out:
    StrategyGridRow)
    requires
        rows@.len() <= MAX_INPUT_ROWS,
        rows_wf(rows@),
        stamps_ok(rows@, stamps@),
        group_ok(rows@, g@),
    ensures
        out@ == reduce_spec(cohort_models(g@, row_models(rows@))),
        strictly_sorted(out.monthly@),
        distinct_stamps(cohort_models(g@, row_models(rows@))) ==> pair_sum(out.monthly@)
            == out.total_profit as int,
{
    let ghost ms = row_models(rows@);
    let ghost c = cohort_models(g@, ms);
    assert(c.len() == g@.len());
    let s = accumulate_cohort(rows, stamps, g);
    let n = g.len();
    let n64 = n as i64;
    proof {
        assert(c.len() * AMOUNT_LIMIT <= 1_000_000 * AMOUNT_LIMIT);
    }
    let losses = s.trades_sum - s.wins_sum;
    let win_rate: i64;
    let loss_rate: i64;
    let avg_trade: i64;
    if s.trades_sum > 0 {
        let wr = ((s.wins_sum as u128) * 10_000) / (s.trades_sum as u128);
        proof {
            lemma_div_is_ordered(
                (s.wins_sum as int) * 10_000,
                (s.trades_sum as int) * 10_000,
                s.trades_sum as int,
            );
            lemma_div_by_multiple(10_000, s.trades_sum as int);
            assert((s.trades_sum as int) * 10_000 == 10_000 * (s.trades_sum as int));
            assert(wr as int <= 10_000);
        }
        win_rate = wr as i64;
        let lr = ((losses as u128) * 10_000) / (s.trades_sum as u128);
        proof {
            lemma_div_is_ordered(
                (losses as int) * 10_000,
                (s.trades_sum as int) * 10_000,
                s.trades_sum as int,
            );
            assert(lr as int <= 10_000);
        }
        loss_rate = lr as i64;
        avg_trade = div_trunc_i64(s.profit_sum, s.trades_sum);
        proof {
            lemma_div_trunc_props(s.profit_sum as int, s.trades_sum as int);
        }
    } else {
        win_rate = 0;
        loss_rate = 0;
        avg_trade = 0;
        proof {
            assert(s.trades_sum as int == 0);
        }
    }
    proof {
        assert(abs_of(avg_trade as int) <= 1_000_000 * AMOUNT_LIMIT);
        assert(0 <= win_rate <= 10_000);
        assert(0 <= loss_rate <= 10_000);
    }
    let avg_abs = if avg_trade >= 0 {
        avg_trade
    } else {
        -avg_trade
    };
    assert((win_rate as int) * (avg_trade as int) <= 10_000 * 1_000_000_000_000_000_000
        && (win_rate as int) * (avg_trade as int) >= -10_000 * 1_000_000_000_000_000_000
        && (loss_rate as int) * (avg_abs as int) <= 10_000 * 1_000_000_000_000_000_000
        && (loss_rate as int) * (avg_abs as int) >= 0) by (nonlinear_arith)
        requires
            0 <= win_rate as int <= 10_000,
            0 <= loss_rate as int <= 10_000,
            abs_of(avg_trade as int) <= 1_000_000_000_000_000_000,
            avg_abs as int == abs_of(avg_trade as int),
    ;
    let wa: i128 = (win_rate as i128) * (avg_trade as i128);
    let lb: i128 = (loss_rate as i128) * (avg_abs as i128);
    let num: i128 = wa - lb;
    let expectancy64 = div_trunc_i128(num, 10_000);
    proof {
        lemma_div_trunc_props(num as int, 10_000);
        lemma_div_is_ordered(abs_of(num as int), 20_000_000_000_000_000_000_000, 10_000);
    }
    let expectancy = expectancy64 as i64;
    let pf: i64;
    if s.loss_abs_sum > 0 {
        let q = ((s.gain_sum as u128) * 10_000) / (s.loss_abs_sum as u128);
        if q > (i64::MAX as u128) {
            pf = i64::MAX;
        } else {
            pf = q as i64;
        }
    } else {
        pf = NO_LOSS_PROFIT_FACTOR;
    }
    let avg_monthly = div_trunc_i64(s.profit_sum, n64);
    proof {
        lemma_div_trunc_mean_bound(s.profit_sum as int, n as int, AMOUNT_LIMIT as int);
        lemma_div_trunc_props(s.profit_sum as int, n as int);
    }
    let sq = sq_dev_total(rows, g, avg_monthly);
    let variance = (sq as u128) / (n as u128);
    proof {
        lemma_div_is_ordered(
            sq as int,
            (n as int) * 4_000_000_000_000_000_000_000_000,
            n as int,
        );
        lemma_div_by_multiple(4_000_000_000_000_000_000_000_000, n as int);
        assert((n as int) * 4_000_000_000_000_000_000_000_000 == 4_000_000_000_000_000_000_000_000
            * (n as int));
        assert(variance as int <= 4_000_000_000_000_000_000_000_000);
    }
    let std = isqrt_u128(variance);
    assert(std as int <= 2_000_000_000_000) by (nonlinear_arith)
        requires
            (std as int) * (std as int) <= 4_000_000_000_000_000_000_000_000,
            std as int >= 0,
    ;
    let win_time = div_trunc_i64(s.holding_sum, n64);
    let drawdown_perc = div_trunc_i64(s.drawdown_sum, n64);
    let rj = ((s.rejected_sum as u128) * 10_000) / (n as u128);
    proof {
        lemma_div_is_ordered(
            (s.rejected_sum as int) * 10_000,
            (n as int) * 21_474_836_470_000,
            n as int,
        );
        lemma_div_by_multiple(21_474_836_470_000, n as int);
        assert((n as int) * 21_474_836_470_000 == 21_474_836_470_000 * (n as int));
        assert(rj as int <= 21_474_836_470_000);
    }
    let rejected_signals = rj as i64;
    let rep = g[0];
    let out = StrategyGridRow {
        strategy: rows[rep].strategy.clone(),
        timeframe: rows[rep].timeframe.clone(),
        minimal_roi: rows[rep].minimal_roi.clone(),
        stoploss: rows[rep].stoploss.clone(),
        max_open_trades: rows[rep].max_open_trades,
        trailing_stop: rows[rep].trailing_stop,
        trailing_stop_positive: rows[rep].trailing_stop_positive,
        trailing_stop_positive_offset: rows[rep].trailing_stop_positive_offset,
        trailing_only_offset_is_reached: rows[rep].trailing_only_offset_is_reached,
        entry_price: rows[rep].entry_pricing.clone(),
        exit_price: rows[rep].exit_pricing.clone(),
        check_depth_of_market_enable: rows[rep].check_depth_of_market_enable,
        total_profit: s.profit_sum,
        total_trades: s.trades_sum,
        wins: s.wins_sum,
        win_rate,
        win_time,
        drawdown_perc,
        rejected_signals,
        neg_months: s.neg_count,
        avg_monthly_profit: avg_monthly,
        std_monthly_profit: std as i64,
        max_profit_month: s.max_p,
        min_profit_month: s.min_p,
        avg_trade_profit: avg_trade,
        losses,
        loss_rate,
        expectancy,
        profit_factor: pf,
        monthly: s.monthly,
    };
    proof {
        assert(c[0] == rows@[g@[0] as int]@);
        assert(out@ == reduce_spec(c));
    }
    out
}

/// Finds the cohort whose representative row shares the new row's key.
fn find_cohort(rows: &Vec<BacktestRow>, groups: &Vec<Vec<usize>>, i: usize) -> (r: Option<usize>)
    requires
        i < rows@.len(),
        forall|j: int| 0 <= j < groups@.len() ==> (#[trigger] groups@[j])@.len() >= 1,
        forall|j: int| 0 <= j < groups@.len() ==> (#[trigger] groups@[j])@[0] < rows@.len(),
    ensures
        r matches Some(j) ==> j < groups@.len() && key_of(
            rows@[groups@[j as int]@[0] as int]@,
        ) == key_of(rows@[i as int]@),
        r is None ==> forall|j: int|
            0 <= j < groups@.len() ==> key_of(rows@[(#[trigger] groups@[j])@[0] as int]@)
                != key_of(rows@[i as int]@),
{
    let m = groups.len();
    for j in 0..m
        invariant
            i < rows@.len(),
            m == groups@.len(),
            forall|j2: int| 0 <= j2 < groups@.len() ==> (#[trigger] groups@[j2])@.len() >= 1,
            forall|j2: int| 0 <= j2 < groups@.len() ==> (#[trigger] groups@[j2])@[0] < rows@.len(),
            forall|j2: int|
                0 <= j2 < j ==> key_of(rows@[(#[trigger] groups@[j2])@[0] as int]@) != key_of(
                    rows@[i as int]@,
                ),
    {
        let rep = groups[j][0];
        if key_eq(&rows[rep], &rows[i]) {
            return Some(j);
        }
    }
    None
}

/// Groups the rows into strategy cohorts and reduces every cohort to one
/// summary record, in order of each cohort's first appearance.  Callers
/// hand in rows already checked against the schema bounds
/// ([`RowV::well_formed`]) and at most [`MAX_INPUT_ROWS`] of them: within
/// those bounds every cohort sum is representable, so the aggregation
/// cannot overflow or panic.  The whole aggregation fails on the first row
/// whose time-range label lacks an eight-digit month stamp (a schema
/// violation), and succeeds otherwise.
/// On success there is exactly one record per distinct key; each record is
/// the reduction of its cohort (the input's rows with that key, in input
/// order); its monthly series is strictly sorted by stamp; and whenever
/// the cohort's stamps are distinct, the monthly profits add back up to
/// the cohort's total profit.
pub fn summarize(rows: &Vec<BacktestRow>) -> (res: Result<Vec<StrategyGridRow>, SchemaError>)
    requires
        rows@.len() <= MAX_INPUT_ROWS,
        rows_wf(rows@),
    ensures
        res is Err <==> exists|i: int|
            0 <= i < rows@.len() && !valid_stamp((#[trigger] rows@[i])@.timerange),
        res matches Ok(out) ==> {
            let ms = row_models(rows@);
            let ks = first_keys(ms);
            &&& out@.len() == ks.len()
            &&& forall|j: int|
                0 <= j < ks.len() ==> (#[trigger] out@[j])@ == reduce_spec(cohort_of(ms, ks[j]))
            &&& forall|j: int| 0 <= j < ks.len() ==> strictly_sorted((#[trigger] out@[j]).monthly@)
            &&& forall|j: int|
                0 <= j < ks.len() ==> (distinct_stamps(cohort_of(ms, ks[j])) ==> pair_sum(
                    (#[trigger] out@[j]).monthly@,
                ) == out@[j].total_profit as int)
        },
{
    let ghost ms = row_models(rows@);
    let n = rows.len();
    let mut stamps: Vec<u32> = Vec::new();
    for i in 0..n
        invariant
            n == rows@.len(),
            ms == row_models(rows@),
            stamps@.len() == i,
            forall|j: int|
                0 <= j < i ==> valid_stamp((#[trigger] rows@[j])@.timerange) && stamps@[j] as int
                    == stamp_of(rows@[j]@.timerange),
    {
        match parse_stamp(rows[i].timerange.as_str()) {
            Some(st) => {
                stamps.push(st);
            },
            None => {
                return Err(SchemaError::MalformedTimerange);
            },
        }
    }
    let mut groups: Vec<Vec<usize>> = Vec::new();
    for i in 0..n
        invariant
            n == rows@.len(),
            rows@.len() <= MAX_INPUT_ROWS,
            rows_wf(rows@),
            ms == row_models(rows@),
            stamps_ok(rows@, stamps@),
            groups@.len() == first_keys(ms.take(i as int)).len(),
            forall|j: int| 0 <= j < groups@.len() ==> (#[trigger] groups@[j])@.len() >= 1,
            forall|j: int, l: int|
                0 <= j < groups@.len() && 0 <= l < groups@[j]@.len() ==> (#[trigger] groups@[j]@[l])
                    < i,
            forall|j: int|
                0 <= j < groups@.len() ==> cohort_models((#[trigger] groups@[j])@, ms) == cohort_of(
                    ms.take(i as int),
                    first_keys(ms.take(i as int))[j],
                ),
            forall|j: int|
                0 <= j < groups@.len() ==> key_of(ms[(#[trigger] groups@[j])@[0] as int])
                    == first_keys(ms.take(i as int))[j],
    {
        let ghost ks = first_keys(ms.take(i as int));
        proof {
            lemma_first_keys_props(ms.take(i as int));
            lemma_first_keys_take_step(ms, i as int);
            assert(ms[i as int] == rows@[i as int]@);
            assert(forall|j: int| 0 <= j < i ==> ms.take(i as int)[j] == ms[j]);
        }
        let found = find_cohort(rows, &groups, i);
        match found {
            Some(j) => {
                proof {
                    assert(key_of(ms[groups@[j as int]@[0] as int]) == ks[j as int]);
                    assert(key_of(ms[i as int]) == ks[j as int]);
                    assert(ks.contains(ks[j as int]));
                    assert(first_keys(ms.take(i + 1)) == ks);
                }
                let ghost gpre = groups@;
                let mut inner = groups.remove(j);
                inner.push(i);
                groups.insert(j, inner);
                proof {
                    assert(groups@.len() == gpre.len());
                    assert(forall|jj: int|
                        0 <= jj < gpre.len() && jj != j ==> groups@[jj] == gpre[jj]);
                    assert(groups@[j as int]@ == gpre[j as int]@.push(i as usize));
                    assert forall|jj: int| 0 <= jj < groups@.len() implies cohort_models(
                        (#[trigger] groups@[jj])@,
                        ms,
                    ) == cohort_of(ms.take(i + 1), ks[jj]) && key_of(ms[groups@[jj]@[0] as int])
                        == ks[jj] && groups@[jj]@.len() >= 1 by {
                        lemma_cohort_take_step(ms, ks[jj], i as int);
                        if jj == j {
                            assert(cohort_models(gpre[jj]@.push(i as usize), ms) =~= cohort_models(
                                gpre[jj]@,
                                ms,
                            ).push(ms[i as int]));
                            assert(groups@[jj]@[0] == gpre[jj]@[0]);
                        } else {
                            assert(ks[jj] != ks[j as int]);
                            assert(key_of(ms[i as int]) != ks[jj]);
                        }
                    }
                }
            },
            None => {
                proof {
                    let newkey = key_of(ms[i as int]);
                    assert(!ks.contains(newkey)) by {
                        if ks.contains(newkey) {
                            let jj = choose|jj: int| 0 <= jj < ks.len() && ks[jj] == newkey;
                            assert(key_of(ms[groups@[jj]@[0] as int]) == newkey);
                            assert(key_of(rows@[groups@[jj]@[0] as int]@) == newkey);
                        }
                    }
                    assert(first_keys(ms.take(i + 1)) == ks.push(newkey));
                }
                let mut inner: Vec<usize> = Vec::new();
                inner.push(i);
                let ghost gpre = groups@;
                let ghost innerview = inner@;
                groups.push(inner);
                proof {
                    let newkey = key_of(ms[i as int]);
                    let ks2 = ks.push(newkey);
                    assert(groups@.len() == gpre.len() + 1);
                    assert(forall|jj: int| 0 <= jj < gpre.len() ==> groups@[jj] == gpre[jj]);
                    assert(groups@[gpre.len() as int]@ == innerview);
                    assert(cohort_of(ms.take(i as int), newkey) == Seq::<RowV>::empty()) by {
                        assert forall|l: int| 0 <= l < ms.take(i as int).len() implies key_of(
                            ms.take(i as int)[l],
                        ) != newkey by {
                            if key_of(ms.take(i as int)[l]) == newkey {
                                assert(ks.contains(newkey));
                            }
                        }
                        lemma_cohort_of_none(ms.take(i as int), newkey);
                    }
                    assert forall|jj: int| 0 <= jj < groups@.len() implies cohort_models(
                        (#[trigger] groups@[jj])@,
                        ms,
                    ) == cohort_of(ms.take(i + 1), ks2[jj]) && key_of(ms[groups@[jj]@[0] as int])
                        == ks2[jj] && groups@[jj]@.len() >= 1 by {
                        lemma_cohort_take_step(ms, ks2[jj], i as int);
                        if jj == gpre.len() {
                            assert(ks2[jj] == newkey);
                            assert(cohort_models(innerview, ms) =~= Seq::<RowV>::empty().push(
                                ms[i as int],
                            ));
                        } else {
                            assert(ks2[jj] == ks[jj]);
                            assert(ks.contains(ks[jj]));
                            assert(key_of(ms[i as int]) != ks[jj]);
                        }
                    }
                }
            },
        }
    }
    proof {
        assert(ms.take(n as int) =~= ms);
    }
    let m = groups.len();
    let mut result: Vec<StrategyGridRow> = Vec::new();
    for j in 0..m
        invariant
            n == rows@.len(),
            rows@.len() <= MAX_INPUT_ROWS,
            rows_wf(rows@),
            ms == row_models(rows@),
            stamps_ok(rows@, stamps@),
            m == groups@.len(),
            m == first_keys(ms).len(),
            forall|jj: int| 0 <= jj < groups@.len() ==> (#[trigger] groups@[jj])@.len() >= 1,
            forall|jj: int, l: int|
                0 <= jj < groups@.len() && 0 <= l < groups@[jj]@.len()
                    ==> (#[trigger] groups@[jj]@[l]) < n,
            forall|jj: int|
                0 <= jj < groups@.len() ==> cohort_models((#[trigger] groups@[jj])@, ms)
                    == cohort_of(ms, first_keys(ms)[jj]),
            result@.len() == j,
            forall|jj: int|
                0 <= jj < j ==> (#[trigger] result@[jj])@ == reduce_spec(
                    cohort_of(ms, first_keys(ms)[jj]),
                ),
            forall|jj: int| 0 <= jj < j ==> strictly_sorted((#[trigger] result@[jj]).monthly@),
            forall|jj: int|
                0 <= jj < j ==> (distinct_stamps(cohort_of(ms, first_keys(ms)[jj])) ==> pair_sum(
                    (#[trigger] result@[jj]).monthly@,
                ) == result@[jj].total_profit as int),
    {
        proof {
            lemma_cohort_members(ms, first_keys(ms)[j as int]);
            assert(cohort_models(groups@[j as int]@, ms).len() == groups@[j as int]@.len());
        }
        let one = reduce_cohort(rows, &stamps, &groups[j]);
        result.push(one);
    }
    Ok(result)
}

} // verus!
