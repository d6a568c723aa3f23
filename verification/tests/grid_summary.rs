use freqdash::arith::{NO_LOSS_PROFIT_FACTOR, SCALE};
use freqdash::row::BacktestRow;
use freqdash::summary::{summarize, SchemaError, StrategyGridRow};

fn row(strategy: &str, timerange: &str, profit: i64, trades: i32, wins: i32) -> BacktestRow {
    BacktestRow {
        strategy: strategy.to_string(),
        timeframe: "5m".to_string(),
        minimal_roi: "default".to_string(),
        stoploss: "-0.1".to_string(),
        max_open_trades: 3,
        trailing_stop: false,
        trailing_stop_positive: 100,
        trailing_stop_positive_offset: 200,
        trailing_only_offset_is_reached: false,
        entry_pricing: "same".to_string(),
        exit_pricing: "same".to_string(),
        check_depth_of_market_enable: false,
        profit_total: profit,
        total_trades: trades,
        wins,
        winner_holding_avg_s: None,
        max_drawdown: None,
        rejected_signals: None,
        timerange: timerange.to_string(),
    }
}

fn by_strategy<'a>(out: &'a [StrategyGridRow], name: &str) -> &'a StrategyGridRow {
    out.iter().find(|r| r.strategy == name).unwrap()
}

#[test]
fn two_month_cohort_end_to_end() {
    let rows = vec![
        row("A", "20240101-20240201", 5 * SCALE, 10, 6),
        row("A", "20240201-20240301", -2 * SCALE, 8, 3),
    ];
    let out = summarize(&rows).unwrap();
    assert_eq!(out.len(), 1);
    let s = &out[0];
    assert_eq!(s.strategy, "A");
    assert_eq!(s.timeframe, "5m");
    assert_eq!(s.total_trades, 18);
    assert_eq!(s.wins, 9);
    assert_eq!(s.losses, 9);
    assert_eq!(s.win_rate, 5000);
    assert_eq!(s.loss_rate, 5000);
    assert_eq!(s.total_profit, 3 * SCALE);
    assert_eq!(s.monthly, vec![(20240101, 5 * SCALE), (20240201, -2 * SCALE)]);
    assert_eq!(s.neg_months, 1);
    assert_eq!(s.max_profit_month, 5 * SCALE);
    assert_eq!(s.min_profit_month, -2 * SCALE);
    // 30000 / 18 trades, truncated
    assert_eq!(s.avg_trade_profit, 1666);
    // win and loss rates are equal, so the expectancy cancels to zero
    assert_eq!(s.expectancy, 0);
    // 50000 gain over 20000 absolute loss = 2.5
    assert_eq!(s.profit_factor, 25000);
    assert_eq!(s.avg_monthly_profit, 15000);
    // deviations are +-35000 around the mean, population stddev 35000
    assert_eq!(s.std_monthly_profit, 35000);
    assert_eq!(s.win_time, 0);
    assert_eq!(s.drawdown_perc, 0);
    assert_eq!(s.rejected_signals, 0);
}

#[test]
fn monthly_sum_matches_total_profit() {
    let rows = vec![
        row("A", "20240101-20240201", 12345, 1, 1),
        row("A", "20240201-20240301", -999, 2, 0),
        row("A", "20240301-20240401", 4321, 3, 2),
    ];
    let out = summarize(&rows).unwrap();
    let s = &out[0];
    let total: i64 = s.monthly.iter().map(|p| p.1).sum();
    assert_eq!(total, s.total_profit);
}

#[test]
fn zero_trades_cohort_has_zero_rates() {
    let rows = vec![row("Z", "20240101-20240201", 7 * SCALE, 0, 0)];
    let out = summarize(&rows).unwrap();
    let s = &out[0];
    assert_eq!(s.total_trades, 0);
    assert_eq!(s.win_rate, 0);
    assert_eq!(s.loss_rate, 0);
    assert_eq!(s.avg_trade_profit, 0);
    assert_eq!(s.expectancy, 0);
}

#[test]
fn all_positive_cohort_uses_no_loss_sentinel() {
    let rows = vec![
        row("P", "20240101-20240201", SCALE, 5, 3),
        row("P", "20240201-20240301", 3 * SCALE, 5, 4),
    ];
    let out = summarize(&rows).unwrap();
    let s = &out[0];
    assert_eq!(s.profit_factor, NO_LOSS_PROFIT_FACTOR);
    assert_eq!(s.neg_months, 0);
    assert!(s.min_profit_month != s.max_profit_month);
}

#[test]
fn equal_months_collapse_extrema() {
    let rows = vec![
        row("P", "20240101-20240201", 2 * SCALE, 5, 3),
        row("P", "20240201-20240301", 2 * SCALE, 5, 4),
    ];
    let out = summarize(&rows).unwrap();
    let s = &out[0];
    assert_eq!(s.min_profit_month, s.max_profit_month);
    assert_eq!(s.std_monthly_profit, 0);
}

#[test]
fn strategy_name_alone_splits_cohorts() {
    let rows = vec![
        row("A", "20240101-20240201", SCALE, 5, 3),
        row("B", "20240101-20240201", SCALE, 5, 3),
    ];
    let out = summarize(&rows).unwrap();
    assert_eq!(out.len(), 2);
    assert_eq!(by_strategy(&out, "A").total_trades, 5);
    assert_eq!(by_strategy(&out, "B").total_trades, 5);
}

#[test]
fn trailing_stop_value_splits_cohorts() {
    let mut r2 = row("A", "20240201-20240301", SCALE, 5, 3);
    r2.trailing_stop_positive = 101;
    let rows = vec![row("A", "20240101-20240201", SCALE, 5, 3), r2];
    let out = summarize(&rows).unwrap();
    assert_eq!(out.len(), 2);
}

#[test]
fn shuffled_input_gives_the_same_summaries() {
    let rows = vec![
        row("A", "20240101-20240201", 5 * SCALE, 10, 6),
        row("B", "20240101-20240201", 2 * SCALE, 4, 1),
        row("A", "20240201-20240301", -2 * SCALE, 8, 3),
        row("B", "20240201-20240301", -1 * SCALE, 6, 2),
    ];
    let mut shuffled = rows.clone();
    shuffled.reverse();
    shuffled.swap(0, 2);
    let out1 = summarize(&rows).unwrap();
    let out2 = summarize(&shuffled).unwrap();
    assert_eq!(out1.len(), out2.len());
    for name in ["A", "B"] {
        let a = by_strategy(&out1, name);
        let b = by_strategy(&out2, name);
        assert_eq!(a.total_profit, b.total_profit);
        assert_eq!(a.total_trades, b.total_trades);
        assert_eq!(a.wins, b.wins);
        assert_eq!(a.win_rate, b.win_rate);
        assert_eq!(a.expectancy, b.expectancy);
        assert_eq!(a.profit_factor, b.profit_factor);
        assert_eq!(a.std_monthly_profit, b.std_monthly_profit);
        assert_eq!(a.monthly, b.monthly);
        assert_eq!(a.neg_months, b.neg_months);
        assert_eq!(a.max_profit_month, b.max_profit_month);
        assert_eq!(a.min_profit_month, b.min_profit_month);
    }
}

#[test]
fn missing_optional_fields_count_as_zero() {
    let mut r1 = row("A", "20240101-20240201", SCALE, 5, 3);
    r1.winner_holding_avg_s = Some(600 * SCALE);
    r1.max_drawdown = Some(3 * SCALE);
    r1.rejected_signals = Some(7);
    let r2 = row("A", "20240201-20240301", SCALE, 5, 3);
    let out = summarize(&vec![r1, r2]).unwrap();
    let s = &out[0];
    // means over two rows, the missing values contributing zero
    assert_eq!(s.win_time, 300 * SCALE);
    assert_eq!(s.drawdown_perc, 3 * SCALE / 2);
    // (7 + 0) / 2 = 3.5 as fixed point
    assert_eq!(s.rejected_signals, 35000);
}

#[test]
fn malformed_timerange_fails_the_whole_run() {
    let rows = vec![
        row("A", "20240101-20240201", SCALE, 5, 3),
        row("A", "2024xx01-20240301", SCALE, 5, 3),
    ];
    assert_eq!(summarize(&rows).err(), Some(SchemaError::MalformedTimerange));
    let short = vec![row("A", "2024", SCALE, 5, 3)];
    assert_eq!(summarize(&short).err(), Some(SchemaError::MalformedTimerange));
}

#[test]
fn duplicate_month_stamp_keeps_the_later_row() {
    let rows = vec![
        row("A", "20240101-20240201", SCALE, 5, 3),
        row("A", "20240101-20240201", 2 * SCALE, 5, 3),
    ];
    let out = summarize(&rows).unwrap();
    let s = &out[0];
    assert_eq!(s.monthly, vec![(20240101, 2 * SCALE)]);
    // the sums still cover both rows
    assert_eq!(s.total_profit, 3 * SCALE);
    assert_eq!(s.total_trades, 10);
}

#[test]
fn win_rate_truncates() {
    let rows = vec![row("A", "20240101-20240201", SCALE, 3, 1)];
    let out = summarize(&rows).unwrap();
    assert_eq!(out[0].win_rate, 3333);
    assert_eq!(out[0].loss_rate, 6666);
}

#[test]
fn empty_input_yields_empty_output() {
    let rows: Vec<BacktestRow> = vec![];
    let out = summarize(&rows).unwrap();
    assert_eq!(out.len(), 0);
}

#[test]
fn configuration_fields_are_copied_to_the_summary() {
    let rows = vec![row("A", "20240101-20240201", SCALE, 5, 3)];
    let out = summarize(&rows).unwrap();
    let s = &out[0];
    assert_eq!(s.minimal_roi, "default");
    assert_eq!(s.stoploss, "-0.1");
    assert_eq!(s.max_open_trades, 3);
    assert_eq!(s.trailing_stop_positive, 100);
    assert_eq!(s.trailing_stop_positive_offset, 200);
    assert_eq!(s.entry_price, "same");
    assert_eq!(s.exit_price, "same");
}
