use freqdash::config::Config;
use freqdash::query::{build_flat_sql, GridQuery};

fn params(exchange: &str, currency: &str, pairlist: &str) -> GridQuery {
    GridQuery {
        exchange: exchange.to_string(),
        currency: currency.to_string(),
        pairlist: pairlist.to_string(),
        start_date: "2024-01-01".to_string(),
        months: 6,
    }
}

const HEAD: &str = "SELECT strategy, timeframe, minimal_roi, stoploss, max_open_trades, \
trailing_stop, trailing_stop_positive, trailing_stop_positive_offset, \
trailing_only_offset_is_reached, entry_pricing, exit_pricing, \
check_depth_of_market_enable, profit_total, total_trades, wins, \
winner_holding_avg_s, max_drawdown, rejected_signals, timerange \
FROM backtest WHERE exchange = '";

#[test]
fn filters_are_uppercased() {
    let sql = build_flat_sql(&params("binance", "usdt", "btc"), &["20240101-20240201".to_string()]);
    let expect = format!(
        "{}BINANCE' AND stake_currency = 'USDT' AND pairlist = 'BTC' AND timerange IN ('20240101-20240201')",
        HEAD
    );
    assert_eq!(sql, expect);
}

#[test]
fn ranges_join_with_commas() {
    let ranges = vec!["20240101-20240201".to_string(), "20240201-20240301".to_string()];
    let sql = build_flat_sql(&params("KRAKEN", "EUR", "ETH"), &ranges);
    assert!(sql.ends_with("IN ('20240101-20240201','20240201-20240301')"));
    assert!(sql.contains("exchange = 'KRAKEN'"));
}

#[test]
fn empty_range_list_yields_empty_in_list() {
    let sql = build_flat_sql(&params("a", "b", "c"), &[]);
    assert!(sql.ends_with("IN ()"));
}

#[test]
fn quotes_in_values_cannot_escape_their_literal() {
    let sql = build_flat_sql(&params("x' or '1'='1", "usdt", "btc"), &[]);
    assert!(sql.contains("exchange = 'X'' OR ''1''=''1'"));
    let sql2 = build_flat_sql(&params("ok", "usdt", "btc"), &["20240101' --".to_string()]);
    assert!(sql2.ends_with("IN ('20240101'' --')"));
}

#[test]
fn config_hands_back_its_connection_string() {
    let c = Config::new("postgres://localhost/backtests".to_string());
    assert_eq!(c.get_database_url(), "postgres://localhost/backtests");
}

#[test]
fn non_ascii_and_symbols_pass_through() {
    let sql = build_flat_sql(&params("Bi-Na_nce9", "usdt", "btc"), &[]);
    assert!(sql.contains("exchange = 'BI-NA_NCE9'"));
}
