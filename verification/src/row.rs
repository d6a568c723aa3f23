use vstd::prelude::*;

use crate::arith::AMOUNT_LIMIT;
use crate::text::{digits_val, is_digit_char, lemma_digits_val_bound, ten_pow};
use vstd::string::StrSliceExecFns;

verus! {

/// One backtest record as the data source hands it over, one per
/// strategy-run per month.  Fractional amounts (profit, holding time,
/// drawdown, trailing-stop values) are fixed-point values at
/// [`crate::arith::SCALE`].
#[derive(Clone, Debug)]
pub struct BacktestRow {
    pub strategy: String,
    pub timeframe: String,
    pub minimal_roi: String,
    pub stoploss: String,
    pub max_open_trades: i32,
    pub trailing_stop: bool,
    pub trailing_stop_positive: i64,
    pub trailing_stop_positive_offset: i64,
    pub trailing_only_offset_is_reached: bool,
    pub entry_pricing: String,
    pub exit_pricing: String,
    pub check_depth_of_market_enable: bool,
    pub profit_total: i64,
    pub total_trades: i32,
    pub wins: i32,
    pub winner_holding_avg_s: Option<i64>,
    pub max_drawdown: Option<i64>,
    pub rejected_signals: Option<i32>,
    pub timerange: String,
}

/// The mathematical image of a row.
pub ghost struct RowV {
    pub strategy: Seq<char>,
    pub timeframe: Seq<char>,
    pub minimal_roi: Seq<char>,
    pub stoploss: Seq<char>,
    pub max_open_trades: int,
    pub trailing_stop: bool,
    pub trailing_stop_positive: int,
    pub trailing_stop_positive_offset: int,
    pub trailing_only_offset_is_reached: bool,
    pub entry_pricing: Seq<char>,
    pub exit_pricing: Seq<char>,
    pub check_depth_of_market_enable: bool,
    pub profit_total: int,
    pub total_trades: int,
    pub wins: int,
    pub winner_holding_avg_s: Option<int>,
    pub max_drawdown: Option<int>,
    pub rejected_signals: Option<int>,
    pub timerange: Seq<char>,
}

impl View for BacktestRow {
    type V = RowV;

    open spec fn view(&self) -> RowV {
        RowV {
            strategy: self.strategy@,
            timeframe: self.timeframe@,
            minimal_roi: self.minimal_roi@,
            stoploss: self.stoploss@,
            max_open_trades: self.max_open_trades as int,
            trailing_stop: self.trailing_stop,
            trailing_stop_positive: self.trailing_stop_positive as int,
            trailing_stop_positive_offset: self.trailing_stop_positive_offset as int,
            trailing_only_offset_is_reached: self.trailing_only_offset_is_reached,
            entry_pricing: self.entry_pricing@,
            exit_pricing: self.exit_pricing@,
            check_depth_of_market_enable: self.check_depth_of_market_enable,
            profit_total: self.profit_total as int,
            total_trades: self.total_trades as int,
            wins: self.wins as int,
            winner_holding_avg_s: match self.winner_holding_avg_s {
                Some(v) => Some(v as int),
                None => None,
            },
            max_drawdown: match self.max_drawdown {
                Some(v) => Some(v as int),
                None => None,
            },
            rejected_signals: match self.rejected_signals {
                Some(v) => Some(v as int),
                None => None,
            },
            timerange: self.timerange@,
        }
    }
}

/// The twelve configuration fields that make up a cohort's fingerprint;
/// two rows belong to the same cohort exactly when all twelve agree.  The
/// two trailing-stop amounts take part as fixed-point integers, so equal
/// underlying values always compare equal.
pub ghost struct KeyV {
    pub strategy: Seq<char>,
    pub timeframe: Seq<char>,
    pub minimal_roi: Seq<char>,
    pub stoploss: Seq<char>,
    pub max_open_trades: int,
    pub trailing_stop: bool,
    pub trailing_stop_positive: int,
    pub trailing_stop_positive_offset: int,
    pub trailing_only_offset_is_reached: bool,
    pub entry_pricing: Seq<char>,
    pub exit_pricing: Seq<char>,
    pub check_depth_of_market_enable: bool,
}

/// The grouping fingerprint of a row.
pub open spec fn key_of(r: RowV) -> KeyV {
    KeyV {
        strategy: r.strategy,
        timeframe: r.timeframe,
        minimal_roi: r.minimal_roi,
        stoploss: r.stoploss,
        max_open_trades: r.max_open_trades,
        trailing_stop: r.trailing_stop,
        trailing_stop_positive: r.trailing_stop_positive,
        trailing_stop_positive_offset: r.trailing_stop_positive_offset,
        trailing_only_offset_is_reached: r.trailing_only_offset_is_reached,
        entry_pricing: r.entry_pricing,
        exit_pricing: r.exit_pricing,
        check_depth_of_market_enable: r.check_depth_of_market_enable,
    }
}

impl RowV {
    /// The bounds the aggregator asks of every input row: counts are
    /// non-negative with wins within the trade count, and every amount
    /// stays within `AMOUNT_LIMIT`, so cohort sums stay representable.
    pub open spec fn well_formed(self) -> bool {
        &&& 0 <= self.total_trades <= i32::MAX
        &&& 0 <= self.wins <= self.total_trades
        &&& -AMOUNT_LIMIT <= self.profit_total <= AMOUNT_LIMIT
        &&& match self.winner_holding_avg_s {
            Some(v) => -AMOUNT_LIMIT <= v <= AMOUNT_LIMIT,
            None => true,
        }
        &&& match self.max_drawdown {
            Some(v) => -AMOUNT_LIMIT <= v <= AMOUNT_LIMIT,
            None => true,
        }
        &&& match self.rejected_signals {
            Some(v) => 0 <= v <= i32::MAX,
            None => true,
        }
    }
}

/// Whether two rows belong to the same cohort.
pub fn key_eq(a: &BacktestRow, b: &BacktestRow) -> (r: bool)
    ensures
        r == (key_of(a@) == key_of(b@)),
{
    let r = a.strategy == b.strategy && a.timeframe == b.timeframe && a.minimal_roi == b.minimal_roi
        && a.stoploss == b.stoploss && a.max_open_trades == b.max_open_trades && a.trailing_stop
        == b.trailing_stop && a.trailing_stop_positive == b.trailing_stop_positive
        && a.trailing_stop_positive_offset == b.trailing_stop_positive_offset
        && a.trailing_only_offset_is_reached == b.trailing_only_offset_is_reached && a.entry_pricing
        == b.entry_pricing && a.exit_pricing == b.exit_pricing && a.check_depth_of_market_enable
        == b.check_depth_of_market_enable;
    r
}

/// A time-range label carrying an eight-digit month stamp up front.
pub open spec fn valid_stamp(s: Seq<char>) -> bool {
    s.len() >= 8 && forall|i: int| 0 <= i < 8 ==> is_digit_char(s[i])
}

/// The numeric `YYYYMMDD` month stamp of a label.
pub open spec fn stamp_of(s: Seq<char>) -> int {
    digits_val(s, 8)
}

/// Reads the eight-digit month stamp off the front of a time-range label;
/// a label without one is a schema violation the caller reports.
pub fn parse_stamp(s: &str) -> (r: Option<u32>)
    ensures
        r is Some <==> valid_stamp(s@),
        r matches Some(v) ==> v as int == stamp_of(s@),
{
    if s.unicode_len() < 8 {
        return None;
    }
    let mut v: u32 = 0;
    for i in 0..8usize
        invariant
            s@.len() >= 8,
            v as int == digits_val(s@, i as int),
            forall|j: int| 0 <= j < i ==> is_digit_char(s@[j]),
            (v as int) < ten_pow(i as int),
            i <= 8,
    {
        let c = s.get_char(i);
        let u = c as u32;
        if u < 48 || u > 57 {
            return None;
        }
        proof {
            lemma_digits_val_bound(s@, i as int);
            assert(ten_pow(8) == 100_000_000) by {
                reveal_with_fuel(ten_pow, 9);
            }
            assert(ten_pow(i as int) <= ten_pow(8)) by {
                lemma_ten_pow_monotonic(i as int, 8);
            }
        }
        v = v * 10 + (u - 48);
    }
    Some(v)
}

/// Larger exponents give larger powers of ten.
proof fn lemma_ten_pow_monotonic(a: int, b: int)
    requires
        0 <= a <= b,
    ensures
        ten_pow(a) <= ten_pow(b),
    decreases b,
{
    if a < b {
        lemma_ten_pow_monotonic(a, b - 1);
        assert(ten_pow(b) == 10 * ten_pow(b - 1));
        assert(ten_pow(b - 1) >= 1) by {
            lemma_ten_pow_positive(b - 1);
        }
    }
}

/// Powers of ten are positive.
proof fn lemma_ten_pow_positive(n: int)
    ensures
        ten_pow(n) >= 1,
    decreases n,
{
    if n > 0 {
        lemma_ten_pow_positive(n - 1);
    }
}

} // verus!
