use vstd::prelude::*;

use crate::text::push_char;
use vstd::slice::slice_index_get;
use vstd::string::{StrSliceExecFns, StringExecFns};

verus! {

/// The filter parameters one grid query runs with.
pub struct GridQuery {
    pub exchange: String,
    pub currency: String,
    pub pairlist: String,
    pub start_date: String,
    pub months: usize,
}

/// ASCII lower-case letters mapped to upper case; every other character kept.
pub open spec fn upper_char(c: char) -> char {
    if 97 <= c as u32 && c as u32 <= 122 {
        ((c as u32 - 32) as u8) as char
    } else {
        c
    }
}

pub open spec fn ascii_upper(s: Seq<char>) -> Seq<char> {
    s.map_values(|c: char| upper_char(c))
}

/// Single quotes doubled, so that a value can stand inside a quoted SQL
/// string literal without closing it.
pub open spec fn escaped(s: Seq<char>) -> Seq<char>
    decreases s.len(),
{
    if s.len() == 0 {
        Seq::empty()
    } else {
        escaped(s.drop_last()) + (if s.last() == '\'' {
            seq!['\'', '\'']
        } else {
            seq![s.last()]
        })
    }
}

/// A filter value as it stands in the query text: upper-cased, then escaped.
pub open spec fn sql_value(s: Seq<char>) -> Seq<char> {
    escaped(ascii_upper(s))
}

/// A time-range label as it stands in the IN list: escaped and quoted.
pub open spec fn quoted(s: Seq<char>) -> Seq<char> {
    seq!['\''] + escaped(s) + seq!['\'']
}

/// The comma-separated list of quoted time-range labels.
pub open spec fn range_list(rs: Seq<Seq<char>>) -> Seq<char>
    decreases rs.len(),
{
    if rs.len() == 0 {
        Seq::empty()
    } else if rs.len() == 1 {
        quoted(rs[0])
    } else {
        range_list(rs.drop_last()) + seq![','] + quoted(rs.last())
    }
}

pub open spec fn str_views(ss: Seq<String>) -> Seq<Seq<char>> {
    ss.map_values(|s: String| s@)
}

/// The full row-selection query text for the given filter values and
/// window labels.
pub open spec fn flat_sql(ex: Seq<char>, cur: Seq<char>, pl: Seq<char>, rs: Seq<Seq<char>>) -> Seq<
    char,
> {
    "SELECT strategy, timeframe, minimal_roi, stoploss, max_open_trades, trailing_stop, trailing_stop_positive, trailing_stop_positive_offset, trailing_only_offset_is_reached, entry_pricing, exit_pricing, check_depth_of_market_enable, profit_total, total_trades, wins, winner_holding_avg_s, max_drawdown, rejected_signals, timerange FROM backtest WHERE exchange = '"@
        + sql_value(ex) + "' AND stake_currency = '"@ + sql_value(cur) + "' AND pairlist = '"@
        + sql_value(pl) + "' AND timerange IN ("@ + range_list(rs) + ")"@
}

/// One step of `escaped`: processing one more trailing character.
proof fn lemma_escaped_push(t: Seq<char>, c: char)
    ensures
        escaped(t.push(c)) == escaped(t) + (if c == '\'' {
            seq!['\'', '\'']
        } else {
            seq![c]
        }),
{
    assert(t.push(c).drop_last() =~= t);
    assert(t.push(c).last() == c);
}

/// Appends a filter value, upper-cased and escaped.
fn append_sql_value(out: &mut String, s: &str)
    ensures
        final(out)@ == old(out)@ + sql_value(s@),
{
    let ghost base = out@;
    let n = s.unicode_len();
    for i in 0..n
        invariant
            n == s@.len(),
            out@ == base + sql_value(s@.take(i as int)),
    {
        let c = s.get_char(i);
        let u = c as u32;
        let c2: char = if 97 <= u && u <= 122 {
            ((u - 32) as u8) as char
        } else {
            c
        };
        assert(c2 == upper_char(s@[i as int]));
        if c2 as u32 == 39 {
            assert(c2 == '\'');
            push_char(out, '\'');
            push_char(out, '\'');
        } else {
            assert(c2 != '\'');
            push_char(out, c2);
        }
        proof {
            let pre = s@.take(i as int);
            let up = ascii_upper(pre);
            assert(ascii_upper(s@.take(i + 1)) =~= up.push(upper_char(s@[i as int])));
            lemma_escaped_push(up, upper_char(s@[i as int]));
            assert(out@ =~= base + sql_value(s@.take(i + 1)));
        }
    }
    proof {
        assert(s@.take(n as int) =~= s@);
    }
}

/// Appends a time-range label, escaped but otherwise unchanged.
fn append_escaped(out: &mut String, s: &str)
    ensures
        final(out)@ == old(out)@ + escaped(s@),
{
    let ghost base = out@;
    let n = s.unicode_len();
    for i in 0..n
        invariant
            n == s@.len(),
            out@ == base + escaped(s@.take(i as int)),
    {
        let c = s.get_char(i);
        if c as u32 == 39 {
            assert(c == '\'');
            push_char(out, '\'');
            push_char(out, '\'');
        } else {
            assert(c != '\'');
            push_char(out, c);
        }
        proof {
            lemma_escaped_push(s@.take(i as int), s@[i as int]);
            assert(s@.take(i + 1) =~= s@.take(i as int).push(s@[i as int]));
            assert(out@ =~= base + escaped(s@.take(i + 1)));
        }
    }
    proof {
        assert(s@.take(n as int) =~= s@);
    }
}

/// Builds the row-selection query for the given filters and window labels:
/// the fixed column list over the backtest table, with exchange, stake
/// currency and pairlist matched in canonical upper case and the time range
/// restricted to the given labels.  Every interpolated value is escaped, so
/// no input can break out of its quoted literal.
pub fn build_flat_sql(params: &GridQuery, timeranges: &[String]) -> (r: String)
    ensures
        r@ == flat_sql(
            params.exchange@,
            params.currency@,
            params.pairlist@,
            str_views(timeranges@),
        ),
{
    let ghost rs = str_views(timeranges@);
    let mut out = String::new();
    out.append(
        "SELECT strategy, timeframe, minimal_roi, stoploss, max_open_trades, trailing_stop, trailing_stop_positive, trailing_stop_positive_offset, trailing_only_offset_is_reached, entry_pricing, exit_pricing, check_depth_of_market_enable, profit_total, total_trades, wins, winner_holding_avg_s, max_drawdown, rejected_signals, timerange FROM backtest WHERE exchange = '",
    );
    append_sql_value(&mut out, params.exchange.as_str());
    out.append("' AND stake_currency = '");
    append_sql_value(&mut out, params.currency.as_str());
    out.append("' AND pairlist = '");
    append_sql_value(&mut out, params.pairlist.as_str());
    out.append("' AND timerange IN (");
    let ghost head = out@;
    let n = timeranges.len();
    assert(n == rs.len());
    for i in 0..n
        invariant
            n == rs.len(),
            rs == str_views(timeranges@),
            out@ == head + range_list(rs.take(i as int)),
    {
        if i > 0 {
            push_char(&mut out, ',');
        }
        push_char(&mut out, '\'');
        append_escaped(&mut out, slice_index_get(timeranges, i).as_str());
        push_char(&mut out, '\'');
        proof {
            assert(rs[i as int] == timeranges@[i as int]@);
            if i == 0 {
                assert(rs.take(1)[0] == rs[0]);
                assert(out@ =~= head + range_list(rs.take(1)));
            } else {
                assert(rs.take(i + 1).drop_last() =~= rs.take(i as int));
                assert(rs.take(i + 1).last() == rs[i as int]);
                assert(out@ =~= head + range_list(rs.take(i + 1)));
            }
        }
    }
    out.append(")");
    proof {
        assert(rs.take(rs.len() as int) =~= rs);
        assert(out@ =~= flat_sql(
            params.exchange@,
            params.currency@,
            params.pairlist@,
            str_views(timeranges@),
        ));
    }
    out
}

} // verus!
