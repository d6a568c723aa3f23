use vstd::prelude::*;

use crate::dates::{month_of, parse_date, valid_date_str, year_of};
use crate::text::{digit_char, digit_val, digits_val, push_char, push_digit};

verus! {

/// Month index of December 9999, the last month a window label can show
/// with a four-digit year.
pub const LAST_MONTH_INDEX: usize = 119_999;

/// Why a window request was rejected.
#[derive(Clone, Copy, Debug, PartialEq, Eq, Structural)]
pub enum WindowError {
    /// The start date is not a valid `YYYY-MM-DD` calendar day.
    InvalidDate,
    /// The month count is zero.
    InvalidMonths,
    /// The windows would run past December 9999.
    RangeTooWide,
}

/// Month index of the month a valid date string falls in.
pub open spec fn start_month_index(s: Seq<char>) -> int {
    year_of(s) * 12 + month_of(s) - 1
}

/// The `YYYYMM01` stamp of the first day of the month with index `m`.
pub open spec fn month_label(m: int) -> Seq<char>
    recommends
        0 <= m <= LAST_MONTH_INDEX,
{
    let y = m / 12;
    let mo = m % 12 + 1;
    seq![
        digit_char(y / 1000),
        digit_char(y / 100 % 10),
        digit_char(y / 10 % 10),
        digit_char(y % 10),
        digit_char(mo / 10),
        digit_char(mo % 10),
        '0',
        '1',
    ]
}

/// The label of the calendar-month window starting at month index `m`:
/// its first day and the first day of the following month.
pub open spec fn window_label(m: int) -> Seq<char> {
    month_label(m) + seq!['-'] + month_label(m + 1)
}

/// Whether a window request is accepted.
pub open spec fn windows_ok(s: Seq<char>, months: int) -> bool {
    &&& valid_date_str(s)
    &&& months >= 1
    &&& start_month_index(s) + months <= LAST_MONTH_INDEX
}

/// Appends the `YYYYMM01` stamp of month index `m`.
fn push_month_label(s: &mut String, m: usize)
    requires
        m <= LAST_MONTH_INDEX,
    ensures
        final(s)@ == old(s)@ + month_label(m as int),
{
    let y = (m / 12) as u32;
    let mo = (m % 12 + 1) as u32;
    push_digit(s, y / 1000);
    push_digit(s, y / 100 % 10);
    push_digit(s, y / 10 % 10);
    push_digit(s, y % 10);
    push_digit(s, mo / 10);
    push_digit(s, mo % 10);
    push_digit(s, 0);
    push_digit(s, 1);
    proof {
        assert(digit_char(0) == '0');
        assert(digit_char(1) == '1');
        assert(s@ =~= old(s)@ + month_label(m as int));
    }
}

/// One label per calendar month: `months` back-to-back windows starting at
/// the first day of the month `start_date` falls in, each window written as
/// `YYYYMMDD-YYYYMMDD` (its first day and the first day of the next month).
/// A malformed or impossible request is reported as an error, never a panic.
pub fn generate_time_windows(start_date: &str, months: usize) -> (r: Result<
    Vec<String>,
    WindowError,
>)
    ensures
        r is Ok <==> windows_ok(start_date@, months as int),
        r == Err::<Vec<String>, WindowError>(WindowError::InvalidDate) <==> !valid_date_str(
            start_date@,
        ),
        r == Err::<Vec<String>, WindowError>(WindowError::InvalidMonths) <==> valid_date_str(
            start_date@,
        ) && months == 0,
        r == Err::<Vec<String>, WindowError>(WindowError::RangeTooWide) <==> valid_date_str(
            start_date@,
        ) && months >= 1 && start_month_index(start_date@) + months > LAST_MONTH_INDEX,
        r matches Ok(v) ==> v@.len() == months && forall|i: int|
            0 <= i < months ==> v@[i]@ == window_label(start_month_index(start_date@) + i),
{
    let date = match parse_date(start_date) {
        Some(d) => d,
        None => { return Err(WindowError::InvalidDate); },
    };
    if months == 0 {
        return Err(WindowError::InvalidMonths);
    }
    let m0 = (date.year * 12 + (date.month - 1)) as usize;
    assert(m0 == start_month_index(start_date@));
    if months > LAST_MONTH_INDEX - m0 {
        return Err(WindowError::RangeTooWide);
    }
    let mut out: Vec<String> = Vec::new();
    for i in 0..months
        invariant
            out@.len() == i,
            m0 + months <= LAST_MONTH_INDEX,
            m0 == start_month_index(start_date@),
            forall|j: int| 0 <= j < i ==> out@[j]@ == window_label(m0 + j),
    {
        let mut label = String::new();
        push_month_label(&mut label, m0 + i);
        push_char(&mut label, '-');
        push_month_label(&mut label, m0 + i + 1);
        proof {
            assert(label@ =~= window_label(m0 + i));
        }
        out.push(label);
    }
    Ok(out)
}

/// The numeric value of the eight-digit stamp of month index `m`:
/// `year * 10000 + month * 100 + 1`.
pub proof fn lemma_month_label_value(m: int)
    requires
        0 <= m <= LAST_MONTH_INDEX,
    ensures
        month_label(m).len() == 8,
        digits_val(month_label(m), 8) == (m / 12) * 10000 + (m % 12 + 1) * 100 + 1,
{
    reveal_with_fuel(digits_val, 9);
    let l = month_label(m);
    let y = m / 12;
    let mo = m % 12 + 1;
    assert(0 <= y <= 9999);
    assert(1 <= mo <= 12);
    assert(digit_val(digit_char(y / 1000)) == y / 1000);
    assert(digit_val(digit_char(y / 100 % 10)) == y / 100 % 10);
    assert(digit_val(digit_char(y / 10 % 10)) == y / 10 % 10);
    assert(digit_val(digit_char(y % 10)) == y % 10);
    assert(digit_val(digit_char(mo / 10)) == mo / 10);
    assert(digit_val(digit_char(mo % 10)) == mo % 10);
    assert(digit_val('0') == 0);
    assert(digit_val('1') == 1);
    assert(digits_val(l, 8) == ((((((digit_val(l[0]) * 10 + digit_val(l[1])) * 10 + digit_val(
        l[2],
    )) * 10 + digit_val(l[3])) * 10 + digit_val(l[4])) * 10 + digit_val(l[5])) * 10 + digit_val(
        l[6],
    )) * 10 + digit_val(l[7]));
    assert(y == (y / 1000) * 1000 + (y / 100 % 10) * 100 + (y / 10 % 10) * 10 + y % 10) by {
        vstd::arithmetic::div_mod::lemma_fundamental_div_mod(y, 10);
        vstd::arithmetic::div_mod::lemma_fundamental_div_mod(y / 10, 10);
        vstd::arithmetic::div_mod::lemma_fundamental_div_mod(y / 100, 10);
        assert(y / 10 / 10 == y / 100) by (nonlinear_arith)
            requires
                y >= 0,
        ;
        assert(y / 100 / 10 == y / 1000) by (nonlinear_arith)
            requires
                y >= 0,
        ;
        assert(y / 1000 % 10 == y / 1000);
    }
    assert(mo == (mo / 10) * 10 + mo % 10) by {
        vstd::arithmetic::div_mod::lemma_fundamental_div_mod(mo, 10);
    }
}

/// Consecutive windows abut exactly: the end stamp of window `m` is the
/// start stamp of window `m + 1`, and each window covers one calendar
/// month, from the first day of its month to the first day of the next.
pub proof fn lemma_windows_contiguous(m: int)
    requires
        0 <= m,
        m + 1 <= LAST_MONTH_INDEX,
    ensures
        window_label(m).len() == 17,
        window_label(m).subrange(0, 8) == month_label(m),
        window_label(m)[8] == '-',
        window_label(m).subrange(9, 17) == month_label(m + 1),
        window_label(m + 1).subrange(0, 8) == month_label(m + 1),
{
    assert(window_label(m).subrange(0, 8) =~= month_label(m));
    assert(window_label(m).subrange(9, 17) =~= month_label(m + 1));
    assert(window_label(m + 1).subrange(0, 8) =~= month_label(m + 1));
}

/// Stamps grow strictly with the month index, so the windows a request
/// yields are in chronological order.
pub proof fn lemma_month_labels_increase(m1: int, m2: int)
    requires
        0 <= m1 < m2 <= LAST_MONTH_INDEX,
    ensures
        digits_val(month_label(m1), 8) < digits_val(month_label(m2), 8),
{
    lemma_month_label_value(m1);
    lemma_month_label_value(m2);
    vstd::arithmetic::div_mod::lemma_fundamental_div_mod(m1, 12);
    vstd::arithmetic::div_mod::lemma_fundamental_div_mod(m2, 12);
    assert(m1 / 12 <= m2 / 12) by (nonlinear_arith)
        requires
            0 <= m1 < m2,
    ;
}

} // verus!
