use vstd::prelude::*;

verus! {

/// Whether a character is one of the ten decimal digits.
pub open spec fn is_digit_char(c: char) -> bool {
    48 <= c as u32 && c as u32 <= 57
}

/// The numeric value of a digit character.
pub open spec fn digit_val(c: char) -> int {
    c as u32 - 48
}

/// The character for a decimal digit.
pub open spec fn digit_char(d: int) -> char
    recommends
        0 <= d <= 9,
{
    ((48 + d) as u8) as char
}

/// The value of the first `n` characters of `s` read as decimal digits.
pub open spec fn digits_val(s: Seq<char>, n: int) -> int
    recommends
        0 <= n <= s.len(),
    decreases n,
{
    if n <= 0 {
        0
    } else {
        digits_val(s, n - 1) * 10 + digit_val(s[n - 1])
    }
}

/// Powers of ten.
pub open spec fn ten_pow(n: int) -> int
    decreases n,
{
    if n <= 0 {
        1
    } else {
        10 * ten_pow(n - 1)
    }
}

/// `n` digit characters read as a number stay below the `n`-th power of ten.
pub proof fn lemma_digits_val_bound(s: Seq<char>, n: int)
    requires
        0 <= n <= s.len(),
        forall|j: int| 0 <= j < n ==> is_digit_char(s[j]),
    ensures
        0 <= digits_val(s, n) < ten_pow(n),
    decreases n,
{
    if n > 0 {
        lemma_digits_val_bound(s, n - 1);
    }
}

/// Relies on `String::push`: appends exactly the given character.
#[verifier::external_body]
pub(crate) fn push_char(s: &mut String, c: char)
    ensures
        final(s)@ == old(s)@.push(c),
{
    s.push(c);
}

/// Appends the character for one decimal digit.
pub(crate) fn push_digit(s: &mut String, d: u32)
    requires
        d <= 9,
    ensures
        final(s)@ == old(s)@.push(digit_char(d as int)),
{
    let c = ((48 + d) as u8) as char;
    push_char(s, c);
}

} // verus!
