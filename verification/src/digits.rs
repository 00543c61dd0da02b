//! Decimal digits: classifying digit characters, valuing digit strings, and
//! rendering a number as its decimal digit string.

use vstd::prelude::*;

verus! {

/// An ASCII decimal digit.
pub open spec fn is_digit(c: char) -> bool {
    48 <= c as u32 <= 57
}

/// The numeric value of a digit character.
pub open spec fn digit_val(c: char) -> nat
    recommends
        is_digit(c),
{
    (c as u32 - 48) as nat
}

/// The digit character for a value below ten.
pub open spec fn digit_char(d: nat) -> char
    recommends
        d < 10,
{
    if d == 0 {
        '0'
    } else if d == 1 {
        '1'
    } else if d == 2 {
        '2'
    } else if d == 3 {
        '3'
    } else if d == 4 {
        '4'
    } else if d == 5 {
        '5'
    } else if d == 6 {
        '6'
    } else if d == 7 {
        '7'
    } else if d == 8 {
        '8'
    } else {
        '9'
    }
}

/// The base-10 value of a digit string, most significant digit first.
pub open spec fn number_of_digits(s: Seq<char>) -> nat
    decreases s.len(),
{
    if s.len() == 0 {
        0
    } else {
        number_of_digits(s.drop_last()) * 10 + digit_val(s.last())
    }
}

/// Digits appended on the right never lower a number's value.
pub proof fn lemma_number_of_digits_monotone(s: Seq<char>, j: int)
    requires
        0 <= j <= s.len(),
    ensures
        number_of_digits(s) >= number_of_digits(s.take(j)),
    decreases s.len() - j,
{
    if j < s.len() {
        assert(s.take(j + 1).drop_last() =~= s.take(j));
        lemma_number_of_digits_monotone(s, j + 1);
    } else {
        assert(s.take(j) =~= s);
    }
}

/// The decimal digit string of a number: no leading zeroes, except that zero
/// itself is the single digit `0`.
pub open spec fn decimal_of(n: nat) -> Seq<char>
    decreases n,
{
    if n < 10 {
        seq![digit_char(n)]
    } else {
        decimal_of(n / 10).push(digit_char(n % 10))
    }
}

/// The digit character for a value below ten.
fn digit_char_of(d: usize) -> (c: char)
    requires
        d < 10,
    ensures
        c == digit_char(d as nat),
{
    if d == 0 {
        '0'
    } else if d == 1 {
        '1'
    } else if d == 2 {
        '2'
    } else if d == 3 {
        '3'
    } else if d == 4 {
        '4'
    } else if d == 5 {
        '5'
    } else if d == 6 {
        '6'
    } else if d == 7 {
        '7'
    } else if d == 8 {
        '8'
    } else {
        '9'
    }
}

/// Render `n` as its decimal digit string.
pub fn decimal_digits(n: usize) -> (v: Vec<char>)
    ensures
        v@ == decimal_of(n as nat),
{
    let mut rev: Vec<char> = Vec::new();
    let mut m = n;
    loop
        invariant_except_break
            decimal_of(n as nat) == decimal_of(m as nat) + rev@.reverse(),
        ensures
            decimal_of(n as nat) == rev@.reverse(),
        decreases m,
    {
        let d = m % 10;
        let digit = digit_char_of(d);
        let ghost old_rev = rev@;
        rev.push(digit);
        proof {
            assert(rev@.reverse() =~= seq![digit] + old_rev.reverse());
        }
        let next = m / 10;
        if next == 0 {
            proof {
                assert(decimal_of(m as nat) =~= seq![digit]);
                assert(decimal_of(n as nat) =~= rev@.reverse());
            }
            break ;
        }
        proof {
            assert(m >= 10);
            assert(decimal_of(m as nat) == decimal_of((m as nat) / 10).push(digit));
            assert(decimal_of(next as nat) + rev@.reverse() =~= decimal_of(m as nat)
                + old_rev.reverse());
        }
        m = next;
    }
    let mut out: Vec<char> = Vec::new();
    let total = rev.len();
    let mut j: usize = total;
    while j > 0
        invariant
            j <= total,
            total == rev@.len(),
            out@ == rev@.reverse().take((total - j) as int),
        decreases j,
    {
        let c = rev[j - 1];
        proof {
            assert(rev@.reverse()[(total - j) as int] == c);
            assert(out@.push(c) =~= rev@.reverse().take((total - j + 1) as int));
        }
        out.push(c);
        j -= 1;
    }
    proof {
        assert(out@ =~= rev@.reverse());
    }
    out
}

} // verus!
