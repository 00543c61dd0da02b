//! Interactive number input: the line-editing state machine driven one
//! keystroke at a time, and the final parse of the buffered digits. The
//! keystroke source itself is an external capability; only the decisions it
//! drives live here.

use vstd::prelude::*;
use crate::data::LangError;
use crate::digits::{is_digit, lemma_number_of_digits_monotone, number_of_digits};

verus! {

/// One keystroke as the line editor classifies it.
#[derive(Clone, Copy, Debug, PartialEq, Eq, Structural)]
pub enum Keystroke {
    /// An ordinary character key; only digits are buffered.
    Character(char),
    /// Backspace or delete: drop the last buffered digit.
    Backspace,
    /// End of line: input collection is complete.
    Enter,
    /// An interrupt: the whole run aborts.
    Interrupt,
}

/// What the editor does after a keystroke.
#[derive(Clone, Copy, Debug, PartialEq, Eq, Structural)]
pub enum InputStep {
    /// Keep collecting keystrokes.
    Pending,
    /// Input is complete; parse the buffer.
    Finished,
    /// The run aborts fatally.
    Aborted,
}

/// The buffer after one keystroke: a digit is appended, any other character
/// ignored; backspace drops the last digit, doing nothing to an empty
/// buffer; enter and interrupt leave the buffer as it stands.
pub open spec fn key_buffer_model(buf: Seq<char>, key: Keystroke) -> Seq<char> {
    match key {
        Keystroke::Character(c) => if is_digit(c) {
            buf.push(c)
        } else {
            buf
        },
        Keystroke::Backspace => if buf.len() > 0 {
            buf.drop_last()
        } else {
            buf
        },
        Keystroke::Enter => buf,
        Keystroke::Interrupt => buf,
    }
}

/// Whether collection continues, completes, or aborts after a keystroke.
pub open spec fn key_step_model(key: Keystroke) -> InputStep {
    match key {
        Keystroke::Enter => InputStep::Finished,
        Keystroke::Interrupt => InputStep::Aborted,
        _ => InputStep::Pending,
    }
}

/// Apply one keystroke to the digit buffer.
pub fn input_apply_key(buffer: &mut Vec<char>, key: Keystroke) -> (r: InputStep)
    ensures
        final(buffer)@ == key_buffer_model(old(buffer)@, key),
        r == key_step_model(key),
{
    match key {
        Keystroke::Character(c) => {
            let u = c as u32;
            if 48 <= u && u <= 57 {
                buffer.push(c);
            }
            InputStep::Pending
        },
        Keystroke::Backspace => {
            if buffer.len() > 0 {
                buffer.pop();
                proof {
                    assert(buffer@ =~= old(buffer)@.drop_last());
                }
            }
            InputStep::Pending
        },
        Keystroke::Enter => InputStep::Finished,
        Keystroke::Interrupt => InputStep::Aborted,
    }
}

/// The index of the first non-digit in `s`, or `s.len()` where every
/// character is a digit.
pub open spec fn first_nondigit(s: Seq<char>) -> int
    decreases s.len(),
{
    if s.len() == 0 {
        0
    } else if !is_digit(s.first()) {
        0
    } else {
        1 + first_nondigit(s.drop_first())
    }
}

/// Where the first `k` characters are digits and the one at `k` is not (or
/// the string ends there), the first non-digit is at `k`.
proof fn lemma_first_nondigit_at(s: Seq<char>, k: int)
    requires
        0 <= k <= s.len(),
        forall|j: int| 0 <= j < k ==> is_digit(#[trigger] s[j]),
        k < s.len() ==> !is_digit(s[k]),
    ensures
        first_nondigit(s) == k,
    decreases s.len(),
{
    if k > 0 {
        assert(forall|j: int| 0 <= j < k - 1 ==> s.drop_first()[j] == s[j + 1]);
        assert(k - 1 < s.drop_first().len() ==> s.drop_first()[k - 1] == s[k]);
        lemma_first_nondigit_at(s.drop_first(), k - 1);
    }
}

/// Where the first `k` characters are digits, the first non-digit is no
/// earlier than `k`.
proof fn lemma_first_nondigit_lb(s: Seq<char>, k: int)
    requires
        0 <= k <= s.len(),
        forall|j: int| 0 <= j < k ==> is_digit(#[trigger] s[j]),
    ensures
        first_nondigit(s) >= k,
        first_nondigit(s) >= 0,
    decreases s.len(),
{
    if s.len() > 0 && is_digit(s.first()) {
        assert(forall|j: int| 0 <= j < k - 1 ==> s.drop_first()[j] == s[j + 1]);
        lemma_first_nondigit_lb(s.drop_first(), if k > 0 {
            k - 1
        } else {
            0
        });
    }
}

/// The first non-digit's index never passes the string's end.
proof fn lemma_first_nondigit_ub(s: Seq<char>)
    ensures
        first_nondigit(s) <= s.len(),
    decreases s.len(),
{
    if s.len() > 0 && is_digit(s.first()) {
        lemma_first_nondigit_ub(s.drop_first());
    }
}

/// Parsing a completed input buffer, scanning left to right: an empty buffer
/// is a fatal error; the scan fails with an overflow as soon as the digits
/// read exceed the platform's unsigned range, and otherwise fails on the
/// first non-digit it meets.
pub open spec fn buffer_parse(s: Seq<char>) -> Result<usize, LangError> {
    if s.len() == 0 {
        Err(LangError::EmptyNumberInput)
    } else if number_of_digits(s.take(first_nondigit(s))) > usize::MAX {
        Err(LangError::NumberOverflow)
    } else if first_nondigit(s) < s.len() {
        Err(LangError::InvalidNumber(s[first_nondigit(s)]))
    } else {
        Ok(number_of_digits(s) as usize)
    }
}

/// Parse the collected digit buffer as a base-10 number.
pub fn finish_number_input(buffer: &Vec<char>) -> (r: Result<usize, LangError>)
    ensures
        r == buffer_parse(buffer@),
{
    let n = buffer.len();
    if n == 0 {
        return Err(LangError::EmptyNumberInput);
    }
    let mut acc: usize = 0;
    let mut k: usize = 0;
    proof {
        assert(buffer@.take(0) =~= Seq::<char>::empty());
    }
    while k < n
        invariant
            k <= n,
            n == buffer@.len(),
            forall|j: int| 0 <= j < k ==> is_digit(#[trigger] buffer@[j]),
            acc == number_of_digits(buffer@.take(k as int)),
        decreases n - k,
    {
        let c = buffer[k];
        let u = c as u32;
        if !(48 <= u && u <= 57) {
            proof {
                lemma_first_nondigit_at(buffer@, k as int);
            }
            return Err(LangError::InvalidNumber(c));
        }
        proof {
            lemma_first_nondigit_lb(buffer@, k as int + 1);
        }
        proof {
            assert(buffer@.take(k as int + 1).drop_last() =~= buffer@.take(k as int));
            assert(buffer@.take(k as int + 1).last() == c);
        }
        let d = (u - 48) as usize;
        let step = match acc.checked_mul(10) {
            Some(t) => t.checked_add(d),
            None => None,
        };
        acc = match step {
            Some(v) => v,
            None => {
                proof {
                    let fnd = first_nondigit(buffer@);
                    lemma_first_nondigit_ub(buffer@);
                    assert(number_of_digits(buffer@.take(k as int + 1)) > usize::MAX);
                    assert(buffer@.take(fnd).take(k as int + 1) =~= buffer@.take(k as int + 1));
                    lemma_number_of_digits_monotone(buffer@.take(fnd), k as int + 1);
                }
                return Err(LangError::NumberOverflow);
            },
        };
        k += 1;
    }
    proof {
        lemma_first_nondigit_at(buffer@, n as int);
        assert(buffer@.take(n as int) =~= buffer@);
    }
    Ok(acc)
}

} // verus!
