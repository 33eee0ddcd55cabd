//! Numbers as decimal text, and text set flush right in a column.

use crate::text::push_char;
use vstd::prelude::*;

verus! {

/// `c` is one of the ten decimal digits.
pub open spec fn is_digit(c: char) -> bool {
    '0' <= c && c <= '9'
}

/// Every character of `s` is a decimal digit.
pub open spec fn all_digits(s: Seq<char>) -> bool {
    forall|i: int| 0 <= i < s.len() ==> is_digit(#[trigger] s[i])
}

/// The number that a digit stands for.
pub open spec fn digit_value(c: char) -> nat {
    (c as u32 - '0' as u32) as nat
}

/// The number that a sequence of digits denotes in base ten; the empty
/// sequence denotes zero.
pub open spec fn decimal_value(s: Seq<char>) -> nat
    decreases s.len(),
{
    if s.len() == 0 {
        0
    } else {
        10 * decimal_value(s.drop_last()) + digit_value(s.last())
    }
}

/// A prefix of a sequence of digits denotes no more than the whole.
pub proof fn lemma_decimal_prefix(s: Seq<char>, k: int)
    requires
        0 <= k <= s.len(),
    ensures
        decimal_value(s.take(k)) <= decimal_value(s),
    decreases s.len(),
{
    if k == s.len() {
        assert(s.take(k) == s);
    } else {
        assert(s.drop_last().take(k) == s.take(k));
        lemma_decimal_prefix(s.drop_last(), k);
    }
}

/// The digit that stands for a number below ten.
pub open spec fn digit_char(d: nat) -> char {
    if d == 0 {
        '0'
    } else if d == 1 {
        '1'
    } else if d == 2 {
        '2'
    } else if d == 3 {
        '3'
    } else if d == 4 {
        '4'
    } else if d == 5 {
        '5'
    } else if d == 6 {
        '6'
    } else if d == 7 {
        '7'
    } else if d == 8 {
        '8'
    } else {
        '9'
    }
}

/// The digits of `n` in base ten, most significant first, without leading
/// zeros; zero is the single digit `0`.
pub open spec fn digits_of(n: nat) -> Seq<char>
    decreases n,
{
    if n < 10 {
        seq![digit_char(n)]
    } else {
        digits_of(n / 10).push(digit_char(n % 10))
    }
}

/// `count` spaces.
pub open spec fn spaces(count: nat) -> Seq<char> {
    Seq::new(count, |i: int| ' ')
}

/// `text` set flush right in a column of the given width: spaces are put
/// before it to fill the column, and text that is wider stays as it is.
pub open spec fn right_aligned(text: Seq<char>, width: nat) -> Seq<char> {
    if text.len() >= width {
        text
    } else {
        spaces((width - text.len()) as nat) + text
    }
}

/// The digits of a number denote that number.
pub proof fn lemma_digits_denote(n: nat)
    ensures
        digits_of(n).len() > 0,
        all_digits(digits_of(n)),
        decimal_value(digits_of(n)) == n,
    decreases n,
{
    if n < 10 {
        let s = digits_of(n);
        assert(s.drop_last() == Seq::<char>::empty());
        assert(decimal_value(s.drop_last()) == 0);
        assert(digit_value(s.last()) == n);
    } else {
        lemma_digits_denote(n / 10);
        let s = digits_of(n);
        assert(s.drop_last() == digits_of(n / 10));
        assert(digit_value(s.last()) == n % 10);
        assert forall|i: int| 0 <= i < s.len() implies is_digit(#[trigger] s[i]) by {
            if i < s.len() - 1 {
                assert(s[i] == digits_of(n / 10)[i]);
            }
        }
    }
}

/// The digit for a number below ten.
fn digit(d: u64) -> (c: char)
    requires
        d < 10,
    ensures
        c == digit_char(d as nat),
{
    if d == 0 {
        '0'
    } else if d == 1 {
        '1'
    } else if d == 2 {
        '2'
    } else if d == 3 {
        '3'
    } else if d == 4 {
        '4'
    } else if d == 5 {
        '5'
    } else if d == 6 {
        '6'
    } else if d == 7 {
        '7'
    } else if d == 8 {
        '8'
    } else {
        '9'
    }
}

/// The digits of `n`, most significant first.
pub fn digits(n: u64) -> (out: Vec<char>)
    ensures
        out@ == digits_of(n as nat),
    decreases n,
{
    if n < 10 {
        let mut out: Vec<char> = Vec::new();
        out.push(digit(n));
        out
    } else {
        let mut out = digits(n / 10);
        out.push(digit(n % 10));
        out
    }
}

/// The decimal text of `n`, set flush right in a column of the given width.
pub fn aligned_number(n: usize, width: usize) -> (text: String)
    ensures
        text@ == right_aligned(digits_of(n as nat), width as nat),
{
    let body = digits(n as u64);
    let mut text = String::new();
    let mut i: usize = body.len();
    while i < width
        invariant
            body@.len() <= i,
            i <= width || i == body@.len(),
            text@ == spaces((i - body@.len()) as nat),
        decreases width - i,
    {
        push_char(&mut text, ' ');
        i += 1;
    }
    let ghost padding = text@;
    let mut k: usize = 0;
    while k < body.len()
        invariant
            k <= body@.len(),
            text@ == padding + body@.take(k as int),
        decreases body@.len() - k,
    {
        push_char(&mut text, body[k]);
        k += 1;
    }
    proof {
        assert(body@.take(k as int) == body@);
        if body@.len() >= width {
            assert(padding == Seq::<char>::empty());
            assert(padding + body@ == body@);
        }
    }
    text
}

/// The decimal text of `n`.
pub fn number(n: usize) -> (text: String)
    ensures
        text@ == digits_of(n as nat),
{
    aligned_number(n, 0)
}

/// The decimal text of a 64-bit number.
pub fn number_u64(n: u64) -> (text: String)
    ensures
        text@ == digits_of(n as nat),
{
    crate::text::text_of(&digits(n))
}

} // verus!
