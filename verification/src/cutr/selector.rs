//! Selector tokens: `N` or `N-M`, one-based and inclusive as the user writes
//! them, turned into half-open ranges of zero-based positions.

use crate::decimal::{all_digits, decimal_value, is_digit, lemma_decimal_prefix};
use crate::text::chars_of;
use std::ops::Range;
use vstd::prelude::*;

verus! {

/// `c` belongs to the class asked for: the dash if `dash`, else the digits.
pub open spec fn in_class(c: char, dash: bool) -> bool {
    if dash {
        c == '-'
    } else {
        is_digit(c)
    }
}

/// How many characters at the start of `s` belong to the class.
pub open spec fn run_len(s: Seq<char>, dash: bool) -> nat
    decreases s.len(),
{
    if s.len() > 0 && in_class(s[0], dash) {
        1 + run_len(s.drop_first(), dash)
    } else {
        0
    }
}

/// The range that a token denotes, if it is a well-formed selector.
///
/// A token is a run of digits `N`, optionally followed by one or more dashes
/// and a possibly empty run of digits `M`. `N` must be at least one, and both
/// numbers must fit the machine's word. The range starts at `N - 1`; it ends
/// at `M` where `M` is written and at `N` where it is not. `M` may be less
/// than `N`: the range is then empty.
pub open spec fn parse_selector(s: Seq<char>) -> Option<Range<usize>> {
    let a = run_len(s, false);
    let d = run_len(s.skip(a as int), true);
    let rest = s.skip((a + d) as int);
    let n = decimal_value(s.take(a as int));
    let m = decimal_value(rest);
    if a == 0 || !all_digits(rest) || n == 0 || n > usize::MAX || m > usize::MAX {
        None
    } else if rest.len() == 0 {
        Some(Range { start: (n - 1) as usize, end: n as usize })
    } else {
        Some(Range { start: (n - 1) as usize, end: m as usize })
    }
}

/// A run is as long as the first position that is outside the class.
pub proof fn lemma_run_len(s: Seq<char>, dash: bool, k: int)
    requires
        0 <= k <= s.len(),
        forall|j: int| 0 <= j < k ==> in_class(#[trigger] s[j], dash),
        k == s.len() || !in_class(s[k], dash),
    ensures
        run_len(s, dash) == k,
    decreases k,
{
    if k > 0 {
        let t = s.drop_first();
        assert forall|j: int| 0 <= j < k - 1 implies in_class(#[trigger] t[j], dash) by {
            assert(t[j] == s[j + 1]);
        }
        lemma_run_len(t, dash, k - 1);
    }
}

/// A token that is not a well-formed selector.
#[derive(Debug)]
pub struct ParseError {
    pub token: String,
}

/// Tells whether `c` belongs to the class asked for.
fn belongs(c: char, dash: bool) -> (r: bool)
    ensures
        r == in_class(c, dash),
{
    if dash {
        c == '-'
    } else {
        '0' <= c && c <= '9'
    }
}

/// The first position at or after `from` whose character is outside the class.
fn scan(chars: &Vec<char>, from: usize, dash: bool) -> (to: usize)
    requires
        from <= chars@.len(),
    ensures
        from <= to <= chars@.len(),
        to - from == run_len(chars@.skip(from as int), dash),
{
    let mut i: usize = from;
    while i < chars.len() && belongs(chars[i], dash)
        invariant
            from <= i <= chars@.len(),
            forall|j: int| from <= j < i ==> in_class(#[trigger] chars@[j], dash),
        decreases chars@.len() - i,
    {
        i += 1;
    }
    proof {
        let s = chars@.skip(from as int);
        assert forall|j: int| 0 <= j < i - from implies in_class(#[trigger] s[j], dash) by {
            assert(s[j] == chars@[from + j]);
        }
        lemma_run_len(s, dash, i - from);
    }
    i
}

/// The number that the digits at `[from, to)` denote, where it fits.
fn number(chars: &Vec<char>, from: usize, to: usize) -> (value: Option<usize>)
    requires
        from <= to <= chars@.len(),
        all_digits(chars@.subrange(from as int, to as int)),
    ensures
        value == if decimal_value(chars@.subrange(from as int, to as int)) <= usize::MAX {
            Some(decimal_value(chars@.subrange(from as int, to as int)) as usize)
        } else {
            None
        },
{
    let ghost digits = chars@.subrange(from as int, to as int);
    let mut acc: usize = 0;
    let mut i: usize = from;
    while i < to
        invariant
            from <= i <= to <= chars@.len(),
            digits == chars@.subrange(from as int, to as int),
            all_digits(digits),
            acc == decimal_value(digits.take(i - from)),
        decreases to - i,
    {
        let c: char = chars[i];
        proof {
            assert(digits[i - from] == c);
            assert(is_digit(c));
            assert(digits.take(i - from + 1).drop_last() == digits.take(i - from));
            lemma_decimal_prefix(digits, i - from + 1);
        }
        let d: usize = (c as u32 - '0' as u32) as usize;
        let next = match acc.checked_mul(10) {
            Some(tens) => tens.checked_add(d),
            None => None,
        };
        match next {
            Some(v) => {
                acc = v;
            },
            None => {
                return None;
            },
        }
        i += 1;
    }
    proof {
        assert(digits.take(to - from) == digits);
    }
    Some(acc)
}

/// Reads one selector token.
///
/// Returns the range that the token denotes, or the token itself as an error
/// where it is not a well-formed selector.
pub fn parse_index(txt: &String) -> (r: Result<Range<usize>, ParseError>)
    ensures
        match parse_selector(txt@) {
            Some(sel) => r == Ok::<Range<usize>, ParseError>(sel),
            None => r matches Err(e) && e.token@ == txt@,
        },
{
    let chars = chars_of(txt.as_str());
    let a = scan(&chars, 0, false);
    let b = scan(&chars, a, true);
    let end = scan(&chars, b, false);
    proof {
        assert(chars@.skip(0) == chars@);
        assert(chars@.take(a as int) == chars@.subrange(0, a as int));
        assert(chars@.skip(b as int) == chars@.subrange(b as int, chars@.len() as int));
        lemma_all_digits_run(chars@.skip(b as int));
    }
    if a == 0 || end != chars.len() {
        return Err(ParseError { token: txt.clone() });
    }
    proof {
        lemma_run_digits(chars@, a as int);
    }
    let n = match number(&chars, 0, a) {
        Some(n) => n,
        None => {
            return Err(ParseError { token: txt.clone() });
        },
    };
    let m = match number(&chars, b, chars.len()) {
        Some(m) => m,
        None => {
            return Err(ParseError { token: txt.clone() });
        },
    };
    if n == 0 {
        return Err(ParseError { token: txt.clone() });
    }
    if b == chars.len() {
        Ok(Range { start: n - 1, end: n })
    } else {
        Ok(Range { start: n - 1, end: m })
    }
}

/// A sequence is all digits exactly when its leading run of digits is the
/// whole of it.
pub proof fn lemma_all_digits_run(s: Seq<char>)
    ensures
        all_digits(s) <==> run_len(s, false) == s.len(),
    decreases s.len(),
{
    if s.len() > 0 {
        let t = s.drop_first();
        lemma_all_digits_run(t);
        if is_digit(s[0]) && all_digits(t) {
            assert forall|i: int| 0 <= i < s.len() implies is_digit(#[trigger] s[i]) by {
                if i > 0 {
                    assert(s[i] == t[i - 1]);
                }
            }
        }
        if all_digits(s) {
            assert(is_digit(s[0]));
            assert forall|i: int| 0 <= i < t.len() implies is_digit(#[trigger] t[i]) by {
                assert(t[i] == s[i + 1]);
            }
        }
        lemma_run_bound(t, false);
    }
}

/// A run is no longer than the sequence.
pub proof fn lemma_run_bound(s: Seq<char>, dash: bool)
    ensures
        run_len(s, dash) <= s.len(),
    decreases s.len(),
{
    if s.len() > 0 {
        lemma_run_bound(s.drop_first(), dash);
    }
}

/// The characters of the leading run of digits are digits.
pub proof fn lemma_run_digits(s: Seq<char>, a: int)
    requires
        a == run_len(s, false),
    ensures
        a <= s.len(),
        all_digits(s.subrange(0, a)),
    decreases s.len(),
{
    lemma_run_bound(s, false);
    if a > 0 {
        let t = s.drop_first();
        lemma_run_digits(t, a - 1);
        assert forall|i: int| 0 <= i < a implies is_digit(#[trigger] s.subrange(0, a)[i]) by {
            if i > 0 {
                assert(s.subrange(0, a)[i] == t.subrange(0, a - 1)[i - 1]);
            }
        }
    }
}

/// A token that is one positive number `N` denotes the range `[N - 1, N)`.
pub proof fn lemma_single_position(token: Seq<char>)
    requires
        token.len() > 0,
        all_digits(token),
        1 <= decimal_value(token) <= usize::MAX,
    ensures
        parse_selector(token) == Some(
            Range {
                start: (decimal_value(token) - 1) as usize,
                end: decimal_value(token) as usize,
            },
        ),
{
    lemma_all_digits_run(token);
    let a = token.len() as int;
    assert(token.take(a) == token);
    assert(token.skip(a) == Seq::<char>::empty());
    assert(token.skip(a + 0) == Seq::<char>::empty());
}

/// A token `N-M` of two numbers, `N` positive, denotes the range
/// `[N - 1, M)`, whether or not `M` is at least `N`. Where it is, the range
/// is not empty.
pub proof fn lemma_inclusive_range(first: Seq<char>, last: Seq<char>)
    requires
        first.len() > 0,
        last.len() > 0,
        all_digits(first),
        all_digits(last),
        1 <= decimal_value(first) <= usize::MAX,
        decimal_value(last) <= usize::MAX,
    ensures
        parse_selector(first + seq!['-'] + last) == Some(
            Range { start: (decimal_value(first) - 1) as usize, end: decimal_value(last) as usize },
        ),
        decimal_value(last) >= decimal_value(first) ==> parse_selector(
            first + seq!['-'] + last,
        )->0.start < parse_selector(first + seq!['-'] + last)->0.end,
{
    let token = first + seq!['-'] + last;
    let a = first.len() as int;
    assert forall|j: int| 0 <= j < a implies in_class(#[trigger] token[j], false) by {
        assert(token[j] == first[j]);
    }
    assert(token[a] == '-');
    lemma_run_len(token, false, a);
    let after = token.skip(a);
    assert(after[0] == '-');
    assert(after[1] == last[0]);
    assert(is_digit(last[0]));
    lemma_run_len(after, true, 1);
    assert(token.take(a) == first);
    assert(token.skip(a + 1) == last);
}

} // verus!
