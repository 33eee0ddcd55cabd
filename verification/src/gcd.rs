//! Greatest common divisor of two positive integers, and the reply a
//! calculator front end gives for a pair of operands.

use vstd::arithmetic::div_mod::{lemma_fundamental_div_mod, lemma_mod_multiples_vanish};
use crate::decimal::{digits_of, number_u64};
use vstd::prelude::*;
use vstd::string::StringExecFns;

verus! {

/// `d` is a positive divisor of `n`.
pub open spec fn divides(d: int, n: int) -> bool {
    d > 0 && n % d == 0
}

/// `d` divides both `n` and `m`.
pub open spec fn common_divisor(d: int, n: int, m: int) -> bool {
    divides(d, n) && divides(d, m)
}

/// `g` is the greatest of the common divisors of `n` and `m`.
pub open spec fn is_gcd(g: int, n: int, m: int) -> bool {
    &&& common_divisor(g, n, m)
    &&& forall|d: int| common_divisor(d, n, m) ==> d <= g
}

/// Replacing `m` by its remainder modulo `n` keeps the common divisors.
proof fn lemma_remainder_keeps_divisors(d: int, n: int, m: int)
    requires
        n > 0,
        m >= 0,
        divides(d, n),
    ensures
        divides(d, m) <==> divides(d, m % n),
{
    let q = m / n;
    let k = n / d;
    lemma_fundamental_div_mod(m, n);
    lemma_fundamental_div_mod(n, d);
    assert(n == d * k);
    assert(n * q == d * (k * q)) by (nonlinear_arith)
        requires
            n == d * k,
    ;
    lemma_mod_multiples_vanish(k * q, m % n, d);
}

/// The greatest common divisor of two positive integers.
pub fn gcd(n: u64, m: u64) -> (g: u64)
    requires
        n != 0,
        m != 0,
    ensures
        is_gcd(g as int, n as int, m as int),
{
    let mut a: u64 = n;
    let mut b: u64 = m;
    while b != 0
        invariant
            a > 0,
            forall|d: int| common_divisor(d, a as int, b as int) <==> common_divisor(d, n as int, m as int),
        decreases a + b,
    {
        let ghost a0 = a;
        let ghost b0 = b;
        if b < a {
            let t: u64 = b;
            b = a;
            a = t;
        }
        let ghost b1 = b;
        b = b % a;
        proof {
            assert forall|d: int| common_divisor(d, a as int, b as int) <==> common_divisor(
                d,
                n as int,
                m as int,
            ) by {
                if divides(d, a as int) {
                    lemma_remainder_keeps_divisors(d, a as int, b1 as int);
                }
                assert(common_divisor(d, a as int, b1 as int) <==> common_divisor(
                    d,
                    a0 as int,
                    b0 as int,
                ));
            }
        }
    }
    proof {
        assert(divides(a as int, a as int)) by {
            lemma_mod_multiples_vanish(1, 0, a as int);
        }
        assert(common_divisor(a as int, a as int, 0));
        assert forall|d: int| common_divisor(d, n as int, m as int) implies d <= a by {
            assert(common_divisor(d, a as int, 0));
            if d > a {
                vstd::arithmetic::div_mod::lemma_small_mod(a as nat, d as nat);
            }
        }
    }
    a
}

/// Whether a request is answered or refused.
#[derive(Debug, Clone, Copy, PartialEq, Eq)]
pub enum Status {
    Answered,
    BadRequest,
}

/// The answer to a request: its status, the kind of its content, and the
/// content.
#[derive(Debug)]
pub struct Reply {
    pub status: Status,
    pub content_type: String,
    pub body: String,
}

/// The answer to a request for the greatest common divisor of `n` and `m`.
///
/// A request with a zero among its operands is refused. Any other is
/// answered with the divisor in decimal.
pub fn reply(n: u64, m: u64) -> (r: Reply)
    ensures
        n == 0 || m == 0 ==> {
            &&& r.status is BadRequest
            &&& r.content_type@ == "text/html"@
            &&& r.body@ == "Computing the GCD with zero is boring"@
        },
        n != 0 && m != 0 ==> {
            &&& r.status is Answered
            &&& r.content_type@ == "text/plain"@
            &&& exists|g: nat| is_gcd(g as int, n as int, m as int) && r.body@ == "Result: "@ + digits_of(g)
        },
{
    if n == 0 || m == 0 {
        Reply {
            status: Status::BadRequest,
            content_type: String::from_str("text/html"),
            body: String::from_str("Computing the GCD with zero is boring"),
        }
    } else {
        let g = gcd(n, m);
        let mut body = String::from_str("Result: ");
        body.append(number_u64(g).as_str());
        proof {
            assert(is_gcd(g as nat as int, n as int, m as int));
        }
        Reply { status: Status::Answered, content_type: String::from_str("text/plain"), body }
    }
}

} // verus!
