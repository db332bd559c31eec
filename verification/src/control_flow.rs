//! Small numeric helpers: a product-recurrence and ordinal suffixes.

use vstd::prelude::*;

verus! {

/// The value computed by `fib`: 1 for 0 and 1, otherwise `n` times the
/// value for `n - 1` (the factorial of `n`, for `n >= 1`).
pub open spec fn fib_spec(n: nat) -> nat
    decreases n,
{
    if n < 2 {
        1
    } else {
        n * fib_spec((n - 1) as nat)
    }
}

proof fn lemma_fib_spec_monotonic(m: nat, n: nat)
    requires
        1 <= m <= n,
    ensures
        fib_spec(m) <= fib_spec(n),
    decreases n,
{
    if m < n {
        lemma_fib_spec_monotonic(m, (n - 1) as nat);
        assert(fib_spec(n) == n * fib_spec((n - 1) as nat));
        assert(fib_spec((n - 1) as nat) <= n * fib_spec((n - 1) as nat))
            by (nonlinear_arith)
            requires 1 <= n, 0 <= fib_spec((n - 1) as nat),
        ;
    }
}

/// Multiplies down from `n`: `fib(0) == fib(1) == 1` and
/// `fib(n) == n * fib(n - 1)` otherwise.
pub fn fib(n: u64) -> (r: u64)
    requires
        fib_spec(n as nat) <= u64::MAX,
    ensures
        r == fib_spec(n as nat),
    decreases n,
{
    if n < 2 {
        1
    } else {
        proof {
            lemma_fib_spec_monotonic((n - 1) as nat, n as nat);
            assert(fib_spec(n as nat) == n * fib_spec((n - 1) as nat));
        }
        let prev = fib(n - 1);
        n * prev
    }
}

/// The ordinal suffix of `n`: "st", "nd" and "rd" for 1, 2 and 3,
/// "th" for everything else.
pub open spec fn ordinal_indicator_spec(n: u64) -> Seq<char> {
    if n == 1 {
        "st"@
    } else if n == 2 {
        "nd"@
    } else if n == 3 {
        "rd"@
    } else {
        "th"@
    }
}

/// Returns the ordinal suffix for `n`, as in "1st", "2nd", "3rd", "4th".
pub fn ordinal_indicator(n: u64) -> (r: String)
    ensures
        r@ == ordinal_indicator_spec(n),
{
    let s: String = match n {
        1 => "st".to_owned(),
        2 => "nd".to_owned(),
        3 => "rd".to_owned(),
        _ => "th".to_owned(),
    };
    s
}

} // verus!
