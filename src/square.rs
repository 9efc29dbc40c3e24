//! Integer square roots, which tell a board's row width from its cell count.

use vstd::prelude::*;

verus! {

/// `k` times itself.
pub open spec fn square(k: int) -> int {
    k * k
}

/// `n` is the square of some natural number.
pub open spec fn is_square(n: int) -> bool {
    exists|k: nat| #[trigger] square(k as int) == n
}

/// Square roots on machine integers, rounded down.
pub trait UsizeExt {
    /// The number as a mathematical integer.
    spec fn value(&self) -> int;

    /// The largest `r` with `r * r <= self`.
    fn sqrt(&self) -> (r: usize)
        ensures
            r * r <= self.value(),
            self.value() < (r + 1) * (r + 1),
    ;

    /// Whether `self` is the square of a natural number.
    fn is_perfect_sq(&self) -> (r: bool)
        ensures
            r == is_square(self.value()),
    ;
}

proof fn lemma_square_below_next(n: nat)
    ensures
        n < (n + 1) * (n + 1),
{
    assert(n < (n + 1) * (n + 1)) by (nonlinear_arith);
}

/// For a positive divisor, `m <= n / m` holds exactly when `m * m <= n`.
proof fn lemma_fits_square(n: nat, m: nat)
    requires
        m > 0,
    ensures
        (m <= n / m) <==> (m * m <= n),
{
    let q = n / m;
    let r = n % m;
    assert(n == q * m + r && 0 <= r < m) by (nonlinear_arith)
        requires
            m > 0,
            q == n / m,
            r == n % m,
    ;
    if m <= q {
        assert(m * m <= q * m) by (nonlinear_arith)
            requires
                m <= q,
        ;
    } else {
        assert(m * m >= (q + 1) * m) by (nonlinear_arith)
            requires
                m >= q + 1,
        ;
        assert((q + 1) * m == q * m + m) by (nonlinear_arith);
    }
}

/// A square lies between the squares of its rounded-down root and the next number,
/// so its root is that rounded-down root.
pub proof fn lemma_square_root_unique(n: nat, s: nat, k: nat)
    requires
        s * s <= n < (s + 1) * (s + 1),
        k * k == n,
    ensures
        k == s,
{
    if k < s {
        assert(k * k < s * s) by (nonlinear_arith)
            requires
                k < s,
        ;
    } else if k > s {
        assert(k * k >= (s + 1) * (s + 1)) by (nonlinear_arith)
            requires
                k >= s + 1,
        ;
    }
}

impl UsizeExt for usize {
    open spec fn value(&self) -> int {
        *self as int
    }

    fn sqrt(&self) -> (r: usize) {
        let n: usize = *self;
        let mut lo: usize = 0;
        let mut hi: usize = n;
        proof {
            lemma_square_below_next(n as nat);
        }
        while lo < hi
            invariant
                lo <= hi <= n,
                lo * lo <= n,
                n < (hi + 1) * (hi + 1),
            decreases hi - lo,
        {
            let gap: usize = hi - lo;
            let mid: usize = lo + gap / 2 + gap % 2;
            proof {
                lemma_fits_square(n as nat, mid as nat);
            }
            if mid <= n / mid {
                lo = mid;
            } else {
                hi = mid - 1;
            }
        }
        lo
    }

    fn is_perfect_sq(&self) -> (r: bool) {
        let s: usize = self.sqrt();
        proof {
            assert(s * s <= usize::MAX) by (nonlinear_arith)
                requires
                    s * s <= *self as int,
            ;
        }
        let r: bool = s * s == *self;
        proof {
            if r {
                assert(square(s as int) == *self as int);
            } else if is_square(*self as int) {
                let k = choose|k: nat| #[trigger] square(k as int) == *self as int;
                lemma_square_root_unique(*self as nat, s as nat, k);
            }
        }
        r
    }
}

} // verus!
