//! Integer groundwork for the spectral transforms: the power-of-two
//! precondition of the in-place transform and the bit-reversal permutation
//! that its iterative form applies before the butterfly passes.

use vstd::prelude::*;

verus! {

use crate::FormatError;
use vstd::arithmetic::power2::{
    pow2, is_pow2, lemma_pow2_unfold, lemma_pow2_pos, lemma_pow2_strictly_increases,
    lemma2_to64,
};

/// Floor of the base-2 logarithm; 0 for inputs below 2.
pub open spec fn log2(n: nat) -> nat
    decreases n,
{
    if n <= 1 {
        0
    } else {
        (1 + log2(n / 2)) as nat
    }
}

/// The `k` low binary digits of `i`, reversed: digit `j` of `i` becomes
/// digit `k - 1 - j` of the result.
pub open spec fn bitrev(i: nat, k: nat) -> nat
    decreases k,
{
    if k == 0 {
        0
    } else {
        bitrev(i / 2, (k - 1) as nat) + (i % 2) * pow2((k - 1) as nat)
    }
}

/// Whether `n` is a power of two, by repeated halving.
pub fn is_power_of_two(n: usize) -> (b: bool)
    ensures
        b == is_pow2(n as int),
{
    proof {
        reveal(vstd::arithmetic::power2::is_pow2);
    }
    if n == 0 {
        return false;
    }
    let mut m: usize = n;
    while m % 2 == 0
        invariant
            1 <= m,
            is_pow2(n as int) == is_pow2(m as int),
        decreases m,
    {
        proof {
            reveal(vstd::arithmetic::power2::is_pow2);
        }
        m = m / 2;
    }
    proof {
        reveal(vstd::arithmetic::power2::is_pow2);
    }
    m == 1
}

proof fn lemma_log2_pow2(k: nat)
    ensures
        log2(pow2(k)) == k,
    decreases k,
{
    if k == 0 {
        lemma2_to64();
    } else {
        lemma_pow2_unfold(k);
        lemma_pow2_pos((k - 1) as nat);
        lemma_log2_pow2((k - 1) as nat);
        assert(pow2(k) / 2 == pow2((k - 1) as nat));
    }
}

proof fn lemma_nat_lt_pow2(k: nat)
    ensures
        k < pow2(k),
    decreases k,
{
    if k == 0 {
        lemma2_to64();
    } else {
        lemma_nat_lt_pow2((k - 1) as nat);
        lemma_pow2_unfold(k);
        lemma_pow2_pos((k - 1) as nat);
    }
}

proof fn lemma_pow2_le(e1: nat, e2: nat)
    requires
        e1 <= e2,
    ensures
        pow2(e1) <= pow2(e2),
{
    if e1 < e2 {
        lemma_pow2_strictly_increases(e1, e2);
    }
}

/// Appending one high digit to the unreversed side prepends one low digit to
/// the reversed side.
proof fn lemma_bitrev_step(a: nat, j: nat, b: nat)
    requires
        a < pow2(j),
        b < 2,
    ensures
        bitrev(a + b * pow2(j), j + 1) == 2 * bitrev(a, j) + b,
    decreases j,
{
    let m = a + b * pow2(j);
    if j == 0 {
        lemma2_to64();
        assert(a == 0 && m == b);
        assert(m % 2 == b && m / 2 == 0);
        assert(bitrev(0, 0) == 0);
        assert(bitrev(m, 1) == b);
    } else {
        lemma_pow2_unfold(j);
        let h = a / 2;
        let p = pow2((j - 1) as nat);
        assert(a == 2 * h + a % 2);
        assert(m / 2 == h + b * p && m % 2 == a % 2) by (nonlinear_arith)
            requires
                m == a + b * (2 * p),
                a == 2 * h + a % 2,
                0 <= a % 2 < 2,
                p > 0,
        {
        }
        assert(h < p);
        lemma_bitrev_step(h, (j - 1) as nat, b);
        assert(bitrev(m, j + 1) == bitrev(m / 2, j) + (m % 2) * pow2(j));
        assert(bitrev(a, j) == bitrev(h, (j - 1) as nat) + (a % 2) * p);
        assert((a % 2) * pow2(j) == 2 * ((a % 2) * p)) by (nonlinear_arith)
            requires
                pow2(j) == 2 * p,
        {
        }
        assert(bitrev(m, j + 1) == 2 * bitrev(a, j) + b);
    }
}

proof fn lemma_bitrev_bound(i: nat, k: nat)
    requires
        i < pow2(k),
    ensures
        bitrev(i, k) < pow2(k),
    decreases k,
{
    if k == 0 {
        lemma_pow2_pos(0);
    } else {
        lemma_pow2_unfold(k);
        let p = pow2((k - 1) as nat);
        lemma_pow2_pos((k - 1) as nat);
        assert(i / 2 < p) by (nonlinear_arith)
            requires
                i < 2 * p,
                p > 0,
        {
        }
        lemma_bitrev_bound(i / 2, (k - 1) as nat);
        assert((i % 2) * p <= p) by (nonlinear_arith)
            requires
                0 <= i % 2 < 2,
                p >= 0,
        {
        }
    }
}

/// Reversing the `k` low digits twice gives the number back.
proof fn lemma_bitrev_involutive(i: nat, k: nat)
    requires
        i < pow2(k),
    ensures
        bitrev(bitrev(i, k), k) == i,
    decreases k,
{
    if k == 0 {
        lemma2_to64();
    } else {
        let a = bitrev(i / 2, (k - 1) as nat);
        lemma_pow2_unfold(k);
        lemma_bitrev_bound(i / 2, (k - 1) as nat);
        lemma_bitrev_step(a, (k - 1) as nat, i % 2);
        lemma_bitrev_involutive(i / 2, (k - 1) as nat);
    }
}

/// Computes, for a power-of-two length, the reordering that the iterative
/// in-place transform applies before its butterfly passes: entry `i` holds
/// the index whose binary digits are those of `i` reversed, which makes the
/// result a self-inverse permutation. Any other length is rejected, which
/// carries the transform's power-of-two precondition.
pub fn bit_reversal_permutation(n: usize) -> (r: Result<Vec<usize>, FormatError>)
    ensures
        r is Ok <==> is_pow2(n as int),
        r matches Err(e) ==> e is PreconditionError,
        r matches Ok(p) ==> {
            &&& p@.len() == n
            &&& forall|i: int| 0 <= i < n ==> p@[i] < n
            &&& forall|i: int| 0 <= i < n ==> p@[i] as nat == bitrev(i as nat, log2(n as nat))
            &&& forall|i: int| 0 <= i < n ==> p@[p@[i] as int] == i
        },
{
    if !is_power_of_two(n) {
        return Err(FormatError::PreconditionError);
    }
    proof {
        lemma2_to64();
    }
    // Find the exponent: n == pow2(k).
    let mut k: usize = 0;
    let mut m: usize = n;
    proof {
        reveal(vstd::arithmetic::power2::is_pow2);
    }
    while m > 1
        invariant
            1 <= m,
            is_pow2(m as int),
            n as nat == m as nat * pow2(k as nat),
            pow2(k as nat) <= n as nat,
        decreases m,
    {
        proof {
            reveal(vstd::arithmetic::power2::is_pow2);
            let h = (m / 2) as nat;
            assert(m as nat == 2 * h);
            lemma_pow2_unfold((k + 1) as nat);
            assert(n as nat == h * pow2((k + 1) as nat)) by (nonlinear_arith)
                requires
                    m as nat == 2 * h,
                    pow2((k + 1) as nat) == 2 * pow2(k as nat),
                    n as nat == m as nat * pow2(k as nat),
            {
            }
            assert(pow2((k + 1) as nat) <= n as nat) by (nonlinear_arith)
                requires
                    n as nat == h * pow2((k + 1) as nat),
                    h >= 1,
                    pow2((k + 1) as nat) >= 0,
            {
            }
            lemma_nat_lt_pow2(k as nat);
        }
        m = m / 2;
        k = k + 1;
    }
    proof {
        assert(n as nat == pow2(k as nat));
        lemma_log2_pow2(k as nat);
    }
    let mut p: Vec<usize> = Vec::new();
    let mut i: usize = 0;
    while i < n
        invariant
            i <= n,
            p@.len() == i,
            forall|t: int| 0 <= t < i ==> p@[t] < n,
            forall|t: int| 0 <= t < i ==> p@[t] as nat == bitrev(t as nat, k as nat),
        decreases n - i,
    {
        // Reverse the k low digits of i, lowest digit first.
        let mut x: usize = i;
        let mut rev: usize = 0;
        let mut j: usize = 0;
        let ghost mut y: nat = 0nat;
        while j < k
            invariant
                j <= k,
                i as nat == x as nat * pow2(j as nat) + y,
                y < pow2(j as nat),
                rev as nat == bitrev(y, j as nat),
                rev < pow2(j as nat),
            decreases k - j,
        {
            let b = x % 2;
            proof {
                lemma_bitrev_step(y, j as nat, b as nat);
                lemma_pow2_unfold((j + 1) as nat);
                lemma_pow2_le((j + 1) as nat, k as nat);
                assert((b as nat) * pow2(j as nat) <= pow2(j as nat)) by (nonlinear_arith)
                    requires
                        (b as nat) < 2,
                        pow2(j as nat) >= 0,
                {
                }
                assert(x as nat == 2 * ((x / 2) as nat) + b as nat);
                let y_next: nat = y + (b as nat) * pow2(j as nat);
                assert(i as nat == ((x / 2) as nat) * pow2((j + 1) as nat) + y_next) by (nonlinear_arith)
                    requires
                        i as nat == x as nat * pow2(j as nat) + y,
                        x as nat == 2 * ((x / 2) as nat) + b as nat,
                        pow2((j + 1) as nat) == 2 * pow2(j as nat),
                        y_next == y + (b as nat) * pow2(j as nat),
                {
                }
            }
            rev = 2 * rev + b;
            x = x / 2;
            proof {
                y = y + (b as nat) * pow2(j as nat);
            }
            j = j + 1;
        }
        proof {
            // x must be zero, so y recovers i and rev is its reversal.
            assert(x == 0) by (nonlinear_arith)
                requires
                    i as nat == x as nat * pow2(k as nat) + y,
                    y < pow2(k as nat),
                    (i as nat) < pow2(k as nat),
            {
            }
        }
        p.push(rev);
        i = i + 1;
    }
    proof {
        assert forall|t: int| 0 <= t < n implies p@[p@[t] as int] == t by {
            lemma_bitrev_bound(t as nat, k as nat);
            lemma_bitrev_involutive(t as nat, k as nat);
        }
    }
    Ok(p)
}

} // verus!
