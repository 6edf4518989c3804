//! The mathematical specification shared by every evaluator.
//!
//! `amin` is A(i, j), the minimum of the value sequence over positions
//! i..j; `lsum_from(s0, md, i, k)` sums A(x, k) over x in i..k (so from
//! i = 1 it is L(k), the suffix-minimum sum); `msum` is M(k), the running
//! total of L. `lsum_from_cap` is L with every term clipped at a cap: the
//! shape that the monotonic-stack update of the aggregator produces.

use vstd::prelude::*;
use crate::generator::sval;

verus! {

pub open spec fn nat_min(a: nat, b: nat) -> nat {
    if a <= b {
        a
    } else {
        b
    }
}

/// A(i, j): the least value at positions i..j (1 <= i <= j) of the sequence.
pub open spec fn amin(s0: nat, md: nat, i: nat, j: nat) -> nat
    decreases j - i,
{
    if i >= j {
        sval(s0, md, j)
    } else {
        nat_min(sval(s0, md, i), amin(s0, md, i + 1, j))
    }
}

/// Sum of A(x, k) over x in i..k; from i = 1 this is L(k), the sum of the
/// minima of all suffixes ending at position k.
pub open spec fn lsum_from(s0: nat, md: nat, i: nat, k: nat) -> nat
    decreases k + 1 - i,
{
    if i > k {
        0
    } else {
        amin(s0, md, i, k) + lsum_from(s0, md, i + 1, k)
    }
}

/// Sum of min(A(x, k), cap) over x in i..k: each suffix minimum clipped at
/// `cap`. Appending a new element `cap` to a sequence of k elements turns
/// each old suffix minimum A(x, k) into min(A(x, k), cap).
pub open spec fn lsum_from_cap(s0: nat, md: nat, i: nat, k: nat, cap: nat) -> nat
    decreases k + 1 - i,
{
    if i > k {
        0
    } else {
        nat_min(amin(s0, md, i, k), cap) + lsum_from_cap(s0, md, i + 1, k, cap)
    }
}

/// M(k): the sum of A(i, j) over all 1 <= i <= j <= k, accumulated as the
/// running total of the suffix-minimum sums L(1), ..., L(k).
pub open spec fn msum(s0: nat, md: nat, k: nat) -> nat
    decreases k,
{
    if k == 0 {
        0
    } else {
        msum(s0, md, (k - 1) as nat) + lsum_from(s0, md, 1, k)
    }
}

/// The triangular number 0 + 1 + ... + (t - 1).
pub open spec fn tri(t: nat) -> nat
    decreases t,
{
    if t == 0 {
        0
    } else {
        tri((t - 1) as nat) + (t - 1) as nat
    }
}

/// A window's minimum is at most each of its members.
pub proof fn lemma_amin_le(s0: nat, md: nat, i: nat, x: nat, j: nat)
    requires
        i <= x <= j,
    ensures
        amin(s0, md, i, j) <= sval(s0, md, x),
    decreases x - i,
{
    if i < j {
        if i == x {
        } else {
            lemma_amin_le(s0, md, i + 1, x, j);
        }
    }
}

/// Shrinking a window from the left cannot lower its minimum.
pub proof fn lemma_amin_suffix_ge(s0: nat, md: nat, i: nat, x: nat, j: nat)
    requires
        i <= x <= j,
    ensures
        amin(s0, md, x, j) >= amin(s0, md, i, j),
    decreases x - i,
{
    if i < x {
        lemma_amin_suffix_ge(s0, md, i + 1, x, j);
    }
}

/// A lower bound on every member of a window is a lower bound on its
/// minimum.
pub proof fn lemma_amin_ge_all(s0: nat, md: nat, i: nat, j: nat, b: nat)
    requires
        i <= j,
        forall|x: nat| i <= x <= j ==> sval(s0, md, x) >= b,
    ensures
        amin(s0, md, i, j) >= b,
    decreases j - i,
{
    if i < j {
        lemma_amin_ge_all(s0, md, i + 1, j, b);
    }
}

/// Extending a window by one position takes the minimum with the new value.
pub proof fn lemma_amin_extend(s0: nat, md: nat, i: nat, k: nat)
    requires
        i < k,
    ensures
        amin(s0, md, i, k) == nat_min(amin(s0, md, i, (k - 1) as nat), sval(s0, md, k)),
    decreases k - i,
{
    if i + 1 < k {
        lemma_amin_extend(s0, md, i + 1, k);
        assert(amin(s0, md, i, k) == nat_min(sval(s0, md, i), amin(s0, md, i + 1, k)));
        assert(amin(s0, md, i, (k - 1) as nat) == nat_min(
            sval(s0, md, i),
            amin(s0, md, i + 1, (k - 1) as nat),
        ));
    } else {
        assert(amin(s0, md, i, k) == nat_min(sval(s0, md, i), amin(s0, md, i + 1, k)));
        assert(amin(s0, md, i + 1, k) == sval(s0, md, k));
        assert(amin(s0, md, i, (k - 1) as nat) == sval(s0, md, i));
    }
}

/// Appending element k rewrites L: every old suffix minimum is clipped at
/// the new value, and the new one-element suffix contributes the value
/// itself.
pub proof fn lemma_lsum_extend(s0: nat, md: nat, i: nat, k: nat)
    requires
        1 <= i <= k,
    ensures
        lsum_from(s0, md, i, k) == lsum_from_cap(s0, md, i, (k - 1) as nat, sval(s0, md, k))
            + sval(s0, md, k),
    decreases k - i,
{
    if i == k {
        assert(lsum_from(s0, md, i, k) == amin(s0, md, k, k) + lsum_from(s0, md, k + 1, k));
    } else {
        lemma_amin_extend(s0, md, i, k);
        lemma_lsum_extend(s0, md, i + 1, k);
    }
}

/// Clipping at a cap that is at least every term changes nothing.
pub proof fn lemma_lsum_cap_noop(s0: nat, md: nat, i: nat, k: nat, cap: nat)
    requires
        forall|x: nat| i <= x <= k ==> amin(s0, md, x, k) <= cap,
    ensures
        lsum_from_cap(s0, md, i, k, cap) == lsum_from(s0, md, i, k),
    decreases k + 1 - i,
{
    if i <= k {
        lemma_lsum_cap_noop(s0, md, i + 1, k, cap);
    }
}

/// Terms below the boundary `pos` are untouched by clipping when each of
/// them is at most the cap: the clipped and plain sums differ only in the
/// tail from `pos` on.
pub proof fn lemma_lsum_cap_prefix(s0: nat, md: nat, i: nat, pos: nat, k: nat, cap: nat)
    requires
        i <= pos,
        forall|x: nat| i <= x < pos ==> amin(s0, md, x, k) <= cap,
    ensures
        lsum_from(s0, md, i, k) + lsum_from_cap(s0, md, pos, k, cap) == lsum_from_cap(
            s0,
            md,
            i,
            k,
            cap,
        ) + lsum_from(s0, md, pos, k),
    decreases pos - i,
{
    if i < pos {
        lemma_lsum_cap_prefix(s0, md, i + 1, pos, k, cap);
        if i > k {
        } else {
            assert(amin(s0, md, i, k) <= cap);
        }
    }
}

/// A sum of suffix minima is at least any one of its terms together with
/// the remaining tail.
pub proof fn lemma_lsum_term_bound(s0: nat, md: nat, i: nat, x: nat, k: nat)
    requires
        i <= x <= k,
    ensures
        lsum_from(s0, md, i, k) >= amin(s0, md, x, k) + lsum_from(s0, md, x + 1, k),
    decreases x - i,
{
    if i < x {
        lemma_lsum_term_bound(s0, md, i + 1, x, k);
    }
}

/// When the first q terms of L(j) all equal `e`, L splits into q * e plus
/// the tail.
pub proof fn lemma_lsum_split_const(s0: nat, md: nat, i: nat, q: nat, j: nat, e: nat)
    requires
        i <= q + 1,
        q <= j,
        forall|x: nat| i <= x <= q ==> amin(s0, md, x, j) == e,
    ensures
        lsum_from(s0, md, i, j) == (q + 1 - i) * e + lsum_from(s0, md, q + 1, j),
    decreases q + 1 - i,
{
    if i == q + 1 {
        assert((q + 1 - i) * e == 0) by (nonlinear_arith)
            requires
                i == q + 1,
        ;
    } else {
        lemma_lsum_split_const(s0, md, i + 1, q, j, e);
        assert(amin(s0, md, i, j) == e);
        assert(lsum_from(s0, md, i, j) == amin(s0, md, i, j) + lsum_from(s0, md, i + 1, j));
        assert((q + 1 - i) * e == e + (q + 1 - (i + 1)) * e) by (nonlinear_arith);
    }
}

/// M never shrinks as the range grows: each step adds a sum of minima,
/// which is non-negative.
pub proof fn lemma_msum_mono(s0: nat, md: nat, k1: nat, k2: nat)
    requires
        k1 <= k2,
    ensures
        msum(s0, md, k1) <= msum(s0, md, k2),
    decreases k2 - k1,
{
    if k1 < k2 {
        lemma_msum_mono(s0, md, k1, (k2 - 1) as nat);
    }
}

/// Twice a triangular number: 2 * tri(t) == t * (t - 1).
pub proof fn lemma_tri_double(t: nat)
    ensures
        2 * tri(t) == t * (t - 1),
    decreases t,
{
    if t > 0 {
        let t1 = (t - 1) as nat;
        lemma_tri_double(t1);
        assert(tri(t) == tri(t1) + t1);
        assert(2 * tri(t) == t1 * (t1 - 1) + 2 * t1);
        assert(t * (t - 1) == t1 * (t1 - 1) + 2 * t1) by (nonlinear_arith)
            requires
                t1 == t - 1,
                t >= 1,
        ;
    } else {
        assert(tri(t) == 0);
    }
}

} // verus!
