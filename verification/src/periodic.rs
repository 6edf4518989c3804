//! Periodicity of the value sequence, and the closed form it yields.
//!
//! Once one value recurs, the whole tail recurs: each value is a function
//! of its predecessor alone. From a recurrence of the least value at
//! positions p and p + w, the suffix-minimum sums L shift by exactly w * m
//! per period, and M over whole periods grows by a fixed amount plus an
//! arithmetic series — the closed form that the extrapolator evaluates.

use vstd::prelude::*;
use crate::generator::{gen_step, sval};
use crate::sums::{
    amin, lemma_amin_ge_all, lemma_amin_le, lemma_lsum_split_const, lsum_from, msum, nat_min,
    tri,
};

verus! {

/// One repeated value makes the tail periodic: the sequence is a function
/// of its previous value alone.
pub proof fn lemma_sval_shift(s0: nat, md: nat, p: nat, w: nat, j: nat)
    requires
        1 <= p,
        1 <= w,
        sval(s0, md, p + w) == sval(s0, md, p),
        j >= p,
    ensures
        sval(s0, md, j + w) == sval(s0, md, j),
    decreases j,
{
    if j > p {
        lemma_sval_shift(s0, md, p, w, (j - 1) as nat);
        assert(sval(s0, md, j + w) == gen_step(sval(s0, md, (j + w - 1) as nat), md));
        assert(sval(s0, md, j) == gen_step(sval(s0, md, (j - 1) as nat), md));
    }
}

/// A lower bound that holds up to the end of the first full period holds
/// everywhere: every later value is a repeat.
pub proof fn lemma_sval_ge_min(s0: nat, md: nat, m: nat, p: nat, w: nat, j: nat)
    requires
        1 <= p,
        1 <= w,
        sval(s0, md, p + w) == sval(s0, md, p),
        forall|x: nat| 1 <= x <= p + w ==> sval(s0, md, x) >= m,
        j >= 1,
    ensures
        sval(s0, md, j) >= m,
    decreases j,
{
    if j > p + w {
        lemma_sval_shift(s0, md, p, w, (j - w) as nat);
        lemma_sval_ge_min(s0, md, m, p, w, (j - w) as nat);
    }
}

/// Window minima are invariant under a shift by one period, for windows
/// that start at or after the first recurrence position.
pub proof fn lemma_amin_shift(s0: nat, md: nat, p: nat, w: nat, i: nat, j: nat)
    requires
        1 <= p <= i <= j,
        1 <= w,
        sval(s0, md, p + w) == sval(s0, md, p),
    ensures
        amin(s0, md, i + w, j + w) == amin(s0, md, i, j),
    decreases j - i,
{
    lemma_sval_shift(s0, md, p, w, i);
    if i < j {
        lemma_amin_shift(s0, md, p, w, i + 1, j);
        assert(amin(s0, md, i, j) == nat_min(sval(s0, md, i), amin(s0, md, i + 1, j)));
        assert(amin(s0, md, i + w, j + w) == nat_min(
            sval(s0, md, i + w),
            amin(s0, md, i + 1 + w, j + w),
        ));
    } else {
        assert(amin(s0, md, i, j) == sval(s0, md, j));
        assert(amin(s0, md, i + w, j + w) == sval(s0, md, j + w));
    }
}

/// Tail sums of window minima are invariant under a shift by one period.
pub proof fn lemma_lsum_shift_tail(s0: nat, md: nat, p: nat, w: nat, i: nat, j: nat)
    requires
        1 <= p <= i <= j + 1,
        1 <= w,
        sval(s0, md, p + w) == sval(s0, md, p),
    ensures
        lsum_from(s0, md, i + w, j + w) == lsum_from(s0, md, i, j),
    decreases j + 1 - i,
{
    if i > j {
        assert(lsum_from(s0, md, i, j) == 0);
        assert(lsum_from(s0, md, i + w, j + w) == 0);
    } else {
        lemma_amin_shift(s0, md, p, w, i, j);
        lemma_lsum_shift_tail(s0, md, p, w, i + 1, j);
    }
}

/// A window that contains a position carrying the global minimum has that
/// minimum as its value.
pub proof fn lemma_amin_has_min(s0: nat, md: nat, m: nat, i: nat, q: nat, j: nat)
    requires
        1 <= i <= q <= j,
        sval(s0, md, q) == m,
        forall|x: nat| 1 <= x ==> sval(s0, md, x) >= m,
    ensures
        amin(s0, md, i, j) == m,
{
    lemma_amin_le(s0, md, i, q, j);
    lemma_amin_ge_all(s0, md, i, j, m);
}

/// One period further, L grows by exactly w * m: the prefix up to the last
/// minimum occurrence contributes the minimum once per position, and the
/// tail beyond it is a shifted copy.
pub proof fn lemma_lsum_shift(s0: nat, md: nat, m: nat, p: nat, w: nat, j: nat)
    requires
        1 <= p,
        1 <= w,
        sval(s0, md, p) == m,
        sval(s0, md, p + w) == sval(s0, md, p),
        forall|x: nat| 1 <= x ==> sval(s0, md, x) >= m,
        j >= p,
    ensures
        lsum_from(s0, md, 1, j + w) == lsum_from(s0, md, 1, j) + w * m,
{
    assert forall|x: nat| 1 <= x <= p implies amin(s0, md, x, j) == m by {
        lemma_amin_has_min(s0, md, m, x, p, j);
    }
    lemma_lsum_split_const(s0, md, 1, p, j, m);
    assert forall|x: nat| 1 <= x <= p + w implies #[trigger] amin(s0, md, x, j + w) == m by {
        lemma_amin_has_min(s0, md, m, x, p + w, j + w);
    }
    lemma_lsum_split_const(s0, md, 1, p + w, j + w, m);
    lemma_lsum_shift_tail(s0, md, p, w, p + 1, j);
    assert((p + w) * m == p * m + w * m) by (nonlinear_arith);
}

/// Window growth of M: advancing the end by one period adds the growth of
/// the first full period plus one extra minimum per position advanced
/// since the period began.
pub proof fn lemma_msum_window(s0: nat, md: nat, m: nat, p: nat, w: nat, k: nat)
    requires
        1 <= p,
        1 <= w,
        sval(s0, md, p) == m,
        sval(s0, md, p + w) == sval(s0, md, p),
        forall|x: nat| 1 <= x ==> sval(s0, md, x) >= m,
        k + 1 >= p,
    ensures
        msum(s0, md, k + w) == msum(s0, md, k) + (msum(s0, md, (p - 1 + w) as nat) - msum(
            s0,
            md,
            (p - 1) as nat,
        )) + (k + 1 - p) * (w * m),
    decreases k,
{
    if k + 1 == p {
        assert((k + 1 - p) * (w * m) == 0);
    } else {
        lemma_msum_window(s0, md, m, p, w, (k - 1) as nat);
        assert(msum(s0, md, k + w) == msum(s0, md, (k + w - 1) as nat) + lsum_from(
            s0,
            md,
            1,
            k + w,
        ));
        lemma_lsum_shift(s0, md, m, p, w, k);
        assert(msum(s0, md, k) == msum(s0, md, (k - 1) as nat) + lsum_from(s0, md, 1, k));
        assert((k - p) * (w * m) + (w * m) == (k + 1 - p) * (w * m)) by (nonlinear_arith);
    }
}

/// The closed form: M at `t` whole periods past `k` is M(k), plus `t`
/// copies of one period's growth, plus the arithmetic series of the extra
/// minima the later periods accumulate.
pub proof fn lemma_msum_closed(s0: nat, md: nat, m: nat, p: nat, w: nat, k: nat, t: nat)
    requires
        1 <= p <= k,
        1 <= w,
        sval(s0, md, p) == m,
        sval(s0, md, p + w) == sval(s0, md, p),
        forall|x: nat| 1 <= x ==> sval(s0, md, x) >= m,
    ensures
        msum(s0, md, k + t * w) == msum(s0, md, k) + t * (msum(s0, md, (p - 1 + w) as nat)
            - msum(s0, md, (p - 1) as nat)) + (k + 1 - p) * t * (w * m) + (w * w * m) * tri(t),
    decreases t,
{
    let g = msum(s0, md, (p - 1 + w) as nat) - msum(s0, md, (p - 1) as nat);
    if t == 0 {
        assert(k + 0 * w == k) by (nonlinear_arith);
        assert(tri(0) == 0);
        assert(0 * g == 0) by (nonlinear_arith);
        assert((k + 1 - p) * 0 * (w * m) == 0) by (nonlinear_arith);
        assert((w * w * m) * 0 == 0) by (nonlinear_arith);
    } else {
        let t1 = (t - 1) as nat;
        lemma_msum_closed(s0, md, m, p, w, k, t1);
        let k1 = (k + t1 * w) as nat;
        lemma_msum_window(s0, md, m, p, w, k1);
        assert(k1 + w == k + t * w) by (nonlinear_arith)
            requires
                k1 == k + t1 * w,
                t1 == t - 1,
                t >= 1,
        ;
        assert(tri(t) == tri(t1) + t1);
        let a = msum(s0, md, k) as int;
        let b = msum(s0, md, k1) as int;
        let d = msum(s0, md, (k + t * w) as nat) as int;
        let c = (k + 1 - p) as int;
        let x = (w * m) as int;
        let y = (w * w * m) as int;
        assert(b == a + t1 * g + c * t1 * x + y * tri(t1));
        assert(d == b + g + (c + t1 * w) * x);
        assert((c + t1 * w) * x == c * x + t1 * (w * x)) by (nonlinear_arith);
        assert(w * x == y) by (nonlinear_arith)
            requires
                x == w * m,
                y == w * w * m,
        ;
        assert(c * t1 * x + c * x == c * t * x) by (nonlinear_arith)
            requires
                t == t1 + 1,
        ;
        assert(t1 * g + g == t * g) by (nonlinear_arith)
            requires
                t == t1 + 1,
        ;
        assert(y * tri(t1) + t1 * y == y * tri(t)) by (nonlinear_arith)
            requires
                tri(t) == tri(t1) + t1,
        ;
        assert(d == a + t * g + c * t * x + y * tri(t));
    }
}

} // verus!
