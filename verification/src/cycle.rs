//! The extrapolator: drives the generator through the aggregator only until
//! the least value recurs, then answers M(n) for any larger n by closed-form
//! arithmetic over a small table of aggregator snapshots.
//!
//! When the value at some position equals the least value seen so far, the
//! state of the squaring recurrence has returned to where it was at the
//! first occurrence — the value is the state — so the whole tail repeats
//! with that period. That periodicity is proved here, not assumed, so no
//! run-time re-verification pass is needed.

use vstd::prelude::*;
use num::BigUint;
use crate::bignat::{
    big_add_assign, big_clone, big_div_assign_u64, big_from_u64, big_mul_assign,
    big_mul_assign_u64, big_sub_assign, big_val,
};
use crate::generator::{gen_step, sval, Generator, MODULUS, SEED};
use crate::linear::LinearCalc;
use crate::periodic::{lemma_msum_closed, lemma_sval_ge_min};
use crate::sums::{
    amin, lemma_amin_extend, lemma_amin_le, lemma_msum_mono, lemma_tri_double, msum, nat_min,
    tri,
};

verus! {

/// Equivalence of the evaluators: every evaluator's contract pins the
/// content of its result to M(n) of the same stream, so a brute-force
/// double-sum result and an extrapolated result for the same n always hold
/// the same number.
pub proof fn lemma_evaluators_agree(brute: BigUint, extrapolated: BigUint, s0: nat, md: nat, n: nat)
    requires
        big_val(brute) == msum(s0, md, n),
        big_val(extrapolated) == msum(s0, md, n),
    ensures
        big_val(brute) == big_val(extrapolated),
{
}

/// The cycle that detection finds: `c` is the first position whose value
/// equals the least value among all earlier positions, `m` that least
/// value, and `p` its first occurrence. All three are uniquely determined
/// by the sequence alone.
pub open spec fn cycle_desc(s0: nat, md: nat, m: nat, p: nat, c: nat) -> bool {
    &&& 2 <= c
    &&& 1 <= p < c
    &&& sval(s0, md, c) == amin(s0, md, 1, (c - 1) as nat)
    &&& forall|j: nat| 2 <= j < c ==> sval(s0, md, j) != amin(s0, md, 1, (j - 1) as nat)
    &&& m == amin(s0, md, 1, (c - 1) as nat)
    &&& sval(s0, md, p) == m
    &&& forall|j: nat| 1 <= j < p ==> sval(s0, md, j) != m
}

/// Detection is canonical: any two cycle descriptors of the same sequence
/// agree in every component, so repeated runs over identical generator
/// constants find the same minimum and the same pair of positions.
pub proof fn lemma_cycle_desc_unique(
    s0: nat,
    md: nat,
    m1: nat,
    p1: nat,
    c1: nat,
    m2: nat,
    p2: nat,
    c2: nat,
)
    requires
        cycle_desc(s0, md, m1, p1, c1),
        cycle_desc(s0, md, m2, p2, c2),
    ensures
        m1 == m2,
        p1 == p2,
        c1 == c2,
{
    if c1 < c2 {
        assert(sval(s0, md, c1) != amin(s0, md, 1, (c1 - 1) as nat));
    }
    if c2 < c1 {
        assert(sval(s0, md, c2) != amin(s0, md, 1, (c2 - 1) as nat));
    }
    if p1 < p2 {
        assert(sval(s0, md, p1) != m2);
    }
    if p2 < p1 {
        assert(sval(s0, md, p2) != m1);
    }
}

/// M(n) for the fixed problem instance, for any n >= 1, in time bounded by
/// the pre-period plus one period. The sequence is scanned only until the
/// least value recurs (or until n is reached, whichever is first); beyond
/// that, the answer is assembled algebraically from the snapshot table.
pub fn m(n: usize) -> (r: BigUint)
    requires
        n >= 1,
    ensures
        big_val(r) == msum(SEED as nat, MODULUS as nat, n as nat),
{
    let ghost s0 = SEED as nat;
    let ghost md = MODULUS as nat;
    let mut gen = Generator::new(SEED, MODULUS);
    let n_code = n - 1;
    let first = gen.next();
    proof {
        assert(sval(s0, md, 0) == s0);
        assert(sval(s0, md, 1) == gen_step(s0, md));
    }
    let mut min_v: u64 = first;
    let mut min_index: usize = 0;
    let mut linear_calc = LinearCalc::new(first, Some(n), Ghost((s0, md)));
    let mut linear_sums: Vec<BigUint> = Vec::new();
    linear_sums.push(big_clone(&linear_calc.sum));
    if n_code == 0 {
        return big_clone(&linear_calc.sum);
    }
    let mut i: usize = 0;
    let mut min_cycle: usize = 0;
    loop
        invariant_except_break
            0 <= i < n_code,
            n_code == n - 1,
            2 <= n,
            s0 == SEED as nat,
            md == MODULUS as nat,
            gen.wf(),
            gen.modulus == MODULUS,
            gen.value as nat == sval(s0, md, (i + 1) as nat),
            linear_calc.inv(),
            linear_calc.instance@ == (s0, md),
            linear_calc.index == i,
            linear_sums@.len() == i + 1,
            forall|x: int|
                0 <= x <= i ==> big_val(linear_sums@[x]) == msum(s0, md, (x + 1) as nat),
            min_index <= i,
            min_v as nat == amin(s0, md, 1, (i + 1) as nat),
            sval(s0, md, (min_index + 1) as nat) == min_v as nat,
            forall|x: nat| 1 <= x <= min_index ==> sval(s0, md, x) > min_v as nat,
            forall|x: nat|
                2 <= x <= i + 1 ==> sval(s0, md, x) != amin(s0, md, 1, (x - 1) as nat),
        ensures
            s0 == SEED as nat,
            md == MODULUS as nat,
            1 <= min_cycle < n_code,
            min_index < min_cycle,
            linear_sums@.len() == min_cycle + 1,
            forall|x: int|
                0 <= x <= min_cycle ==> big_val(linear_sums@[x]) == msum(s0, md, (x + 1) as nat),
            min_v as nat == amin(s0, md, 1, min_cycle as nat),
            sval(s0, md, (min_cycle + 1) as nat) == min_v as nat,
            sval(s0, md, (min_index + 1) as nat) == min_v as nat,
            forall|x: nat| 1 <= x <= min_index ==> sval(s0, md, x) > min_v as nat,
            forall|x: nat|
                2 <= x <= min_cycle ==> sval(s0, md, x) != amin(s0, md, 1, (x - 1) as nat),
        decreases n_code - i,
    {
        i = i + 1;
        let elem = gen.next();
        let total = linear_calc.next(elem);
        linear_sums.push(total);
        proof {
            lemma_amin_extend(s0, md, 1, (i + 1) as nat);
            assert(amin(s0, md, 1, (i + 1) as nat) == nat_min(
                amin(s0, md, 1, i as nat),
                sval(s0, md, (i + 1) as nat),
            ));
        }
        if i == n_code {
            proof {
                assert(big_val(linear_sums@[n_code as int]) == msum(s0, md, n as nat));
            }
            return big_clone(&linear_sums[i]);
        }
        if elem < min_v {
            proof {
                assert forall|x: nat| 1 <= x <= i implies sval(s0, md, x) > elem as nat by {
                    lemma_amin_le(s0, md, 1, x, i as nat);
                }
            }
            min_v = elem;
            min_index = i;
        } else if elem == min_v {
            min_cycle = i;
            break ;
        }
    }
    // The detected values are the canonical cycle descriptor of the stream.
    let ghost p: nat = (min_index + 1) as nat;
    let ghost c: nat = (min_cycle + 1) as nat;
    let ghost mv: nat = min_v as nat;
    let ghost w: nat = (c - p) as nat;
    proof {
        assert(cycle_desc(s0, md, mv, p, c));
        assert(sval(s0, md, p + w) == sval(s0, md, p));
        assert forall|x: nat| 1 <= x implies sval(s0, md, x) >= mv by {
            assert forall|y: nat| 1 <= y <= p + w implies sval(s0, md, y) >= mv by {
                if y < c {
                    lemma_amin_le(s0, md, 1, y, min_cycle as nat);
                }
            }
            lemma_sval_ge_min(s0, md, mv, p, w, x);
        }
    }
    let cycle_width = min_cycle - min_index;
    let first_min_distance = n_code - min_index;
    let cycle_index = first_min_distance / cycle_width;
    let cycle_local_index = first_min_distance % cycle_width;
    proof {
        assert(cycle_index * cycle_width + cycle_local_index == first_min_distance
            && cycle_local_index < cycle_width && cycle_index >= 1 && cycle_index * cycle_width
            <= first_min_distance) by (nonlinear_arith)
            requires
                cycle_index == first_min_distance / cycle_width,
                cycle_local_index == first_min_distance % cycle_width,
                cycle_width >= 1,
                first_min_distance > cycle_width,
        ;
    }
    let ghost t: nat = cycle_index as nat;
    let ghost l: nat = cycle_local_index as nat;
    let ghost k0: nat = p + l;
    proof {
        assert(n as nat == k0 + t * w);
        assert(min_index + cycle_local_index < min_cycle);
    }
    let mut cycle_local_sum = big_clone(&linear_sums[min_index + cycle_local_index]);
    proof {
        assert(big_val(cycle_local_sum) == msum(s0, md, k0));
    }
    let mut first_cycle_sum = big_clone(&linear_sums[min_cycle - 1]);
    let prefix_sum = if min_index == 0 {
        big_from_u64(0)
    } else {
        big_clone(&linear_sums[min_index - 1])
    };
    proof {
        assert(big_val(prefix_sum) == msum(s0, md, (p - 1) as nat));
        assert(big_val(first_cycle_sum) == msum(s0, md, (c - 1) as nat));
        lemma_msum_mono(s0, md, (p - 1) as nat, (c - 1) as nat);
    }
    let ghost g: int = msum(s0, md, (c - 1) as nat) - msum(s0, md, (p - 1) as nat);
    big_sub_assign(&mut first_cycle_sum, &prefix_sum);
    big_mul_assign_u64(&mut first_cycle_sum, cycle_index as u64);
    big_add_assign(&mut cycle_local_sum, &first_cycle_sum);
    proof {
        assert(big_val(cycle_local_sum) == msum(s0, md, k0) + g * t);
    }
    let mut min_fill_step = big_from_u64(min_v);
    big_mul_assign_u64(&mut min_fill_step, cycle_width as u64);
    big_mul_assign_u64(&mut min_fill_step, cycle_width as u64);
    let ghost fs: nat = mv * w * w;
    let mut cycle_min_fill = big_from_u64((cycle_index - 1) as u64);
    big_mul_assign(&mut cycle_min_fill, &min_fill_step);
    big_mul_assign_u64(&mut min_fill_step, 2);
    big_add_assign(&mut cycle_min_fill, &min_fill_step);
    big_mul_assign_u64(&mut cycle_min_fill, cycle_index as u64);
    proof {
        lemma_tri_double(t + 1);
        assert(big_val(cycle_min_fill) == ((t - 1) * fs + 2 * fs) * t);
        assert(((t - 1) * fs + 2 * fs) * t == 2 * (fs * tri(t + 1))) by (nonlinear_arith)
            requires
                2 * tri(t + 1) == (t + 1) * t,
                t >= 1,
        ;
        assert((2 * (fs * tri(t + 1))) / 2 == fs * tri(t + 1));
    }
    big_div_assign_u64(&mut cycle_min_fill, 2);
    let mut min_fill_overflow = big_from_u64(min_v);
    big_mul_assign_u64(&mut min_fill_overflow, (cycle_index * cycle_width) as u64);
    big_mul_assign_u64(&mut min_fill_overflow, (cycle_width - 1 - cycle_local_index) as u64);
    proof {
        assert(big_val(min_fill_overflow) == mv * (t * w) * ((w - 1 - l) as nat));
        assert(fs * tri(t + 1) == fs * tri(t) + fs * t && mv * (t * w) * ((w - 1 - l) as nat)
            + (l + 1) * t * (w * mv) == fs * t) by (nonlinear_arith)
            requires
                fs == mv * w * w,
                tri(t + 1) == tri(t) + t,
                0 <= l < w,
                t >= 0,
                mv >= 0,
        ;
    }
    big_sub_assign(&mut cycle_min_fill, &min_fill_overflow);
    big_add_assign(&mut cycle_local_sum, &cycle_min_fill);
    proof {
        lemma_msum_closed(s0, md, mv, p, w, k0, t);
        assert((w * w * mv) * tri(t) == fs * tri(t)) by (nonlinear_arith)
            requires
                fs == mv * w * w,
        ;
        assert((k0 + 1 - p) * t * (w * mv) == (l + 1) * t * (w * mv)) by (nonlinear_arith)
            requires
                k0 == p + l,
        ;
        assert(fs * tri(t + 1) - mv * (t * w) * ((w - 1 - l) as nat) == fs * tri(t) + (l + 1)
            * t * (w * mv));
        assert(big_val(cycle_local_sum) == msum(s0, md, k0) + g * t + fs * tri(t) + (l + 1) * t
            * (w * mv));
        assert(msum(s0, md, (k0 + t * w) as nat) == msum(s0, md, k0) + t * g + (l + 1) * t * (w
            * mv) + fs * tri(t));
        assert(big_val(cycle_local_sum) as int == msum(s0, md, (k0 + t * w) as nat) as int)
            by (nonlinear_arith)
            requires
                big_val(cycle_local_sum) == msum(s0, md, k0) + g * t + fs * tri(t) + (l + 1) * t
                    * (w * mv),
                msum(s0, md, (k0 + t * w) as nat) == msum(s0, md, k0) + t * g + (l + 1) * t * (w
                    * mv) + fs * tri(t),
        ;
    }
    cycle_local_sum
}

} // verus!
