//! The direct double-sum evaluator: A(i, j) recomputed from scratch for
//! every pair. Exactly the defining formula, usable only for small N; the
//! other evaluators are proved against the same specification.

use vstd::prelude::*;
use num::BigUint;
use crate::bignat::{big_add_assign, big_from_u64, big_val};
use crate::generator::{sval, MODULUS, SEED};
use crate::sums::{amin, lemma_amin_extend, lsum_from, msum};

verus! {

/// The value at position `o` of the fixed problem instance's sequence,
/// computed by iterating the recurrence from the seed.
pub fn s(o: usize) -> (r: usize)
    ensures
        r as nat == sval(SEED as nat, MODULUS as nat, o as nat),
        r <= 0xffff_ffff,
{
    let mut result: u64 = SEED;
    let mut i: usize = 0;
    while i < o
        invariant
            i <= o,
            result as nat == sval(SEED as nat, MODULUS as nat, i as nat),
            result <= 0xffff_ffff,
        decreases o - i,
    {
        proof {
            let v = result as int;
            let md = MODULUS as int;
            assert(v * v <= 0xffff_ffff * 0xffff_ffff && 0 <= (v * v) % md < md)
                by (nonlinear_arith)
                requires
                    0 <= v <= 0xffff_ffff,
                    md >= 1,
            ;
        }
        result = result * result % MODULUS;
        i += 1;
    }
    result as usize
}

/// A(i, j): the least sequence value over positions i..j, found by direct
/// scan.
pub fn a(i: usize, j: usize) -> (r: BigUint)
    requires
        1 <= i <= j,
    ensures
        big_val(r) == amin(SEED as nat, MODULUS as nat, i as nat, j as nat),
{
    let mut min_v: usize = s(i);
    let mut idx: usize = i;
    while idx < j
        invariant
            i <= idx <= j,
            min_v as nat == amin(SEED as nat, MODULUS as nat, i as nat, idx as nat),
            min_v <= 0xffff_ffff,
        decreases j - idx,
    {
        idx = idx + 1;
        let elem = s(idx);
        proof {
            lemma_amin_extend(SEED as nat, MODULUS as nat, i as nat, idx as nat);
        }
        if elem < min_v {
            min_v = elem;
        }
    }
    big_from_u64(min_v as u64)
}

/// M(n) by the defining double sum: for every end position j, the minima of
/// all windows ending at j are scanned and added.
pub fn m(n: usize) -> (r: BigUint)
    ensures
        big_val(r) == msum(SEED as nat, MODULUS as nat, n as nat),
{
    let ghost s0 = SEED as nat;
    let ghost md = MODULUS as nat;
    let mut sum = big_from_u64(0);
    let mut j: usize = 0;
    while j < n
        invariant
            j <= n,
            big_val(sum) == msum(s0, md, j as nat),
            s0 == SEED as nat,
            md == MODULUS as nat,
        decreases n - j,
    {
        j = j + 1;
        let mut i: usize = 0;
        while i < j
            invariant
                i <= j,
                1 <= j <= n,
                s0 == SEED as nat,
                md == MODULUS as nat,
                big_val(sum) + lsum_from(s0, md, i as nat + 1, j as nat) == msum(
                    s0,
                    md,
                    (j - 1) as nat,
                ) + lsum_from(s0, md, 1, j as nat),
            decreases j - i,
        {
            i = i + 1;
            let term = a(i, j);
            big_add_assign(&mut sum, &term);
            proof {
                assert(lsum_from(s0, md, i as nat, j as nat) == amin(s0, md, i as nat, j as nat)
                    + lsum_from(s0, md, i as nat + 1, j as nat));
            }
        }
        proof {
            assert(lsum_from(s0, md, j as nat + 1, j as nat) == 0);
            assert(msum(s0, md, j as nat) == msum(s0, md, (j - 1) as nat) + lsum_from(
                s0,
                md,
                1,
                j as nat,
            ));
        }
    }
    sum
}

} // verus!
