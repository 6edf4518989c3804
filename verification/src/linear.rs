//! The linear-time aggregator: consumes the sequence one element at a time
//! and maintains M(k) and the suffix-minimum sum L(k) incrementally.
//!
//! `local_buffer` holds the elements seen since the last new global
//! minimum. When a new element arrives that is larger than the global
//! minimum, only the tail of suffixes whose minimum exceeds it must be
//! adjusted; scanning the buffer from the top and stopping at the first
//! smaller element does exactly that, and each buffer entry is scanned
//! again only while no smaller element has arrived below it, which keeps
//! the whole run linear in the number of elements.

use vstd::prelude::*;
use num::BigUint;
use crate::bignat::{
    big_add_assign, big_add_assign_u64, big_clone, big_from_u64, big_mul_assign_u64,
    big_sub_assign_u64, big_val,
};
use crate::generator::{gen_step, lemma_sval_bound, sval, Generator, MODULUS, SEED};
use crate::sums::{
    amin, lemma_amin_extend, lemma_amin_le, lemma_amin_suffix_ge, lemma_lsum_cap_noop,
    lemma_lsum_cap_prefix, lemma_lsum_extend, lemma_lsum_split_const, lemma_lsum_term_bound,
    lsum_from, lsum_from_cap, msum, nat_min,
};

verus! {

/// Running state of the aggregator after consuming `index + 1` elements of
/// the stream named by `instance` (a seed and a modulus): `sum` is M(k),
/// `last_sum` is L(k), `min` the least element so far, `local_buffer` the
/// elements after the last position where the minimum was (re)set.
pub struct LinearCalc {
    pub sum: BigUint,
    pub index: usize,
    pub min: u64,
    pub last_elem: u64,
    pub last_sum: BigUint,
    pub local_buffer: Vec<u64>,
    pub instance: Ghost<(nat, nat)>,
    pub reset_pos: Ghost<nat>,
}

impl LinearCalc {
    /// Seed of the stream this aggregator consumes.
    pub open spec fn seed(self) -> nat {
        self.instance@.0
    }

    /// Modulus of the stream this aggregator consumes.
    pub open spec fn md(self) -> nat {
        self.instance@.1
    }

    /// Number of elements consumed, the position of the last one.
    pub open spec fn count(self) -> nat {
        self.index as nat + 1
    }

    /// The state invariant: every field holds exactly its intended value
    /// for the first `count()` positions of the stream.
    pub open spec fn inv(self) -> bool {
        let s0 = self.seed();
        let md = self.md();
        let k = self.count();
        let r = self.reset_pos@;
        &&& 1 <= md <= 0x1_0000_0000
        &&& big_val(self.sum) == msum(s0, md, k)
        &&& big_val(self.last_sum) == lsum_from(s0, md, 1, k)
        &&& self.min as nat == amin(s0, md, 1, k)
        &&& self.last_elem as nat == sval(s0, md, k)
        &&& 1 <= r <= k
        &&& sval(s0, md, r) == self.min as nat
        &&& self.local_buffer@.len() == k - r
        &&& forall|t: int|
            0 <= t < self.local_buffer@.len() ==> self.local_buffer@[t] as nat == sval(
                s0,
                md,
                (r + 1 + t) as nat,
            )
        &&& forall|x: nat| r < x <= k ==> sval(s0, md, x) > self.min as nat
    }

    /// Starts the aggregator on the first element of the stream; `n`, when
    /// given, bounds the capacity reserved for the buffer.
    pub fn new(first_elem: u64, n: Option<usize>, instance: Ghost<(nat, nat)>) -> (r: LinearCalc)
        requires
            1 <= instance@.1 <= 0x1_0000_0000,
            first_elem as nat == sval(instance@.0, instance@.1, 1),
        ensures
            r.inv(),
            r.instance == instance,
            r.index == 0,
            big_val(r.sum) == msum(instance@.0, instance@.1, 1),
    {
        let ghost s0 = instance@.0;
        let ghost md = instance@.1;
        proof {
            assert(amin(s0, md, 1, 1) == sval(s0, md, 1));
            assert(lsum_from(s0, md, 2, 1) == 0);
            assert(lsum_from(s0, md, 1, 1) == sval(s0, md, 1));
            assert(msum(s0, md, 0) == 0);
            assert(msum(s0, md, 1) == sval(s0, md, 1));
        }
        let sum = big_from_u64(first_elem);
        let last_sum = big_clone(&sum);
        let cap: usize = match n {
            Some(v) => if v < 8942944 {
                v
            } else {
                8942944
            },
            None => 8942944,
        };
        LinearCalc {
            sum,
            index: 0,
            min: first_elem,
            last_elem: first_elem,
            last_sum,
            local_buffer: Vec::with_capacity(cap),
            instance,
            reset_pos: Ghost(1),
        }
    }

    /// Consumes the next element of the stream and returns the new total
    /// M(k), where k counts every element consumed including the first.
    pub fn next(&mut self, elem: u64) -> (r: BigUint)
        requires
            old(self).inv(),
            old(self).index + 1 < usize::MAX,
            elem as nat == sval(old(self).seed(), old(self).md(), old(self).count() + 1),
        ensures
            final(self).inv(),
            final(self).instance == old(self).instance,
            final(self).index == old(self).index + 1,
            big_val(final(self).sum) == msum(
                old(self).seed(),
                old(self).md(),
                old(self).count() + 1,
            ),
            big_val(r) == big_val(final(self).sum),
    {
        let ghost s0 = old(self).seed();
        let ghost md = old(self).md();
        let ghost kprev = old(self).count();
        let ghost k = kprev + 1;
        let ghost r0 = old(self).reset_pos@;
        proof {
            lemma_sval_bound(s0, md, k);
        }
        self.index = self.index + 1;
        big_add_assign_u64(&mut self.sum, elem);
        if elem > self.min {
            if elem < self.last_elem {
                let ghost state0 = *self;
                let mut local_min: u64 = u64::MAX;
                let mut jj: usize = self.local_buffer.len();
                loop
                    invariant_except_break
                        jj <= self.local_buffer@.len(),
                        *self == (LinearCalc { last_sum: self.last_sum, ..state0 }),
                        big_val(self.last_sum) + lsum_from(s0, md, (r0 + 1 + jj) as nat, kprev)
                            == lsum_from(s0, md, 1, kprev) + lsum_from_cap(
                            s0,
                            md,
                            (r0 + 1 + jj) as nat,
                            kprev,
                            elem as nat,
                        ),
                        jj < self.local_buffer@.len() ==> {
                            &&& local_min as nat == amin(s0, md, (r0 + 1 + jj) as nat, kprev)
                            &&& local_min >= elem
                        },
                        jj == self.local_buffer@.len() ==> local_min == u64::MAX,
                        self.local_buffer@.len() == kprev - r0,
                        1 <= r0 <= kprev,
                        elem as nat == sval(s0, md, k),
                        k == kprev + 1,
                        1 <= md <= 0x1_0000_0000,
                        sval(s0, md, r0) == state0.min as nat,
                        elem > state0.min,
                        forall|t: int|
                            0 <= t < self.local_buffer@.len() ==> self.local_buffer@[t] as nat
                                == sval(s0, md, (r0 + 1 + t) as nat),
                    ensures
                        *self == (LinearCalc { last_sum: self.last_sum, ..state0 }),
                        big_val(self.last_sum) == lsum_from_cap(s0, md, 1, kprev, elem as nat),
                    decreases jj,
                {
                    let ghost pos: nat = (r0 + 1 + jj) as nat;
                    if jj == 0 {
                        proof {
                            assert forall|x: nat| 1 <= x < r0 + 1 implies amin(s0, md, x, kprev)
                                <= elem as nat by {
                                lemma_amin_le(s0, md, x, r0, kprev);
                            }
                            lemma_lsum_cap_prefix(s0, md, 1, r0 + 1, kprev, elem as nat);
                        }
                        break ;
                    }
                    let e2 = self.local_buffer[jj - 1];
                    proof {
                        assert(e2 as nat == sval(s0, md, (pos - 1) as nat));
                    }
                    if e2 < elem {
                        proof {
                            assert forall|x: nat| 1 <= x < pos implies amin(s0, md, x, kprev)
                                <= elem as nat by {
                                lemma_amin_le(s0, md, x, (pos - 1) as nat, kprev);
                            }
                            lemma_lsum_cap_prefix(s0, md, 1, pos, kprev, elem as nat);
                        }
                        break ;
                    }
                    proof {
                        lemma_sval_bound(s0, md, (pos - 1) as nat);
                        if jj < self.local_buffer@.len() {
                            assert(amin(s0, md, (pos - 1) as nat, kprev) == nat_min(
                                sval(s0, md, (pos - 1) as nat),
                                amin(s0, md, pos as nat, kprev),
                            ));
                        } else {
                            assert(pos - 1 == kprev);
                            assert(amin(s0, md, (pos - 1) as nat, kprev) == sval(
                                s0,
                                md,
                                kprev,
                            ));
                        }
                    }
                    if e2 < local_min {
                        local_min = e2;
                    }
                    proof {
                        assert(local_min as nat == amin(s0, md, (pos - 1) as nat, kprev));
                        assert(local_min >= elem);
                        lemma_lsum_term_bound(s0, md, 1, (pos - 1) as nat, kprev);
                        assert(lsum_from(s0, md, (pos - 1) as nat, kprev) == amin(
                            s0,
                            md,
                            (pos - 1) as nat,
                            kprev,
                        ) + lsum_from(s0, md, pos as nat, kprev));
                        assert(lsum_from_cap(s0, md, (pos - 1) as nat, kprev, elem as nat)
                            == nat_min(amin(s0, md, (pos - 1) as nat, kprev), elem as nat)
                            + lsum_from_cap(s0, md, pos as nat, kprev, elem as nat));
                        assert(big_val(self.last_sum) >= local_min as nat);
                    }
                    big_sub_assign_u64(&mut self.last_sum, local_min);
                    big_add_assign_u64(&mut self.last_sum, elem);
                    jj = jj - 1;
                }
            } else {
                proof {
                    assert forall|x: nat| 1 <= x <= kprev implies amin(s0, md, x, kprev)
                        <= elem as nat by {
                        lemma_amin_le(s0, md, x, kprev, kprev);
                    }
                    lemma_lsum_cap_noop(s0, md, 1, kprev, elem as nat);
                }
            }
            proof {
                assert(big_val(self.last_sum) == lsum_from_cap(s0, md, 1, kprev, elem as nat));
                lemma_lsum_extend(s0, md, 1, k);
                lemma_amin_extend(s0, md, 1, k);
                assert(msum(s0, md, k) == msum(s0, md, kprev) + lsum_from(s0, md, 1, k));
            }
            big_add_assign(&mut self.sum, &self.last_sum);
            big_add_assign_u64(&mut self.last_sum, elem);
            self.local_buffer.push(elem);
            proof {
                assert(self.min as nat == amin(s0, md, 1, k));
            }
        } else {
            let mut addition = big_from_u64(elem);
            big_mul_assign_u64(&mut addition, self.index as u64);
            big_add_assign(&mut self.sum, &addition);
            big_add_assign_u64(&mut addition, elem);
            self.last_sum = addition;
            self.min = elem;
            self.local_buffer.clear();
            self.reset_pos = Ghost(k);
            proof {
                assert forall|x: nat| 1 <= x <= k implies amin(s0, md, x, k)
                    == elem as nat by {
                    if x < k {
                        lemma_amin_extend(s0, md, x, k);
                        lemma_amin_suffix_ge(s0, md, 1, x, kprev);
                    }
                }
                lemma_lsum_split_const(s0, md, 1, k, k, elem as nat);
                assert(lsum_from(s0, md, k + 1, k) == 0);
                assert(lsum_from(s0, md, 1, k) == k * (elem as nat));
                assert(msum(s0, md, k) == msum(s0, md, kprev) + lsum_from(s0, md, 1, k));
                assert(msum(s0, md, kprev) + elem as nat + (elem as nat) * (k - 1) == msum(
                    s0,
                    md,
                    kprev,
                ) + k * (elem as nat)) by (nonlinear_arith);
                assert((k - 1) * (elem as nat) + elem as nat == k * (elem as nat))
                    by (nonlinear_arith);
            }
        }
        self.last_elem = elem;
        big_clone(&self.sum)
    }
}

/// M(n) by a single linear pass: the aggregator consumes positions 1..n of
/// the fixed problem instance's stream.
pub fn m(n: usize) -> (r: BigUint)
    requires
        n >= 1,
    ensures
        big_val(r) == msum(SEED as nat, MODULUS as nat, n as nat),
{
    let ghost s0 = SEED as nat;
    let ghost md = MODULUS as nat;
    let mut gen = Generator::new(SEED, MODULUS);
    let first = gen.next();
    proof {
        assert(sval(s0, md, 0) == s0);
        assert(sval(s0, md, 1) == gen_step(s0, md));
    }
    let mut linear_calc = LinearCalc::new(first, Some(n), Ghost((s0, md)));
    let mut i: usize = 1;
    while i < n
        invariant
            1 <= i <= n,
            s0 == SEED as nat,
            md == MODULUS as nat,
            gen.wf(),
            gen.modulus == MODULUS,
            gen.value as nat == sval(s0, md, i as nat),
            linear_calc.inv(),
            linear_calc.instance@ == (s0, md),
            linear_calc.index + 1 == i,
        decreases n - i,
    {
        let elem = gen.next();
        linear_calc.next(elem);
        i = i + 1;
    }
    big_clone(&linear_calc.sum)
}

} // verus!
