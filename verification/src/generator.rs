use vstd::prelude::*;

verus! {

/// Seed of the fixed problem instance: position 0 of the value sequence.
pub const SEED: u64 = 290797;

/// Modulus of the fixed problem instance.
pub const MODULUS: u64 = 50515093;

/// One step of the recurrence: the square of the current value, modulo `md`.
pub open spec fn gen_step(v: nat, md: nat) -> nat {
    (v * v) % md
}

/// The value at position `k` of the sequence started at `s0`: position 0 is
/// the seed itself, and each later position squares its predecessor modulo
/// `md`. Positions 1 and up are the stream that M(N) is defined over.
pub open spec fn sval(s0: nat, md: nat, k: nat) -> nat
    decreases k,
{
    if k == 0 {
        s0
    } else {
        gen_step(sval(s0, md, (k - 1) as nat), md)
    }
}

/// Every generated value (position 1 and up) lies below the modulus.
pub proof fn lemma_sval_bound(s0: nat, md: nat, k: nat)
    requires
        md >= 1,
        k >= 1,
    ensures
        sval(s0, md, k) < md,
{
    let prev = sval(s0, md, (k - 1) as nat);
    assert(sval(s0, md, k) == (prev * prev) % md);
    assert((prev * prev) % md < md) by (nonlinear_arith)
        requires
            md >= 1,
    ;
}

/// Deterministic pseudo-random stream: squaring modulo a fixed modulus.
pub struct Generator {
    pub value: u64,
    pub modulus: u64,
}

impl Generator {
    /// The generator is in a state where stepping cannot overflow: its value
    /// is below the modulus, and the modulus is small enough that a square
    /// fits in 64 bits.
    pub open spec fn wf(self) -> bool {
        &&& 1 <= self.modulus <= 0x1_0000_0000
        &&& self.value < self.modulus
    }

    pub fn new(seed: u64, modulus: u64) -> (r: Generator)
        requires
            1 <= modulus <= 0x1_0000_0000,
            seed < modulus,
        ensures
            r.wf(),
            r.value == seed,
            r.modulus == modulus,
    {
        Generator { value: seed, modulus }
    }

    /// Advances to the next value of the stream and returns it. Two
    /// generators built from the same seed and modulus return identical
    /// streams: the result is a pure function of the previous value.
    pub fn next(&mut self) -> (r: u64)
        requires
            old(self).wf(),
        ensures
            final(self).wf(),
            final(self).modulus == old(self).modulus,
            final(self).value as nat == gen_step(
                old(self).value as nat,
                old(self).modulus as nat,
            ),
            r == final(self).value,
    {
        proof {
            let v = old(self).value as int;
            let md = old(self).modulus as int;
            assert(v * v <= 0xffff_ffff * 0xffff_ffff && (v * v) % md < md)
                by (nonlinear_arith)
                requires
                    0 <= v <= 0xffff_ffff,
                    md >= 1,
            ;
        }
        self.value = self.value * self.value % self.modulus;
        self.value
    }
}

} // verus!
