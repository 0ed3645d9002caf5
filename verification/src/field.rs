//! The finite field the engine computes over.
//!
//! Gate expressions are polynomial identities over a prime field. This
//! module fixes the field to the integers modulo the Mersenne prime
//! `P = 2^31 - 1`, which keeps every product inside `u64` range, and gives
//! the handful of algebraic facts the satisfiability laws rest on.

use vstd::prelude::*;

verus! {

/// The field modulus, the Mersenne prime `2^31 - 1`.
pub const P: u64 = 2147483647;

/// Field addition on canonical representatives.
pub open spec fn fadd(a: nat, b: nat) -> nat {
    (a + b) % (P as nat)
}

/// Field negation on canonical representatives below `P`.
pub open spec fn fneg(a: nat) -> nat {
    if a == 0 {
        0nat
    } else {
        (P as nat - a) as nat
    }
}

/// Field subtraction: `a - b = a + (-b)`.
pub open spec fn fsub(a: nat, b: nat) -> nat {
    fadd(a, fneg(b))
}

/// Field multiplication on canonical representatives.
pub open spec fn fmul(a: nat, b: nat) -> nat {
    (a * b) % (P as nat)
}

/// An element of the prime field, kept as its canonical representative.
#[derive(Clone, Copy, Debug, PartialEq, Eq, Structural, Hash)]
pub struct Fp {
    v: u64,
}

impl View for Fp {
    type V = nat;

    closed spec fn view(&self) -> nat {
        self.v as nat
    }
}

impl Fp {
    /// The representative is reduced: every well-formed element is below `P`.
    pub open spec fn inv(self) -> bool {
        self@ < P as nat
    }

    /// The element with representative `x mod P`.
    pub fn new(x: u64) -> (r: Fp)
        ensures
            r == fp(x as nat),
            r@ == x as nat % (P as nat),
            r.inv(),
    {
        Fp { v: x % P }
    }

    /// The additive identity.
    pub fn zero() -> (r: Fp)
        ensures
            r@ == 0,
            r.inv(),
    {
        Fp { v: 0 }
    }

    /// The multiplicative identity.
    pub fn one() -> (r: Fp)
        ensures
            r@ == 1,
            r.inv(),
    {
        Fp { v: 1 }
    }

    /// The canonical representative, as a machine integer.
    pub fn as_u64(self) -> (r: u64)
        ensures
            r as nat == self@,
    {
        self.v
    }

    /// Field equality.
    pub fn equals(self, other: Fp) -> (r: bool)
        ensures
            r == (self@ == other@),
    {
        self.v == other.v
    }

    /// Field addition.
    pub fn add(self, other: Fp) -> (r: Fp)
        requires
            self.inv(),
            other.inv(),
        ensures
            r@ == fadd(self@, other@),
            r.inv(),
    {
        Fp { v: (self.v + other.v) % P }
    }

    /// Field negation.
    pub fn neg(self) -> (r: Fp)
        requires
            self.inv(),
        ensures
            r@ == fneg(self@),
            r.inv(),
    {
        if self.v == 0 {
            Fp { v: 0 }
        } else {
            Fp { v: P - self.v }
        }
    }

    /// Field subtraction.
    pub fn sub(self, other: Fp) -> (r: Fp)
        requires
            self.inv(),
            other.inv(),
        ensures
            r@ == fsub(self@, other@),
            r.inv(),
    {
        self.add(other.neg())
    }

    /// Field multiplication.
    pub fn mul(self, other: Fp) -> (r: Fp)
        requires
            self.inv(),
            other.inv(),
        ensures
            r@ == fmul(self@, other@),
            r.inv(),
    {
        proof {
            assert(self.v * other.v <= 2147483646u64 * 2147483646u64) by (nonlinear_arith)
                requires
                    self.v <= 2147483646,
                    other.v <= 2147483646,
            ;
        }
        Fp { v: (self.v * other.v) % P }
    }
}

/// The field element with representative `n mod P`.
pub closed spec fn fp(n: nat) -> Fp {
    Fp { v: (n % (P as nat)) as u64 }
}

/// What `fp` denotes: the canonical representative of `n`.
pub proof fn lemma_fp_view(n: nat)
    ensures
        fp(n)@ == n % (P as nat),
        fp(n).inv(),
{
}

/// Two field elements are the same value exactly when their canonical
/// representatives agree.
pub proof fn lemma_fp_eq(a: Fp, b: Fp)
    ensures
        (a == b) <==> (a@ == b@),
{
}

/// An element cancels against its own negation.
pub proof fn lemma_add_neg(a: nat)
    requires
        a < P as nat,
    ensures
        fadd(a, fneg(a)) == 0,
{
}

/// `x - c` is the field zero exactly when `x` equals `c`.
pub proof fn lemma_sub_zero_iff_eq(x: nat, c: nat)
    requires
        x < P as nat,
        c < P as nat,
    ensures
        (fsub(x, c) == 0) <==> (x == c),
{
}

/// Zero annihilates products, on either side.
pub proof fn lemma_mul_zero(a: nat)
    ensures
        fmul(a, 0) == 0,
        fmul(0, a) == 0,
{
}

} // verus!
