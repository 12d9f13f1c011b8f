//! The value-reduction boundary: every input type the sequence accepts is
//! reduced to a canonical residue below the modulus before it is hashed.
//!
//! Unsigned integers narrower than the modulus widen directly; unsigned
//! integers of 64 bits or more reduce by `value % P`; signed integers
//! reinterpret their two's-complement bit pattern as unsigned of the same
//! width and then follow the unsigned rule; booleans and characters map
//! through their ordinal value.

use vstd::prelude::*;

use crate::prime::Prime;

verus! {

/// Reduction of a value to its canonical residue under a modulus.
pub trait Reduce {
    /// The residue this value reduces to under modulus `p`.
    spec fn residue(&self, p: int) -> int;

    /// Reduces this value below the modulus.
    fn reduce(&self, prime: &Prime) -> (r: u64)
        requires
            prime.wf(),
        ensures
            r as int == self.residue(prime.modulus()),
            r < prime.modulus(),
    ;
}

impl Reduce for u8 {
    open spec fn residue(&self, p: int) -> int {
        *self as int
    }

    fn reduce(&self, prime: &Prime) -> (r: u64) {
        proof {
            prime.lemma_bounds();
        }
        *self as u64
    }
}

impl Reduce for u16 {
    open spec fn residue(&self, p: int) -> int {
        *self as int
    }

    fn reduce(&self, prime: &Prime) -> (r: u64) {
        proof {
            prime.lemma_bounds();
        }
        *self as u64
    }
}

impl Reduce for u32 {
    open spec fn residue(&self, p: int) -> int {
        *self as int
    }

    fn reduce(&self, prime: &Prime) -> (r: u64) {
        proof {
            prime.lemma_bounds();
        }
        *self as u64
    }
}

impl Reduce for u64 {
    open spec fn residue(&self, p: int) -> int {
        (*self as int) % p
    }

    fn reduce(&self, prime: &Prime) -> (r: u64) {
        proof {
            prime.lemma_bounds();
        }
        *self % prime.value()
    }
}

impl Reduce for usize {
    open spec fn residue(&self, p: int) -> int {
        (*self as int) % p
    }

    fn reduce(&self, prime: &Prime) -> (r: u64) {
        proof {
            prime.lemma_bounds();
        }
        (*self as u64) % prime.value()
    }
}

impl Reduce for u128 {
    open spec fn residue(&self, p: int) -> int {
        (*self as int) % p
    }

    fn reduce(&self, prime: &Prime) -> (r: u64) {
        proof {
            prime.lemma_bounds();
        }
        let p = prime.value();
        (*self % (p as u128)) as u64
    }
}

impl Reduce for i8 {
    open spec fn residue(&self, p: int) -> int {
        (*self as u8) as int
    }

    fn reduce(&self, prime: &Prime) -> (r: u64) {
        proof {
            prime.lemma_bounds();
        }
        #[verifier::truncate] (*self as u8) as u64
    }
}

impl Reduce for i16 {
    open spec fn residue(&self, p: int) -> int {
        (*self as u16) as int
    }

    fn reduce(&self, prime: &Prime) -> (r: u64) {
        proof {
            prime.lemma_bounds();
        }
        #[verifier::truncate] (*self as u16) as u64
    }
}

impl Reduce for i32 {
    open spec fn residue(&self, p: int) -> int {
        (*self as u32) as int
    }

    fn reduce(&self, prime: &Prime) -> (r: u64) {
        proof {
            prime.lemma_bounds();
        }
        #[verifier::truncate] (*self as u32) as u64
    }
}

impl Reduce for i64 {
    open spec fn residue(&self, p: int) -> int {
        ((*self as u64) as int) % p
    }

    fn reduce(&self, prime: &Prime) -> (r: u64) {
        proof {
            prime.lemma_bounds();
        }
        (#[verifier::truncate] (*self as u64)) % prime.value()
    }
}

impl Reduce for isize {
    open spec fn residue(&self, p: int) -> int {
        ((*self as usize) as int) % p
    }

    fn reduce(&self, prime: &Prime) -> (r: u64) {
        proof {
            prime.lemma_bounds();
        }
        ((#[verifier::truncate] (*self as usize)) as u64) % prime.value()
    }
}

impl Reduce for i128 {
    open spec fn residue(&self, p: int) -> int {
        ((*self as u128) as int) % p
    }

    fn reduce(&self, prime: &Prime) -> (r: u64) {
        proof {
            prime.lemma_bounds();
        }
        let p = prime.value();
        ((#[verifier::truncate] (*self as u128)) % (p as u128)) as u64
    }
}

impl Reduce for bool {
    open spec fn residue(&self, p: int) -> int {
        if *self {
            1
        } else {
            0
        }
    }

    fn reduce(&self, prime: &Prime) -> (r: u64) {
        proof {
            prime.lemma_bounds();
        }
        if *self {
            1
        } else {
            0
        }
    }
}

impl Reduce for char {
    open spec fn residue(&self, p: int) -> int {
        (*self as u32) as int
    }

    fn reduce(&self, prime: &Prime) -> (r: u64) {
        proof {
            prime.lemma_bounds();
        }
        (*self as u32) as u64
    }
}

} // verus!
