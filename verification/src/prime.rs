//! The supported prime moduli and the overflow-safe modular engine.
//!
//! Every supported modulus has the form `P = 2^E - D` with `55 <= E <= 61`
//! and `D` small relative to `2^(E/2)`, which lets `mul_mod` run entirely in
//! 64-bit arithmetic: both operands are split at bit `L = (E+1)/2`, and every
//! occurrence of `2^E` in the recombination is replaced by `D`, sound because
//! `2^E` and `D` are congruent modulo `P`.

use vstd::prelude::*;
use vstd::arithmetic::div_mod::{
    lemma_fundamental_div_mod, lemma_mul_mod_noop_left, lemma_multiply_divide_lt, lemma_small_mod,
};
use vstd::arithmetic::power::{lemma_pow0, lemma_pow1, lemma_pow_adds, pow};
use vstd::arithmetic::power2::{lemma2_to64, lemma2_to64_rest, lemma_pow2_adds, lemma_pow2_pos, pow2};
use vstd::bits::{
    lemma_u64_low_bits_mask_is_mod, lemma_u64_shl_is_mul, lemma_u64_shr_is_div, low_bits_mask,
};

use crate::math::{
    lemma_mul_bound, lemma_mul_pow_sq_mod, lemma_multiple_vanishes, lemma_pow2_le,
    lemma_split_product_identity, lemma_sum_reduce_mod,
};

verus! {

/// The prime `2^57 - 111`.
pub const P57_111: u64 = 144115188075855761;

/// The prime `2^57 - 69`.
pub const P57_69: u64 = 144115188075855803;

/// The prime `2^57 - 61`.
pub const P57_61: u64 = 144115188075855811;

/// The prime `2^57 - 49`.
pub const P57_49: u64 = 144115188075855823;

/// The prime `2^57 - 25`.
pub const P57_25: u64 = 144115188075855847;

/// The prime `2^57 - 13`.
pub const P57_13: u64 = 144115188075855859;

/// The prime `2^58 - 63`.
pub const P58_63: u64 = 288230376151711681;

/// The prime `2^58 - 57`.
pub const P58_57: u64 = 288230376151711687;

/// The prime `2^58 - 27`.
pub const P58_27: u64 = 288230376151711717;

/// The prime `2^61 - 1`.
pub const P61_1: u64 = 2305843009213693951;

/// The allow-list of moduli the engine accepts.
pub open spec fn supported_prime(p: u64) -> bool {
    ||| p == P57_111
    ||| p == P57_69
    ||| p == P57_61
    ||| p == P57_49
    ||| p == P57_25
    ||| p == P57_13
    ||| p == P58_63
    ||| p == P58_57
    ||| p == P58_27
    ||| p == P61_1
}

/// A validated modulus together with the split parameters derived from it:
/// `p = 2^exp - diff`, the split position `bits_l = (exp+1)/2`, and the mask
/// of the low `bits_l` bits.
#[derive(Clone, Copy)]
pub struct Prime {
    p: u64,
    exp: u64,
    diff: u64,
    bits_l: u64,
    mask_l: u64,
}

impl Prime {
    /// The modulus as a mathematical integer.
    pub closed spec fn modulus(&self) -> int {
        self.p as int
    }

    /// The derived fields agree with the modulus and satisfy the bounds the
    /// overflow-safety argument needs.
    pub closed spec fn wf(&self) -> bool {
        &&& supported_prime(self.p)
        &&& self.p == pow2(self.exp as nat) - self.diff
        &&& 55 <= self.exp <= 61
        &&& 1 <= self.diff
        &&& (self.diff as int) < pow2((self.exp / 2) as nat)
        &&& pow2(self.exp as nat) * (self.diff as int) <= u64::MAX
        &&& self.bits_l == (self.exp + 1) / 2
        &&& self.mask_l == low_bits_mask(self.bits_l as nat)
    }

    /// Validates `p` against the allow-list; a modulus outside it is refused
    /// before any arithmetic can run.
    pub fn new(p: u64) -> (r: Option<Prime>)
        ensures
            r.is_some() <==> supported_prime(p),
            r.is_some() ==> r.unwrap().wf() && r.unwrap().modulus() == p as int,
    {
        proof {
            lemma2_to64();
            lemma2_to64_rest();
        }
        let exp: u64;
        let diff: u64;
        if p == P57_111 {
            exp = 57;
            diff = 111;
        } else if p == P57_69 {
            exp = 57;
            diff = 69;
        } else if p == P57_61 {
            exp = 57;
            diff = 61;
        } else if p == P57_49 {
            exp = 57;
            diff = 49;
        } else if p == P57_25 {
            exp = 57;
            diff = 25;
        } else if p == P57_13 {
            exp = 57;
            diff = 13;
        } else if p == P58_63 {
            exp = 58;
            diff = 63;
        } else if p == P58_57 {
            exp = 58;
            diff = 57;
        } else if p == P58_27 {
            exp = 58;
            diff = 27;
        } else if p == P61_1 {
            exp = 61;
            diff = 1;
        } else {
            return None;
        }
        let bits_l = (exp + 1) / 2;
        proof {
            lemma_u64_shl_is_mul(1u64, bits_l);
        }
        let mask_l = (1u64 << bits_l) - 1;
        let pr = Prime { p, exp, diff, bits_l, mask_l };
        proof {
            assert(pr.wf());
        }
        Some(pr)
    }

    /// The modulus as a runtime value.
    pub fn value(&self) -> (r: u64)
        ensures
            r as int == self.modulus(),
    {
        self.p
    }

    /// Every supported modulus lies strictly between `2^54` and `2^61`.
    pub proof fn lemma_bounds(&self)
        requires
            self.wf(),
        ensures
            0x40000000000000 < self.modulus() < 0x2000000000000000,
    {
        lemma2_to64();
        lemma2_to64_rest();
        lemma_pow2_le(55, self.exp as nat);
        lemma_pow2_le(self.exp as nat, 61);
        lemma_pow2_le((self.exp / 2) as nat, 30);
    }

    /// Performs `(lhs * rhs) % P` without overflowing 64 bits.
    ///
    /// Splits `lhs` and `rhs` at bit `L = (E+1)/2`, splits the cross term
    /// once more, and folds every `2^(2L)` down to `c * D` (with `c = 1` for
    /// even `E`, `c = 2` for odd `E`), so each intermediate product stays
    /// below `2^64`.
    pub fn mul_mod(&self, lhs: u64, rhs: u64) -> (r: u64)
        requires
            self.wf(),
            lhs < self.modulus(),
            rhs < self.modulus(),
        ensures
            r as int == (lhs as int * rhs as int) % self.modulus(),
            r < self.modulus(),
    {
        let p = self.p;
        let diff = self.diff;
        let bits_l = self.bits_l;
        let mask_l = self.mask_l;
        let c = self.exp % 2 + 1;

        let lhs_l = lhs & mask_l;
        let lhs_u = lhs >> bits_l;
        let rhs_l = rhs & mask_l;
        let rhs_u = rhs >> bits_l;

        let ghost el = self.bits_l as nat;
        let ghost eu = (self.exp / 2) as nat;
        let ghost ee = self.exp as nat;
        let ghost r2 = (self.exp % 2) as nat;
        let ghost t = pow2(el) as int;
        let ghost au = lhs_u as int;
        let ghost al = lhs_l as int;
        let ghost bu = rhs_u as int;
        let ghost bl = rhs_l as int;

        proof {
            lemma2_to64();
            lemma2_to64_rest();
            lemma_pow2_pos(el);
            // the two halves are remainder and quotient at 2^el
            lemma_pow2_le(el, 31);
            lemma_u64_low_bits_mask_is_mod(lhs, el);
            lemma_u64_low_bits_mask_is_mod(rhs, el);
            lemma_u64_shr_is_div(lhs, bits_l);
            lemma_u64_shr_is_div(rhs, bits_l);
            lemma_fundamental_div_mod(lhs as int, t);
            lemma_fundamental_div_mod(rhs as int, t);
            assert(lhs == au * t + al) by (nonlinear_arith)
                requires
                    lhs == t * au + al,
            ;
            assert(rhs == bu * t + bl) by (nonlinear_arith)
                requires
                    rhs == t * bu + bl,
            ;
            // upper halves are below 2^eu
            lemma_pow2_adds(el, eu);
            assert(lhs < t * pow2(eu));
            lemma_multiply_divide_lt(lhs as int, t, pow2(eu) as int);
            lemma_multiply_divide_lt(rhs as int, t, pow2(eu) as int);
            assert(au == lhs as int / t);
            assert(bu == rhs as int / t);
            assert(au < pow2(eu));
            assert(bu < pow2(eu));
            // c == 2^(exp % 2)
            assert(c == pow2(r2));
            // uu = ((lhs_u * rhs_u) * c) * diff stays within u64
            lemma_mul_bound(au, bu, pow2(eu) as int, pow2(eu) as int);
            lemma_pow2_adds(eu, eu);
            lemma_pow2_le(eu + eu, 60);
            lemma_pow2_adds(eu + eu, r2);
            lemma_pow2_le(ee, 61);
            assert(au * bu * c < pow2(ee)) by (nonlinear_arith)
                requires
                    0 <= au * bu < pow2(eu + eu),
                    c == pow2(r2),
                    c >= 1,
                    pow2(eu + eu) * pow2(r2) == pow2(eu + eu + r2),
                    eu + eu + r2 == ee,
            ;
            assert(au * bu * c * diff <= u64::MAX) by (nonlinear_arith)
                requires
                    0 <= au * bu * c < pow2(ee),
                    1 <= diff,
                    pow2(ee) * (diff as int) <= u64::MAX,
            ;
            // the cross sum stays within u64
            lemma_mul_bound(au, bl, pow2(eu) as int, t);
            lemma_mul_bound(al, bu, t, pow2(eu) as int);
            assert(au * bl + al * bu < 2 * pow2(ee)) by (nonlinear_arith)
                requires
                    au * bl < pow2(eu) * t,
                    al * bu < t * pow2(eu),
                    0 <= au * bl,
                    0 <= al * bu,
                    pow2(eu) * t == pow2(ee),
                    t * pow2(eu) == pow2(eu) * t,
            ;
            lemma_pow2_le(ee + 1, 62);
            lemma_pow2_adds(ee, 1);
        }

        let uu = lhs_u * rhs_u * c * diff;
        let cross_t = lhs_u * rhs_l + lhs_l * rhs_u;
        let cross_l = cross_t & mask_l;
        let cross_u = cross_t >> bits_l;

        let ghost cu = cross_u as int;
        let ghost cl = cross_l as int;

        proof {
            lemma2_to64();
            lemma2_to64_rest();
            // split the cross term the same way
            lemma_u64_low_bits_mask_is_mod(cross_t, el);
            lemma_u64_shr_is_div(cross_t, bits_l);
            lemma_fundamental_div_mod(cross_t as int, t);
            assert(cross_t == cu * t + cl) by (nonlinear_arith)
                requires
                    cross_t == t * cu + cl,
            ;
            lemma_pow2_adds(el, eu + 1);
            assert(cross_t < t * pow2(eu + 1));
            lemma_multiply_divide_lt(cross_t as int, t, pow2(eu + 1) as int);
            assert(cu < pow2(eu + 1));
            // cross_u * (c * diff) < 2^(ee+1)
            lemma_pow2_adds(r2, eu);
            assert(c * diff < pow2(eu + r2)) by (nonlinear_arith)
                requires
                    c == pow2(r2),
                    1 <= c,
                    0 < diff < pow2(eu),
                    c * pow2(eu) == pow2(eu + r2),
            ;
            lemma_pow2_adds(eu + 1, eu + r2);
            lemma_pow2_le(eu + r2, 31);
            assert(cu * (c * diff) < pow2(ee + 1)) by (nonlinear_arith)
                requires
                    0 <= cu < pow2(eu + 1),
                    0 <= c * diff < pow2(eu + r2),
                    pow2(eu + 1) * pow2(eu + r2) == pow2(eu + 1 + eu + r2),
                    eu + 1 + eu + r2 == ee + 1,
            ;
            // cross_l << bits_l == cross_l * 2^el, and stays within u64
            lemma_pow2_adds(el, el);
            assert(el + el == ee + r2);
            assert(cl * t < pow2(ee + r2)) by (nonlinear_arith)
                requires
                    0 <= cl < t,
                    t * t == pow2(ee + r2),
            ;
            lemma_pow2_le(ee + r2, 62);
            lemma_u64_shl_is_mul(cross_l, bits_l);
            // ll stays within u64
            lemma_mul_bound(al, bl, t, t);
        }

        let cross = cross_u * (c * diff) + (cross_l << bits_l);
        let ll = lhs_l * rhs_l;

        proof {
            lemma2_to64();
            lemma2_to64_rest();
            // 2^(2L) == c * p + c * diff, since 2^ee == p + diff
            lemma_pow2_adds(ee, r2);
            assert(t * t == pow2(ee) * c);
            assert(t * t == c * p + c * diff) by (nonlinear_arith)
                requires
                    t * t == pow2(ee) * c,
                    pow2(ee) == p + diff,
            ;
            // the split product identity: lhs * rhs is a multiple of p plus
            // exactly the three summands computed above
            lemma_split_product_identity(
                p as int,
                diff as int,
                c as int,
                t,
                au,
                al,
                bu,
                bl,
                cu,
                cl,
            );
            assert(lhs as int * rhs as int == p * ((au * bu + cu) * c) + (uu + cross + ll));
            // reduce: the multiple of p vanishes, the reduced uu keeps the residue
            lemma_sum_reduce_mod(uu as int, cross + ll, p as int);
            lemma_multiple_vanishes((au * bu + cu) * c, uu + cross + ll, p as int);
        }

        (uu % p + cross + ll) % p
    }

    /// Performs `value^exp % P` by square-and-multiply, in `O(log exp)`
    /// multiplications; `exp == 0` yields `1`.
    pub fn pow_mod(&self, value: u64, exp: u64) -> (r: u64)
        requires
            self.wf(),
            value < self.modulus(),
        ensures
            r as int == pow(value as int, exp as nat) % self.modulus(),
            r < self.modulus(),
    {
        let ghost p = self.modulus();
        let mut result: u64 = 1;
        let mut base = value;
        let mut e = exp;
        proof {
            self.lemma_bounds();
        }
        while e > 0
            invariant
                self.wf(),
                p == self.modulus(),
                p > 2,
                base < p,
                result < p,
                (result as int * pow(base as int, e as nat)) % p == pow(
                    value as int,
                    exp as nat,
                ) % p,
            decreases e,
        {
            let ghost r0 = result as int;
            let ghost v0 = base as int;
            let ghost e0 = e as nat;
            assert(e & 1 == e % 2) by (bit_vector);
            if e & 1 == 1 {
                result = self.mul_mod(result, base);
            }
            assert(e >> 1 == e / 2) by (bit_vector);
            e = e >> 1;
            base = self.mul_mod(base, base);
            proof {
                let e2 = e as nat;
                if e0 % 2 == 1 {
                    // result == (r0 * v0) % p; fold the square and the odd bit back
                    lemma_mul_mod_noop_left(r0 * v0, pow(base as int, e2), p);
                    lemma_mul_pow_sq_mod(r0 * v0, v0, base as int, e2, p);
                    lemma_pow1(v0);
                    lemma_pow_adds(v0, 1, 2 * e2);
                    assert(r0 * v0 * pow(v0, 2 * e2) == r0 * pow(v0, (2 * e2 + 1) as nat))
                        by (nonlinear_arith)
                        requires
                            pow(v0, (2 * e2 + 1) as nat) == pow(v0, 1) * pow(v0, 2 * e2),
                            pow(v0, 1) == v0,
                    ;
                    assert(2 * e2 + 1 == e0);
                } else {
                    lemma_mul_pow_sq_mod(r0, v0, base as int, e2, p);
                    assert(2 * e2 == e0);
                }
            }
        }
        proof {
            lemma_pow0(base as int);
            lemma_small_mod(result as nat, p as nat);
        }
        result
    }
}

} // verus!
