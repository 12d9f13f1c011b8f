//! The mathematical model of the rolling hash: the polynomial hash of a
//! sequence under one base, and the modular-arithmetic lemmas that the
//! engine and the window iterator are proved against.

use vstd::prelude::*;
use vstd::arithmetic::div_mod::{
    lemma_add_mod_noop, lemma_mod_bound, lemma_mod_multiples_vanish, lemma_mod_sub_multiples_vanish,
    lemma_mul_mod_noop_left, lemma_small_mod,
};
use vstd::arithmetic::power::{
    lemma_pow1, lemma_pow_adds, lemma_pow_mod_noop, lemma_pow_multiplies, lemma_square_is_pow2,
    pow,
};
use vstd::arithmetic::div_mod::lemma_mul_mod_noop_right;
use vstd::arithmetic::power2::{lemma_pow2_strictly_increases, pow2};

verus! {

/// The polynomial hash of `s` under one `base`, modulo `p`: the fold
/// `h' = (h * base + value) % p` over `s`, starting from zero.
///
/// The fold reduces after every step, so the same function describes both a
/// sequence of residues and a sequence of raw values: `(h * base + v) % p`
/// and `(h * base + v % p) % p` are the same number.
pub open spec fn poly_hash(p: int, base: int, s: Seq<u64>) -> int
    decreases s.len(),
{
    if s.len() == 0 {
        0
    } else {
        (poly_hash(p, base, s.drop_last()) * base + s.last()) % p
    }
}

/// A polynomial hash is a residue: it always lies in `[0, p)`.
pub proof fn lemma_poly_hash_in_range(p: int, base: int, s: Seq<u64>)
    requires
        p > 0,
    ensures
        0 <= poly_hash(p, base, s) < p,
{
    if s.len() == 0 {
    } else {
        lemma_mod_bound(poly_hash(p, base, s.drop_last()) * base + s.last(), p);
    }
}

/// Extending a sequence by one value extends its polynomial hash by one
/// fold step.
pub proof fn lemma_poly_hash_push(p: int, base: int, s: Seq<u64>, v: u64)
    requires
        p > 0,
    ensures
        poly_hash(p, base, s.push(v)) == (poly_hash(p, base, s) * base + v) % p,
{
    assert(s.push(v).drop_last() =~= s);
    assert(s.push(v).last() == v);
}

/// Reducing the accumulator before a fold step does not change the step's
/// result: `((x % p) * b + v) % p == (x * b + v) % p`.
pub proof fn lemma_mul_add_mod(x: int, b: int, v: int, p: int)
    requires
        p > 0,
    ensures
        ((x % p) * b + v) % p == (x * b + v) % p,
{
    lemma_mul_mod_noop_left(x, b, p);
    lemma_add_mod_noop((x % p) * b, v, p);
    lemma_add_mod_noop(x * b, v, p);
}

/// The decomposition law of polynomial hashes: the hash of a concatenation
/// `s + t` is the hash of `s`, scaled by `base` to the length of `t`, plus
/// the hash of `t`, all modulo `p`. The window iterator's subtraction
/// formula is this law read backwards.
pub proof fn lemma_poly_hash_append(p: int, base: int, s: Seq<u64>, t: Seq<u64>)
    requires
        p > 0,
    ensures
        poly_hash(p, base, s + t) == (poly_hash(p, base, s) * pow(base, t.len()) + poly_hash(
            p,
            base,
            t,
        )) % p,
    decreases t.len(),
{
    lemma_poly_hash_in_range(p, base, s);
    if t.len() == 0 {
        assert(s + t =~= s);
        vstd::arithmetic::power::lemma_pow0(base);
        assert(pow(base, 0) == 1);
        lemma_small_mod(poly_hash(p, base, s) as nat, p as nat);
    } else {
        let t0 = t.drop_last();
        let v = t.last();
        let hs = poly_hash(p, base, s);
        let ht0 = poly_hash(p, base, t0);
        lemma_poly_hash_append(p, base, s, t0);
        assert((s + t).drop_last() =~= s + t0);
        assert((s + t).last() == v);
        // poly_hash(s + t) == ((hs * pow(base, |t0|) + ht0) % p * base + v) % p
        lemma_mul_add_mod(hs * pow(base, t0.len()) + ht0, base, v as int, p);
        let q = pow(base, t0.len());
        assert((hs * q + ht0) * base + v == hs * (q * base) + (ht0 * base + v)) by (nonlinear_arith);
        lemma_pow1(base);
        lemma_pow_adds(base, t0.len(), 1);
        assert(q * base == pow(base, t.len()));
        // fold the tail hash back under the modulus
        lemma_add_reduce_mod(hs * pow(base, t.len()), ht0 * base + v as int, p);
    }
}

/// Reducing the added value before a fold step does not change the step's
/// result: `(x + y % p) % p == (x + y) % p`.
pub proof fn lemma_add_reduce_mod(x: int, y: int, p: int)
    requires
        p > 0,
    ensures
        (x + y % p) % p == (x + y) % p,
{
    lemma_add_mod_noop(x, y, p);
    lemma_add_mod_noop(x, y % p, p);
    vstd::arithmetic::div_mod::lemma_mod_twice(y, p);
}

/// The window form of the decomposition law: the hash of the prefix of
/// length `j` splits into the hash of the prefix of length `i` scaled by
/// `base^(j-i)`, plus the hash of the window `s[i..j]`.
pub proof fn lemma_poly_hash_window(p: int, base: int, s: Seq<u64>, i: int, j: int)
    requires
        p > 0,
        0 <= i <= j <= s.len(),
    ensures
        poly_hash(p, base, s.subrange(0, j)) == (poly_hash(p, base, s.subrange(0, i)) * pow(
            base,
            (j - i) as nat,
        ) + poly_hash(p, base, s.subrange(i, j))) % p,
{
    assert(s.subrange(0, i) + s.subrange(i, j) =~= s.subrange(0, j));
    lemma_poly_hash_append(p, base, s.subrange(0, i), s.subrange(i, j));
}

/// Recovering a window hash from two prefix hashes: if `h2` is the reduced
/// sum of a scaled prefix part `m` and the window hash `w`, then adding `p`
/// and subtracting `m` yields `w` exactly.
pub proof fn lemma_mod_subtract_component(m: int, w: int, p: int)
    requires
        p > 0,
        0 <= m < p,
        0 <= w < p,
    ensures
        ((m + w) % p + p - m) % p == w,
{
    if m + w < p {
        lemma_small_mod((m + w) as nat, p as nat);
        // (m + w + p - m) % p == (p + w) % p == w
        vstd::arithmetic::div_mod::lemma_mod_add_multiples_vanish(w, p);
        lemma_small_mod(w as nat, p as nat);
    } else {
        lemma_mod_sub_multiples_vanish(m + w, p);
        lemma_small_mod((m + w - p) as nat, p as nat);
        lemma_small_mod(w as nat, p as nat);
    }
}

/// The ring identity behind the split multiplication: writing both factors
/// in halves at `t`, and the cross term in halves again, every occurrence
/// of `t * t` collapses to `c * dd` modulo `p`, leaving the three summands
/// the engine computes plus an explicit multiple of `p`.
pub proof fn lemma_split_product_identity(
    p: int,
    dd: int,
    c: int,
    t: int,
    au: int,
    al: int,
    bu: int,
    bl: int,
    cu: int,
    cl: int,
)
    requires
        t * t == c * p + c * dd,
        au * bl + al * bu == cu * t + cl,
    ensures
        (au * t + al) * (bu * t + bl) == p * ((au * bu + cu) * c) + (au * bu * c * dd + (cu * (c
            * dd) + cl * t) + al * bl),
{
    broadcast use vstd::arithmetic::mul::group_mul_properties;

    let x = au * t + al;
    let y = bu * t + bl;
    // expand the product of the two splits
    assert(x * y == (au * t) * (bu * t) + (au * t) * bl + (al * (bu * t) + al * bl));
    assert((au * t) * (bu * t) == (au * bu) * (t * t)) by (nonlinear_arith);
    assert((au * t) * bl == (au * bl) * t) by (nonlinear_arith);
    assert(al * (bu * t) == (al * bu) * t) by (nonlinear_arith);
    assert((au * bl) * t + (al * bu) * t == (au * bl + al * bu) * t);
    // fold the cross split back in
    assert((cu * t + cl) * t == cu * (t * t) + cl * t) by (nonlinear_arith);
    // replace t * t by its residue form c * p + c * dd
    assert((au * bu) * (t * t) + cu * (t * t) == (au * bu + cu) * (t * t));
    assert((au * bu + cu) * (c * p + c * dd) == p * ((au * bu + cu) * c) + (au * bu) * (c * dd)
        + cu * (c * dd)) by (nonlinear_arith);
    assert(au * bu * c * dd == (au * bu) * (c * dd)) by (nonlinear_arith);
}

/// A product of two values strictly below `x` and `y` stays strictly below
/// `x * y`.
pub proof fn lemma_mul_bound(a: int, b: int, x: int, y: int)
    by (nonlinear_arith)
    requires
        0 <= a < x,
        0 <= b < y,
    ensures
        a * b <= (x - 1) * (y - 1),
        a * b < x * y,
{
}

/// Dropping a reduced term and a multiple of `p` from a sum does not change
/// its residue: `(x % p + y) % p == (p * k + (x + y)) % p == (x + y) % p`.
pub proof fn lemma_sum_reduce_mod(x: int, y: int, p: int)
    requires
        p > 0,
    ensures
        (x % p + y) % p == (x + y) % p,
{
    lemma_add_mod_noop(x, y, p);
    lemma_add_mod_noop(x % p, y, p);
    vstd::arithmetic::div_mod::lemma_mod_twice(x, p);
}

/// A multiple of the modulus vanishes from a residue.
pub proof fn lemma_multiple_vanishes(k: int, x: int, p: int)
    requires
        p > 0,
    ensures
        (p * k + x) % p == x % p,
{
    lemma_mod_multiples_vanish(k, x, p);
}

/// One multiply step of modular exponentiation: extending the exponent by
/// one multiplies the residue by the base, modulo `p`. Iterating modular
/// multiplication from `1` therefore reproduces `pow(b, e) % p` — the
/// square-and-multiply route and the repeated-multiplication route agree.
pub proof fn lemma_pow_mod_step(p: int, b: int, e: nat)
    requires
        p > 0,
    ensures
        (pow(b, e) % p * b) % p == pow(b, e + 1) % p,
{
    lemma_mul_mod_noop_left(pow(b, e), b, p);
    lemma_pow1(b);
    lemma_pow_adds(b, e, 1);
    vstd::arithmetic::mul::lemma_mul_is_commutative(b, pow(b, e));
}

/// Powers of two are monotone in the exponent.
pub proof fn lemma_pow2_le(a: nat, b: nat)
    requires
        a <= b,
    ensures
        pow2(a) <= pow2(b),
{
    if a < b {
        lemma_pow2_strictly_increases(a, b);
    }
}

/// One square-and-shift step of binary exponentiation: replacing the base
/// by its reduced square halves the exponent without changing the residue.
pub proof fn lemma_mul_pow_sq_mod(x: int, v: int, vsq: int, e2: nat, p: int)
    requires
        p > 0,
        vsq == (v * v) % p,
    ensures
        (x * pow(vsq, e2)) % p == (x * pow(v, 2 * e2)) % p,
{
    lemma_square_is_pow2(v);
    lemma_pow_multiplies(v, 2, e2);
    lemma_pow_mod_noop(v * v, e2, p);
    lemma_mul_mod_noop_right(x, pow(vsq, e2), p);
    lemma_mul_mod_noop_right(x, pow(v * v, e2), p);
}

} // verus!
