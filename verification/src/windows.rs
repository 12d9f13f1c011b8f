//! The window-hash iterator.
//!
//! For a fixed window length `k`, it yields the hash vector of every
//! contiguous length-`k` subsequence of a hash sequence, from either end:
//! windows `[front, back)` remain, `next` consumes `front`, `next_back`
//! consumes `back - 1`, and the two directions meet in the middle. Each
//! window hash is derived in `O(bases)` from two stored prefix hashes and a
//! lazily memoized `base^k`, never from the raw values.

use vstd::prelude::*;
use vstd::arithmetic::div_mod::{lemma_mod_bound, lemma_mul_mod_noop_right};
use vstd::arithmetic::power::pow;

use vstd::seq_lib::group_seq_properties;

use crate::math::{
    lemma_mod_subtract_component, lemma_poly_hash_in_range, lemma_poly_hash_window,
    lemma_sum_reduce_mod, poly_hash,
};
use crate::oneway::OneWay;

verus! {

/// The number of length-`k` windows of a sequence of length `n`.
pub open spec fn window_count(n: int, k: int) -> int {
    if 1 <= k <= n {
        n - k + 1
    } else {
        0
    }
}

/// The hash vector of the length-`k` window of `hasher` starting at `j`,
/// as the contracts of `next` and `next_back` state it.
pub open spec fn window_hash_at(hasher: &OneWay, k: int, j: int) -> Seq<int> {
    Seq::new(
        hasher.bases().len(),
        |b: int|
            poly_hash(hasher.modulus(), hasher.bases()[b] as int, hasher@.subrange(j, j + k)),
    )
}

/// The window hashes in forward order of start index.
pub open spec fn forward_hashes(hasher: &OneWay, k: int) -> Seq<Seq<int>> {
    Seq::new(
        window_count(hasher@.len() as int, k) as nat,
        |j: int| window_hash_at(hasher, k, j),
    )
}

/// The window hashes in the order a full backward pass yields them.
pub open spec fn backward_hashes(hasher: &OneWay, k: int) -> Seq<Seq<int>> {
    Seq::new(
        window_count(hasher@.len() as int, k) as nat,
        |j: int|
            window_hash_at(hasher, k, window_count(hasher@.len() as int, k) - 1 - j),
    )
}

/// Forward/backward agreement: a full forward pass and a full backward
/// pass yield exactly the same window hashes, each pass in the reverse
/// order of the other. `next` and `next_back` pin every yielded vector to
/// `window_hash_at` of its index, so this law carries over to the
/// iterator's two directions.
pub proof fn lemma_forward_backward_agree(hasher: &OneWay, k: int)
    ensures
        backward_hashes(hasher, k) == forward_hashes(hasher, k).reverse(),
{
    broadcast use group_seq_properties;

    assert(backward_hashes(hasher, k) =~= forward_hashes(hasher, k).reverse());
}

/// A double-ended iterator over the window hashes of a `OneWay`.
///
/// It holds only cursors and the memoized power; the hash sequence itself
/// is passed to every step, and each contract speaks of that argument.
pub struct Windows {
    size: usize,
    front: usize,
    back: usize,
    pow_size: Option<Vec<u64>>,
}

impl Windows {
    /// The window length.
    pub closed spec fn window_len(&self) -> int {
        self.size as int
    }

    /// The first window index not yet consumed from the front.
    pub closed spec fn start(&self) -> int {
        self.front as int
    }

    /// One past the last window index not yet consumed from the back.
    pub closed spec fn end(&self) -> int {
        self.back as int
    }

    /// Whether `base^k` has been computed and cached.
    pub closed spec fn pow_cached(&self) -> bool {
        self.pow_size is Some
    }

    /// Well-formedness relative to the sequence being iterated: the window
    /// length is positive, the remaining range is a sub-range of the
    /// windows of `hasher`, and the cache, once filled, holds `base^k % P`
    /// for every base.
    pub closed spec fn wf(&self, hasher: &OneWay) -> bool {
        &&& hasher.wf()
        &&& self.size >= 1
        &&& self.front <= self.back
        &&& self.back <= window_count(hasher@.len() as int, self.size as int)
        &&& match self.pow_size {
            Some(v) => {
                &&& v@.len() == hasher.bases().len()
                &&& forall|b: int|
                    0 <= b < v@.len() ==> (#[trigger] v@[b]) as int == pow(
                        hasher.bases()[b] as int,
                        self.size as nat,
                    ) % hasher.modulus()
            },
            None => true,
        }
    }

    /// Creates an iterator over the length-`size` windows of `hasher`;
    /// a zero window length is refused.
    pub fn new(hasher: &OneWay, size: usize) -> (r: Option<Windows>)
        requires
            hasher.wf(),
        ensures
            r.is_some() <==> size >= 1,
            r.is_some() ==> r.unwrap().wf(hasher),
            r.is_some() ==> r.unwrap().window_len() == size,
            r.is_some() ==> r.unwrap().start() == 0,
            r.is_some() ==> r.unwrap().end() == window_count(hasher@.len() as int, size as int),
    {
        if size == 0 {
            return None;
        }
        let n = hasher.len();
        let back = if size <= n {
            n - size + 1
        } else {
            0
        };
        Some(Windows { size, front: 0, back, pow_size: None })
    }

    /// The exact number of windows not yet consumed.
    pub fn remaining(&self, hasher: &OneWay) -> (r: usize)
        requires
            self.wf(hasher),
        ensures
            r == self.end() - self.start(),
    {
        self.back - self.front
    }

    /// Computes and caches `base^k % P` for every base; a second call is
    /// free. Cursors do not move.
    fn ensure_pow(&mut self, hasher: &OneWay)
        requires
            old(self).wf(hasher),
        ensures
            final(self).wf(hasher),
            final(self).pow_cached(),
            final(self).window_len() == old(self).window_len(),
            final(self).start() == old(self).start(),
            final(self).end() == old(self).end(),
    {
        if self.pow_size.is_none() {
            proof {
                hasher.lemma_wf_facts();
            }
            let pr = hasher.prime_of();
            let cnt = hasher.base_count();
            let k = self.size;
            let mut v: Vec<u64> = Vec::new();
            let mut b: usize = 0;
            while b < cnt
                invariant
                    hasher.wf(),
                    pr == hasher.prime_cfg(),
                    pr.wf(),
                    pr.modulus() == hasher.modulus(),
                    b <= cnt,
                    cnt == hasher.bases().len(),
                    v@.len() == b,
                    forall|q: int|
                        0 <= q < b ==> (#[trigger] v@[q]) as int == pow(
                            hasher.bases()[q] as int,
                            k as nat,
                        ) % hasher.modulus(),
                decreases cnt - b,
            {
                let base_b = hasher.base_component(b);
                v.push(pr.pow_mod(base_b, k as u64));
                b += 1;
            }
            self.pow_size = Some(v);
        }
    }

    /// The hash vector of the window starting at `j`, derived from the
    /// stored prefix hashes: component `b` is the polynomial hash of
    /// `hasher[j .. j + k]` under base `b`.
    fn window_at(&self, hasher: &OneWay, j: usize) -> (r: Vec<u64>)
        requires
            self.wf(hasher),
            self.pow_cached(),
            j + self.window_len() <= hasher@.len(),
        ensures
            r@.len() == hasher.bases().len(),
            forall|b: int|
                0 <= b < r@.len() ==> (#[trigger] r@[b]) as int == poly_hash(
                    hasher.modulus(),
                    hasher.bases()[b] as int,
                    hasher@.subrange(j as int, j + self.window_len()),
                ),
    {
        proof {
            hasher.lemma_wf_facts();
        }
        let pr = hasher.prime_of();
        let p = pr.value();
        let cnt = hasher.base_count();
        let k = self.size;
        let n = hasher.len();
        let powv = match &self.pow_size {
            Some(v) => v,
            None => vstd::pervasive::unreached(),
        };
        let mut r: Vec<u64> = Vec::new();
        let mut b: usize = 0;
        while b < cnt
            invariant
                self.wf(hasher),
                hasher.wf(),
                pr == hasher.prime_cfg(),
                pr.wf(),
                p as int == hasher.modulus(),
                p as int == pr.modulus(),
                4 < p < 0x2000000000000000,
                k == self.window_len(),
                1 <= k,
                n == hasher@.len(),
                j + k <= n,
                b <= cnt,
                cnt == hasher.bases().len(),
                powv@.len() == cnt,
                forall|q: int|
                    0 <= q < cnt ==> (#[trigger] powv@[q]) as int == pow(
                        hasher.bases()[q] as int,
                        k as nat,
                    ) % hasher.modulus(),
                r@.len() == b,
                forall|q: int|
                    0 <= q < b ==> (#[trigger] r@[q]) as int == poly_hash(
                        hasher.modulus(),
                        hasher.bases()[q] as int,
                        hasher@.subrange(j as int, j + k),
                    ),
            decreases cnt - b,
        {
            let ghost base = hasher.bases()[b as int] as int;
            let ghost powk = pow(base, k as nat);
            let ghost s = hasher@;
            proof {
                lemma_mod_bound(powk, p as int);
            }
            let h2 = hasher.prefix_component(j + k - 1, b);
            let off = if j == 0 {
                0u64
            } else {
                hasher.prefix_component(j - 1, b)
            };
            let m = pr.mul_mod(off, powv[b]);
            let comp = (h2 + p - m) % p;
            proof {
                let w = poly_hash(p as int, base, s.subrange(j as int, j + k));
                lemma_poly_hash_in_range(p as int, base, s.subrange(j as int, j + k));
                if j == 0 {
                    assert(s.subrange(0, 0) =~= Seq::<u64>::empty());
                }
                // h2 splits into the scaled prefix hash at j plus the window
                lemma_poly_hash_window(p as int, base, s, j as int, j + k);
                // m is the reduced scaled prefix part
                lemma_mul_mod_noop_right(off as int, powk, p as int);
                lemma_sum_reduce_mod(off as int * powk, w, p as int);
                lemma_mod_subtract_component(m as int, w, p as int);
            }
            r.push(comp);
            b += 1;
        }
        r
    }

    /// Yields the hash vector of the foremost remaining window and advances
    /// the forward cursor, or `None` when the cursors have met. The first
    /// step computes `base^k` once; every step after it costs `O(bases)`.
    pub fn next(&mut self, hasher: &OneWay) -> (r: Option<Vec<u64>>)
        requires
            old(self).wf(hasher),
        ensures
            final(self).wf(hasher),
            final(self).window_len() == old(self).window_len(),
            final(self).end() == old(self).end(),
            old(self).start() >= old(self).end() ==> r is None && final(self).start() == old(
                self,
            ).start(),
            old(self).start() < old(self).end() ==> final(self).start() == old(self).start() + 1
                && r is Some,
            old(self).start() < old(self).end() ==> r.unwrap()@.len() == hasher.bases().len(),
            old(self).start() < old(self).end() ==> forall|b: int|
                0 <= b < hasher.bases().len() ==> (#[trigger] r.unwrap()@[b]) as int == poly_hash(
                    hasher.modulus(),
                    hasher.bases()[b] as int,
                    hasher@.subrange(
                        old(self).start(),
                        old(self).start() + old(self).window_len(),
                    ),
                ),
            old(self).start() < old(self).end() ==> r.unwrap()@.map_values(|x: u64| x as int)
                == window_hash_at(hasher, old(self).window_len(), old(self).start()),
    {
        if self.front >= self.back {
            return None;
        }
        self.ensure_pow(hasher);
        let j = self.front;
        let v = self.window_at(hasher, j);
        proof {
            assert(v@.map_values(|x: u64| x as int) =~= window_hash_at(
                hasher,
                self.size as int,
                j as int,
            ));
        }
        self.front = j + 1;
        Some(v)
    }

    /// Yields the hash vector of the rearmost remaining window and retreats
    /// the backward cursor, or `None` when the cursors have met.
    pub fn next_back(&mut self, hasher: &OneWay) -> (r: Option<Vec<u64>>)
        requires
            old(self).wf(hasher),
        ensures
            final(self).wf(hasher),
            final(self).window_len() == old(self).window_len(),
            final(self).start() == old(self).start(),
            old(self).start() >= old(self).end() ==> r is None && final(self).end() == old(
                self,
            ).end(),
            old(self).start() < old(self).end() ==> final(self).end() == old(self).end() - 1
                && r is Some,
            old(self).start() < old(self).end() ==> r.unwrap()@.len() == hasher.bases().len(),
            old(self).start() < old(self).end() ==> forall|b: int|
                0 <= b < hasher.bases().len() ==> (#[trigger] r.unwrap()@[b]) as int == poly_hash(
                    hasher.modulus(),
                    hasher.bases()[b] as int,
                    hasher@.subrange(
                        old(self).end() - 1,
                        old(self).end() - 1 + old(self).window_len(),
                    ),
                ),
            old(self).start() < old(self).end() ==> r.unwrap()@.map_values(|x: u64| x as int)
                == window_hash_at(hasher, old(self).window_len(), old(self).end() - 1),
    {
        if self.front >= self.back {
            return None;
        }
        self.ensure_pow(hasher);
        let j = self.back - 1;
        let v = self.window_at(hasher, j);
        proof {
            assert(v@.map_values(|x: u64| x as int) =~= window_hash_at(
                hasher,
                self.size as int,
                j as int,
            ));
        }
        self.back = j;
        Some(v)
    }
}

} // verus!
