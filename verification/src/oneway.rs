//! The incremental multi-base hash sequence.
//!
//! A `OneWay` owns a fixed set of randomly drawn bases and an append-only
//! array of hash vectors, one per prefix: entry `i` holds, for every base,
//! the polynomial hash of the first `i + 1` appended residues. Pushing a
//! value extends every base's hash in one fold step.

use vstd::prelude::*;
use vstd::arithmetic::div_mod::lemma_small_mod;

use crate::math::{
    lemma_poly_hash_in_range, lemma_poly_hash_push, lemma_add_reduce_mod, lemma_sum_reduce_mod,
    poly_hash,
};
use crate::prime::Prime;
use crate::windows::{window_count, Windows};
use crate::Maybe;

verus! {

/// Relies on `rand::random_range` over `lo..=hi`: it returns a value of the
/// given non-empty range, and panics only on an empty one. Nothing further
/// is assumed of the choice.
#[verifier::external_body]
fn random_in(lo: u64, hi: u64) -> (r: u64)
    requires
        lo <= hi,
    ensures
        lo <= r <= hi,
{
    rand::random_range(lo..=hi)
}

/// An append-only sequence of multi-base rolling hashes.
pub struct OneWay {
    prime: Prime,
    base: Vec<u64>,
    hash: Vec<Vec<u64>>,
    values: Ghost<Seq<u64>>,
}

impl View for OneWay {
    type V = Seq<u64>;

    /// The abstract state: the residues appended so far, in order.
    closed spec fn view(&self) -> Seq<u64> {
        self.values@
    }
}

impl OneWay {
    /// The modulus every stored component is reduced by.
    pub closed spec fn modulus(&self) -> int {
        self.prime.modulus()
    }

    /// The random bases, drawn once at construction.
    pub closed spec fn bases(&self) -> Seq<u64> {
        self.base@
    }

    /// The validated modulus configuration.
    pub closed spec fn prime_cfg(&self) -> Prime {
        self.prime
    }

    /// Well-formedness: the modulus is validated, between one and ten bases
    /// all lie in `[2, P-2]`, and the stored array holds exactly the
    /// polynomial hash of every prefix of the appended values, under every
    /// base.
    pub closed spec fn wf(&self) -> bool {
        &&& self.prime.wf()
        &&& 1 <= self.base@.len() <= 10
        &&& forall|b: int|
            0 <= b < self.base@.len() ==> 2 <= #[trigger] self.base@[b] as int <= self.modulus()
                - 2
        &&& self.hash@.len() == self.values@.len()
        &&& forall|i: int|
            0 <= i < self.hash@.len() ==> (#[trigger] self.hash@[i])@.len() == self.base@.len()
        &&& forall|i: int, b: int|
            0 <= i < self.hash@.len() && 0 <= b < self.base@.len()
                ==> (#[trigger] self.hash@[i]@[b]) as int == poly_hash(
                self.modulus(),
                self.base@[b] as int,
                self.values@.subrange(0, i + 1),
            )
    }

    /// The facts about a well-formed sequence that the window iterator
    /// builds on.
    pub proof fn lemma_wf_facts(&self)
        requires
            self.wf(),
        ensures
            self.prime_cfg().wf(),
            self.prime_cfg().modulus() == self.modulus(),
            1 <= self.bases().len() <= 10,
            forall|b: int|
                0 <= b < self.bases().len() ==> 2 <= #[trigger] self.bases()[b] as int
                    <= self.modulus() - 2,
            0x40000000000000 < self.modulus() < 0x2000000000000000,
    {
        self.prime.lemma_bounds();
    }

    /// Creates an empty sequence with `base_count` freshly drawn random
    /// bases; a count outside `1..=10` is refused.
    pub fn new(prime: Prime, base_count: usize) -> (r: Option<OneWay>)
        requires
            prime.wf(),
        ensures
            r.is_some() <==> 1 <= base_count <= 10,
            r.is_some() ==> r.unwrap().wf(),
            r.is_some() ==> r.unwrap()@ == Seq::<u64>::empty(),
            r.is_some() ==> r.unwrap().bases().len() == base_count,
            r.is_some() ==> r.unwrap().modulus() == prime.modulus(),
    {
        if base_count == 0 || base_count > 10 {
            return None;
        }
        proof {
            prime.lemma_bounds();
        }
        let p = prime.value();
        let mut base: Vec<u64> = Vec::new();
        let mut b: usize = 0;
        while b < base_count
            invariant
                prime.wf(),
                p as int == prime.modulus(),
                p >= 5,
                b <= base_count,
                base@.len() == b,
                forall|i: int| 0 <= i < b ==> 2 <= #[trigger] base@[i] <= p - 2,
            decreases base_count - b,
        {
            let v = random_in(2, p - 2);
            base.push(v);
            b += 1;
        }
        let s = OneWay { prime, base, hash: Vec::new(), values: Ghost(Seq::empty()) };
        Some(s)
    }

    /// Creates an empty sequence as `new` does, pre-reserving storage for
    /// `capacity` elements.
    pub fn with_capacity(prime: Prime, base_count: usize, capacity: usize) -> (r: Option<OneWay>)
        requires
            prime.wf(),
        ensures
            r.is_some() <==> 1 <= base_count <= 10,
            r.is_some() ==> r.unwrap().wf(),
            r.is_some() ==> r.unwrap()@ == Seq::<u64>::empty(),
            r.is_some() ==> r.unwrap().bases().len() == base_count,
            r.is_some() ==> r.unwrap().modulus() == prime.modulus(),
    {
        match Self::new(prime, base_count) {
            Some(mut s) => {
                s.reserve(capacity);
                Some(s)
            },
            None => None,
        }
    }

    /// Reserves capacity for at least `additional` further elements.
    pub fn reserve(&mut self, additional: usize)
        requires
            old(self).wf(),
        ensures
            final(self).wf(),
            final(self)@ == old(self)@,
            final(self).bases() == old(self).bases(),
            final(self).prime_cfg() == old(self).prime_cfg(),
            final(self).modulus() == old(self).modulus(),
    {
        self.hash.reserve(additional);
    }

    /// The number of values appended so far.
    pub fn len(&self) -> (r: usize)
        requires
            self.wf(),
        ensures
            r == self@.len(),
    {
        self.hash.len()
    }

    /// Whether no value has been appended yet.
    pub fn is_empty(&self) -> (r: bool)
        requires
            self.wf(),
        ensures
            r <==> self@.len() == 0,
    {
        self.hash.is_empty()
    }

    /// A copy of the bases drawn at construction.
    pub fn base(&self) -> (r: Vec<u64>)
        requires
            self.wf(),
        ensures
            r@ == self.bases(),
    {
        let n = self.base.len();
        let mut r: Vec<u64> = Vec::new();
        let mut i: usize = 0;
        while i < n
            invariant
                i <= n,
                n == self.base@.len(),
                r@.len() == i,
                forall|q: int| 0 <= q < i ==> #[trigger] r@[q] == self.base@[q],
            decreases n - i,
        {
            r.push(self.base[i]);
            i += 1;
        }
        proof {
            assert(r@ =~= self.bases());
        }
        r
    }

    /// One base, for the window iterator.
    pub(crate) fn base_component(&self, b: usize) -> (r: u64)
        requires
            self.wf(),
            b < self.bases().len(),
        ensures
            r == self.bases()[b as int],
            2 <= r as int <= self.modulus() - 2,
    {
        self.base[b]
    }

    /// The number of bases, for the window iterator.
    pub(crate) fn base_count(&self) -> (r: usize)
        requires
            self.wf(),
        ensures
            r == self.bases().len(),
            1 <= r <= 10,
    {
        self.base.len()
    }

    /// The modulus configuration, for the window iterator.
    pub(crate) fn prime_of(&self) -> (r: Prime)
        ensures
            r == self.prime_cfg(),
    {
        self.prime
    }

    /// One component of the stored prefix-hash array: the polynomial hash
    /// of the first `i + 1` appended values under base `b`.
    pub(crate) fn prefix_component(&self, i: usize, b: usize) -> (r: u64)
        requires
            self.wf(),
            i < self@.len(),
            b < self.bases().len(),
        ensures
            r as int == poly_hash(
                self.modulus(),
                self.bases()[b as int] as int,
                self@.subrange(0, i as int + 1),
            ),
            0 <= r < self.modulus(),
    {
        proof {
            lemma_poly_hash_in_range(
                self.modulus(),
                self.bases()[b as int] as int,
                self@.subrange(0, i as int + 1),
            );
        }
        self.hash[i][b]
    }

    /// One fold step: extends each base's hash by `next`, which must
    /// already be reduced.
    fn hash_next(&self, prev: &Vec<u64>, next: u64) -> (r: Vec<u64>)
        requires
            self.wf(),
            prev@.len() == self.bases().len(),
            forall|b: int| 0 <= b < prev@.len() ==> #[trigger] prev@[b] < self.modulus(),
            next < self.modulus(),
        ensures
            r@.len() == self.bases().len(),
            forall|b: int|
                0 <= b < r@.len() ==> (#[trigger] r@[b]) as int == (prev@[b] * self.bases()[b]
                    + next) % self.modulus(),
            forall|b: int| 0 <= b < r@.len() ==> #[trigger] r@[b] < self.modulus(),
    {
        proof {
            self.lemma_wf_facts();
        }
        let p = self.prime.value();
        let n = self.base.len();
        let mut r: Vec<u64> = Vec::new();
        let mut b: usize = 0;
        while b < n
            invariant
                self.wf(),
                b <= n,
                n == self.bases().len(),
                p as int == self.modulus(),
                p < 0x2000000000000000,
                prev@.len() == n,
                forall|q: int| 0 <= q < n ==> #[trigger] prev@[q] < p,
                next < p,
                r@.len() == b,
                forall|q: int|
                    0 <= q < b ==> (#[trigger] r@[q]) as int == (prev@[q] * self.bases()[q]
                        + next) % self.modulus(),
                forall|q: int| 0 <= q < b ==> #[trigger] r@[q] < p,
            decreases n - b,
        {
            let m = self.prime.mul_mod(prev[b], self.base[b]);
            let hb = (m + next) % p;
            proof {
                lemma_sum_reduce_mod(prev@[b as int] * self.base@[b as int], next as int, p as int);
            }
            r.push(hb);
            b += 1;
        }
        r
    }

    /// Appends one residue; the value must already be reduced below the
    /// modulus. The first push starts every base from the zero hash.
    pub fn push(&mut self, value: u64)
        requires
            old(self).wf(),
            value < old(self).modulus(),
        ensures
            final(self).wf(),
            final(self)@ == old(self)@.push(value),
            final(self).bases() == old(self).bases(),
            final(self).prime_cfg() == old(self).prime_cfg(),
            final(self).modulus() == old(self).modulus(),
    {
        let n = self.hash.len();
        let fresh: Vec<u64>;
        if n == 0 {
            // cold path: no previous hash to extend, every base starts at
            // the pushed value itself
            let cnt = self.base.len();
            let mut v: Vec<u64> = Vec::new();
            let mut b: usize = 0;
            while b < cnt
                invariant
                    b <= cnt,
                    v@.len() == b,
                    forall|q: int| 0 <= q < b ==> #[trigger] v@[q] == value,
                decreases cnt - b,
            {
                v.push(value);
                b += 1;
            }
            fresh = v;
        } else {
            proof {
                assert forall|b: int|
                    0 <= b < self.hash@[n - 1]@.len() implies (#[trigger] self.hash@[n - 1]@[b])
                    < self.modulus() by {
                    lemma_poly_hash_in_range(
                        self.modulus(),
                        self.base@[b] as int,
                        self@.subrange(0, n as int),
                    );
                };
            }
            fresh = self.hash_next(&self.hash[n - 1], value);
        }
        self.hash.push(fresh);
        proof {
            self.values@ = self.values@.push(value);
        }
        proof {
            let p = self.modulus();
            let n0 = old(self)@.len() as int;
            assert forall|i: int, b: int|
                0 <= i < self.hash@.len() && 0 <= b
                    < self.base@.len() implies (#[trigger] self.hash@[i]@[b]) as int == poly_hash(
                p,
                self.base@[b] as int,
                self.values@.subrange(0, i + 1),
            ) by {
                let base = self.base@[b] as int;
                if i < n0 {
                    assert(self.values@.subrange(0, i + 1) =~= old(self)@.subrange(0, i + 1));
                    assert(self.hash@[i] == old(self).hash@[i]);
                } else {
                    assert(i == n0);
                    assert(self.values@.subrange(0, n0 + 1) =~= self.values@);
                    assert(old(self)@.subrange(0, n0) =~= old(self)@);
                    lemma_poly_hash_push(p, base, old(self)@, value);
                    if n0 == 0 {
                        assert(poly_hash(p, base, old(self)@) == 0);
                        assert((0 * base + value) % p == value) by {
                            lemma_small_mod(value as nat, p as nat);
                        };
                    } else {
                        assert(self.hash@[i]@[b] as int == (old(self).hash@[n0 - 1]@[b] * base
                            + value) % p);
                    }
                }
            };
        }
    }

    /// Moves every element of `other` into `self`, in order, leaving
    /// `other` empty; every moved value must already be reduced.
    pub fn append(&mut self, other: &mut Vec<u64>)
        requires
            old(self).wf(),
            forall|i: int|
                0 <= i < old(other)@.len() ==> (#[trigger] old(other)@[i]) < old(self).modulus(),
        ensures
            final(self).wf(),
            final(self)@ == old(self)@ + old(other)@,
            final(other)@.len() == 0,
            final(self).bases() == old(self).bases(),
            final(self).prime_cfg() == old(self).prime_cfg(),
            final(self).modulus() == old(self).modulus(),
    {
        self.reserve(other.len());
        let n = other.len();
        let mut i: usize = 0;
        proof {
            assert(old(self)@ + other@.subrange(0, 0) =~= old(self)@);
        }
        while i < n
            invariant
                self.wf(),
                i <= n,
                n == other@.len(),
                other@ == old(other)@,
                forall|q: int| 0 <= q < n ==> (#[trigger] other@[q]) < self.modulus(),
                self@ == old(self)@ + other@.subrange(0, i as int),
                self.bases() == old(self).bases(),
                self.prime_cfg() == old(self).prime_cfg(),
                self.modulus() == old(self).modulus(),
            decreases n - i,
        {
            let v = other[i];
            self.push(v);
            i += 1;
            proof {
                assert(self@ =~= old(self)@ + other@.subrange(0, i as int));
            }
        }
        proof {
            assert(old(self)@ + other@.subrange(0, n as int) =~= old(self)@ + other@);
        }
        other.clear();
    }

    /// Hashes an arbitrary external slice under this sequence's bases, by
    /// folding from the zero vector; raw values are reduced on the way in.
    /// The sequence itself is not touched.
    pub fn hash_slice(&self, slice: &[u64]) -> (r: Vec<u64>)
        requires
            self.wf(),
        ensures
            r@.len() == self.bases().len(),
            forall|b: int|
                0 <= b < r@.len() ==> (#[trigger] r@[b]) as int == poly_hash(
                    self.modulus(),
                    self.bases()[b] as int,
                    slice@,
                ),
            forall|b: int| 0 <= b < r@.len() ==> #[trigger] r@[b] < self.modulus(),
    {
        proof {
            self.lemma_wf_facts();
        }
        let p = self.prime.value();
        let cnt = self.base.len();
        let mut acc: Vec<u64> = Vec::new();
        let mut b: usize = 0;
        while b < cnt
            invariant
                b <= cnt,
                acc@.len() == b,
                forall|q: int| 0 <= q < b ==> #[trigger] acc@[q] == 0,
            decreases cnt - b,
        {
            acc.push(0);
            b += 1;
        }
        let n = slice.len();
        let mut i: usize = 0;
        proof {
            assert(slice@.subrange(0, 0) =~= Seq::<u64>::empty());
        }
        while i < n
            invariant
                self.wf(),
                i <= n,
                n == slice@.len(),
                p as int == self.modulus(),
                p > 2,
                acc@.len() == self.bases().len(),
                forall|q: int|
                    0 <= q < acc@.len() ==> (#[trigger] acc@[q]) as int == poly_hash(
                        self.modulus(),
                        self.bases()[q] as int,
                        slice@.subrange(0, i as int),
                    ),
                forall|q: int| 0 <= q < acc@.len() ==> #[trigger] acc@[q] < p,
            decreases n - i,
        {
            let v = slice[i] % p;
            let next = self.hash_next(&acc, v);
            proof {
                let pre = slice@.subrange(0, i as int);
                let post = slice@.subrange(0, i as int + 1);
                assert(post =~= pre.push(slice@[i as int]));
                assert forall|q: int| 0 <= q < next@.len() implies (#[trigger] next@[q]) as int
                    == poly_hash(self.modulus(), self.bases()[q] as int, post) by {
                    let base = self.bases()[q] as int;
                    lemma_poly_hash_push(p as int, base, pre, slice@[i as int]);
                    lemma_add_reduce_mod(
                        poly_hash(p as int, base, pre) * base,
                        slice@[i as int] as int,
                        p as int,
                    );
                };
            }
            acc = next;
            i += 1;
        }
        proof {
            assert(slice@.subrange(0, n as int) =~= slice@);
        }
        acc
    }

    /// Hash-vector equality of the window starting at `j` with the needle:
    /// under every base, the window's polynomial hash equals the needle's.
    /// Necessary for a true occurrence, sufficient only up to collisions.
    pub open spec fn matches_at(&self, needle: Seq<u64>, j: int) -> bool {
        forall|b: int|
            0 <= b < self.bases().len() ==> #[trigger] poly_hash(
                self.modulus(),
                self.bases()[b] as int,
                self@.subrange(j, j + needle.len() as int),
            ) == poly_hash(self.modulus(), self.bases()[b] as int, needle)
    }

    /// The window indices below `upto` that hash-match the needle, in
    /// ascending order.
    pub open spec fn match_indices(&self, needle: Seq<u64>, upto: int) -> Seq<int>
        decreases upto,
    {
        if upto <= 0 {
            Seq::empty()
        } else if self.matches_at(needle, upto - 1) {
            self.match_indices(needle, upto - 1).push(upto - 1)
        } else {
            self.match_indices(needle, upto - 1)
        }
    }

    /// Search soundness: a window that literally equals the needle also
    /// hash-matches it, so no search operation can miss a true occurrence.
    pub proof fn lemma_true_occurrence_matches(&self, needle: Seq<u64>, j: int)
        requires
            0 <= j,
            j + needle.len() <= self@.len(),
            self@.subrange(j, j + needle.len() as int) == needle,
        ensures
            self.matches_at(needle, j),
    {
    }

    /// A window iterator of length `size` over this sequence; a zero
    /// window length is refused.
    pub fn windows(&self, size: usize) -> (r: Option<Windows>)
        requires
            self.wf(),
        ensures
            r.is_some() <==> size >= 1,
            r.is_some() ==> r.unwrap().wf(self),
            r.is_some() ==> r.unwrap().window_len() == size,
            r.is_some() ==> r.unwrap().start() == 0,
            r.is_some() ==> r.unwrap().end() == window_count(self@.len() as int, size as int),
    {
        Windows::new(self, size)
    }

    /// Searches for the needle, returning the start index of the first
    /// hash-matching window, tagged as possibly incorrect.
    pub fn position(&self, slice: &[u64]) -> (r: Option<Maybe<usize>>)
        requires
            self.wf(),
            slice@.len() >= 1,
        ensures
            r.is_some() ==> 0 <= r.unwrap().0 < window_count(
                self@.len() as int,
                slice@.len() as int,
            ),
            r.is_some() ==> self.matches_at(slice@, r.unwrap().0 as int),
            r.is_some() ==> forall|q: int| 0 <= q < r.unwrap().0 ==> !self.matches_at(slice@, q),
            r.is_none() ==> forall|q: int|
                0 <= q < window_count(self@.len() as int, slice@.len() as int)
                    ==> !self.matches_at(slice@, q),
    {
        let target = self.hash_slice(slice);
        let mut w = Windows::new(self, slice.len()).unwrap();
        let total = w.remaining(self);
        let mut idx: usize = 0;
        while idx < total
            invariant
                self.wf(),
                slice@.len() >= 1,
                w.wf(self),
                w.window_len() == slice@.len(),
                w.start() == idx,
                w.end() == total,
                total == window_count(self@.len() as int, slice@.len() as int),
                idx <= total,
                target@.len() == self.bases().len(),
                forall|b: int|
                    0 <= b < target@.len() ==> (#[trigger] target@[b]) as int == poly_hash(
                        self.modulus(),
                        self.bases()[b] as int,
                        slice@,
                    ),
                forall|q: int| 0 <= q < idx ==> !self.matches_at(slice@, q),
            decreases total - idx,
        {
            let h = w.next(self).unwrap();
            if vec_eq(&h, &target) {
                proof {
                    self.lemma_window_match(slice@, idx as int, h@, target@);
                }
                return Some(Maybe(idx));
            }
            proof {
                self.lemma_window_mismatch(slice@, idx as int, h@, target@);
            }
            idx += 1;
        }
        None
    }

    /// Searches from the right, returning the start index of the last
    /// hash-matching window, tagged as possibly incorrect.
    pub fn rposition(&self, slice: &[u64]) -> (r: Option<Maybe<usize>>)
        requires
            self.wf(),
            slice@.len() >= 1,
        ensures
            r.is_some() ==> 0 <= r.unwrap().0 < window_count(
                self@.len() as int,
                slice@.len() as int,
            ),
            r.is_some() ==> self.matches_at(slice@, r.unwrap().0 as int),
            r.is_some() ==> forall|q: int|
                r.unwrap().0 < q < window_count(self@.len() as int, slice@.len() as int)
                    ==> !self.matches_at(slice@, q),
            r.is_none() ==> forall|q: int|
                0 <= q < window_count(self@.len() as int, slice@.len() as int)
                    ==> !self.matches_at(slice@, q),
    {
        let target = self.hash_slice(slice);
        let mut w = Windows::new(self, slice.len()).unwrap();
        let total = w.remaining(self);
        let mut idx: usize = total;
        while idx > 0
            invariant
                self.wf(),
                slice@.len() >= 1,
                w.wf(self),
                w.window_len() == slice@.len(),
                w.start() == 0,
                w.end() == idx,
                total == window_count(self@.len() as int, slice@.len() as int),
                idx <= total,
                target@.len() == self.bases().len(),
                forall|b: int|
                    0 <= b < target@.len() ==> (#[trigger] target@[b]) as int == poly_hash(
                        self.modulus(),
                        self.bases()[b] as int,
                        slice@,
                    ),
                forall|q: int| idx <= q < total ==> !self.matches_at(slice@, q),
            decreases idx,
        {
            idx -= 1;
            let h = w.next_back(self).unwrap();
            if vec_eq(&h, &target) {
                proof {
                    self.lemma_window_match(slice@, idx as int, h@, target@);
                }
                return Some(Maybe(idx));
            }
            proof {
                self.lemma_window_mismatch(slice@, idx as int, h@, target@);
            }
        }
        None
    }

    /// All hash-matching start indices, in ascending order, each tagged as
    /// possibly incorrect.
    pub fn positions(&self, slice: &[u64]) -> (r: Vec<Maybe<usize>>)
        requires
            self.wf(),
            slice@.len() >= 1,
        ensures
            r@.map_values(|m: Maybe<usize>| m.0 as int) == self.match_indices(
                slice@,
                window_count(self@.len() as int, slice@.len() as int),
            ),
    {
        let target = self.hash_slice(slice);
        let mut w = Windows::new(self, slice.len()).unwrap();
        let total = w.remaining(self);
        let mut out: Vec<Maybe<usize>> = Vec::new();
        let mut idx: usize = 0;
        proof {
            assert(out@.map_values(|m: Maybe<usize>| m.0 as int) =~= self.match_indices(
                slice@,
                0,
            ));
        }
        while idx < total
            invariant
                self.wf(),
                slice@.len() >= 1,
                w.wf(self),
                w.window_len() == slice@.len(),
                w.start() == idx,
                w.end() == total,
                total == window_count(self@.len() as int, slice@.len() as int),
                idx <= total,
                target@.len() == self.bases().len(),
                forall|b: int|
                    0 <= b < target@.len() ==> (#[trigger] target@[b]) as int == poly_hash(
                        self.modulus(),
                        self.bases()[b] as int,
                        slice@,
                    ),
                out@.map_values(|m: Maybe<usize>| m.0 as int) == self.match_indices(
                    slice@,
                    idx as int,
                ),
            decreases total - idx,
        {
            let h = w.next(self).unwrap();
            if vec_eq(&h, &target) {
                proof {
                    self.lemma_window_match(slice@, idx as int, h@, target@);
                }
                out.push(Maybe(idx));
            } else {
                proof {
                    self.lemma_window_mismatch(slice@, idx as int, h@, target@);
                }
            }
            idx += 1;
            proof {
                assert(out@.map_values(|m: Maybe<usize>| m.0 as int) =~= self.match_indices(
                    slice@,
                    idx as int,
                ));
            }
        }
        out
    }

    /// The number of hash-matching windows, tagged as possibly incorrect;
    /// scans the whole sequence with no early exit.
    pub fn count(&self, slice: &[u64]) -> (r: Maybe<usize>)
        requires
            self.wf(),
            slice@.len() >= 1,
        ensures
            r.0 == self.match_indices(
                slice@,
                window_count(self@.len() as int, slice@.len() as int),
            ).len(),
    {
        let target = self.hash_slice(slice);
        let mut w = Windows::new(self, slice.len()).unwrap();
        let total = w.remaining(self);
        let mut cnt: usize = 0;
        let mut idx: usize = 0;
        while idx < total
            invariant
                self.wf(),
                slice@.len() >= 1,
                w.wf(self),
                w.window_len() == slice@.len(),
                w.start() == idx,
                w.end() == total,
                total == window_count(self@.len() as int, slice@.len() as int),
                idx <= total,
                cnt <= idx,
                target@.len() == self.bases().len(),
                forall|b: int|
                    0 <= b < target@.len() ==> (#[trigger] target@[b]) as int == poly_hash(
                        self.modulus(),
                        self.bases()[b] as int,
                        slice@,
                    ),
                cnt == self.match_indices(slice@, idx as int).len(),
            decreases total - idx,
        {
            let h = w.next(self).unwrap();
            if vec_eq(&h, &target) {
                proof {
                    self.lemma_window_match(slice@, idx as int, h@, target@);
                }
                cnt += 1;
            } else {
                proof {
                    self.lemma_window_mismatch(slice@, idx as int, h@, target@);
                }
            }
            idx += 1;
        }
        Maybe(cnt)
    }

    /// A window whose hash vector equals the needle's hash vector is a
    /// hash match: both vectors are canonical residues.
    proof fn lemma_window_match(&self, needle: Seq<u64>, j: int, h: Seq<u64>, target: Seq<u64>)
        requires
            self.wf(),
            h.len() == self.bases().len(),
            target.len() == self.bases().len(),
            forall|b: int|
                0 <= b < h.len() ==> (#[trigger] h[b]) as int == poly_hash(
                    self.modulus(),
                    self.bases()[b] as int,
                    self@.subrange(j, j + needle.len() as int),
                ),
            forall|b: int|
                0 <= b < target.len() ==> (#[trigger] target[b]) as int == poly_hash(
                    self.modulus(),
                    self.bases()[b] as int,
                    needle,
                ),
            forall|b: int| 0 <= b < h.len() ==> #[trigger] h[b] == target[b],
        ensures
            self.matches_at(needle, j),
    {
        assert forall|b: int| 0 <= b < self.bases().len() implies #[trigger] poly_hash(
            self.modulus(),
            self.bases()[b] as int,
            self@.subrange(j, j + needle.len() as int),
        ) == poly_hash(self.modulus(), self.bases()[b] as int, needle) by {
            assert(h[b] == target[b]);
        };
    }

    /// A component where the vectors differ refutes the hash match.
    proof fn lemma_window_mismatch(&self, needle: Seq<u64>, j: int, h: Seq<u64>, target: Seq<u64>)
        requires
            self.wf(),
            h.len() == self.bases().len(),
            target.len() == self.bases().len(),
            forall|b: int|
                0 <= b < h.len() ==> (#[trigger] h[b]) as int == poly_hash(
                    self.modulus(),
                    self.bases()[b] as int,
                    self@.subrange(j, j + needle.len() as int),
                ),
            forall|b: int|
                0 <= b < target.len() ==> (#[trigger] target[b]) as int == poly_hash(
                    self.modulus(),
                    self.bases()[b] as int,
                    needle,
                ),
            exists|b: int| 0 <= b < h.len() && h[b] != target[b],
        ensures
            !self.matches_at(needle, j),
    {
        let b = choose|b: int| 0 <= b < h.len() && h[b] != target[b];
        assert(poly_hash(self.modulus(), self.bases()[b] as int, self@.subrange(j, j
            + needle.len() as int)) != poly_hash(self.modulus(), self.bases()[b] as int, needle));
    }
}

/// Componentwise equality of two equal-length vectors.
fn vec_eq(a: &Vec<u64>, b: &Vec<u64>) -> (r: bool)
    requires
        a@.len() == b@.len(),
    ensures
        r ==> forall|i: int| 0 <= i < a@.len() ==> #[trigger] a@[i] == b@[i],
        !r ==> exists|i: int| 0 <= i < a@.len() && #[trigger] a@[i] != b@[i],
{
    let n = a.len();
    let mut i: usize = 0;
    while i < n
        invariant
            i <= n,
            n == a@.len(),
            b@.len() == n,
            forall|q: int| 0 <= q < i ==> #[trigger] a@[q] == b@[q],
        decreases n - i,
    {
        if a[i] != b[i] {
            return false;
        }
        i += 1;
    }
    true
}

} // verus!
