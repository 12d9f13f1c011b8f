//! Rolling polynomial hashes over an append-only sequence of `u64` residues,
//! modulo a large prime close to a power of two, with several independently
//! random bases to control collision probability.

use vstd::prelude::*;

mod convert;
pub mod math;
mod oneway;
mod prime;
mod windows;

pub use convert::Reduce;
pub use oneway::OneWay;
pub use prime::{
    Prime, P57_111, P57_13, P57_25, P57_49, P57_61, P57_69, P58_27, P58_57, P58_63, P61_1,
};
pub use windows::{
    backward_hashes, forward_hashes, lemma_forward_backward_agree, window_count, window_hash_at,
    Windows,
};

verus! {

/// A value that may be incorrect due to hash collisions.
///
/// Every index or count a search operation reports compares window hashes,
/// never raw values, so it is correct only up to the (bounded) probability
/// that distinct windows hash equal under every configured base.
#[derive(Clone, Copy, Debug)]
pub struct Maybe<T>(pub T);

} // verus!
