//! Merges the top levels of several exchanges' order books into one sorted view.
use vstd::prelude::*;

use core::cmp::Ordering;

pub mod input_update;
pub mod level;
pub mod levels;
pub mod merge;
pub mod number;
pub mod serve;
pub mod sources;
pub mod summary;

verus! {

/// Number of items in the channel between the parsers and the merger.
pub const CHANNEL_SIZE: usize = 100;

/// Number of top levels kept per exchange and side.
pub const TOP_LEVELS: usize = 10;

/// A call of `cmp_fn` on `a` and `b` may answer something other than `Greater`.
pub open spec fn in_order<T, F: Fn(&T, &T) -> Ordering>(cmp_fn: F, a: &T, b: &T) -> bool {
    exists|o: Ordering| cmp_fn.ensures((a, b), o) && o != Ordering::Greater
}

/// Whether `cmp_fn` puts no element of `levels` after its successor.
pub fn is_sorted<T>(levels: &[T], cmp_fn: impl Fn(&T, &T) -> Ordering) -> (r: bool)
    requires
        forall|a: &T, b: &T| cmp_fn.requires((a, b)),
    ensures
        r ==> forall|i: int|
            0 <= i < levels@.len() - 1 ==> #[trigger] in_order(cmp_fn, &levels@[i], &levels@[i + 1]),
        !r ==> exists|i: int|
            0 <= i < levels@.len() - 1 && #[trigger] cmp_fn.ensures(
                (&levels@[i], &levels@[i + 1]),
                Ordering::Greater,
            ),
{
    let n = levels.len();
    if n == 0 {
        return true;
    }
    let mut i: usize = 0;
    while i < n - 1
        invariant
            n == levels@.len(),
            i < n,
            forall|a: &T, b: &T| cmp_fn.requires((a, b)),
            forall|k: int| 0 <= k < i ==> #[trigger] in_order(cmp_fn, &levels@[k], &levels@[k + 1]),
        decreases n - i,
    {
        let o = cmp_fn(&levels[i], &levels[i + 1]);
        if matches!(o, Ordering::Greater) {
            return false;
        }
        assert(in_order(cmp_fn, &levels@[i as int], &levels@[i + 1]));
        i += 1;
    }
    true
}

} // verus!
