//! Nearest-hit search over the primitives of a scene.
//!
//! A hit is known here by a distance key: an unsigned integer that orders hits
//! as their distances along the ray order them. A primitive that the ray does
//! not meet has no key.
use vstd::prelude::*;

verus! {

/// Whether `k` is where the nearest hit stands: it has a key, no key is
/// smaller, and no earlier key is as small.
pub open spec fn is_nearest(keys: Seq<Option<u64>>, k: int) -> bool {
    &&& 0 <= k < keys.len()
    &&& keys[k] is Some
    &&& forall|j: int|
        0 <= j < keys.len() && keys[j] is Some ==> keys[k]->Some_0 <= (#[trigger] keys[j])->Some_0
    &&& forall|j: int| 0 <= j < k && keys[j] is Some ==> keys[k]->Some_0 < (#[trigger] keys[j])->Some_0
}

/// Whether no primitive is hit.
pub open spec fn all_miss(keys: Seq<Option<u64>>) -> bool {
    forall|j: int| 0 <= j < keys.len() ==> (#[trigger] keys[j]) is None
}

/// Index of the primitive hit first, among the keys of all primitives in scene
/// order. Misses take no part in the comparison; of several equally near hits
/// the earliest primitive wins.
pub fn nearest(keys: &Vec<Option<u64>>) -> (hit: Option<usize>)
    ensures
        hit is None <==> all_miss(keys@),
        hit matches Some(k) ==> is_nearest(keys@, k as int),
{
    let mut best: Option<usize> = None;
    let mut best_key: u64 = 0;
    let mut i: usize = 0;
    while i < keys.len()
        invariant
            i <= keys.len(),
            best is None <==> all_miss(keys@.take(i as int)),
            best matches Some(k) ==> is_nearest(keys@.take(i as int), k as int) && keys@[k as int]
                == Some(best_key),
        decreases keys.len() - i,
    {
        let ghost seen = keys@.take(i as int);
        match keys[i] {
            None => {},
            Some(key) => {
                let closer = match best {
                    None => true,
                    Some(_) => key < best_key,
                };
                if closer {
                    proof {
                        if best is Some {
                            let k = best->Some_0;
                            assert(forall|j: int|
                                0 <= j < i && seen[j] is Some ==> seen[k as int]->Some_0 <= (
                                #[trigger] seen[j])->Some_0);
                        }
                    }
                    best = Some(i);
                    best_key = key;
                }
            },
        }
        i = i + 1;
    }
    proof {
        assert(keys@.take(i as int) =~= keys@);
    }
    best
}

} // verus!
