//! The places in a list at which something holds.

use vstd::prelude::*;

verus! {

/// The places below `n` at which `keep` holds, in order.
pub open spec fn places(keep: spec_fn(int) -> bool, n: nat) -> Seq<usize>
    decreases n,
{
    if n == 0 {
        seq![]
    } else {
        let before = places(keep, (n - 1) as nat);
        if keep(n - 1) {
            before.push((n - 1) as usize)
        } else {
            before
        }
    }
}

/// There are no more places than there is room for.
pub proof fn lemma_places_len(keep: spec_fn(int) -> bool, n: nat)
    ensures
        places(keep, n).len() <= n,
    decreases n,
{
    if n > 0 {
        lemma_places_len(keep, (n - 1) as nat);
    }
}

/// The places are just those at which `keep` holds, and each stands before the
/// larger ones.
pub proof fn lemma_places(keep: spec_fn(int) -> bool, n: nat)
    requires
        n <= usize::MAX,
    ensures
        forall|k: usize| #[trigger] places(keep, n).contains(k) <==> k < n && keep(k as int),
        forall|i: int, j: int|
            0 <= i < j < places(keep, n).len() ==> places(keep, n)[i] < places(keep, n)[j],
    decreases n,
{
    if n > 0 {
        let less = (n - 1) as nat;
        let before = places(keep, less);
        lemma_places(keep, less);
        if keep(n - 1) {
            let list = before.push(less as usize);
            assert forall|k: usize| #[trigger] list.contains(k) <==> k < n && keep(k as int) by {
                if before.contains(k) {
                    let at = choose|at: int| 0 <= at < before.len() && before[at] == k;
                    assert(list[at] == k);
                }
                if k == less {
                    assert(list[before.len() as int] == k);
                }
                if list.contains(k) {
                    let at = choose|at: int| 0 <= at < list.len() && list[at] == k;
                    if at < before.len() {
                        assert(before[at] == k);
                        assert(before.contains(k));
                    }
                }
            }
            assert forall|i: int, j: int| 0 <= i < j < list.len() implies list[i] < list[j] by {
                if j == before.len() {
                    assert(before.contains(list[i]));
                }
            }
        }
    }
}

} // verus!
