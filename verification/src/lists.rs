//! Lists that are put together from lists.

use vstd::prelude::*;

verus! {

/// The lists `f(0)`, `f(1)`, up to `f(n - 1)`, one after the other.
pub open spec fn collected<A>(n: nat, f: spec_fn(int) -> Seq<A>) -> Seq<A> {
    Seq::new(n, f).flatten()
}

/// The last list is added at the end.
pub proof fn lemma_collected<A>(n: nat, f: spec_fn(int) -> Seq<A>)
    ensures
        n == 0 ==> collected(n, f).len() == 0,
        n > 0 ==> collected(n, f) == collected((n - 1) as nat, f) + f(n - 1),
{
    let all = Seq::new(n, f);
    if n > 0 {
        let before = Seq::new((n - 1) as nat, f);
        all.lemma_flatten_and_flatten_alt_are_equivalent();
        before.lemma_flatten_and_flatten_alt_are_equivalent();
        assert(all.drop_last() =~= before);
    }
}

/// A list holds what one of its parts holds.
pub proof fn lemma_collected_contains<A>(n: nat, f: spec_fn(int) -> Seq<A>, x: A)
    ensures
        collected(n, f).contains(x) <==> exists|k: int| 0 <= k < n && #[trigger] f(k).contains(x),
    decreases n,
{
    lemma_collected(n, f);
    if n > 0 {
        lemma_collected_contains((n - 1) as nat, f, x);
        let before = collected((n - 1) as nat, f);
        let last = f(n - 1);
        let all = collected(n, f);
        if all.contains(x) {
            let i = choose|i: int| 0 <= i < all.len() && all[i] == x;
            if i < before.len() {
                assert(before[i] == x);
            } else {
                assert(last[i - before.len()] == x);
                assert(f(n - 1).contains(x));
            }
        }
        if exists|k: int| 0 <= k < n && #[trigger] f(k).contains(x) {
            let k = choose|k: int| 0 <= k < n && #[trigger] f(k).contains(x);
            if k < n - 1 {
                let i = choose|i: int| 0 <= i < before.len() && before[i] == x;
                assert(all[i] == x);
            } else {
                let i = choose|i: int| 0 <= i < last.len() && last[i] == x;
                assert(all[before.len() + i] == x);
            }
        }
    }
}

} // verus!
