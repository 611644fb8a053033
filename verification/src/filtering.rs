//! What a filter keeps of a sequence, and where it stood.

use vstd::prelude::*;

verus! {

/// The positions in `all` of the members that satisfy `keep`, ascending.
pub open spec fn kept_positions<A>(all: Seq<A>, keep: spec_fn(A) -> bool) -> Seq<int>
    decreases all.len(),
{
    if all.len() == 0 {
        Seq::empty()
    } else {
        let before = kept_positions(all.drop_last(), keep);
        if keep(all.last()) {
            before.push(all.len() - 1)
        } else {
            before
        }
    }
}

/// `found` is what stands in `all` at the positions `at`, which ascend and
/// are the positions of the members that satisfy `keep`, all of them and no
/// others: so `found` holds those members, each once for each place at which
/// it stands in `all`, in the order of `all`.
pub open spec fn selects<A>(
    found: Seq<A>,
    all: Seq<A>,
    keep: spec_fn(A) -> bool,
    at: Seq<int>,
) -> bool {
    &&& at.len() == found.len()
    &&& forall|k: int|
        0 <= k < at.len() ==> 0 <= #[trigger] at[k] < all.len() && found[k] == all[at[k]]
    &&& forall|j: int, k: int| 0 <= j < k < at.len() ==> at[j] < at[k]
    &&& forall|i: int| 0 <= i < all.len() ==> (keep(all[i]) <==> at.contains(i))
}

/// A filter selects the members at `kept_positions`.
pub proof fn lemma_filter_selects<A>(all: Seq<A>, keep: spec_fn(A) -> bool)
    ensures
        selects(all.filter(keep), all, keep, kept_positions(all, keep)),
    decreases all.len(),
{
    reveal(Seq::filter);
    if all.len() > 0 {
        let front = all.drop_last();
        let before = kept_positions(front, keep);
        let now = kept_positions(all, keep);
        lemma_filter_selects(front, keep);
        assert forall|i: int| 0 <= i < all.len() && keep(all[i]) implies now.contains(i) by {
            if i < front.len() {
                assert(before.contains(i));
                let k = choose|k: int| 0 <= k < before.len() && before[k] == i;
                assert(now[k] == i);
            } else {
                assert(now.last() == i);
            }
        }
        assert forall|i: int| 0 <= i < all.len() && now.contains(i) implies keep(all[i]) by {
            let k = choose|k: int| 0 <= k < now.len() && now[k] == i;
            assert(k < before.len() ==> before.contains(i));
        }
    }
}

/// Filtering what a filter kept keeps all of it.
pub proof fn lemma_filter_twice<A>(all: Seq<A>, keep: spec_fn(A) -> bool)
    ensures
        all.filter(keep).filter(keep) =~= all.filter(keep),
    decreases all.len(),
{
    reveal(Seq::filter);
    if all.len() > 0 {
        let front = all.drop_last();
        lemma_filter_twice(front, keep);
        if keep(all.last()) {
            Seq::filter_distributes_over_add(front.filter(keep), seq![all.last()], keep);
            assert(front.filter(keep).push(all.last()) =~= front.filter(keep) + seq![all.last()]);
            assert(seq![all.last()].filter(keep) =~= seq![all.last()]) by {
                reveal_with_fuel(Seq::filter, 2);
            }
        }
    }
}

/// A filter that every member passes keeps the sequence as it is.
pub proof fn lemma_filter_keeps_all<A>(all: Seq<A>, keep: spec_fn(A) -> bool)
    requires
        forall|i: int| 0 <= i < all.len() ==> keep(all[i]),
    ensures
        all.filter(keep) =~= all,
    decreases all.len(),
{
    reveal(Seq::filter);
    if all.len() > 0 {
        let front = all.drop_last();
        lemma_filter_keeps_all(front, keep);
    }
}

/// A filter that no member passes keeps nothing.
pub proof fn lemma_filter_keeps_none<A>(all: Seq<A>, keep: spec_fn(A) -> bool)
    requires
        forall|i: int| 0 <= i < all.len() ==> !keep(all[i]),
    ensures
        all.filter(keep) =~= Seq::<A>::empty(),
    decreases all.len(),
{
    reveal(Seq::filter);
    if all.len() > 0 {
        let front = all.drop_last();
        lemma_filter_keeps_none(front, keep);
    }
}

/// Where passing `strict` implies passing `loose`, what `strict` keeps is
/// what it keeps of what `loose` keeps.
pub proof fn lemma_filter_refines<A>(
    all: Seq<A>,
    strict: spec_fn(A) -> bool,
    loose: spec_fn(A) -> bool,
)
    requires
        forall|i: int| 0 <= i < all.len() && strict(all[i]) ==> loose(all[i]),
    ensures
        all.filter(strict) =~= all.filter(loose).filter(strict),
    decreases all.len(),
{
    reveal(Seq::filter);
    if all.len() > 0 {
        let front = all.drop_last();
        let last = seq![all.last()];
        lemma_filter_refines(front, strict, loose);
        if loose(all.last()) {
            Seq::filter_distributes_over_add(front.filter(loose), last, strict);
            assert(front.filter(loose).push(all.last()) =~= front.filter(loose) + last);
            assert(last.filter(strict) =~= if strict(all.last()) {
                last
            } else {
                Seq::empty()
            }) by {
                reveal_with_fuel(Seq::filter, 2);
            }
        }
    }
}

} // verus!
