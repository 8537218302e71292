//! Sums of multisets.

use vstd::multiset::Multiset;
use vstd::prelude::*;

verus! {

/// What all of these parts come to together, each of which comes to `share` of it.
pub open spec fn total<A, B>(parts: Seq<A>, share: spec_fn(A) -> Multiset<B>) -> Multiset<B>
    decreases parts.len(),
{
    if parts.len() == 0 {
        Multiset::empty()
    } else {
        total(parts.drop_last(), share).add(share(parts.last()))
    }
}

/// One more part.
pub(crate) proof fn lemma_total_push<A, B>(parts: Seq<A>, part: A, share: spec_fn(A) -> Multiset<B>)
    ensures
        total(parts.push(part), share) == total(parts, share).add(share(part)),
{
    assert(parts.push(part).drop_last() =~= parts);
}

/// Parts behind each other.
pub(crate) proof fn lemma_total_add<A, B>(
    one: Seq<A>,
    other: Seq<A>,
    share: spec_fn(A) -> Multiset<B>,
)
    ensures
        total(one + other, share) == total(one, share).add(total(other, share)),
    decreases other.len(),
{
    if other.len() == 0 {
        assert(one + other =~= one);
        assert(total(one, share).add(Multiset::empty()) =~= total(one, share));
    } else {
        lemma_total_add(one, other.drop_last(), share);
        assert((one + other).drop_last() =~= one + other.drop_last());
        assert(total(one + other, share) =~= total(one, share).add(total(other, share)));
    }
}

/// One of the parts, and the others.
pub(crate) proof fn lemma_total_remove<A, B>(
    parts: Seq<A>,
    k: int,
    share: spec_fn(A) -> Multiset<B>,
)
    requires
        0 <= k < parts.len(),
    ensures
        total(parts, share) == total(parts.remove(k), share).add(share(parts[k])),
    decreases parts.len(),
{
    let before = parts.drop_last();
    if k == parts.len() - 1 {
        assert(parts.remove(k) =~= before);
    } else {
        lemma_total_remove(before, k, share);
        assert(before[k] == parts[k]);
        assert(parts.remove(k).drop_last() =~= before.remove(k));
        assert(parts.remove(k).last() == parts.last());
        assert(total(parts, share) =~= total(parts.remove(k), share).add(share(parts[k])));
    }
}

/// Another part in the place of one.
pub(crate) proof fn lemma_total_update<A, B>(
    parts: Seq<A>,
    k: int,
    part: A,
    more: Multiset<B>,
    share: spec_fn(A) -> Multiset<B>,
)
    requires
        0 <= k < parts.len(),
        share(part) == share(parts[k]).add(more),
    ensures
        total(parts.update(k, part), share) == total(parts, share).add(more),
{
    lemma_total_remove(parts, k, share);
    lemma_total_remove(parts.update(k, part), k, share);
    assert(parts.update(k, part).remove(k) =~= parts.remove(k));
    assert(total(parts.update(k, part), share) =~= total(parts, share).add(more));
}

/// The order of the parts does not matter.
pub(crate) proof fn lemma_total_has_no_order<A, B>(
    one: Seq<A>,
    other: Seq<A>,
    share: spec_fn(A) -> Multiset<B>,
)
    requires
        one.to_multiset() == other.to_multiset(),
    ensures
        total(one, share) == total(other, share),
    decreases other.len(),
{
    broadcast use vstd::seq_lib::group_to_multiset_ensures;

    assert(one.len() == one.to_multiset().len());
    assert(other.len() == other.to_multiset().len());
    if other.len() > 0 {
        let part = other.last();
        assert(other.contains(part));
        assert(other.to_multiset().count(part) > 0);
        assert(one.contains(part));
        let k = choose|k: int| 0 <= k < one.len() && one[k] == part;
        assert(one.remove(k).to_multiset() =~= one.to_multiset().remove(part));
        assert(other.drop_last() =~= other.remove(other.len() - 1));
        assert(other.drop_last().to_multiset() =~= other.to_multiset().remove(part));
        lemma_total_remove(one, k, share);
        lemma_total_has_no_order(one.remove(k), other.drop_last(), share);
    }
}

/// If every part comes to the sum of two shares, all of them do.
pub(crate) proof fn lemma_total_splits<A, B>(
    parts: Seq<A>,
    share: spec_fn(A) -> Multiset<B>,
    one: spec_fn(A) -> Multiset<B>,
    other: spec_fn(A) -> Multiset<B>,
)
    requires
        forall|k: int|
            0 <= k < parts.len() ==> share(#[trigger] parts[k]) == one(parts[k]).add(
                other(parts[k]),
            ),
    ensures
        total(parts, share) == total(parts, one).add(total(parts, other)),
    decreases parts.len(),
{
    if parts.len() == 0 {
        assert(total(parts, share) =~= total(parts, one).add(total(parts, other)));
    } else {
        let before = parts.drop_last();
        assert forall|k: int| 0 <= k < before.len() implies share(#[trigger] before[k]) == one(
            before[k],
        ).add(other(before[k])) by {
            assert(before[k] == parts[k]);
        }
        lemma_total_splits(before, share, one, other);
        assert(parts[parts.len() - 1] == parts.last());
        assert(total(parts, share) =~= total(parts, one).add(total(parts, other)));
    }
}

/// If every part comes to no less than the sum of two shares, all of them do.
pub(crate) proof fn lemma_total_covers<A, B>(
    parts: Seq<A>,
    share: spec_fn(A) -> Multiset<B>,
    one: spec_fn(A) -> Multiset<B>,
    other: spec_fn(A) -> Multiset<B>,
)
    requires
        forall|k: int|
            0 <= k < parts.len() ==> one(#[trigger] parts[k]).add(other(parts[k])).subset_of(
                share(parts[k]),
            ),
    ensures
        total(parts, one).add(total(parts, other)).subset_of(total(parts, share)),
    decreases parts.len(),
{
    if parts.len() > 0 {
        let before = parts.drop_last();
        assert forall|k: int| 0 <= k < before.len() implies one(#[trigger] before[k]).add(
            other(before[k]),
        ).subset_of(share(before[k])) by {
            assert(before[k] == parts[k]);
        }
        lemma_total_covers(before, share, one, other);
        let last = parts[parts.len() - 1];
        assert(last == parts.last());
        assert(one(last).add(other(last)).subset_of(share(last)));
        lemma_subsets_add(
            total(before, one).add(total(before, other)),
            one(last).add(other(last)),
            total(before, share),
            share(last),
        );
        assert(total(parts, one).add(total(parts, other)) =~= total(before, one).add(
            total(before, other),
        ).add(one(last).add(other(last))));
    }
}

/// Parts that are among others come to no more.
pub(crate) proof fn lemma_total_of_fewer<A, B>(
    one: Seq<A>,
    other: Seq<A>,
    share: spec_fn(A) -> Multiset<B>,
)
    requires
        one.to_multiset().subset_of(other.to_multiset()),
    ensures
        total(one, share).subset_of(total(other, share)),
    decreases one.len(),
{
    broadcast use vstd::seq_lib::group_to_multiset_ensures;

    if one.len() > 0 {
        let part = one.last();
        assert(one.contains(part));
        assert(one.to_multiset().count(part) > 0);
        assert(other.to_multiset().count(part) > 0);
        assert(other.contains(part));
        let k = choose|k: int| 0 <= k < other.len() && other[k] == part;
        let rest = other.remove(k);
        assert(rest.to_multiset() =~= other.to_multiset().remove(part));
        assert(one.drop_last() =~= one.remove(one.len() - 1));
        assert(one.drop_last().to_multiset() =~= one.to_multiset().remove(part));
        assert(one.drop_last().to_multiset().subset_of(rest.to_multiset())) by {
            assert forall|v: A| #[trigger]
                one.drop_last().to_multiset().count(v) <= rest.to_multiset().count(v) by {
                assert(one.to_multiset().count(v) <= other.to_multiset().count(v));
            }
        }
        lemma_total_of_fewer(one.drop_last(), rest, share);
        lemma_total_remove(other, k, share);
        lemma_subsets_add(
            total(one.drop_last(), share),
            share(part),
            total(rest, share),
            share(part),
        );
    }
}

/// Two multisets that others contain, together.
pub(crate) proof fn lemma_subsets_add<B>(
    one: Multiset<B>,
    other: Multiset<B>,
    around_one: Multiset<B>,
    around_other: Multiset<B>,
)
    requires
        one.subset_of(around_one),
        other.subset_of(around_other),
    ensures
        one.add(other).subset_of(around_one.add(around_other)),
{
    assert forall|v: B| #[trigger] one.add(other).count(v) <= around_one.add(around_other).count(
        v,
    ) by {
        assert(one.count(v) <= around_one.count(v));
        assert(other.count(v) <= around_other.count(v));
    }
}

} // verus!
