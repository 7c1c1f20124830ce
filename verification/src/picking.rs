//! What it means to pick some of a row of things and to keep their order.

use vstd::prelude::*;

verus! {

/// How many of the first `count` places are picked.
pub open spec fn picked_before(keep: spec_fn(int) -> bool, count: nat) -> nat
    decreases count,
{
    if count == 0 {
        0
    } else {
        picked_before(keep, (count - 1) as nat) + if keep(count - 1) {
            1nat
        } else {
            0nat
        }
    }
}

/// Whether `out` holds the items of those of the first `count` places that are
/// picked, and no others: each place that is picked has its item as far down as
/// there are picked places before it.
pub open spec fn is_pick<A>(
    out: Seq<A>,
    count: nat,
    keep: spec_fn(int) -> bool,
    item: spec_fn(int) -> A,
) -> bool {
    &&& out.len() == picked_before(keep, count)
    &&& forall|k: int|
        0 <= k < count && #[trigger] keep(k) ==> out[picked_before(keep, k as nat) as int] == item(k)
}

pub proof fn lemma_picked_before(keep: spec_fn(int) -> bool, k: nat, count: nat)
    requires
        k < count,
    ensures
        picked_before(keep, k) <= picked_before(keep, count) <= count,
        keep(k as int) ==> picked_before(keep, k) < picked_before(keep, count),
    decreases count,
{
    if k + 1 < count {
        lemma_picked_before(keep, k, (count - 1) as nat);
    }
    lemma_picks_are_few(keep, count);
}

proof fn lemma_picks_are_few(keep: spec_fn(int) -> bool, count: nat)
    ensures
        picked_before(keep, count) <= count,
    decreases count,
{
    if count > 0 {
        lemma_picks_are_few(keep, (count - 1) as nat);
    }
}

proof fn lemma_same_picks(keep: spec_fn(int) -> bool, other: spec_fn(int) -> bool, count: nat)
    requires
        forall|k: int| 0 <= k < count ==> #[trigger] keep(k) == other(k),
    ensures
        picked_before(keep, count) == picked_before(other, count),
    decreases count,
{
    if count > 0 {
        lemma_same_picks(keep, other, (count - 1) as nat);
        assert(keep(count - 1) == other(count - 1));
    }
}

/// A pick that is continued by one more place.
pub proof fn lemma_pick_grows<A>(
    before: Seq<A>,
    old_keep: spec_fn(int) -> bool,
    old_item: spec_fn(int) -> A,
    out: Seq<A>,
    count: nat,
    keep: spec_fn(int) -> bool,
    item: spec_fn(int) -> A,
)
    requires
        count > 0,
        is_pick(before, (count - 1) as nat, old_keep, old_item),
        forall|k: int| 0 <= k < count - 1 ==> #[trigger] keep(k) == old_keep(k) && item(k) == old_item(k),
        out == (if keep(count - 1) {
            before.push(item(count - 1))
        } else {
            before
        }),
    ensures
        is_pick(out, count, keep, item),
{
    lemma_same_picks(keep, old_keep, (count - 1) as nat);
    assert forall|k: int| 0 <= k < count && #[trigger] keep(k) implies out[picked_before(
        keep,
        k as nat,
    ) as int] == item(k) by {
        if k < count - 1 {
            lemma_same_picks(keep, old_keep, k as nat);
            assert(old_keep(k));
            lemma_picked_before(old_keep, k as nat, (count - 1) as nat);
        }
    }
}

/// Every picked item comes from a place, and of two of them the earlier one from
/// the earlier place.
pub proof fn lemma_picks_come_from_places<A>(
    out: Seq<A>,
    count: nat,
    keep: spec_fn(int) -> bool,
    item: spec_fn(int) -> A,
    i: int,
) -> (k: int)
    requires
        is_pick(out, count, keep, item),
        0 <= i < out.len(),
    ensures
        0 <= k < count,
        keep(k),
        picked_before(keep, k as nat) == i,
        out[i] == item(k),
    decreases count,
{
    let last = count - 1;
    if keep(last) && picked_before(keep, last as nat) == i {
        last
    } else {
        let front = out.take(picked_before(keep, last as nat) as int);
        lemma_picked_before(keep, last as nat, count);
        assert forall|k: int| 0 <= k < last && #[trigger] keep(k) implies front[picked_before(
            keep,
            k as nat,
        ) as int] == item(k) by {
            lemma_picked_before(keep, k as nat, last as nat);
        }
        lemma_picks_come_from_places(front, last as nat, keep, item, i)
    }
}

} // verus!
