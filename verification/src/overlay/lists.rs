//! What the lists hold that the overlay makes of a selection.

use vstd::prelude::*;

use crate::bridge::{CandidateView, ProbeView};
use crate::config::name_matches;
use crate::overlay::soundness::lemma_queued_all;
use crate::overlay::state::{
    first_of_each_id, found_candidates, has_id, ordinary, queued_all, shortcuts, sources, wanted,
    with_programs, ProbeTargetView,
};
use crate::paths::{is_shortcut, lists_path, same_path};
use crate::picking::{is_pick, lemma_pick_grows, lemma_picks_come_from_places};

verus! {

/// The items that are looked at are those whose names match, and no others, in
/// the order of the selection.
pub proof fn law_wanted_items_match(targets: Seq<Seq<char>>, patterns: Seq<Seq<char>>)
    ensures
        is_pick(
            wanted(targets, patterns),
            targets.len(),
            |k: int| name_matches(targets[k], patterns),
            |k: int| targets[k],
        ),
    decreases targets.len(),
{
    if targets.len() > 0 {
        let front = targets.drop_last();
        law_wanted_items_match(front, patterns);
        lemma_pick_grows(
            wanted(front, patterns),
            |k: int| name_matches(front[k], patterns),
            |k: int| front[k],
            wanted(targets, patterns),
            targets.len(),
            |k: int| name_matches(targets[k], patterns),
            |k: int| targets[k],
        );
    }
}

/// The ordinary items are those behind which no candidate was found, and no
/// others, in the order of the selection.
pub proof fn law_ordinary_items_have_no_candidate(
    targets: Seq<Seq<char>>,
    candidates: Seq<CandidateView>,
)
    ensures
        is_pick(
            ordinary(targets, candidates),
            targets.len(),
            |k: int|
                forall|c: int|
                    0 <= c < candidates.len() ==> !same_path(
                        (#[trigger] candidates[c]).source,
                        targets[k],
                    ),
            |k: int| targets[k],
        ),
    decreases targets.len(),
{
    if targets.len() > 0 {
        let front = targets.drop_last();
        let owned = sources(candidates);
        law_ordinary_items_have_no_candidate(front, candidates);
        if lists_path(owned, targets.last()) {
            let c = choose|c: int|
                0 <= c < owned.len() && same_path(#[trigger] owned[c], targets.last());
            assert(same_path(candidates[c].source, targets.last()));
        } else {
            assert forall|c: int| 0 <= c < candidates.len() implies !same_path(
                (#[trigger] candidates[c]).source,
                targets.last(),
            ) by {
                assert(!same_path(owned[c], targets.last()));
            }
        }
        lemma_pick_grows(
            ordinary(front, candidates),
            |k: int|
                forall|c: int|
                    0 <= c < candidates.len() ==> !same_path(
                        (#[trigger] candidates[c]).source,
                        front[k],
                    ),
            |k: int| front[k],
            ordinary(targets, candidates),
            targets.len(),
            |k: int|
                forall|c: int|
                    0 <= c < candidates.len() ==> !same_path(
                        (#[trigger] candidates[c]).source,
                        targets[k],
                    ),
            |k: int| targets[k],
        );
    }
}

/// The shortcuts among paths are picked, and no others, in their order.
pub proof fn law_shortcuts_are_picked(paths: Seq<Seq<char>>)
    ensures
        is_pick(
            shortcuts(paths),
            paths.len(),
            |k: int| is_shortcut(paths[k]),
            |k: int| paths[k],
        ),
    decreases paths.len(),
{
    if paths.len() > 0 {
        let front = paths.drop_last();
        law_shortcuts_are_picked(front);
        lemma_pick_grows(
            shortcuts(front),
            |k: int| is_shortcut(front[k]),
            |k: int| front[k],
            shortcuts(paths),
            paths.len(),
            |k: int| is_shortcut(paths[k]),
            |k: int| paths[k],
        );
    }
}

/// The bridge is asked about exactly the items behind which a program was found,
/// in their order, each with the program that was found behind it and behind no
/// other.
pub proof fn law_programs_stay_with_their_items(
    items: Seq<Seq<char>>,
    programs: Seq<Option<Seq<char>>>,
    count: nat,
)
    ensures
        is_pick(
            with_programs(items, programs, count),
            count,
            |k: int| programs[k] is Some,
            |k: int| ProbeTargetView { source: items[k], executable: programs[k]->0 },
        ),
    decreases count,
{
    if count > 0 {
        law_programs_stay_with_their_items(items, programs, (count - 1) as nat);
        lemma_pick_grows(
            with_programs(items, programs, (count - 1) as nat),
            |k: int| programs[k] is Some,
            |k: int| ProbeTargetView { source: items[k], executable: programs[k]->0 },
            with_programs(items, programs, count),
            count,
            |k: int| programs[k] is Some,
            |k: int| ProbeTargetView { source: items[k], executable: programs[k]->0 },
        );
    }
}

/// The candidates are exactly the answers that name one, in their order, and each
/// belongs to the very item that the bridge was asked about: its source is that
/// item's, and what it says of the program is what the answer said.
pub proof fn law_answers_stay_with_their_items(
    asked: Seq<ProbeTargetView>,
    answers: Seq<ProbeView>,
    count: nat,
)
    ensures
        is_pick(
            found_candidates(asked, answers, count),
            count,
            |k: int| answers[k] is Candidate,
            |k: int|
                CandidateView {
                    source: asked[k].source,
                    executable: answers[k]->Candidate_0.executable,
                    id: answers[k]->Candidate_0.id,
                    display_name: answers[k]->Candidate_0.display_name,
                },
        ),
    decreases count,
{
    if count > 0 {
        let keep = |k: int| answers[k] is Candidate;
        let item = |k: int|
            CandidateView {
                source: asked[k].source,
                executable: answers[k]->Candidate_0.executable,
                id: answers[k]->Candidate_0.id,
                display_name: answers[k]->Candidate_0.display_name,
            };
        let before = found_candidates(asked, answers, (count - 1) as nat);
        law_answers_stay_with_their_items(asked, answers, (count - 1) as nat);
        assert(found_candidates(asked, answers, count) =~= (if keep(count - 1) {
            before.push(item(count - 1))
        } else {
            before
        }));
        lemma_pick_grows(
            before,
            keep,
            item,
            found_candidates(asked, answers, count),
            count,
            keep,
            item,
        );
    }
}

/// Whether some answer on an item of the path `source` names the program of
/// `candidate`.
pub open spec fn is_answered_for(
    asked: Seq<ProbeTargetView>,
    answers: Seq<ProbeView>,
    count: nat,
    candidate: CandidateView,
) -> bool {
    exists|k: int|
        0 <= k < count && (#[trigger] asked[k]).source == candidate.source && (answers[k] matches
            ProbeView::Candidate(named) && named.id == candidate.id && named.executable
            == candidate.executable && named.display_name == candidate.display_name)
}

/// No item is offered for a program that the bridge did not name for it: where
/// the answer on an item is no candidate, none has that item as its source,
/// unless the bridge was asked about the item once more and named one.
pub proof fn law_no_item_gets_the_answer_of_another(
    asked: Seq<ProbeTargetView>,
    answers: Seq<ProbeView>,
    count: nat,
    i: int,
)
    requires
        0 <= i < found_candidates(asked, answers, count).len(),
    ensures
        is_answered_for(asked, answers, count, found_candidates(asked, answers, count)[i]),
{
    let keep = |k: int| answers[k] is Candidate;
    let item = |k: int|
        CandidateView {
            source: asked[k].source,
            executable: answers[k]->Candidate_0.executable,
            id: answers[k]->Candidate_0.id,
            display_name: answers[k]->Candidate_0.display_name,
        };
    law_answers_stay_with_their_items(asked, answers, count);
    let out = found_candidates(asked, answers, count);
    let k = lemma_picks_come_from_places(out, count, keep, item, i);
    assert(asked[k].source == out[i].source);
}

/// Whether the path at `k` is neither in `list` nor earlier among `paths`.
pub open spec fn is_new_at(list: Seq<Seq<char>>, paths: Seq<Seq<char>>, k: int) -> bool {
    &&& forall|i: int| 0 <= i < list.len() ==> !same_path(#[trigger] list[i], paths[k])
    &&& forall|i: int| 0 <= i < k ==> !same_path(#[trigger] paths[i], paths[k])
}

/// Queueing paths leaves what is queued where it is, and adds behind it every
/// path that is new, once, in their order.
pub proof fn law_queue_grows_at_its_end(list: Seq<Seq<char>>, paths: Seq<Seq<char>>)
    ensures
        list.is_prefix_of(queued_all(list, paths)),
        is_pick(
            queued_all(list, paths).skip(list.len() as int),
            paths.len(),
            |k: int| is_new_at(list, paths, k),
            |k: int| paths[k],
        ),
    decreases paths.len(),
{
    let out = queued_all(list, paths);
    if paths.len() > 0 {
        let front = paths.drop_last();
        let last = paths.last();
        let n = paths.len() - 1;
        let before = queued_all(list, front);
        law_queue_grows_at_its_end(list, front);
        lemma_queued_all(list, front);
        assert(lists_path(before, last) <==> lists_path(list, last) || lists_path(front, last));
        if is_new_at(list, paths, n) {
            if lists_path(front, last) {
                let i = choose|i: int| 0 <= i < front.len() && same_path(#[trigger] front[i], last);
                assert(same_path(paths[i], paths[n]));
            }
        } else {
            if exists|i: int| 0 <= i < n && same_path(#[trigger] paths[i], paths[n]) {
                let i = choose|i: int| 0 <= i < n && same_path(#[trigger] paths[i], paths[n]);
                assert(same_path(front[i], last));
            }
        }
        assert(lists_path(before, last) == !is_new_at(list, paths, n));
        assert forall|k: int| 0 <= k < n implies is_new_at(list, paths, k) == is_new_at(
            list,
            front,
            k,
        ) by {
            assert(front[k] == paths[k]);
            assert(forall|i: int| 0 <= i < k ==> front[i] == paths[i]);
        }
        let start = list.len() as int;
        assert(out.skip(start) =~= (if is_new_at(list, paths, n) {
            before.skip(start).push(last)
        } else {
            before.skip(start)
        }));
        lemma_pick_grows(
            before.skip(start),
            |k: int| is_new_at(list, front, k),
            |k: int| front[k],
            out.skip(start),
            paths.len(),
            |k: int| is_new_at(list, paths, k),
            |k: int| paths[k],
        );
    } else {
        assert(out.skip(list.len() as int) =~= Seq::<Seq<char>>::empty());
    }
}

/// Of the candidates those are kept that no earlier one shares its identifier
/// with, whole and in their order.
pub proof fn law_first_of_each_id_is_kept(candidates: Seq<CandidateView>)
    ensures
        is_pick(
            first_of_each_id(candidates),
            candidates.len(),
            |k: int| forall|j: int| 0 <= j < k ==> (#[trigger] candidates[j]).id != candidates[k].id,
            |k: int| candidates[k],
        ),
        forall|id: Seq<char>| #[trigger]
            has_id(first_of_each_id(candidates), id) == has_id(candidates, id),
    decreases candidates.len(),
{
    let out = first_of_each_id(candidates);
    if candidates.len() > 0 {
        let n = candidates.len() - 1;
        let front = candidates.drop_last();
        let last = candidates.last();
        let before = first_of_each_id(front);
        law_first_of_each_id_is_kept(front);
        assert(has_id(before, last.id) == has_id(front, last.id));
        let keep = |k: int|
            forall|j: int| 0 <= j < k ==> (#[trigger] candidates[j]).id != candidates[k].id;
        let old_keep = |k: int|
            forall|j: int| 0 <= j < k ==> (#[trigger] front[j]).id != front[k].id;
        if has_id(front, last.id) {
            let j = choose|j: int| 0 <= j < front.len() && (#[trigger] front[j]).id == last.id;
            assert(candidates[j].id == candidates[n].id);
            assert(!keep(n));
        } else {
            assert forall|j: int| 0 <= j < n implies (#[trigger] candidates[j]).id
                != candidates[n].id by {
                assert(front[j] == candidates[j]);
            }
            assert(keep(n));
        }
        assert forall|k: int| 0 <= k < n implies #[trigger] keep(k) == old_keep(k) by {
            assert(front[k] == candidates[k]);
            assert(forall|i: int| 0 <= i < k ==> front[i] == candidates[i]);
            if old_keep(k) {
                assert forall|j: int| 0 <= j < k implies (#[trigger] candidates[j]).id
                    != candidates[k].id by {
                    assert(front[j].id != front[k].id);
                }
            }
            if keep(k) {
                assert forall|j: int| 0 <= j < k implies (#[trigger] front[j]).id
                    != front[k].id by {
                    assert(candidates[j].id != candidates[k].id);
                }
            }
        }
        lemma_pick_grows(
            before,
            old_keep,
            |k: int| front[k],
            out,
            candidates.len(),
            keep,
            |k: int| candidates[k],
        );
        assert forall|id: Seq<char>| #[trigger] has_id(out, id) == has_id(candidates, id) by {
            assert(has_id(before, id) == has_id(front, id));
            if has_id(front, id) {
                let j = choose|j: int| 0 <= j < front.len() && (#[trigger] front[j]).id == id;
                assert(candidates[j].id == id);
                let i = choose|i: int| 0 <= i < before.len() && (#[trigger] before[i]).id == id;
                assert(out[i].id == id);
            }
            if last.id == id {
                assert(candidates[n].id == id);
                if !has_id(before, id) {
                    assert(out[out.len() - 1].id == id);
                }
            }
            if has_id(candidates, id) && !has_id(front, id) {
                let j = choose|j: int|
                    0 <= j < candidates.len() && (#[trigger] candidates[j]).id == id;
                if j < n {
                    assert(front[j].id == id);
                }
            }
            if has_id(out, id) && !has_id(before, id) {
                let i = choose|i: int| 0 <= i < out.len() && (#[trigger] out[i]).id == id;
                if i < before.len() {
                    assert(before[i].id == id);
                }
            }
        }
    } else {
        assert(out =~= candidates);
    }
}

} // verus!
