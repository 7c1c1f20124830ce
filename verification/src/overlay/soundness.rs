//! What holds in every state of the overlay.

use vstd::prelude::*;

use crate::bridge::{CandidateView, ProbeView};
use crate::config::ConfigView;
use crate::overlay::state::{
    explosion_count, first_of_each_id, found_candidates, has_id, ordinary, patterns_for, queued,
    queued_all, shorter, shortcuts, sources, wanted, with_programs, AfterKick, Buttons, NewsView,
    OutcomeView, OverlayView, Owed, Phase, ProbeTargetView,
};
use crate::paths::{is_shortcut, lists_path, same_path};

verus! {

/// Whether no two paths of the list are the same path.
pub open spec fn distinct_paths(list: Seq<Seq<char>>) -> bool {
    forall|i: int, j: int|
        0 <= i < j < list.len() ==> !same_path(#[trigger] list[i], #[trigger] list[j])
}

/// Whether every text of `part` is one of `whole`.
pub open spec fn all_among(part: Seq<Seq<char>>, whole: Seq<Seq<char>>) -> bool {
    forall|i: int| 0 <= i < part.len() ==> whole.contains(#[trigger] part[i])
}

/// Whether no path of one list is in the other.
pub open spec fn apart(a: Seq<Seq<char>>, b: Seq<Seq<char>>) -> bool {
    forall|i: int, j: int|
        0 <= i < a.len() && 0 <= j < b.len() ==> !same_path(#[trigger] a[i], #[trigger] b[j])
}

/// Whether `candidate` is among the candidates and none before it has its
/// identifier.
pub open spec fn is_first_of_id(
    candidates: Seq<CandidateView>,
    candidate: CandidateView,
) -> bool {
    exists|k: int|
        0 <= k < candidates.len() && #[trigger] candidates[k] == candidate && forall|j: int|
            0 <= j < k ==> (#[trigger] candidates[j]).id != candidate.id
}

impl OverlayView {
    /// Whether the user has said what shall happen to every item that is no
    /// candidate's.
    pub open spec fn is_settled(self) -> bool {
        match self.phase {
            Phase::SelectUninstallTarget
            | Phase::UninstallAsk
            | Phase::Kick
            | Phase::Leo
            | Phase::Fly
            | Phase::Elevate
            | Phase::Error => true,
            Phase::Point => self.markers.len() > 0,
            _ => self.owed == Owed::Launch,
        }
    }

    /// Whether there are candidates that are still to be asked about.
    pub open spec fn is_asking(self) -> bool {
        match self.phase {
            Phase::SelectUninstallTarget => true,
            Phase::UninstallAsk => self.owed == Owed::Nothing,
            Phase::Point => self.markers.len() > 0,
            Phase::Kick | Phase::Leo => self.after_kick != AfterKick::FlyAway,
            _ => false,
        }
    }

    /// Whether the program of the candidate at `i` is confirmed, or the candidate
    /// is not decided on yet.
    pub open spec fn is_kept(self, i: int) -> bool {
        self.current <= i || has_id(self.confirmed, self.candidates[i].id)
    }

    /// Whether the candidate at `i` is one for the item `target`, and is
    /// confirmed or not decided on yet.
    pub open spec fn keeps(self, i: int, target: Seq<char>) -> bool {
        &&& 0 <= i < self.candidates.len()
        &&& same_path(self.candidates[i].source, target)
        &&& self.is_kept(i)
    }

    /// Whether the item was recycled, is queued for it, or is left to an
    /// uninstaller that is confirmed or not decided on yet.
    pub open spec fn accounts_for(self, target: Seq<char>) -> bool {
        ||| lists_path(self.recycled, target)
        ||| lists_path(self.delete_targets, target)
        ||| exists|i: int| #[trigger] self.keeps(i, target)
    }

    /// Whether no candidate is left undecided.
    pub open spec fn all_decided(self) -> bool {
        forall|i: int|
            self.current <= i < self.candidates.len() ==> has_id(
                self.confirmed,
                (#[trigger] self.candidates[i]).id,
            )
    }

    /// Whether nothing was found, queued or recycled yet.
    pub open spec fn is_fresh(self) -> bool {
        &&& self.delete_targets.len() == 0
        &&& self.recycled.len() == 0
        &&& self.candidates.len() == 0
        &&& self.confirmed.len() == 0
        &&& self.current == 0
        &&& self.markers.len() == 0
    }

    /// What holds in every state.
    pub open spec fn holds_always(self) -> bool {
        &&& 0 < self.width
        &&& 0 < self.height
        &&& self.targets.len() > 0
        &&& all_among(self.delete_targets, self.targets)
        &&& all_among(self.recycled, self.targets)
        &&& distinct_paths(self.delete_targets)
        &&& distinct_paths(self.recycled)
        &&& apart(self.recycled, self.delete_targets)
        &&& all_among(sources(self.candidates), self.targets)
        &&& forall|i: int|
            0 <= i < self.confirmed.len() ==> self.candidates.contains(
                #[trigger] self.confirmed[i],
            )
        &&& self.current <= self.candidates.len()
        &&& all_among(self.probe_sources, self.targets)
        &&& forall|i: int|
            0 <= i < self.probe.len() ==> self.targets.contains(
                (#[trigger] self.probe[i]).source,
            )
    }

    /// What holds of the answer that is waited for.
    pub open spec fn owed_fits(self) -> bool {
        match self.owed {
            Owed::Nothing => true,
            Owed::Settings | Owed::Programs => self.phase == Phase::Ask,
            Owed::Recycling => {
                &&& self.phase == Phase::Kick
                &&& self.deletion_started
                &&& self.explosion_started is Some
                &&& self.explosion_positions.len() == explosion_count(
                    self.markers.len(),
                    self.delete_targets.len(),
                )
            },
            Owed::Launch => self.all_decided() && (self.phase == Phase::UninstallAsk || self.phase
                == Phase::UninstallModeAsk),
            Owed::Elevation => self.phase == Phase::Elevate,
        }
    }

    /// What holds in a phase.
    pub open spec fn phase_fits(self) -> bool {
        match self.phase {
            Phase::Select
            | Phase::FadeOut
            | Phase::Walk
            | Phase::Ask
            | Phase::DetectUninstall
            | Phase::UninstallUnavailable => self.is_fresh(),
            Phase::Point => self.markers.len() > 0 || self.is_fresh(),
            Phase::UninstallModeAsk => self.owed == Owed::Launch || {
                &&& self.delete_targets.len() == 0
                &&& self.recycled.len() == 0
                &&& self.confirmed.len() == 0
                &&& self.markers.len() == 0
                &&& self.current == 0
                &&& self.candidates.len() > 1
            },
            Phase::Kick => self.deletion_started && self.owed == Owed::Nothing
                <==> self.delete_targets.len() == 0,
            Phase::Leo => self.delete_targets.len() == 0,
            Phase::Fly => self.delete_targets.len() == 0 && self.all_decided(),
            _ => true,
        }
    }

    /// A state that the overlay can be in.
    pub open spec fn wf(self) -> bool {
        &&& self.holds_always()
        &&& self.owed_fits()
        &&& self.phase_fits()
        &&& self.is_settled() ==> forall|t: int|
            0 <= t < self.targets.len() ==> self.accounts_for(#[trigger] self.targets[t])
        &&& self.is_asking() ==> {
            &&& self.current < self.candidates.len()
            &&& apart(self.recycled, sources(self.candidates))
        }
        &&& (self.phase == Phase::Kick || self.phase == Phase::Leo) ==> {
            &&& self.after_kick == AfterKick::FlyAway ==> self.all_decided()
            &&& self.after_kick != AfterKick::FlyAway ==> apart(
                self.delete_targets,
                sources(self.candidates),
            )
        }
    }
}

pub proof fn lemma_queued(list: Seq<Seq<char>>, path: Seq<char>)
    ensures
        lists_path(queued(list, path), path),
        forall|other: Seq<char>| #[trigger]
            lists_path(queued(list, path), other) <==> lists_path(list, other) || same_path(
                path,
                other,
            ),
        distinct_paths(list) ==> distinct_paths(queued(list, path)),
        forall|whole: Seq<Seq<char>>|
            all_among(list, whole) && whole.contains(path) ==> #[trigger] all_among(
                queued(list, path),
                whole,
            ),
{
    let out = queued(list, path);
    if lists_path(list, path) {
        let i = choose|i: int| 0 <= i < list.len() && same_path(#[trigger] list[i], path);
        assert forall|other: Seq<char>| same_path(path, other) implies #[trigger] lists_path(
            list,
            other,
        ) by {
            assert(same_path(list[i], other));
        }
    } else {
        assert(out[out.len() - 1] == path);
        assert(lists_path(out, path));
        assert forall|other: Seq<char>| #[trigger]
            lists_path(out, other) <==> lists_path(list, other) || same_path(path, other) by {
            if lists_path(list, other) {
                let i = choose|i: int| 0 <= i < list.len() && same_path(#[trigger] list[i], other);
                assert(out[i] == list[i]);
            }
            if same_path(path, other) {
                assert(same_path(out[out.len() - 1], other));
            }
            if lists_path(out, other) {
                let i = choose|i: int| 0 <= i < out.len() && same_path(#[trigger] out[i], other);
                if i < list.len() {
                    assert(list[i] == out[i]);
                }
            }
        }
        if distinct_paths(list) {
            assert forall|i: int, j: int| 0 <= i < j < out.len() implies !same_path(
                #[trigger] out[i],
                #[trigger] out[j],
            ) by {
                assert(out[i] == list[i]);
                if j < list.len() {
                    assert(out[j] == list[j]);
                } else {
                    assert(!lists_path(list, path));
                }
            }
        }
        assert forall|whole: Seq<Seq<char>>|
            all_among(list, whole) && whole.contains(path) implies #[trigger] all_among(
            out,
            whole,
        ) by {
            assert forall|i: int| 0 <= i < out.len() implies whole.contains(#[trigger] out[i]) by {
                if i < list.len() {
                    assert(out[i] == list[i]);
                }
            }
        }
    }
}

pub proof fn lemma_queued_all(list: Seq<Seq<char>>, paths: Seq<Seq<char>>)
    ensures
        forall|other: Seq<char>| #[trigger]
            lists_path(queued_all(list, paths), other) <==> lists_path(list, other) || lists_path(
                paths,
                other,
            ),
        distinct_paths(list) ==> distinct_paths(queued_all(list, paths)),
        forall|whole: Seq<Seq<char>>|
            all_among(list, whole) && all_among(paths, whole) ==> #[trigger] all_among(
                queued_all(list, paths),
                whole,
            ),
    decreases paths.len(),
{
    if paths.len() > 0 {
        let front = paths.drop_last();
        let last = paths.last();
        lemma_queued_all(list, front);
        lemma_queued(queued_all(list, front), last);
        assert forall|other: Seq<char>| #[trigger]
            lists_path(paths, other) <==> lists_path(front, other) || same_path(last, other) by {
            if lists_path(front, other) {
                let i = choose|i: int|
                    0 <= i < front.len() && same_path(#[trigger] front[i], other);
                assert(paths[i] == front[i]);
            }
            if same_path(last, other) {
                assert(same_path(paths[paths.len() - 1], other));
            }
            if lists_path(paths, other) {
                let i = choose|i: int|
                    0 <= i < paths.len() && same_path(#[trigger] paths[i], other);
                if i < front.len() {
                    assert(front[i] == paths[i]);
                }
            }
        }
        assert forall|whole: Seq<Seq<char>>|
            all_among(list, whole) && all_among(paths, whole) implies #[trigger] all_among(
            queued_all(list, paths),
            whole,
        ) by {
            assert forall|i: int| 0 <= i < front.len() implies whole.contains(
                #[trigger] front[i],
            ) by {
                assert(front[i] == paths[i]);
            }
            assert(whole.contains(paths[paths.len() - 1]));
        }
    }
}

pub proof fn lemma_ordinary(targets: Seq<Seq<char>>, candidates: Seq<CandidateView>)
    ensures
        all_among(ordinary(targets, candidates), targets),
        apart(ordinary(targets, candidates), sources(candidates)),
        forall|t: int|
            0 <= t < targets.len() ==> lists_path(sources(candidates), #[trigger] targets[t])
                || lists_path(ordinary(targets, candidates), targets[t]),
    decreases targets.len(),
{
    let out = ordinary(targets, candidates);
    let owned = sources(candidates);
    if targets.len() > 0 {
        let front = targets.drop_last();
        let before = ordinary(front, candidates);
        lemma_ordinary(front, candidates);
        assert forall|i: int| 0 <= i < out.len() implies targets.contains(#[trigger] out[i]) by {
            if i < before.len() {
                assert(out[i] == before[i]);
                assert(front.contains(before[i]));
                let k = choose|k: int| 0 <= k < front.len() && front[k] == before[i];
                assert(targets[k] == out[i]);
            } else {
                assert(targets[targets.len() - 1] == out[i]);
            }
        }
        assert forall|i: int, j: int| 0 <= i < out.len() && 0 <= j < owned.len() implies !same_path(
            #[trigger] out[i],
            #[trigger] owned[j],
        ) by {
            if i < before.len() {
                assert(out[i] == before[i]);
            } else {
                assert(!lists_path(owned, targets.last()));
                assert(!same_path(owned[j], targets.last()));
            }
        }
        assert forall|t: int| 0 <= t < targets.len() implies lists_path(
            owned,
            #[trigger] targets[t],
        ) || lists_path(out, targets[t]) by {
            if t < front.len() {
                assert(front[t] == targets[t]);
                if !lists_path(owned, front[t]) {
                    let k = choose|k: int|
                        0 <= k < before.len() && same_path(#[trigger] before[k], front[t]);
                    assert(out[k] == before[k]);
                }
            } else if !lists_path(owned, targets[t]) {
                assert(out[out.len() - 1] == targets[t]);
            }
        }
    }
}

pub proof fn lemma_shortcuts(paths: Seq<Seq<char>>)
    ensures
        all_among(shortcuts(paths), paths),
    decreases paths.len(),
{
    let out = shortcuts(paths);
    if paths.len() > 0 {
        let front = paths.drop_last();
        let before = shortcuts(front);
        lemma_shortcuts(front);
        assert forall|i: int| 0 <= i < out.len() implies paths.contains(#[trigger] out[i]) by {
            if i < before.len() {
                assert(out[i] == before[i]);
                let k = choose|k: int| 0 <= k < front.len() && front[k] == before[i];
                assert(paths[k] == out[i]);
            } else {
                assert(paths[paths.len() - 1] == out[i]);
            }
        }
    }
}

pub proof fn lemma_queueing_all(s: OverlayView, paths: Seq<Seq<char>>)
    requires
        s.holds_always(),
        all_among(paths, s.targets),
        apart(s.recycled, paths),
    ensures
        s.queueing_all(paths).holds_always(),
        forall|other: Seq<char>| #[trigger]
            lists_path(s.queueing_all(paths).delete_targets, other) <==> lists_path(
                s.delete_targets,
                other,
            ) || lists_path(paths, other),
{
    let out = s.queueing_all(paths);
    lemma_queued_all(s.delete_targets, paths);
    assert forall|i: int, j: int|
        0 <= i < s.recycled.len() && 0 <= j < out.delete_targets.len() implies !same_path(
        #[trigger] s.recycled[i],
        #[trigger] out.delete_targets[j],
    ) by {
        let path = s.recycled[i];
        if same_path(path, out.delete_targets[j]) {
            assert(same_path(out.delete_targets[j], path));
            assert(lists_path(out.delete_targets, path));
            if lists_path(s.delete_targets, path) {
                let k = choose|k: int|
                    0 <= k < s.delete_targets.len() && same_path(
                        #[trigger] s.delete_targets[k],
                        path,
                    );
                assert(!same_path(s.recycled[i], s.delete_targets[k]));
            } else {
                let k = choose|k: int|
                    0 <= k < paths.len() && same_path(#[trigger] paths[k], path);
                assert(!same_path(s.recycled[i], paths[k]));
            }
        }
    }
}

/// Queueing one path is queueing a list of one.
pub proof fn lemma_queueing(s: OverlayView, path: Seq<char>)
    ensures
        s.queueing(path) == s.queueing_all(seq![path]),
{
    let one = seq![path];
    assert(one.drop_last() =~= Seq::<Seq<char>>::empty());
    assert(queued_all(s.delete_targets, one.drop_last()) == s.delete_targets);
}

pub proof fn lemma_recycling_everything(s: OverlayView, now: u64)
    requires
        s.holds_always(),
        s.owed == Owed::Nothing,
        s.recycled.len() == 0,
        s.candidates.len() == 0,
    ensures
        s.recycling_everything(now).wf(),
{
    let out = s.recycling_everything(now);
    assert forall|i: int| 0 <= i < s.targets.len() implies s.targets.contains(
        #[trigger] s.targets[i],
    ) by {}
    lemma_queueing_all(s, s.targets);
    assert forall|t: int| 0 <= t < out.targets.len() implies out.accounts_for(
        #[trigger] out.targets[t],
    ) && out.delete_targets.len() > 0 by {
        assert(same_path(s.targets[t], s.targets[t]));
        assert(lists_path(s.targets, s.targets[t]));
        assert(lists_path(out.delete_targets, s.targets[t]));
    }
    assert(out.accounts_for(out.targets[0]) && out.delete_targets.len() > 0);
}

pub proof fn lemma_queueing_ordinary(s: OverlayView)
    requires
        s.holds_always(),
        s.delete_targets.len() == 0,
        s.recycled.len() == 0,
    ensures
        ({
            let out = s.queueing_ordinary();
            &&& out.holds_always()
            &&& apart(out.delete_targets, sources(s.candidates))
            &&& forall|t: int|
                0 <= t < s.targets.len() ==> lists_path(
                    sources(s.candidates),
                    #[trigger] s.targets[t],
                ) || lists_path(out.delete_targets, s.targets[t])
        }),
{
    let out = s.queueing_ordinary();
    let list = ordinary(s.targets, s.candidates);
    let owned = sources(s.candidates);
    lemma_ordinary(s.targets, s.candidates);
    lemma_queueing_all(s, list);
    assert forall|i: int, j: int|
        0 <= i < out.delete_targets.len() && 0 <= j < owned.len() implies !same_path(
        #[trigger] out.delete_targets[i],
        #[trigger] owned[j],
    ) by {
        if same_path(out.delete_targets[i], owned[j]) {
            assert(lists_path(out.delete_targets, owned[j]));
            let k = choose|k: int|
                0 <= k < list.len() && same_path(#[trigger] list[k], owned[j]);
            assert(!same_path(list[k], owned[j]));
        }
    }
}

/// Where the ordinary items are queued and no candidate was decided on, every
/// item is accounted for.
pub proof fn lemma_ordinary_accounts(s: OverlayView)
    requires
        s.current == 0,
        forall|t: int|
            0 <= t < s.targets.len() ==> lists_path(
                sources(s.candidates),
                #[trigger] s.targets[t],
            ) || lists_path(s.delete_targets, s.targets[t]),
    ensures
        forall|t: int| 0 <= t < s.targets.len() ==> s.accounts_for(#[trigger] s.targets[t]),
{
    assert forall|t: int| 0 <= t < s.targets.len() implies s.accounts_for(
        #[trigger] s.targets[t],
    ) by {
        let owned = sources(s.candidates);
        if !lists_path(s.delete_targets, s.targets[t]) {
            let i = choose|i: int|
                0 <= i < owned.len() && same_path(#[trigger] owned[i], s.targets[t]);
            assert(s.keeps(i, s.targets[t]));
        }
    }
}

pub proof fn lemma_asking_about_one(s: OverlayView, now: u64)
    requires
        s.holds_always(),
        s.owed == Owed::Nothing,
        s.delete_targets.len() == 0,
        s.recycled.len() == 0,
        s.current == 0,
        s.candidates.len() > 0,
    ensures
        s.asking_about_one(now).wf(),
        s.going_one_by_one(now).wf(),
{
    lemma_queueing_ordinary(s);
    lemma_ordinary_accounts(s.queueing_ordinary());
    lemma_same_accounts(s.queueing_ordinary(), s.asking_about_one(now));
    lemma_same_accounts(s.queueing_ordinary(), s.going_one_by_one(now));
}

/// Moving on after every candidate has been decided on keeps the invariant.
pub proof fn lemma_departing(s: OverlayView, now: u64)
    requires
        s.holds_always(),
        s.owed == Owed::Nothing,
        s.all_decided(),
        forall|t: int| 0 <= t < s.targets.len() ==> s.accounts_for(#[trigger] s.targets[t]),
    ensures
        s.departing(now).wf(),
{
    let out = s.departing(now);
    lemma_same_accounts(s, out);
}

/// What a state accounts for depends on the lists alone.
pub proof fn lemma_same_accounts(s: OverlayView, out: OverlayView)
    requires
        forall|t: int| 0 <= t < s.targets.len() ==> s.accounts_for(#[trigger] s.targets[t]),
        out.targets == s.targets,
        out.delete_targets == s.delete_targets,
        out.recycled == s.recycled,
        out.candidates == s.candidates,
        out.confirmed == s.confirmed,
        out.current == s.current,
    ensures
        forall|t: int| 0 <= t < out.targets.len() ==> out.accounts_for(#[trigger] out.targets[t]),
{
    assert forall|t: int| 0 <= t < out.targets.len() implies out.accounts_for(
        #[trigger] out.targets[t],
    ) by {
        assert(s.accounts_for(s.targets[t]));
        if !lists_path(s.recycled, s.targets[t]) && !lists_path(s.delete_targets, s.targets[t]) {
            let i = choose|i: int| #[trigger] s.keeps(i, s.targets[t]);
            assert(out.keeps(i, out.targets[t]));
        }
    }
}

pub proof fn lemma_finishing(s: OverlayView, now: u64)
    requires
        s.holds_always(),
        s.owed == Owed::Nothing,
        s.phase == Phase::UninstallAsk || s.phase == Phase::UninstallModeAsk,
        s.all_decided(),
        forall|t: int| 0 <= t < s.targets.len() ==> s.accounts_for(#[trigger] s.targets[t]),
    ensures
        s.finishing(now).wf(),
{
    let out = s.finishing(now);
    if s.confirmed.len() > 0 {
        lemma_same_accounts(s, out);
        assert(out.all_decided()) by {
            assert forall|i: int| out.current <= i < out.candidates.len() implies has_id(
                out.confirmed,
                (#[trigger] out.candidates[i]).id,
            ) by {
                assert(has_id(s.confirmed, s.candidates[i].id));
            }
        }
    } else {
        lemma_departing(s, now);
    }
}

/// A decision on the current candidate, after which it is confirmed or its item
/// is queued, keeps the invariant.
pub proof fn lemma_advancing(before: OverlayView, s: OverlayView, now: u64)
    requires
        before.wf(),
        before.phase == Phase::UninstallAsk,
        before.owed == Owed::Nothing,
        s.holds_always(),
        s.phase == before.phase,
        s.owed == before.owed,
        s.targets == before.targets,
        s.recycled == before.recycled,
        s.candidates == before.candidates,
        s.current == before.current,
        forall|path: Seq<char>| #[trigger]
            lists_path(before.delete_targets, path) ==> lists_path(s.delete_targets, path),
        forall|id: Seq<char>| #[trigger] has_id(before.confirmed, id) ==> has_id(s.confirmed, id),
        has_id(s.confirmed, s.candidates[s.current as int].id) || lists_path(
            s.delete_targets,
            s.candidates[s.current as int].source,
        ),
    ensures
        s.advancing(now).wf(),
{
    let next = OverlayView { current: s.current + 1, ..s };
    let n = before.current as int;
    assert forall|t: int| 0 <= t < next.targets.len() implies next.accounts_for(
        #[trigger] next.targets[t],
    ) by {
        let path = next.targets[t];
        assert(before.accounts_for(before.targets[t]));
        if !lists_path(before.recycled, path) && !lists_path(before.delete_targets, path) {
            let i = choose|i: int| #[trigger] before.keeps(i, path);
            if i == n && !has_id(s.confirmed, s.candidates[n].id) {
                let list = s.delete_targets;
                let source = s.candidates[n].source;
                let k = choose|k: int|
                    0 <= k < list.len() && same_path(#[trigger] list[k], source);
                assert(same_path(list[k], path));
                assert(lists_path(next.delete_targets, path));
            } else {
                assert(next.keeps(i, path));
            }
        }
    }
    if next.current < next.candidates.len() {
        let out = s.advancing(now);
        lemma_same_accounts(next, out);
    } else {
        lemma_finishing(next, now);
    }
}

pub proof fn lemma_current_source(s: OverlayView)
    requires
        s.wf(),
        s.phase == Phase::UninstallAsk,
        s.owed == Owed::Nothing,
    ensures
        ({
            let source = s.candidates[s.current as int].source;
            &&& s.queueing(source).holds_always()
            &&& lists_path(s.queueing(source).delete_targets, source)
            &&& forall|path: Seq<char>| #[trigger]
                lists_path(s.delete_targets, path) ==> lists_path(
                    s.queueing(source).delete_targets,
                    path,
                )
        }),
{
    let source = s.candidates[s.current as int].source;
    let one = seq![source];
    lemma_queueing(s, source);
    lemma_queued(s.delete_targets, source);
    assert(sources(s.candidates)[s.current as int] == source);
    assert(s.targets.contains(source));
    assert forall|i: int| 0 <= i < one.len() implies s.targets.contains(#[trigger] one[i]) by {}
    assert forall|i: int, j: int| 0 <= i < s.recycled.len() && 0 <= j < one.len() implies !same_path(
        #[trigger] s.recycled[i],
        #[trigger] one[j],
    ) by {
        assert(!same_path(s.recycled[i], sources(s.candidates)[s.current as int]));
    }
    lemma_queueing_all(s, one);
}

pub proof fn lemma_confirming(s: OverlayView, now: u64)
    requires
        s.wf(),
        s.phase == Phase::UninstallAsk,
        s.owed == Owed::Nothing,
    ensures
        s.confirming(now).wf(),
        s.deleting(now).wf(),
{
    let candidate = s.candidates[s.current as int];
    lemma_current_source(s);
    lemma_advancing(s, s.queueing(candidate.source), now);
    let state = if is_shortcut(candidate.source) {
        s.queueing(candidate.source)
    } else {
        s
    };
    let next = OverlayView { confirmed: state.confirmed.push(candidate), ..state };
    assert(next.confirmed[next.confirmed.len() - 1] == candidate);
    assert(s.candidates.contains(candidate));
    assert forall|i: int| 0 <= i < next.confirmed.len() implies next.candidates.contains(
        #[trigger] next.confirmed[i],
    ) by {
        if i < s.confirmed.len() {
            assert(next.confirmed[i] == s.confirmed[i]);
        }
    }
    assert forall|id: Seq<char>| #[trigger] has_id(s.confirmed, id) implies has_id(
        next.confirmed,
        id,
    ) by {
        let i = choose|i: int| 0 <= i < s.confirmed.len() && (#[trigger] s.confirmed[i]).id == id;
        assert(next.confirmed[i].id == id);
    }
    lemma_advancing(s, next, now);
}

/// Of the candidates with one identifier the first alone is kept: no two that
/// are kept have the same identifier, every candidate has one of theirs, and
/// each is a candidate.
pub proof fn law_each_id_is_kept_once(candidates: Seq<CandidateView>)
    ensures
        ({
            let kept = first_of_each_id(candidates);
            &&& forall|i: int, j: int|
                0 <= i < j < kept.len() ==> (#[trigger] kept[i]).id != (#[trigger] kept[j]).id
            &&& forall|i: int|
                0 <= i < candidates.len() ==> has_id(kept, (#[trigger] candidates[i]).id)
            &&& forall|i: int|
                0 <= i < kept.len() ==> is_first_of_id(candidates, #[trigger] kept[i])
            &&& forall|i: int| 0 <= i < kept.len() ==> candidates.contains(#[trigger] kept[i])
        }),
    decreases candidates.len(),
{
    let kept = first_of_each_id(candidates);
    if candidates.len() > 0 {
        let front = candidates.drop_last();
        let last = candidates.last();
        let before = first_of_each_id(front);
        law_each_id_is_kept_once(front);
        assert forall|i: int, j: int| 0 <= i < j < kept.len() implies (#[trigger] kept[i]).id != (
        #[trigger] kept[j]).id by {
            assert(kept[i] == before[i]);
            if j < before.len() {
                assert(kept[j] == before[j]);
            } else {
                assert(!has_id(before, last.id));
            }
        }
        assert forall|i: int| 0 <= i < candidates.len() implies has_id(
            kept,
            (#[trigger] candidates[i]).id,
        ) by {
            if i < front.len() {
                assert(front[i] == candidates[i]);
                let k = choose|k: int|
                    0 <= k < before.len() && (#[trigger] before[k]).id == front[i].id;
                assert(kept[k] == before[k]);
            } else if !has_id(before, last.id) {
                assert(kept[kept.len() - 1].id == last.id);
            }
        }
        assert forall|i: int| 0 <= i < kept.len() implies is_first_of_id(
            candidates,
            #[trigger] kept[i],
        ) && candidates.contains(kept[i]) by {
            if i < before.len() {
                assert(kept[i] == before[i]);
                assert(is_first_of_id(front, before[i]));
                let k = choose|k: int|
                    0 <= k < front.len() && #[trigger] front[k] == before[i] && forall|j: int|
                        0 <= j < k ==> (#[trigger] front[j]).id != before[i].id;
                assert(candidates[k] == kept[i]);
                assert forall|j: int| 0 <= j < k implies (#[trigger] candidates[j]).id
                    != kept[i].id by {
                    assert(front[j] == candidates[j]);
                }
            } else {
                let k = candidates.len() - 1;
                assert(candidates[k] == kept[i]);
                assert forall|j: int| 0 <= j < k implies (#[trigger] candidates[j]).id
                    != kept[i].id by {
                    assert(front[j] == candidates[j]);
                    assert(has_id(before, front[j].id));
                }
            }
        }
    }
}

pub proof fn lemma_uninstalling_all(s: OverlayView, now: u64)
    requires
        s.wf(),
        s.phase == Phase::UninstallModeAsk,
        s.owed == Owed::Nothing,
    ensures
        s.uninstalling_all(now).wf(),
{
    let first = OverlayView { confirmed: first_of_each_id(s.candidates), ..s };
    law_each_id_is_kept_once(s.candidates);
    let links = shortcuts(sources(s.candidates));
    let second = first.queueing_ordinary();
    let third = second.queueing_all(links);
    lemma_queueing_ordinary(first);
    lemma_shortcuts(sources(s.candidates));
    assert forall|i: int| 0 <= i < links.len() implies s.targets.contains(#[trigger] links[i]) by {
        assert(sources(s.candidates).contains(links[i]));
        let k = choose|k: int|
            0 <= k < sources(s.candidates).len() && sources(s.candidates)[k] == links[i];
        assert(s.targets.contains(sources(s.candidates)[k]));
    }
    lemma_queueing_all(second, links);
    lemma_ordinary_accounts(third);
    assert forall|i: int|
        third.current <= i < third.candidates.len() implies has_id(
        third.confirmed,
        (#[trigger] third.candidates[i]).id,
    ) by {
        assert(has_id(first.confirmed, s.candidates[i].id));
    }
    lemma_finishing(third, now);
}

pub proof fn lemma_wanted(targets: Seq<Seq<char>>, patterns: Seq<Seq<char>>)
    ensures
        all_among(wanted(targets, patterns), targets),
    decreases targets.len(),
{
    let out = wanted(targets, patterns);
    if targets.len() > 0 {
        let front = targets.drop_last();
        let before = wanted(front, patterns);
        lemma_wanted(front, patterns);
        assert forall|i: int| 0 <= i < out.len() implies targets.contains(#[trigger] out[i]) by {
            if i < before.len() {
                assert(out[i] == before[i]);
                let k = choose|k: int| 0 <= k < front.len() && front[k] == before[i];
                assert(targets[k] == out[i]);
            } else {
                assert(targets[targets.len() - 1] == out[i]);
            }
        }
    }
}

pub proof fn lemma_with_programs(
    items: Seq<Seq<char>>,
    programs: Seq<Option<Seq<char>>>,
    count: nat,
)
    requires
        count <= items.len(),
    ensures
        forall|i: int|
            0 <= i < with_programs(items, programs, count).len() ==> items.contains(
                (#[trigger] with_programs(items, programs, count)[i]).source,
            ),
    decreases count,
{
    if count > 0 {
        lemma_with_programs(items, programs, (count - 1) as nat);
        let before = with_programs(items, programs, (count - 1) as nat);
        let out = with_programs(items, programs, count);
        assert forall|i: int| 0 <= i < out.len() implies items.contains(
            (#[trigger] out[i]).source,
        ) by {
            if i < before.len() {
                assert(out[i] == before[i]);
            }
        }
    }
}

pub proof fn lemma_found_candidates(
    asked: Seq<ProbeTargetView>,
    answers: Seq<ProbeView>,
    count: nat,
    targets: Seq<Seq<char>>,
)
    requires
        count <= asked.len(),
        forall|i: int| 0 <= i < asked.len() ==> targets.contains((#[trigger] asked[i]).source),
    ensures
        all_among(sources(found_candidates(asked, answers, count)), targets),
    decreases count,
{
    let out = found_candidates(asked, answers, count);
    if count > 0 {
        lemma_found_candidates(asked, answers, (count - 1) as nat, targets);
        let before = found_candidates(asked, answers, (count - 1) as nat);
        assert forall|i: int| 0 <= i < sources(out).len() implies targets.contains(
            #[trigger] sources(out)[i],
        ) by {
            if i < before.len() {
                assert(out[i] == before[i]);
                assert(sources(before)[i] == sources(out)[i]);
            } else {
                assert(targets.contains(asked[count - 1].source));
            }
        }
    }
}

pub proof fn lemma_clicked(s: OverlayView, x: i32, y: i32, buttons: Buttons, now: u64)
    requires
        s.wf(),
        s.owed == Owed::Nothing,
    ensures
        s.clicked(x, y, buttons, now).wf(),
{
    let out = s.clicked(x, y, buttons, now);
    match s.phase {
        Phase::UninstallAsk => {
            lemma_confirming(s, now);
        },
        Phase::UninstallModeAsk => {
            lemma_asking_about_one(s, now);
            lemma_uninstalling_all(s, now);
        },
        Phase::UninstallUnavailable => {
            lemma_recycling_everything(s, now);
        },
        Phase::SelectUninstallTarget | Phase::Elevate | Phase::Error => {
            lemma_same_accounts(s, out);
        },
        _ => {},
    }
}

pub proof fn lemma_told_settings(s: OverlayView, config: ConfigView, now: u64)
    requires
        s.wf(),
        s.owed == Owed::Settings,
    ensures
        s.told_settings(config, now).wf(),
{
    lemma_wanted(s.targets, patterns_for(config, s.targets.len()));
    lemma_recycling_everything(OverlayView { owed: Owed::Nothing, ..s }, now);
}

pub proof fn lemma_told_programs(
    s: OverlayView,
    programs: Seq<Option<Seq<char>>>,
    bridge_is_file: bool,
    now: u64,
)
    requires
        s.wf(),
        s.owed == Owed::Programs,
    ensures
        s.told_programs(programs, bridge_is_file, now).wf(),
{
    let count = shorter(s.probe_sources.len(), programs.len());
    let list = s.askable(programs);
    lemma_with_programs(s.probe_sources, programs, count);
    assert forall|i: int| 0 <= i < list.len() implies s.targets.contains(
        (#[trigger] list[i]).source,
    ) by {
        assert(s.probe_sources.contains(list[i].source));
        let k = choose|k: int|
            0 <= k < s.probe_sources.len() && s.probe_sources[k] == list[i].source;
        assert(s.targets.contains(s.probe_sources[k]));
    }
    let state = OverlayView { owed: Owed::Nothing, probe_sources: Seq::empty(), ..s };
    lemma_recycling_everything(state, now);
}

pub proof fn lemma_told_candidates(s: OverlayView, answers: Seq<ProbeView>, now: u64)
    requires
        s.wf(),
        s.phase == Phase::DetectUninstall,
        s.owed == Owed::Nothing,
    ensures
        s.told_candidates(answers, now).wf(),
{
    let count = shorter(s.probe.len(), answers.len());
    let state = OverlayView {
        candidates: found_candidates(s.probe, answers, count),
        probe: Seq::empty(),
        current: 0,
        confirmed: Seq::empty(),
        markers: Seq::empty(),
        ..s
    };
    lemma_found_candidates(s.probe, answers, count, s.targets);
    if state.candidates.len() == 0 {
        lemma_recycling_everything(state, now);
    } else if state.candidates.len() == 1 {
        lemma_asking_about_one(state, now);
    }
}

pub proof fn lemma_ticked(s: OverlayView, news: NewsView, fan: Seq<(i32, i32)>, now: u64)
    requires
        s.wf(),
        s.owed == Owed::Nothing,
    ensures
        s.ticked(news, fan, now).wf(),
{
    let out = s.ticked(news, fan, now);
    match s.phase {
        Phase::DetectUninstall => match news {
            NewsView::Pending => {},
            NewsView::Answered(answers) => {
                lemma_told_candidates(s, answers, now);
            },
            NewsView::Lost => {
                lemma_told_candidates(s, Seq::empty(), now);
            },
        },
        _ => {
            if s.is_settled() {
                lemma_same_accounts(s, out);
            }
        },
    }
}

pub proof fn lemma_told_recycled(s: OverlayView, outcome: OutcomeView, now: u64)
    requires
        s.wf(),
        s.owed == Owed::Recycling,
    ensures
        s.told_recycled(outcome, now).wf(),
{
    let out = s.told_recycled(outcome, now);
    match outcome {
        OutcomeView::Done => {
            let all = s.recycled + s.delete_targets;
            let n = s.recycled.len();
            assert forall|i: int| 0 <= i < all.len() implies s.targets.contains(
                #[trigger] all[i],
            ) by {
                if i < n {
                    assert(s.targets.contains(s.recycled[i]));
                } else {
                    assert(s.targets.contains(s.delete_targets[i - n]));
                }
            }
            assert forall|i: int, j: int| 0 <= i < j < all.len() implies !same_path(
                #[trigger] all[i],
                #[trigger] all[j],
            ) by {
                if j < n {
                    assert(!same_path(s.recycled[i], s.recycled[j]));
                } else if i < n {
                    assert(!same_path(s.recycled[i], s.delete_targets[j - n]));
                } else {
                    assert(!same_path(s.delete_targets[i - n], s.delete_targets[j - n]));
                }
            }
            if s.is_asking() {
                let owned = sources(s.candidates);
                assert forall|i: int, j: int|
                    0 <= i < all.len() && 0 <= j < owned.len() implies !same_path(
                    #[trigger] all[i],
                    #[trigger] owned[j],
                ) by {
                    if i < n {
                        assert(!same_path(s.recycled[i], owned[j]));
                    } else {
                        assert(!same_path(s.delete_targets[i - n], owned[j]));
                    }
                }
            }
            assert forall|t: int| 0 <= t < out.targets.len() implies out.accounts_for(
                #[trigger] out.targets[t],
            ) by {
                let path = s.targets[t];
                assert(s.accounts_for(s.targets[t]));
                if lists_path(s.recycled, path) {
                    let i = choose|i: int|
                        0 <= i < s.recycled.len() && same_path(#[trigger] s.recycled[i], path);
                    assert(same_path(all[i], path));
                } else if lists_path(s.delete_targets, path) {
                    let i = choose|i: int|
                        0 <= i < s.delete_targets.len() && same_path(
                            #[trigger] s.delete_targets[i],
                            path,
                        );
                    assert(same_path(all[n + i], path));
                } else {
                    let i = choose|i: int| #[trigger] s.keeps(i, path);
                    assert(out.keeps(i, path));
                }
            }
        },
        _ => {
            lemma_same_accounts(s, out);
        },
    }
}

pub proof fn lemma_told_launched(s: OverlayView, failure: Option<Seq<char>>, now: u64)
    requires
        s.wf(),
        s.owed == Owed::Launch,
    ensures
        s.told_launched(failure, now).wf(),
{
    let state = OverlayView { owed: Owed::Nothing, ..s };
    lemma_same_accounts(s, state);
    assert(state.all_decided()) by {
        assert forall|i: int|
            state.current <= i < state.candidates.len() implies has_id(
            state.confirmed,
            (#[trigger] state.candidates[i]).id,
        ) by {
            assert(has_id(s.confirmed, s.candidates[i].id));
        }
    }
    lemma_departing(state, now);
    lemma_same_accounts(s, s.told_launched(failure, now));
}

pub proof fn lemma_told_elevated(s: OverlayView, failure: Option<Seq<char>>, now: u64)
    requires
        s.wf(),
        s.owed == Owed::Elevation,
    ensures
        s.told_elevated(failure, now).wf(),
{
    lemma_same_accounts(s, s.told_elevated(failure, now));
}

} // verus!
