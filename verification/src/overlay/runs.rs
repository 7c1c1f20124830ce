//! What holds of everything that can happen to the overlay.

use vstd::prelude::*;

use crate::bridge::ProbeView;
use crate::config::ConfigView;
use crate::layout::{modal_area, modal_button};
use crate::overlay::soundness::{
    all_among, distinct_paths, law_each_id_is_kept_once, lemma_clicked, lemma_found_candidates,
    lemma_queueing_all, lemma_queueing_ordinary, lemma_ticked, lemma_told_elevated,
    lemma_told_launched, lemma_told_programs, lemma_told_recycled, lemma_told_settings,
    lemma_wanted,
};
use crate::overlay::state::{
    first_of_each_id, first_state, found_candidates, has_id, patterns_for, shorter, sources,
    wanted, with_programs, AfterKick, Buttons, Effect, NewsView, OutcomeView, OverlayView, Owed,
    Phase, ProbeTargetView,
};
use crate::paths::{lists_path, same_path};

verus! {

/// Something that happens to the overlay.
pub enum Event {
    Click { x: i32, y: i32, buttons: Buttons, now: u64 },
    /// Time passes. If the kick hits, several items explode where `fan` says.
    Tick { news: NewsView, fan: Seq<(i32, i32)>, now: u64 },
    Settings { config: ConfigView, now: u64 },
    Programs { programs: Seq<Option<Seq<char>>>, bridge_is_file: bool, now: u64 },
    Recycled { outcome: OutcomeView, now: u64 },
    Launched { failure: Option<Seq<char>>, now: u64 },
    Elevated { failure: Option<Seq<char>>, now: u64 },
}

impl OverlayView {
    /// The state after an event. One that does not fit what is waited for does
    /// not happen.
    pub open spec fn after(self, event: Event) -> Self {
        match event {
            Event::Click { x, y, buttons, now } => if self.owed == Owed::Nothing {
                self.clicked(x, y, buttons, now)
            } else {
                self
            },
            Event::Tick { news, fan, now } => if self.owed == Owed::Nothing {
                self.ticked(news, fan, now)
            } else {
                self
            },
            Event::Settings { config, now } => if self.owed == Owed::Settings {
                self.told_settings(config, now)
            } else {
                self
            },
            Event::Programs { programs, bridge_is_file, now } => if self.owed == Owed::Programs {
                self.told_programs(programs, bridge_is_file, now)
            } else {
                self
            },
            Event::Recycled { outcome, now } => if self.owed == Owed::Recycling {
                self.told_recycled(outcome, now)
            } else {
                self
            },
            Event::Launched { failure, now } => if self.owed == Owed::Launch {
                self.told_launched(failure, now)
            } else {
                self
            },
            Event::Elevated { failure, now } => if self.owed == Owed::Elevation {
                self.told_elevated(failure, now)
            } else {
                self
            },
        }
    }

    /// The state after events, one after the other.
    pub open spec fn run(self, events: Seq<Event>) -> Self
        decreases events.len(),
    {
        if events.len() == 0 {
            self
        } else {
            self.run(events.drop_last()).after(events.last())
        }
    }
}

proof fn lemma_after(s: OverlayView, event: Event)
    requires
        s.wf(),
    ensures
        s.after(event).wf(),
        s.after(event).targets == s.targets,
{
    match event {
        Event::Click { x, y, buttons, now } => {
            if s.owed == Owed::Nothing {
                lemma_clicked(s, x, y, buttons, now);
            }
        },
        Event::Tick { news, fan, now } => {
            if s.owed == Owed::Nothing {
                lemma_ticked(s, news, fan, now);
            }
        },
        Event::Settings { config, now } => {
            if s.owed == Owed::Settings {
                lemma_told_settings(s, config, now);
            }
        },
        Event::Programs { programs, bridge_is_file, now } => {
            if s.owed == Owed::Programs {
                lemma_told_programs(s, programs, bridge_is_file, now);
            }
        },
        Event::Recycled { outcome, now } => {
            if s.owed == Owed::Recycling {
                lemma_told_recycled(s, outcome, now);
            }
        },
        Event::Launched { failure, now } => {
            if s.owed == Owed::Launch {
                lemma_told_launched(s, failure, now);
            }
        },
        Event::Elevated { failure, now } => {
            if s.owed == Owed::Elevation {
                lemma_told_elevated(s, failure, now);
            }
        },
    }
}

/// Whatever happens, in whatever order: the overlay stays in a state that it can
/// be in, and keeps the selection that it started with.
pub proof fn law_overlay_stays_sound(
    targets: Seq<Seq<char>>,
    width: i32,
    height: i32,
    start: u64,
    events: Seq<Event>,
)
    requires
        targets.len() > 0,
        width > 0,
        height > 0,
    ensures
        first_state(targets, width, height, start).run(events).wf(),
        first_state(targets, width, height, start).run(events).targets == targets,
    decreases events.len(),
{
    if events.len() > 0 {
        law_overlay_stays_sound(targets, width, height, start, events.drop_last());
        lemma_after(
            first_state(targets, width, height, start).run(events.drop_last()),
            events.last(),
        );
    }
}

/// Only selected items are recycled or queued for it, as they were selected and
/// never replaced by what they lead to, and none of them twice.
pub proof fn law_only_selected_items_are_recycled(
    targets: Seq<Seq<char>>,
    width: i32,
    height: i32,
    start: u64,
    events: Seq<Event>,
)
    requires
        targets.len() > 0,
        width > 0,
        height > 0,
    ensures
        ({
            let s = first_state(targets, width, height, start).run(events);
            &&& all_among(s.recycled, targets)
            &&& all_among(s.delete_targets, targets)
            &&& distinct_paths(s.recycled + s.delete_targets)
        }),
{
    law_overlay_stays_sound(targets, width, height, start, events);
    let s = first_state(targets, width, height, start).run(events);
    let all = s.recycled + s.delete_targets;
    let n = s.recycled.len();
    assert forall|i: int, j: int| 0 <= i < j < all.len() implies !same_path(
        #[trigger] all[i],
        #[trigger] all[j],
    ) by {
        if j < n {
            assert(!same_path(s.recycled[i], s.recycled[j]));
        } else if i < n {
            assert(!same_path(s.recycled[i], s.delete_targets[j - n]));
        } else {
            assert(!same_path(s.delete_targets[i - n], s.delete_targets[j - n]));
        }
    }
}

/// Whether the item leads to a program whose uninstaller the user has asked for:
/// a candidate was found behind it, and one with the candidate's identifier is
/// confirmed.
pub open spec fn is_left_to_uninstaller(s: OverlayView, target: Seq<char>) -> bool {
    exists|i: int|
        0 <= i < s.candidates.len() && same_path(
            (#[trigger] s.candidates[i]).source,
            target,
        ) && has_id(s.confirmed, s.candidates[i].id)
}

/// When the monster flies away, every selected item has been recycled or leads to
/// a program whose uninstaller the user has asked for.
pub proof fn law_every_item_is_dealt_with(
    targets: Seq<Seq<char>>,
    width: i32,
    height: i32,
    start: u64,
    events: Seq<Event>,
    t: int,
)
    requires
        targets.len() > 0,
        width > 0,
        height > 0,
        0 <= t < targets.len(),
        first_state(targets, width, height, start).run(events).phase == Phase::Fly,
    ensures
        ({
            let s = first_state(targets, width, height, start).run(events);
            lists_path(s.recycled, targets[t]) || is_left_to_uninstaller(s, targets[t])
        }),
{
    law_overlay_stays_sound(targets, width, height, start, events);
    let s = first_state(targets, width, height, start).run(events);
    assert(s.accounts_for(s.targets[t]));
    if !lists_path(s.recycled, targets[t]) {
        assert(!lists_path(s.delete_targets, targets[t]));
        let i = choose|i: int| #[trigger] s.keeps(i, targets[t]);
        assert(has_id(s.confirmed, s.candidates[i].id));
    }
}

/// Where the user wants every program uninstalled, the bridge is asked once, for
/// each program once: of the candidates with one identifier the first is
/// confirmed, and no other.
pub proof fn law_all_programs_are_named_once(s: OverlayView, now: u64)
    requires
        s.candidates.len() > 0,
    ensures
        ({
            let out = s.uninstalling_all(now);
            &&& out.owed == Owed::Launch
            &&& out.effects == s.effects.push(Effect::LaunchUninstallers)
            &&& out.confirmed == first_of_each_id(s.candidates)
            &&& forall|i: int, j: int|
                0 <= i < j < out.confirmed.len() ==> (#[trigger] out.confirmed[i]).id != (
                #[trigger] out.confirmed[j]).id
            &&& forall|i: int|
                0 <= i < s.candidates.len() ==> has_id(
                    out.confirmed,
                    (#[trigger] s.candidates[i]).id,
                )
        }),
{
    law_each_id_is_kept_once(s.candidates);
    assert(has_id(first_of_each_id(s.candidates), s.candidates[0].id));
}

/// Whenever items are moved to the recycle bin, each of them explodes: there are
/// as many explosions as items, or as points where points were assigned one by
/// one.
pub proof fn law_every_item_explodes(
    targets: Seq<Seq<char>>,
    width: i32,
    height: i32,
    start: u64,
    events: Seq<Event>,
)
    requires
        targets.len() > 0,
        width > 0,
        height > 0,
        first_state(targets, width, height, start).run(events).owed == Owed::Recycling,
    ensures
        ({
            let s = first_state(targets, width, height, start).run(events);
            &&& s.delete_targets.len() > 0
            &&& s.explosion_started is Some
            &&& s.explosion_positions.len() == (if s.markers.len() > 0 {
                s.markers.len()
            } else {
                s.delete_targets.len()
            })
        }),
{
    law_overlay_stays_sound(targets, width, height, start, events);
}

/// A mark that was set stays, whatever happens: an event adds a mark behind those
/// that are there, or none.
pub proof fn law_marks_stay(s: OverlayView, event: Event)
    requires
        s.wf(),
    ensures
        s.markers.is_prefix_of(s.after(event).markers),
        s.after(event).markers.len() <= s.markers.len() + 1,
{
}

/// What the overlay was asked to do is never taken back, and its selection and its
/// screen stay what they are.
pub proof fn law_nothing_is_taken_back(s: OverlayView, event: Event)
    ensures
        s.effects.is_prefix_of(s.after(event).effects),
        s.after(event).targets == s.targets,
        s.after(event).width == s.width,
        s.after(event).height == s.height,
{
}

/// The monster points at, and asks at, the mark that was set last: as long as
/// there are marks, the newest one and the target are the same point.
pub proof fn law_newest_mark_is_the_target(
    targets: Seq<Seq<char>>,
    width: i32,
    height: i32,
    start: u64,
    events: Seq<Event>,
)
    requires
        targets.len() > 0,
        width > 0,
        height > 0,
        first_state(targets, width, height, start).run(events).markers.len() > 0,
    ensures
        ({
            let s = first_state(targets, width, height, start).run(events);
            s.markers.last() == s.target_position
        }),
    decreases events.len(),
{
    if events.len() > 0 {
        let front = events.drop_last();
        let before = first_state(targets, width, height, start).run(front);
        law_overlay_stays_sound(targets, width, height, start, front);
        if before.markers.len() > 0 {
            law_newest_mark_is_the_target(targets, width, height, start, front);
        }
    }
}

/// The target moves only where the user clicks with the crosshair, and then to
/// that point.
pub proof fn law_target_moves_only_by_a_click(s: OverlayView, event: Event)
    ensures
        s.after(event).target_position == s.target_position || (event matches Event::Click {
            x,
            y,
            ..
        } && (s.phase == Phase::Select || s.phase == Phase::SelectUninstallTarget) && s.after(
            event,
        ).target_position == (x, y)),
{
}

/// The marks that are set at some time are there ever after, in their order.
pub proof fn law_marks_stay_for_good(s: OverlayView, events: Seq<Event>)
    requires
        s.wf(),
    ensures
        s.markers.is_prefix_of(s.run(events).markers),
        s.run(events).wf(),
    decreases events.len(),
{
    if events.len() > 0 {
        let before = s.run(events.drop_last());
        law_marks_stay_for_good(s, events.drop_last());
        law_marks_stay(before, events.last());
        lemma_after(before, events.last());
    }
}

/// An uninstaller is only ever asked for where the bridge has found one behind a
/// selected item.
pub proof fn law_only_found_programs_are_uninstalled(
    targets: Seq<Seq<char>>,
    width: i32,
    height: i32,
    start: u64,
    events: Seq<Event>,
    i: int,
)
    requires
        targets.len() > 0,
        width > 0,
        height > 0,
        0 <= i < first_state(targets, width, height, start).run(events).confirmed.len(),
    ensures
        ({
            let s = first_state(targets, width, height, start).run(events);
            s.candidates.contains(s.confirmed[i]) && targets.contains(s.confirmed[i].source)
        }),
{
    law_overlay_stays_sound(targets, width, height, start, events);
    let s = first_state(targets, width, height, start).run(events);
    assert(s.candidates.contains(s.confirmed[i]));
    let k = choose|k: int| 0 <= k < s.candidates.len() && s.candidates[k] == s.confirmed[i];
    assert(targets.contains(sources(s.candidates)[k]));
}

/// Whether the event is a click on an answer button.
pub open spec fn is_answer(event: Event) -> bool {
    match event {
        Event::Click { x, y, buttons, now } => buttons.first.covers(x as int, y as int)
            || buttons.second.covers(x as int, y as int),
        _ => false,
    }
}

/// As long as the user has clicked on no answer, nothing is recycled, queued for
/// it or uninstalled.
pub proof fn law_nothing_happens_without_an_answer(
    targets: Seq<Seq<char>>,
    width: i32,
    height: i32,
    start: u64,
    events: Seq<Event>,
)
    requires
        targets.len() > 0,
        width > 0,
        height > 0,
        forall|i: int| 0 <= i < events.len() ==> !is_answer(#[trigger] events[i]),
    ensures
        ({
            let s = first_state(targets, width, height, start).run(events);
            &&& s.is_fresh()
            &&& s.owed == Owed::Nothing
            &&& s.phase == Phase::Select || s.phase == Phase::FadeOut || s.phase == Phase::Walk
                || s.phase == Phase::Point || s.phase == Phase::Ask
        }),
    decreases events.len(),
{
    if events.len() > 0 {
        let front = events.drop_last();
        assert forall|i: int| 0 <= i < front.len() implies !is_answer(#[trigger] front[i]) by {
            assert(front[i] == events[i]);
        }
        law_nothing_happens_without_an_answer(targets, width, height, start, front);
        assert(!is_answer(events[events.len() - 1]));
    }
}

/// Where the user cancels, or clicks a reported error away, the overlay closes
/// and nothing else happens.
pub proof fn law_cancelling_only_closes(
    s: OverlayView,
    x: i32,
    y: i32,
    buttons: Buttons,
    now: u64,
)
    requires
        ({
            ||| s.phase == Phase::Error
            ||| s.phase == Phase::UninstallUnavailable && buttons.second.covers(
                x as int,
                y as int,
            ) && !buttons.first.covers(x as int, y as int)
            ||| s.phase == Phase::Elevate && modal_button(
                modal_area(s.width as int, s.height as int),
                270,
            ).covers(x as int, y as int)
        }),
    ensures
        s.clicked(x, y, buttons, now) == s.doing(Effect::Close),
{
}

/// How often `effect` is among the effects.
pub open spec fn times(effects: Seq<Effect>, effect: Effect) -> nat
    decreases effects.len(),
{
    if effects.len() == 0 {
        0
    } else {
        times(effects.drop_last(), effect) + if effects.last() == effect {
            1nat
        } else {
            0nat
        }
    }
}

proof fn lemma_times()
    ensures
        forall|effects: Seq<Effect>, more: Effect, effect: Effect|
            #[trigger] times(effects.push(more), effect) == times(effects, effect) + if more
                == effect {
                1nat
            } else {
                0nat
            },
{
    assert forall|effects: Seq<Effect>, more: Effect, effect: Effect|
        #[trigger] times(effects.push(more), effect) == times(effects, effect) + if more == effect {
            1nat
        } else {
            0nat
        } by {
        assert(effects.push(more).drop_last() =~= effects);
    }
}

/// Whether the uninstallers were not started yet, or nothing more can be asked.
pub open spec fn launches_at_most_once(s: OverlayView) -> bool {
    let count = times(s.effects, Effect::LaunchUninstallers);
    count == 0 || count == 1 && {
        ||| s.owed == Owed::Launch
        ||| s.phase == Phase::Fly || s.phase == Phase::Elevate || s.phase == Phase::Error
        ||| (s.phase == Phase::Kick || s.phase == Phase::Leo) && s.after_kick == AfterKick::FlyAway
    }
}

proof fn lemma_launch_of_event(s: OverlayView, event: Event)
    requires
        s.wf(),
        launches_at_most_once(s),
    ensures
        launches_at_most_once(s.after(event)),
{
    lemma_times();
}

/// The confirmed uninstallers are started together: in one run they are asked
/// for at most once.
pub proof fn law_uninstallers_start_once(
    targets: Seq<Seq<char>>,
    width: i32,
    height: i32,
    start: u64,
    events: Seq<Event>,
)
    requires
        targets.len() > 0,
        width > 0,
        height > 0,
    ensures
        launches_at_most_once(first_state(targets, width, height, start).run(events)),
        times(
            first_state(targets, width, height, start).run(events).effects,
            Effect::LaunchUninstallers,
        ) <= 1,
    decreases events.len(),
{
    if events.len() > 0 {
        let front = events.drop_last();
        law_uninstallers_start_once(targets, width, height, start, front);
        law_overlay_stays_sound(targets, width, height, start, front);
        lemma_launch_of_event(
            first_state(targets, width, height, start).run(front),
            events.last(),
        );
    }
}

/// Whether the recycle bin was used no more often than the state allows: once
/// for the items that are no candidate's, where there are candidates, and once
/// at the end.
pub open spec fn recycles_at_most_twice(s: OverlayView) -> bool {
    let count = times(s.effects, Effect::Recycle);
    let hit = if s.deletion_started {
        1nat
    } else {
        0nat
    };
    let earlier = if s.candidates.len() > 0 {
        1nat
    } else {
        0nat
    };
    &&& s.owed == Owed::Launch ==> s.candidates.len() > 0 && count <= 1
    &&& match s.phase {
        Phase::Kick => count <= hit + if s.after_kick == AfterKick::FlyAway {
            earlier
        } else {
            0nat
        },
        Phase::Leo => count <= 1 + if s.after_kick == AfterKick::FlyAway {
            earlier
        } else {
            0nat
        },
        Phase::SelectUninstallTarget | Phase::UninstallAsk => count <= 1,
        Phase::Point => count <= 1 && (s.markers.len() == 0 ==> count == 0),
        Phase::Fly | Phase::Elevate | Phase::Error => count <= 1 + earlier,
        _ => count == 0,
    }
}

proof fn lemma_recycles_of_event(s: OverlayView, event: Event)
    requires
        s.wf(),
        recycles_at_most_twice(s),
    ensures
        recycles_at_most_twice(s.after(event)),
{
    lemma_times();
    lemma_after(s, event);
    let out = s.after(event);
    if out.owed == Owed::Launch && s.owed != Owed::Launch {
        assert(s.candidates.len() > 0);
    }
}

/// However many items are selected, the recycle bin is used at most twice in a
/// run, and once where no uninstaller is found.
pub proof fn law_recycling_is_done_in_batches(
    targets: Seq<Seq<char>>,
    width: i32,
    height: i32,
    start: u64,
    events: Seq<Event>,
)
    requires
        targets.len() > 0,
        width > 0,
        height > 0,
    ensures
        ({
            let s = first_state(targets, width, height, start).run(events);
            &&& recycles_at_most_twice(s)
            &&& times(s.effects, Effect::Recycle) <= 2
            &&& s.candidates.len() == 0 ==> times(s.effects, Effect::Recycle) <= 1
        }),
    decreases events.len(),
{
    let s = first_state(targets, width, height, start);
    law_overlay_stays_sound(targets, width, height, start, events);
    if events.len() > 0 {
        let front = events.drop_last();
        law_recycling_is_done_in_batches(targets, width, height, start, front);
        law_overlay_stays_sound(targets, width, height, start, front);
        lemma_recycles_of_event(s.run(front), events.last());
    }
}

/// Whether the state is about to recycle the whole selection in one operation,
/// and to be done with it.
pub open spec fn recycles_whole_selection(s: OverlayView) -> bool {
    &&& s.phase == Phase::Kick
    &&& s.after_kick == AfterKick::FlyAway
    &&& !s.deletion_started
    &&& all_among(s.delete_targets, s.targets)
    &&& forall|t: int|
        0 <= t < s.targets.len() ==> lists_path(s.delete_targets, #[trigger] s.targets[t])
}

proof fn lemma_whole_selection(s: OverlayView, now: u64)
    requires
        s.holds_always(),
        s.recycled.len() == 0,
    ensures
        recycles_whole_selection(s.recycling_everything(now)),
{
    assert forall|i: int| 0 <= i < s.targets.len() implies s.targets.contains(
        #[trigger] s.targets[i],
    ) by {}
    lemma_queueing_all(s, s.targets);
    assert forall|t: int| 0 <= t < s.targets.len() implies lists_path(
        s.recycling_everything(now).delete_targets,
        #[trigger] s.targets[t],
    ) by {
        assert(same_path(s.targets[t], s.targets[t]));
        assert(lists_path(s.targets, s.targets[t]));
    }
}

/// Once the user has confirmed, the whole selection is recycled in one operation
/// where the feature is off, where no item has a name to look at, where no
/// program is found behind one, and where the bridge is missing.
pub proof fn law_selection_without_programs_is_one_batch(
    s: OverlayView,
    config: ConfigView,
    programs: Seq<Option<Seq<char>>>,
    bridge_is_file: bool,
    now: u64,
)
    requires
        s.wf(),
    ensures
        s.owed == Owed::Settings && (!config.enabled || wanted(
            s.targets,
            patterns_for(config, s.targets.len()),
        ).len() == 0) ==> recycles_whole_selection(s.told_settings(config, now)),
        s.owed == Owed::Programs && (s.askable(programs).len() == 0 || !bridge_is_file)
            ==> recycles_whole_selection(s.told_programs(programs, bridge_is_file, now)),
{
    if s.owed == Owed::Settings {
        lemma_whole_selection(OverlayView { owed: Owed::Nothing, ..s }, now);
    }
    if s.owed == Owed::Programs {
        lemma_whole_selection(
            OverlayView { owed: Owed::Nothing, probe_sources: Seq::empty(), ..s },
            now,
        );
    }
}

/// The bridge is asked about the items whose names the settings want looked at
/// and behind which a program was found, in their order, each as it was selected;
/// a larger selection has patterns of its own.
pub proof fn law_bridge_is_asked_about_matching_items(
    s: OverlayView,
    config: ConfigView,
    programs: Seq<Option<Seq<char>>>,
    bridge_is_file: bool,
    now: u64,
)
    requires
        s.wf(),
        s.owed == Owed::Settings,
        config.enabled,
        wanted(s.targets, patterns_for(config, s.targets.len())).len() > 0,
        s.told_settings(config, now).can_probe(programs, bridge_is_file),
    ensures
        ({
            let items = wanted(s.targets, patterns_for(config, s.targets.len()));
            let out = s.told_settings(config, now).told_programs(programs, bridge_is_file, now);
            &&& out.phase == Phase::DetectUninstall
            &&& out.probe == with_programs(items, programs, shorter(items.len(), programs.len()))
            &&& all_among(items, s.targets)
            &&& out.delete_targets == s.delete_targets
        }),
{
    lemma_wanted(s.targets, patterns_for(config, s.targets.len()));
}

/// Where the bridge finds no uninstaller, no further question is asked: the
/// whole selection is recycled in one operation.
pub proof fn law_selection_without_uninstallers_is_one_batch(
    s: OverlayView,
    answers: Seq<ProbeView>,
    now: u64,
)
    requires
        s.wf(),
        s.phase == Phase::DetectUninstall,
        forall|i: int| 0 <= i < answers.len() ==> !(#[trigger] answers[i] is Candidate),
    ensures
        recycles_whole_selection(s.told_candidates(answers, now)),
{
    let count = shorter(s.probe.len(), answers.len());
    lemma_no_candidates(s.probe, answers, count);
    lemma_whole_selection(
        OverlayView {
            candidates: found_candidates(s.probe, answers, count),
            probe: Seq::empty(),
            current: 0,
            confirmed: Seq::empty(),
            markers: Seq::empty(),
            ..s
        },
        now,
    );
}

proof fn lemma_no_candidates(asked: Seq<ProbeTargetView>, answers: Seq<ProbeView>, count: nat)
    requires
        count <= answers.len(),
        forall|i: int| 0 <= i < answers.len() ==> !(#[trigger] answers[i] is Candidate),
    ensures
        found_candidates(asked, answers, count).len() == 0,
    decreases count,
{
    if count > 0 {
        lemma_no_candidates(asked, answers, (count - 1) as nat);
        assert(!(answers[count - 1] is Candidate));
    }
}

/// Where the bridge finds one uninstaller, all items that are not its own are
/// recycled first, and then its question is asked; where there are no others,
/// it is asked at once.
pub proof fn law_single_program_is_asked_about_last(
    s: OverlayView,
    answers: Seq<ProbeView>,
    now: u64,
)
    requires
        s.wf(),
        s.phase == Phase::DetectUninstall,
        s.told_candidates(answers, now).candidates.len() == 1,
    ensures
        ({
            let out = s.told_candidates(answers, now);
            let source = out.candidates[0].source;
            &&& out.current == 0
            &&& !lists_path(out.delete_targets, source)
            &&& forall|t: int|
                0 <= t < s.targets.len() ==> same_path(source, #[trigger] s.targets[t])
                    || lists_path(out.delete_targets, s.targets[t])
            &&& if out.delete_targets.len() > 0 {
                out.phase == Phase::Kick && out.after_kick == AfterKick::AskSingleUninstall
            } else {
                out.phase == Phase::UninstallAsk
            }
        }),
{
    let count = shorter(s.probe.len(), answers.len());
    lemma_found_candidates(s.probe, answers, count, s.targets);
    let state = OverlayView {
        candidates: found_candidates(s.probe, answers, count),
        probe: Seq::empty(),
        current: 0,
        confirmed: Seq::empty(),
        markers: Seq::empty(),
        ..s
    };
    lemma_queueing_ordinary(state);
    let out = s.told_candidates(answers, now);
    let owned = sources(state.candidates);
    let source = out.candidates[0].source;
    assert(owned[0] == source);
    if lists_path(out.delete_targets, source) {
        let k = choose|k: int|
            0 <= k < out.delete_targets.len() && same_path(
                #[trigger] out.delete_targets[k],
                source,
            );
        assert(!same_path(out.delete_targets[k], owned[0]));
    }
    assert forall|t: int| 0 <= t < s.targets.len() implies same_path(
        source,
        #[trigger] s.targets[t],
    ) || lists_path(out.delete_targets, s.targets[t]) by {
        if lists_path(owned, s.targets[t]) {
            let k = choose|k: int|
                0 <= k < owned.len() && same_path(#[trigger] owned[k], s.targets[t]);
            assert(k == 0);
        }
    }
}

} // verus!
