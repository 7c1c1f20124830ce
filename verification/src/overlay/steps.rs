//! What each click, each tick and each answer does to the overlay, and what it
//! leaves alone.

use vstd::prelude::*;

use crate::bridge::{CandidateView, ProbeView};
use crate::config::{name_matches, ConfigView};
use crate::layout::is_coordinate;
use crate::overlay::lists::{
    law_answers_stay_with_their_items, law_first_of_each_id_is_kept,
    law_programs_stay_with_their_items, law_shortcuts_are_picked, law_wanted_items_match,
};
use crate::overlay::soundness::{
    law_each_id_is_kept_once, lemma_found_candidates, lemma_queued, lemma_queued_all,
    lemma_queueing_ordinary, lemma_shortcuts,
};
use crate::overlay::state::{
    first_of_each_id, first_state, found_candidates, has_id, shortcuts, sources, wanted,
    with_programs, AfterKick, Buttons, Effect, NewsView, OutcomeView, OverlayView, Owed, Phase,
    ProbeTargetView,
};
use crate::paths::{is_shortcut, lists_path, same_path};
use crate::picking::{is_pick, lemma_picked_before, lemma_picks_come_from_places, picked_before};

verus! {

/// A new overlay waits for a click, aims at the middle of the screen, and has
/// done nothing yet.
pub proof fn law_overlay_starts_with_nothing_done(
    targets: Seq<Seq<char>>,
    width: i32,
    height: i32,
    now: u64,
)
    requires
        width > 0,
        height > 0,
    ensures
        ({
            let s = first_state(targets, width, height, now);
            &&& s.width == width && s.height == height && s.targets == targets
            &&& s.phase == Phase::Select && s.phase_started == now && s.owed == Owed::Nothing
            &&& 2 * s.target_position.0 <= width < 2 * s.target_position.0 + 2
            &&& 2 * s.target_position.1 <= height < 2 * s.target_position.1 + 2
            &&& !s.points_left && !s.deletion_started
            &&& s.explosion_started is None && s.error is None
            &&& s.is_fresh()
            &&& s.explosion_positions.len() == 0 && s.effects.len() == 0
            &&& s.probe_sources.len() == 0 && s.probe.len() == 0
        }),
{
}

/// A click with the crosshair aims: the target is where the user clicked, and the
/// monster looks left exactly where that is in the left half of the screen. The
/// first click starts the show; each further one leaves a mark at that point, at
/// which the monster points next. Nothing else changes.
pub proof fn law_crosshair_aims(s: OverlayView, x: i32, y: i32, buttons: Buttons, now: u64)
    requires
        s.width > 0,
        s.phase == Phase::Select || s.phase == Phase::SelectUninstallTarget,
    ensures
        ({
            let out = s.clicked(x, y, buttons, now);
            &&& out.target_position == (x, y)
            &&& out.points_left <==> 2 * x + 2 <= s.width
            &&& out.phase_started == now
            &&& s.phase == Phase::Select ==> {
                &&& out.phase == Phase::FadeOut
                &&& out.markers == s.markers
                &&& out.effects == s.effects + seq![Effect::RestoreCursor, Effect::LoadWalk]
            }
            &&& s.phase == Phase::SelectUninstallTarget ==> {
                &&& out.phase == Phase::Point
                &&& out.markers == s.markers + seq![(x, y)]
                &&& out.effects == s.effects + seq![Effect::RestoreCursor, Effect::LoadPoint]
            }
            &&& out == (OverlayView {
                target_position: out.target_position,
                points_left: out.points_left,
                phase: out.phase,
                phase_started: out.phase_started,
                markers: out.markers,
                effects: out.effects,
                ..s
            })
        }),
{
    let out = s.clicked(x, y, buttons, now);
    if s.phase == Phase::Select {
        assert(out.effects =~= s.effects + seq![Effect::RestoreCursor, Effect::LoadWalk]);
    } else {
        assert(out.effects =~= s.effects + seq![Effect::RestoreCursor, Effect::LoadPoint]);
        assert(out.markers =~= s.markers + seq![(x, y)]);
    }
}

/// Where the user is not asked and does not aim, a click does nothing.
pub proof fn law_other_clicks_do_nothing(
    s: OverlayView,
    x: i32,
    y: i32,
    buttons: Buttons,
    now: u64,
)
    requires
        s.phase == Phase::FadeOut || s.phase == Phase::Walk || s.phase == Phase::Point || s.phase
            == Phase::DetectUninstall || s.phase == Phase::Kick || s.phase == Phase::Leo || s.phase
            == Phase::Fly,
    ensures
        s.clicked(x, y, buttons, now) == s,
{
}

/// Where the user is asked, a click beside the buttons does nothing.
pub proof fn law_clicks_beside_the_buttons_do_nothing(
    s: OverlayView,
    x: i32,
    y: i32,
    buttons: Buttons,
    now: u64,
)
    requires
        s.phase == Phase::Ask || s.phase == Phase::UninstallAsk || s.phase
            == Phase::UninstallModeAsk || s.phase == Phase::UninstallUnavailable,
        !(buttons.first.x <= x < buttons.first.x + buttons.first.w && buttons.first.y <= y
            < buttons.first.y + buttons.first.h),
        !(buttons.second.x <= x < buttons.second.x + buttons.second.w && buttons.second.y <= y
            < buttons.second.y + buttons.second.h),
    ensures
        s.clicked(x, y, buttons, now) == s,
{
}

/// Either answer to the first question has the settings read, and does nothing
/// else yet.
pub proof fn law_either_answer_reads_the_settings(
    s: OverlayView,
    x: i32,
    y: i32,
    buttons: Buttons,
    now: u64,
)
    requires
        s.phase == Phase::Ask,
        buttons.first.covers(x as int, y as int) || buttons.second.covers(x as int, y as int),
    ensures
        s.clicked(x, y, buttons, now) == (OverlayView {
            owed: Owed::Settings,
            effects: s.effects + seq![Effect::ReadSettings],
            ..s
        }),
{
    assert(s.effects + seq![Effect::ReadSettings] =~= s.effects.push(Effect::ReadSettings));
}

/// Whether the next candidate's turn comes in `out`, or the candidates are
/// through: the confirmed uninstallers are started then, or else the queued items
/// recycled, or else the monster flies away.
pub open spec fn goes_on(s: OverlayView, out: OverlayView, now: u64) -> bool {
    &&& out.current == s.current + 1
    &&& if s.current + 1 < s.candidates.len() {
        &&& out.phase == Phase::SelectUninstallTarget && out.phase_started == now
        &&& out.owed == s.owed && out.effects == s.effects
        &&& same_kick(s, out)
    } else {
        is_finish(s, out, now)
    }
}

/// Whether the candidates are through in `out`.
pub open spec fn is_finish(s: OverlayView, out: OverlayView, now: u64) -> bool {
    if out.confirmed.len() > 0 {
        &&& out.owed == Owed::Launch
        &&& out.effects == s.effects.push(Effect::LaunchUninstallers)
        &&& out.phase == s.phase && out.phase_started == s.phase_started
        &&& same_kick(s, out)
    } else {
        out.owed == s.owed && is_departure(s, out, now)
    }
}

/// Whether the two states agree on the last kick.
pub open spec fn same_kick(s: OverlayView, out: OverlayView) -> bool {
    &&& out.after_kick == s.after_kick
    &&& out.deletion_started == s.deletion_started
    &&& out.explosion_started == s.explosion_started
}

/// Whether `out` recycles what is queued, with a kick after which the monster
/// flies away, or has it fly away at once where nothing is queued.
pub open spec fn is_departure(s: OverlayView, out: OverlayView, now: u64) -> bool {
    &&& out.phase_started == now
    &&& if out.delete_targets.len() > 0 {
        is_kick(s, out, AfterKick::FlyAway, now)
    } else {
        out.phase == Phase::Fly && out.effects == s.effects && same_kick(s, out)
    }
}

/// Whether a kick that is yet to hit starts in `out`.
pub open spec fn is_kick(s: OverlayView, out: OverlayView, after_kick: AfterKick, now: u64) -> bool {
    &&& out.phase == Phase::Kick && out.phase_started == now
    &&& out.after_kick == after_kick
    &&& !out.deletion_started && out.explosion_started is None
    &&& out.effects == s.effects.push(Effect::LoadKickSequence)
}

/// Whether the two states agree on what no answer of the user touches.
pub open spec fn same_ground(s: OverlayView, out: OverlayView) -> bool {
    &&& out.width == s.width && out.height == s.height && out.targets == s.targets
    &&& out.target_position == s.target_position && out.points_left == s.points_left
    &&& out.explosion_positions == s.explosion_positions
    &&& out.candidates == s.candidates && out.markers == s.markers
    &&& out.probe_sources == s.probe_sources && out.probe == s.probe
    &&& out.error == s.error && out.recycled == s.recycled
}

/// Who wants a program uninstalled gets it confirmed, and its item recycled where
/// that is a shortcut; the program itself is never queued. Then it goes on.
pub proof fn law_first_answer_uninstalls(
    s: OverlayView,
    x: i32,
    y: i32,
    buttons: Buttons,
    now: u64,
)
    requires
        s.phase == Phase::UninstallAsk,
        s.current < s.candidates.len(),
        buttons.first.covers(x as int, y as int),
    ensures
        ({
            let out = s.clicked(x, y, buttons, now);
            let candidate = s.candidates[s.current as int];
            &&& out.confirmed == s.confirmed + seq![candidate]
            &&& is_shortcut(candidate.source) ==> {
                &&& lists_path(out.delete_targets, candidate.source)
                &&& out.delete_targets == s.delete_targets || out.delete_targets
                    == s.delete_targets + seq![candidate.source]
            }
            &&& !is_shortcut(candidate.source) ==> out.delete_targets == s.delete_targets
            &&& goes_on(s, out, now)
            &&& same_ground(s, out)
        }),
{
    let candidate = s.candidates[s.current as int];
    lemma_queued(s.delete_targets, candidate.source);
    assert(s.confirmed + seq![candidate] =~= s.confirmed.push(candidate));
    assert(s.delete_targets + seq![candidate.source] =~= s.delete_targets.push(candidate.source));
}

/// Who wants only the item deleted gets just that: it is queued for the recycle
/// bin, and no program is confirmed. Then it goes on.
pub proof fn law_second_answer_deletes_the_item(
    s: OverlayView,
    x: i32,
    y: i32,
    buttons: Buttons,
    now: u64,
)
    requires
        s.phase == Phase::UninstallAsk,
        s.current < s.candidates.len(),
        buttons.second.covers(x as int, y as int),
        !buttons.first.covers(x as int, y as int),
    ensures
        ({
            let out = s.clicked(x, y, buttons, now);
            let source = s.candidates[s.current as int].source;
            &&& out.confirmed == s.confirmed
            &&& lists_path(out.delete_targets, source)
            &&& out.delete_targets == s.delete_targets || out.delete_targets == s.delete_targets
                + seq![source]
            &&& goes_on(s, out, now)
            &&& same_ground(s, out)
        }),
{
    let source = s.candidates[s.current as int].source;
    lemma_queued(s.delete_targets, source);
    assert(s.delete_targets + seq![source] =~= s.delete_targets.push(source));
}

/// Whether of the selection exactly the items that are no candidate's are queued
/// in `out`.
pub open spec fn queues_the_others(s: OverlayView, out: OverlayView) -> bool {
    &&& forall|t: int|
        0 <= t < s.targets.len() ==> (lists_path(out.delete_targets, #[trigger] s.targets[t])
            <==> !is_some_candidates(s, s.targets[t]))
    &&& forall|i: int|
        0 <= i < out.delete_targets.len() ==> s.targets.contains(#[trigger] out.delete_targets[i])
}

/// Whether a candidate was found behind the item.
pub open spec fn is_some_candidates(s: OverlayView, target: Seq<char>) -> bool {
    exists|c: int|
        0 <= c < s.candidates.len() && same_path((#[trigger] s.candidates[c]).source, target)
}

proof fn lemma_queues_the_others(s: OverlayView)
    requires
        s.holds_always(),
        s.delete_targets.len() == 0,
        s.recycled.len() == 0,
    ensures
        queues_the_others(s, s.queueing_ordinary()),
{
    let out = s.queueing_ordinary();
    let owned = sources(s.candidates);
    lemma_queueing_ordinary(s);
    assert forall|t: int| 0 <= t < s.targets.len() implies (lists_path(
        out.delete_targets,
        #[trigger] s.targets[t],
    ) <==> !is_some_candidates(s, s.targets[t])) by {
        let target = s.targets[t];
        if is_some_candidates(s, target) {
            let c = choose|c: int|
                0 <= c < s.candidates.len() && same_path(
                    (#[trigger] s.candidates[c]).source,
                    target,
                );
            if lists_path(out.delete_targets, target) {
                let i = choose|i: int|
                    0 <= i < out.delete_targets.len() && same_path(
                        #[trigger] out.delete_targets[i],
                        target,
                    );
                assert(!same_path(out.delete_targets[i], owned[c]));
            }
        } else if lists_path(owned, target) {
            let c = choose|c: int| 0 <= c < owned.len() && same_path(#[trigger] owned[c], target);
            assert(same_path(s.candidates[c].source, target));
        }
    }
}

/// Who goes through several programs one by one has the other items recycled
/// first, and no program confirmed yet. Where there are no others, the crosshair
/// comes at once.
pub proof fn law_first_answer_goes_one_by_one(
    s: OverlayView,
    x: i32,
    y: i32,
    buttons: Buttons,
    now: u64,
)
    requires
        s.wf(),
        s.owed == Owed::Nothing,
        s.phase == Phase::UninstallModeAsk,
        buttons.first.covers(x as int, y as int),
    ensures
        ({
            let out = s.clicked(x, y, buttons, now);
            &&& out.confirmed.len() == 0
            &&& out.current == 0
            &&& queues_the_others(s, out)
            &&& if out.delete_targets.len() > 0 {
                is_kick(s, out, AfterKick::SelectUninstallTarget, now)
            } else {
                &&& out.phase == Phase::SelectUninstallTarget && out.phase_started == now
                &&& out.effects == s.effects
                &&& same_kick(s, out)
            }
            &&& out.owed == Owed::Nothing
            &&& same_ground(s, out)
        }),
{
    lemma_queues_the_others(s);
}

/// Who wants all programs uninstalled gets them started together at once. Every
/// item that is no candidate's is queued for the recycle bin, and every
/// candidate's item that is a shortcut, and nothing else.
pub proof fn law_second_answer_uninstalls_all(
    s: OverlayView,
    x: i32,
    y: i32,
    buttons: Buttons,
    now: u64,
)
    requires
        s.wf(),
        s.owed == Owed::Nothing,
        s.phase == Phase::UninstallModeAsk,
        buttons.second.covers(x as int, y as int),
        !buttons.first.covers(x as int, y as int),
    ensures
        ({
            let out = s.clicked(x, y, buttons, now);
            &&& forall|id: Seq<char>| #[trigger] has_id(out.confirmed, id) == has_id(s.candidates, id)
            &&& is_pick(
                out.confirmed,
                s.candidates.len(),
                |k: int|
                    forall|j: int|
                        0 <= j < k ==> (#[trigger] s.candidates[j]).id != s.candidates[k].id,
                |k: int| s.candidates[k],
            )
            &&& forall|t: int|
                0 <= t < s.targets.len() && !is_some_candidates(s, #[trigger] s.targets[t])
                    ==> lists_path(out.delete_targets, s.targets[t])
            &&& forall|c: int|
                0 <= c < s.candidates.len() && is_shortcut((#[trigger] s.candidates[c]).source)
                    ==> lists_path(out.delete_targets, s.candidates[c].source)
            &&& forall|path: Seq<char>| #[trigger]
                lists_path(out.delete_targets, path) && is_some_candidates(s, path) ==> exists|
                    c: int,
                |
                    0 <= c < s.candidates.len() && same_path(
                        (#[trigger] s.candidates[c]).source,
                        path,
                    ) && is_shortcut(s.candidates[c].source)
            &&& out.owed == Owed::Launch
            &&& out.effects == s.effects.push(Effect::LaunchUninstallers)
            &&& out.phase == s.phase && out.phase_started == s.phase_started
            &&& out.current == s.current
            &&& same_kick(s, out)
            &&& same_ground(s, out)
        }),
{
    let out = s.clicked(x, y, buttons, now);
    let first = OverlayView {
        confirmed: first_of_each_id(s.candidates),
        ..s
    };
    let second = first.queueing_ordinary();
    let owned = sources(s.candidates);
    let links = shortcuts(owned);
    law_first_of_each_id_is_kept(s.candidates);
    assert(has_id(s.candidates, s.candidates[0].id));
    assert(has_id(first.confirmed, s.candidates[0].id));
    assert forall|i: int| 0 <= i < first.confirmed.len() implies first.candidates.contains(
        #[trigger] first.confirmed[i],
    ) by {
        law_each_id_is_kept_once(s.candidates);
    }
    lemma_queues_the_others(first);
    lemma_shortcuts(owned);
    lemma_queued_all(second.delete_targets, links);
    law_shortcuts_are_picked(owned);
    assert forall|t: int|
        0 <= t < s.targets.len() && !is_some_candidates(s, #[trigger] s.targets[t]) implies lists_path(
        out.delete_targets,
        s.targets[t],
    ) by {
        assert(!is_some_candidates(first, first.targets[t]));
        assert(lists_path(second.delete_targets, first.targets[t]));
    }
    assert forall|c: int|
        0 <= c < s.candidates.len() && is_shortcut((#[trigger] s.candidates[c]).source) implies lists_path(
        out.delete_targets,
        s.candidates[c].source,
    ) by {
        let keep = |k: int| is_shortcut(owned[k]);
        assert(keep(c));
        lemma_picked_before(keep, c as nat, owned.len());
        assert(links[picked_before(keep, c as nat) as int] == owned[c]);
        assert(lists_path(links, owned[c]));
    }
    assert forall|path: Seq<char>| #[trigger]
        lists_path(out.delete_targets, path) && is_some_candidates(s, path) implies exists|c: int|
        0 <= c < s.candidates.len() && same_path((#[trigger] s.candidates[c]).source, path)
            && is_shortcut(s.candidates[c].source) by {
        if lists_path(second.delete_targets, path) {
            let i = choose|i: int|
                0 <= i < second.delete_targets.len() && same_path(
                    #[trigger] second.delete_targets[i],
                    path,
                );
            let c = choose|c: int|
                0 <= c < s.candidates.len() && same_path((#[trigger] s.candidates[c]).source, path);
            lemma_queueing_ordinary(first);
            assert(!same_path(second.delete_targets[i], owned[c]));
        }
        let i = choose|i: int| 0 <= i < links.len() && same_path(#[trigger] links[i], path);
        let k = lemma_picks_come_from_places(
            links,
            owned.len(),
            |k: int| is_shortcut(owned[k]),
            |k: int| owned[k],
            i,
        );
        assert(same_path(s.candidates[k].source, path));
    }
}

/// Where a program can only be deleted, the first answer has the whole selection
/// recycled with one kick, and the second only closes.
pub proof fn law_answers_on_what_cannot_be_uninstalled(
    s: OverlayView,
    x: i32,
    y: i32,
    buttons: Buttons,
    now: u64,
)
    requires
        s.phase == Phase::UninstallUnavailable,
    ensures
        ({
            let out = s.clicked(x, y, buttons, now);
            &&& buttons.first.covers(x as int, y as int) ==> {
                &&& forall|t: int|
                    0 <= t < s.targets.len() ==> lists_path(
                        out.delete_targets,
                        #[trigger] s.targets[t],
                    )
                &&& is_kick(s, out, AfterKick::FlyAway, now)
                &&& out.confirmed == s.confirmed && out.owed == s.owed && out.current == s.current
                &&& same_ground(s, out)
            }
            &&& buttons.second.covers(x as int, y as int) && !buttons.first.covers(
                x as int,
                y as int,
            ) ==> out == (OverlayView { effects: s.effects.push(Effect::Close), ..s })
        }),
{
    lemma_everything_is_queued(s);
}

proof fn lemma_everything_is_queued(s: OverlayView)
    ensures
        forall|t: int|
            0 <= t < s.targets.len() ==> lists_path(
                s.queueing_all(s.targets).delete_targets,
                #[trigger] s.targets[t],
            ),
{
    lemma_queued_all(s.delete_targets, s.targets);
    assert forall|t: int| 0 <= t < s.targets.len() implies lists_path(
        s.queueing_all(s.targets).delete_targets,
        #[trigger] s.targets[t],
    ) by {
        assert(same_path(s.targets[t], s.targets[t]));
        assert(lists_path(s.targets, s.targets[t]));
    }
}

/// In the dialog that asks for more rights the left button asks for them, the
/// right one closes, and a click elsewhere does nothing. Both stand in the middle
/// of the screen.
pub proof fn law_dialog_asks_for_rights(
    s: OverlayView,
    x: i32,
    y: i32,
    buttons: Buttons,
    now: u64,
)
    requires
        s.phase == Phase::Elevate,
    ensures
        ({
            let out = s.clicked(x, y, buttons, now);
            let dx = x - s.width as int / 2;
            let dy = y - s.height as int / 2;
            let in_row = 20 <= dy < 65;
            &&& in_row && -160 <= dx < -20 ==> out == (OverlayView {
                owed: Owed::Elevation,
                effects: s.effects.push(Effect::RequestElevation),
                ..s
            })
            &&& in_row && 20 <= dx < 160 ==> out == (OverlayView {
                effects: s.effects.push(Effect::Close),
                ..s
            })
            &&& !in_row || !(-160 <= dx < -20 || 20 <= dx < 160) ==> out == s
        }),
{
}

/// A click on a reported error closes the overlay, wherever it is.
pub proof fn law_errors_are_clicked_away(
    s: OverlayView,
    x: i32,
    y: i32,
    buttons: Buttons,
    now: u64,
)
    requires
        s.phase == Phase::Error,
    ensures
        s.clicked(x, y, buttons, now) == (OverlayView {
            effects: s.effects.push(Effect::Close),
            ..s
        }),
{
}

/// How long the phase has lasted, in milliseconds.
pub open spec fn lasted(s: OverlayView, now: u64) -> int {
    if s.phase_started <= now {
        now - s.phase_started
    } else {
        0
    }
}

/// Whether `out` is `s` with another phase, entered at `now`, and with more to do.
pub open spec fn moves_on(
    s: OverlayView,
    out: OverlayView,
    phase: Phase,
    more: Seq<Effect>,
    now: u64,
) -> bool {
    out == (OverlayView { phase, phase_started: now, effects: s.effects + more, ..s })
}

/// The selection fades for half a second, the monster walks for four and a half,
/// points for half a second and then asks, and it flies for two seconds. As long
/// as that is not over, nothing happens.
pub proof fn law_show_keeps_its_time(
    s: OverlayView,
    news: NewsView,
    fan: Seq<(i32, i32)>,
    now: u64,
)
    ensures
        ({
            let out = s.ticked(news, fan, now);
            let ms = lasted(s, now);
            &&& s.phase == Phase::FadeOut ==> if ms >= 500 {
                moves_on(s, out, Phase::Walk, seq![Effect::PlayMusic, Effect::LoadPoint], now)
            } else {
                out == s
            }
            &&& s.phase == Phase::Walk ==> if ms >= 4500 {
                moves_on(s, out, Phase::Point, seq![Effect::PlayTalk], now)
            } else {
                out == s
            }
            &&& s.phase == Phase::Point ==> if ms >= 500 {
                moves_on(
                    s,
                    out,
                    if s.markers.len() > 0 && s.current < s.candidates.len() {
                        Phase::UninstallAsk
                    } else {
                        Phase::Ask
                    },
                    seq![Effect::LoadKickSequence],
                    now,
                )
            } else {
                out == s
            }
            &&& s.phase == Phase::Fly ==> if ms >= 2000 {
                out == (OverlayView { effects: s.effects.push(Effect::Close), ..s })
            } else {
                out == s
            }
        }),
{
    let out = s.ticked(news, fan, now);
    if s.phase == Phase::FadeOut {
        assert(s.effects.push(Effect::PlayMusic).push(Effect::LoadPoint) =~= s.effects + seq![
            Effect::PlayMusic,
            Effect::LoadPoint,
        ]);
    } else if s.phase == Phase::Walk {
        assert(s.effects.push(Effect::PlayTalk) =~= s.effects + seq![Effect::PlayTalk]);
    } else if s.phase == Phase::Point {
        assert(s.effects.push(Effect::LoadKickSequence) =~= s.effects + seq![
            Effect::LoadKickSequence,
        ]);
    }
}

/// Where the overlay waits for the user, time changes nothing.
pub proof fn law_questions_wait(s: OverlayView, news: NewsView, fan: Seq<(i32, i32)>, now: u64)
    requires
        s.phase == Phase::Select || s.phase == Phase::Ask || s.phase == Phase::UninstallModeAsk
            || s.phase == Phase::SelectUninstallTarget || s.phase == Phase::UninstallAsk || s.phase
            == Phase::UninstallUnavailable || s.phase == Phase::Elevate || s.phase == Phase::Error,
    ensures
        s.ticked(news, fan, now) == s,
{
}

/// The foot hits with the sixth of the frames, 625 milliseconds after the kick
/// began, and once in a kick: then it explodes and the queued items are recycled.
/// The kick lasts 1875 milliseconds, and what follows it as long again.
pub proof fn law_kick_hits_once(s: OverlayView, news: NewsView, fan: Seq<(i32, i32)>, now: u64)
    ensures
        ({
            let out = s.ticked(news, fan, now);
            let ms = lasted(s, now);
            &&& s.phase == Phase::Kick ==> if s.deletion_started {
                if ms >= 1875 {
                    moves_on(s, out, Phase::Leo, Seq::empty(), now)
                } else {
                    out == s
                }
            } else if ms >= 625 {
                &&& out.deletion_started
                &&& out.explosion_started == Some(now)
                &&& out.owed == Owed::Recycling
                &&& out.effects == s.effects + seq![Effect::PlayBoom, Effect::Recycle]
                &&& out == (OverlayView {
                    deletion_started: out.deletion_started,
                    explosion_started: out.explosion_started,
                    explosion_positions: out.explosion_positions,
                    owed: out.owed,
                    effects: out.effects,
                    ..s
                })
            } else {
                out == s
            }
            &&& s.phase == Phase::Leo ==> if ms >= 1875 {
                match s.after_kick {
                    AfterKick::FlyAway => moves_on(s, out, Phase::Fly, Seq::empty(), now),
                    AfterKick::AskSingleUninstall => moves_on(
                        s,
                        out,
                        Phase::UninstallAsk,
                        Seq::empty(),
                        now,
                    ),
                    AfterKick::SelectUninstallTarget => s.current <= s.candidates.len()
                        ==> moves_on(s, out, Phase::SelectUninstallTarget, Seq::empty(), now),
                }
            } else {
                out == s
            }
        }),
{
    assert(s.effects + Seq::<Effect>::empty() =~= s.effects);
    assert(s.effects.push(Effect::PlayBoom).push(Effect::Recycle) =~= s.effects + seq![
        Effect::PlayBoom,
        Effect::Recycle,
    ]);
    let ms = lasted(s, now);
    assert(ms / 125 >= 5 <==> ms >= 625);
}

/// When the foot hits, it explodes at the points that were marked one by one; at
/// the target where nothing is marked and one item is queued; and else once for
/// each queued item, as far from the target as the fan says.
pub proof fn law_explosions_are_where_the_user_aimed(
    s: OverlayView,
    news: NewsView,
    fan: Seq<(i32, i32)>,
    now: u64,
)
    requires
        s.phase == Phase::Kick,
        !s.deletion_started,
        lasted(s, now) >= 625,
        s.fan_fits(fan),
    ensures
        ({
            let spots = s.ticked(news, fan, now).explosion_positions;
            &&& s.markers.len() > 0 ==> spots == s.markers
            &&& s.markers.len() == 0 && s.delete_targets.len() == 1 ==> spots == seq![
                s.target_position,
            ]
            &&& s.markers.len() == 0 && s.delete_targets.len() > 1 ==> {
                &&& spots.len() == s.delete_targets.len()
                &&& forall|i: int|
                    0 <= i < spots.len() ==> {
                        &&& (#[trigger] spots[i]).0 - s.target_position.0 == fan[i].0
                        &&& spots[i].1 - s.target_position.1 == fan[i].1
                    }
            }
        }),
{
    let ms = lasted(s, now);
    assert(ms / 125 >= 5);
    let spots = s.ticked(news, fan, now).explosion_positions;
    if s.markers.len() == 0 && s.delete_targets.len() > 1 {
        assert forall|i: int| 0 <= i < spots.len() implies {
            &&& (#[trigger] spots[i]).0 - s.target_position.0 == fan[i].0
            &&& spots[i].1 - s.target_position.1 == fan[i].1
        } by {
            assert(is_coordinate(s.target_position.0 + fan[i].0));
        }
    }
}

/// Once the settings are read: where programs are offered and an item has a name
/// to look at, the program behind each such item is looked for, and nothing else
/// happens yet. A selection of several items goes by the patterns for several, a
/// single item by the others. In every other case all items are recycled with one
/// kick.
pub proof fn law_settings_decide(s: OverlayView, config: ConfigView, now: u64)
    ensures
        ({
            let out = s.told_settings(config, now);
            let patterns = if s.targets.len() >= 2 {
                config.batch_target_patterns
            } else {
                config.target_patterns
            };
            let some = exists|t: int|
                0 <= t < s.targets.len() && name_matches(#[trigger] s.targets[t], patterns);
            if config.enabled && some {
                &&& is_pick(
                    out.probe_sources,
                    s.targets.len(),
                    |k: int| name_matches(s.targets[k], patterns),
                    |k: int| s.targets[k],
                )
                &&& out == (OverlayView {
                    probe_sources: out.probe_sources,
                    owed: Owed::Programs,
                    effects: s.effects.push(Effect::FindPrograms),
                    ..s
                })
            } else {
                recycles_all_at_once(s, out, now)
            }
        }),
{
    let patterns = if s.targets.len() >= 2 {
        config.batch_target_patterns
    } else {
        config.target_patterns
    };
    let list = wanted(s.targets, patterns);
    law_wanted_items_match(s.targets, patterns);
    lemma_everything_is_queued(s);
    let keep = |k: int| name_matches(s.targets[k], patterns);
    if exists|t: int| 0 <= t < s.targets.len() && name_matches(#[trigger] s.targets[t], patterns) {
        let t = choose|t: int|
            0 <= t < s.targets.len() && name_matches(#[trigger] s.targets[t], patterns);
        assert(keep(t));
        lemma_picked_before(keep, t as nat, s.targets.len());
        assert(list.len() > 0);
    } else if list.len() > 0 {
        let k = lemma_picks_come_from_places(
            list,
            s.targets.len(),
            keep,
            |k: int| s.targets[k],
            0,
        );
        assert(name_matches(s.targets[k], patterns));
    }
}

/// Whether every selected item is queued in `out`, and a kick starts after which
/// the monster flies away; nothing is confirmed, found or asked.
pub open spec fn recycles_all_at_once(s: OverlayView, out: OverlayView, now: u64) -> bool {
    &&& forall|t: int|
        0 <= t < s.targets.len() ==> lists_path(out.delete_targets, #[trigger] s.targets[t])
    &&& is_kick(s, out, AfterKick::FlyAway, now)
    &&& out.owed == Owed::Nothing
    &&& out.confirmed == s.confirmed && out.current == s.current
    &&& same_ground(s, OverlayView { probe_sources: s.probe_sources, ..out })
}

/// Once programs were looked for: where one was found and the bridge is there, it
/// is asked about exactly the items behind which there is a program, each with its
/// own. In every other case all items are recycled with one kick.
pub proof fn law_found_programs_are_asked_about(
    s: OverlayView,
    programs: Seq<Option<Seq<char>>>,
    bridge_is_file: bool,
    now: u64,
)
    requires
        programs.len() == s.probe_sources.len(),
    ensures
        ({
            let out = s.told_programs(programs, bridge_is_file, now);
            let some = exists|k: int| 0 <= k < programs.len() && #[trigger] programs[k] is Some;
            if some && bridge_is_file {
                &&& is_pick(
                    out.probe,
                    programs.len(),
                    |k: int| programs[k] is Some,
                    |k: int|
                        ProbeTargetView {
                            source: s.probe_sources[k],
                            executable: programs[k]->0,
                        },
                )
                &&& out == (OverlayView {
                    probe: out.probe,
                    probe_sources: Seq::empty(),
                    owed: Owed::Nothing,
                    effects: s.effects.push(Effect::StartProbe),
                    phase: Phase::DetectUninstall,
                    phase_started: now,
                    ..s
                })
            } else {
                recycles_all_at_once(s, out, now)
            }
        }),
{
    let n = programs.len();
    let keep = |k: int| programs[k] is Some;
    let item = |k: int|
        ProbeTargetView { source: s.probe_sources[k], executable: programs[k]->0 };
    law_programs_stay_with_their_items(s.probe_sources, programs, n);
    lemma_everything_is_queued(s);
    let list = s.askable(programs);
    assert(list == with_programs(s.probe_sources, programs, n));
    if exists|k: int| 0 <= k < n && #[trigger] programs[k] is Some {
        let k = choose|k: int| 0 <= k < n && #[trigger] programs[k] is Some;
        assert(keep(k));
        lemma_picked_before(keep, k as nat, n);
        assert(list.len() > 0);
    } else if list.len() > 0 {
        let k = lemma_picks_come_from_places(list, n, keep, item, 0);
        assert(programs[k] is Some);
    }
}

/// Once the bridge has answered: the candidates are the answers that name one,
/// each for the item that was asked about. Where there is none, all items are
/// recycled with one kick. Where there is one, the other items are recycled and
/// then it is asked about, or at once where there are no others. Where there are
/// several, the user is asked how to go on. An answer that gets lost is none.
pub proof fn law_answers_decide(
    s: OverlayView,
    answers: Seq<ProbeView>,
    fan: Seq<(i32, i32)>,
    now: u64,
)
    requires
        s.wf(),
        s.owed == Owed::Nothing,
        s.phase == Phase::DetectUninstall,
        answers.len() == s.probe.len(),
    ensures
        s.ticked(NewsView::Pending, fan, now) == s,
        recycles_all_at_once(
            OverlayView { probe: Seq::empty(), ..s },
            s.ticked(NewsView::Lost, fan, now),
            now,
        ),
        ({
            let out = s.ticked(NewsView::Answered(answers), fan, now);
            let found = OverlayView { candidates: out.candidates, probe: Seq::empty(), ..s };
            &&& is_pick(
                out.candidates,
                answers.len(),
                |k: int| answers[k] is Candidate,
                |k: int|
                    CandidateView {
                        source: s.probe[k].source,
                        executable: answers[k]->Candidate_0.executable,
                        id: answers[k]->Candidate_0.id,
                        display_name: answers[k]->Candidate_0.display_name,
                    },
            )
            &&& out.candidates.len() == 0 ==> recycles_all_at_once(found, out, now)
            &&& out.candidates.len() == 1 ==> {
                &&& queues_the_others(found, out)
                &&& if out.delete_targets.len() > 0 {
                    is_kick(s, out, AfterKick::AskSingleUninstall, now)
                } else {
                    &&& out.phase == Phase::UninstallAsk && out.phase_started == now
                    &&& out.effects == s.effects
                    &&& same_kick(s, out)
                }
                &&& out.owed == Owed::Nothing && out.confirmed.len() == 0 && out.current == 0
                &&& same_ground(found, out)
            }
            &&& out.candidates.len() > 1 ==> out == (OverlayView {
                phase: Phase::UninstallModeAsk,
                phase_started: now,
                ..found
            })
        }),
{
    let n = answers.len();
    law_answers_stay_with_their_items(s.probe, answers, n);
    let list = found_candidates(s.probe, answers, n);
    lemma_found_candidates(s.probe, answers, n, s.targets);
    let found = OverlayView {
        candidates: list,
        probe: Seq::empty(),
        current: 0,
        confirmed: Seq::empty(),
        markers: Seq::empty(),
        ..s
    };
    assert(s.confirmed =~= Seq::empty());
    assert(s.markers =~= Seq::<(i32, i32)>::empty());
    assert(found =~= (OverlayView { candidates: list, probe: Seq::empty(), ..s }));
    lemma_everything_is_queued(found);
    lemma_queues_the_others(found);
    let none = OverlayView { candidates: Seq::empty(), probe: Seq::empty(), ..s };
    assert(s.candidates =~= Seq::empty());
    assert(none =~= (OverlayView { probe: Seq::empty(), ..s }));
    lemma_everything_is_queued(none);
    let lost = s.ticked(NewsView::Lost, fan, now);
    assert(found_candidates(s.probe, Seq::<ProbeView>::empty(), 0).len()
        == 0);
    assert(lost == none.recycling_everything(now));
}

/// Once items were recycled they are queued no more, and a kick that is over is
/// left. Where rights are missing, the overlay asks for them and keeps the queue.
/// Any other failure is shown, with what it says, and the queue kept.
pub proof fn law_recycling_is_reported(s: OverlayView, outcome: OutcomeView, now: u64)
    requires
        s.phase == Phase::Kick,
    ensures
        ({
            let out = s.told_recycled(outcome, now);
            &&& out.owed == Owed::Nothing
            &&& outcome is Done ==> {
                let done = OverlayView {
                    owed: Owed::Nothing,
                    delete_targets: Seq::empty(),
                    recycled: s.recycled + s.delete_targets,
                    ..s
                };
                if lasted(s, now) >= 1875 {
                    moves_on(done, out, Phase::Leo, Seq::empty(), now)
                } else {
                    out == done
                }
            }
            &&& outcome is AccessDenied ==> out == (OverlayView {
                owed: Owed::Nothing,
                phase: Phase::Elevate,
                phase_started: now,
                ..s
            })
            &&& outcome matches OutcomeView::Failed(message) ==> out == (OverlayView {
                owed: Owed::Nothing,
                phase: Phase::Error,
                phase_started: now,
                error: Some("删除失败："@ + message),
                ..s
            })
        }),
{
    assert(s.effects + Seq::<Effect>::empty() =~= s.effects);
}

/// Once the uninstallers were started, what is queued is recycled, or the monster
/// flies away. Where they could not be started, that is shown, and nothing is
/// recycled.
pub proof fn law_launch_is_reported(s: OverlayView, failure: Option<Seq<char>>, now: u64)
    ensures
        ({
            let out = s.told_launched(failure, now);
            &&& out.owed == Owed::Nothing
            &&& out.delete_targets == s.delete_targets && out.confirmed == s.confirmed
            &&& out.current == s.current
            &&& failure is None ==> is_departure(s, out, now) && same_ground(s, out)
            &&& failure matches Some(message) ==> out == (OverlayView {
                owed: Owed::Nothing,
                phase: Phase::Error,
                phase_started: now,
                error: Some("无法启动软件的官方卸载程序："@ + message),
                ..s
            })
        }),
{
}

/// Once more rights were asked for, the overlay closes: the other process does the
/// rest. Where they were refused, that is shown.
pub proof fn law_elevation_is_reported(s: OverlayView, failure: Option<Seq<char>>, now: u64)
    ensures
        ({
            let out = s.told_elevated(failure, now);
            &&& failure is None ==> out == (OverlayView {
                owed: Owed::Nothing,
                effects: s.effects.push(Effect::Close),
                ..s
            })
            &&& failure matches Some(message) ==> out == (OverlayView {
                owed: Owed::Nothing,
                phase: Phase::Error,
                phase_started: now,
                error: Some("无法请求管理员权限："@ + message),
                ..s
            })
        }),
{
}

} // verus!
