//! The states of the overlay and how one follows another.

use vstd::prelude::*;

use crate::bridge::{probe_views, BcuProbe, CandidateView, ProbeView};
use crate::config::{name_matches, ConfigView};
use crate::layout::{
    first_choice, is_coordinate, modal_area, modal_button, second_choice, Area, ChoiceMetrics,
};
use crate::paths::{is_shortcut, lists_path};

verus! {

/// What the overlay is doing.
#[derive(Clone, Copy, PartialEq, Eq, Structural)]
pub enum Phase {
    Select,
    FadeOut,
    Walk,
    Point,
    Ask,
    DetectUninstall,
    UninstallModeAsk,
    SelectUninstallTarget,
    UninstallAsk,
    UninstallUnavailable,
    Kick,
    Leo,
    Fly,
    Elevate,
    Error,
}

/// What follows the kick that deletes.
#[derive(Clone, Copy, PartialEq, Eq, Structural)]
pub enum AfterKick {
    FlyAway,
    AskSingleUninstall,
    SelectUninstallTarget,
}

/// Something that the program shall do, in the order in which it is asked for.
#[derive(Clone, Copy, PartialEq, Eq, Structural)]
pub enum Effect {
    RestoreCursor,
    LoadWalk,
    LoadPoint,
    LoadKickSequence,
    PlayMusic,
    PlayTalk,
    PlayBoom,
    /// Read the settings and hand them to [`crate::overlay::OverlayApp::settings_read`].
    ReadSettings,
    /// Find the programs behind [`crate::overlay::OverlayApp::probe_sources`] and hand them to
    /// [`crate::overlay::OverlayApp::programs_found`].
    FindPrograms,
    /// Ask the bridge about [`crate::overlay::OverlayApp::uninstall_probe`].
    StartProbe,
    /// Recycle [`crate::overlay::OverlayApp::delete_targets`] and report it to
    /// [`crate::overlay::OverlayApp::recycle_ended`].
    Recycle,
    /// Start the uninstallers of [`crate::overlay::OverlayApp::confirmed_uninstall_candidates`]
    /// and report it to [`crate::overlay::OverlayApp::launch_ended`].
    LaunchUninstallers,
    /// Ask for more rights for [`crate::overlay::OverlayApp::delete_targets`] and report it to
    /// [`crate::overlay::OverlayApp::elevation_ended`].
    RequestElevation,
    Close,
}

/// The answer that the overlay waits for before anything else can happen.
#[derive(Clone, Copy, PartialEq, Eq, Structural)]
pub enum Owed {
    Nothing,
    Settings,
    Programs,
    Recycling,
    Launch,
    Elevation,
}

/// A selected item and the program that it leads to.
pub struct ProbeTarget {
    pub source: String,
    pub executable: String,
}

/// What a [`ProbeTarget`] reads.
#[verifier::ext_equal]
pub struct ProbeTargetView {
    pub source: Seq<char>,
    pub executable: Seq<char>,
}

impl View for ProbeTarget {
    type V = ProbeTargetView;

    open spec fn view(&self) -> ProbeTargetView {
        ProbeTargetView { source: self.source@, executable: self.executable@ }
    }
}

pub open spec fn probe_target_views(list: Seq<ProbeTarget>) -> Seq<ProbeTargetView> {
    Seq::new(list.len(), |i: int| list[i]@)
}

/// What an [`OverlayApp`](crate::overlay::OverlayApp) reads.
#[verifier::ext_equal]
pub struct OverlayView {
    pub width: i32,
    pub height: i32,
    pub targets: Seq<Seq<char>>,
    pub delete_targets: Seq<Seq<char>>,
    pub phase: Phase,
    pub phase_started: u64,
    pub target_position: (i32, i32),
    pub points_left: bool,
    pub explosion_started: Option<u64>,
    pub explosion_positions: Seq<(i32, i32)>,
    pub deletion_started: bool,
    pub after_kick: AfterKick,
    pub error: Option<Seq<char>>,
    pub candidates: Seq<CandidateView>,
    pub confirmed: Seq<CandidateView>,
    pub current: nat,
    pub markers: Seq<(i32, i32)>,
    pub probe_sources: Seq<Seq<char>>,
    pub probe: Seq<ProbeTargetView>,
    pub owed: Owed,
    pub effects: Seq<Effect>,
    pub recycled: Seq<Seq<char>>,
}

/// `list` with `path` at its end, unless it is in it already.
pub open spec fn queued(list: Seq<Seq<char>>, path: Seq<char>) -> Seq<Seq<char>> {
    if lists_path(list, path) {
        list
    } else {
        list.push(path)
    }
}

/// `list` with every path of `paths` that is not in it yet, in their order.
pub open spec fn queued_all(list: Seq<Seq<char>>, paths: Seq<Seq<char>>) -> Seq<Seq<char>>
    decreases paths.len(),
{
    if paths.len() == 0 {
        list
    } else {
        queued(queued_all(list, paths.drop_last()), paths.last())
    }
}

/// The selected items of the candidates.
pub open spec fn sources(candidates: Seq<CandidateView>) -> Seq<Seq<char>> {
    Seq::new(candidates.len(), |i: int| candidates[i].source)
}

/// The items that are no candidate's.
pub open spec fn ordinary(targets: Seq<Seq<char>>, candidates: Seq<CandidateView>) -> Seq<Seq<char>>
    decreases targets.len(),
{
    if targets.len() == 0 {
        Seq::empty()
    } else {
        let before = ordinary(targets.drop_last(), candidates);
        if lists_path(sources(candidates), targets.last()) {
            before
        } else {
            before.push(targets.last())
        }
    }
}

/// The shortcuts among paths.
pub open spec fn shortcuts(paths: Seq<Seq<char>>) -> Seq<Seq<char>>
    decreases paths.len(),
{
    if paths.len() == 0 {
        Seq::empty()
    } else {
        let before = shortcuts(paths.drop_last());
        if is_shortcut(paths.last()) {
            before.push(paths.last())
        } else {
            before
        }
    }
}

/// Whether one of the candidates has the identifier `id`.
pub open spec fn has_id(candidates: Seq<CandidateView>, id: Seq<char>) -> bool {
    exists|i: int| 0 <= i < candidates.len() && (#[trigger] candidates[i]).id == id
}

/// The candidates without those whose identifier an earlier one has, in their
/// order.
pub open spec fn first_of_each_id(candidates: Seq<CandidateView>) -> Seq<CandidateView>
    decreases candidates.len(),
{
    if candidates.len() == 0 {
        Seq::empty()
    } else {
        let before = first_of_each_id(candidates.drop_last());
        if has_id(before, candidates.last().id) {
            before
        } else {
            before.push(candidates.last())
        }
    }
}

impl OverlayView {
    /// The state after `phase` was entered.
    pub open spec fn entered(self, phase: Phase, now: u64) -> Self {
        OverlayView { phase, phase_started: now, ..self }
    }

    /// The state with one more effect to perform.
    pub open spec fn doing(self, effect: Effect) -> Self {
        OverlayView { effects: self.effects.push(effect), ..self }
    }

    pub open spec fn queueing(self, path: Seq<char>) -> Self {
        OverlayView { delete_targets: queued(self.delete_targets, path), ..self }
    }

    pub open spec fn queueing_all(self, paths: Seq<Seq<char>>) -> Self {
        OverlayView { delete_targets: queued_all(self.delete_targets, paths), ..self }
    }

    /// The state at the start of a kick.
    pub open spec fn kicking(self, after_kick: AfterKick, now: u64) -> Self {
        (OverlayView {
            after_kick,
            deletion_started: false,
            explosion_started: None,
            ..self
        }).doing(Effect::LoadKickSequence).entered(Phase::Kick, now)
    }

    /// The state when all selected items shall be recycled together.
    pub open spec fn recycling_everything(self, now: u64) -> Self {
        self.queueing_all(self.targets).kicking(AfterKick::FlyAway, now)
    }

    /// The state with the items queued that are no candidate's.
    pub open spec fn queueing_ordinary(self) -> Self {
        self.queueing_all(ordinary(self.targets, self.candidates))
    }

    /// The state when a point shall be assigned to the current candidate.
    pub open spec fn selecting(self, now: u64) -> Self {
        (OverlayView {
            current: if self.current < self.candidates.len() {
                self.current
            } else {
                self.candidates.len()
            },
            ..self
        }).entered(Phase::SelectUninstallTarget, now)
    }

    /// The state when the candidates shall be gone through one by one.
    pub open spec fn going_one_by_one(self, now: u64) -> Self {
        let state = self.queueing_ordinary();
        if state.delete_targets.len() == 0 {
            state.selecting(now)
        } else {
            state.kicking(AfterKick::SelectUninstallTarget, now)
        }
    }

    /// The state when the only candidate shall be asked about.
    pub open spec fn asking_about_one(self, now: u64) -> Self {
        let state = self.queueing_ordinary();
        if state.delete_targets.len() == 0 {
            state.entered(Phase::UninstallAsk, now)
        } else {
            state.kicking(AfterKick::AskSingleUninstall, now)
        }
    }

    /// The state when only queued items are left to deal with.
    pub open spec fn departing(self, now: u64) -> Self {
        if self.delete_targets.len() == 0 {
            self.entered(Phase::Fly, now)
        } else {
            self.kicking(AfterKick::FlyAway, now)
        }
    }

    /// The state when every candidate has been decided on.
    pub open spec fn finishing(self, now: u64) -> Self {
        if self.confirmed.len() > 0 {
            (OverlayView { owed: Owed::Launch, ..self }).doing(Effect::LaunchUninstallers)
        } else {
            self.departing(now)
        }
    }

    /// The state after the current candidate was decided on.
    pub open spec fn advancing(self, now: u64) -> Self {
        let state = OverlayView { current: self.current + 1, ..self };
        if state.current < state.candidates.len() {
            state.selecting(now)
        } else {
            state.finishing(now)
        }
    }

    /// The state after the user wants the current candidate uninstalled. The
    /// shortcut to it goes to the recycle bin.
    pub open spec fn confirming(self, now: u64) -> Self {
        if self.current < self.candidates.len() {
            let candidate = self.candidates[self.current as int];
            let state = if is_shortcut(candidate.source) {
                self.queueing(candidate.source)
            } else {
                self
            };
            (OverlayView { confirmed: state.confirmed.push(candidate), ..state }).advancing(now)
        } else {
            self.advancing(now)
        }
    }

    /// The state after the user wants the current candidate's item deleted.
    pub open spec fn deleting(self, now: u64) -> Self {
        if self.current < self.candidates.len() {
            self.queueing(self.candidates[self.current as int].source).advancing(now)
        } else {
            self.advancing(now)
        }
    }

    /// The state after the user wants every candidate uninstalled. Each program is
    /// confirmed once, however many items lead to it.
    pub open spec fn uninstalling_all(self, now: u64) -> Self {
        (OverlayView {
            confirmed: first_of_each_id(self.candidates),
            ..self
        }).queueing_ordinary().queueing_all(shortcuts(sources(self.candidates))).finishing(now)
    }
}

/// How long the selection takes to fade.
pub const FADE_MS: u64 = 500;
/// How long the monster walks.
pub const WALK_MS: u64 = 4500;
/// How long the monster raises its arm.
pub const POINT_MS: u64 = 500;
/// How long a full animation of fifteen frames takes.
pub const ANIMATION_MS: u64 = 1875;
/// How long the monster flies.
pub const FLY_MS: u64 = 2000;
/// How long one frame is shown.
pub const FRAME_MS: u64 = 125;
/// The frame of the kick at which the foot hits.
pub const HIT_FRAME: u64 = 5;

/// The time from `start` to `now`; nothing where `now` is the earlier.
pub open spec fn time_since(start: u64, now: u64) -> u64 {
    if start <= now {
        (now - start) as u64
    } else {
        0
    }
}

/// What the bridge has answered so far.
pub enum ProbeNews {
    Pending,
    /// One answer for each item of [`crate::overlay::OverlayApp::uninstall_probe`].
    Answered(Vec<BcuProbe>),
    /// There will be no answer.
    Lost,
}

/// What a [`ProbeNews`] reads.
pub enum NewsView {
    Pending,
    Answered(Seq<ProbeView>),
    Lost,
}

impl View for ProbeNews {
    type V = NewsView;

    open spec fn view(&self) -> NewsView {
        match self {
            ProbeNews::Pending => NewsView::Pending,
            ProbeNews::Answered(answers) => NewsView::Answered(probe_views(answers@)),
            ProbeNews::Lost => NewsView::Lost,
        }
    }
}

/// How a move to the recycle bin ended.
pub enum RecycleOutcome {
    Done,
    AccessDenied,
    Failed(String),
}

/// What a [`RecycleOutcome`] reads.
pub enum OutcomeView {
    Done,
    AccessDenied,
    Failed(Seq<char>),
}

impl View for RecycleOutcome {
    type V = OutcomeView;

    open spec fn view(&self) -> OutcomeView {
        match self {
            RecycleOutcome::Done => OutcomeView::Done,
            RecycleOutcome::AccessDenied => OutcomeView::AccessDenied,
            RecycleOutcome::Failed(message) => OutcomeView::Failed(message@),
        }
    }
}

/// The items whose names the settings want looked at. A larger selection has
/// patterns of its own.
pub open spec fn wanted(targets: Seq<Seq<char>>, patterns: Seq<Seq<char>>) -> Seq<Seq<char>>
    decreases targets.len(),
{
    if targets.len() == 0 {
        Seq::empty()
    } else {
        let before = wanted(targets.drop_last(), patterns);
        if name_matches(targets.last(), patterns) {
            before.push(targets.last())
        } else {
            before
        }
    }
}

/// The patterns for a selection of `count` items.
pub open spec fn patterns_for(config: ConfigView, count: nat) -> Seq<Seq<char>> {
    if count > 1 {
        config.batch_target_patterns
    } else {
        config.target_patterns
    }
}

pub open spec fn shorter(a: nat, b: nat) -> nat {
    if a < b {
        a
    } else {
        b
    }
}

/// Of the first `count` items, those behind which a program was found, with it.
pub open spec fn with_programs(
    items: Seq<Seq<char>>,
    programs: Seq<Option<Seq<char>>>,
    count: nat,
) -> Seq<ProbeTargetView>
    decreases count,
{
    if count == 0 {
        Seq::empty()
    } else {
        let before = with_programs(items, programs, (count - 1) as nat);
        match programs[count - 1] {
            Some(executable) => before.push(
                ProbeTargetView { source: items[count - 1], executable },
            ),
            None => before,
        }
    }
}

/// The candidates among the first `count` answers, each with the item that was
/// asked about.
pub open spec fn found_candidates(
    asked: Seq<ProbeTargetView>,
    answers: Seq<ProbeView>,
    count: nat,
) -> Seq<CandidateView>
    decreases count,
{
    if count == 0 {
        Seq::empty()
    } else {
        let before = found_candidates(asked, answers, (count - 1) as nat);
        match answers[count - 1] {
            ProbeView::Candidate(candidate) => before.push(
                CandidateView { source: asked[count - 1].source, ..candidate },
            ),
            _ => before,
        }
    }
}

pub open spec fn program_views(programs: Seq<Option<String>>) -> Seq<Option<Seq<char>>> {
    Seq::new(
        programs.len(),
        |i: int|
            match programs[i] {
                Some(text) => Some(text@),
                None => None,
            },
    )
}

/// The overlay of a new selection.
pub open spec fn first_state(
    targets: Seq<Seq<char>>,
    width: i32,
    height: i32,
    now: u64,
) -> OverlayView {
    OverlayView {
        width,
        height,
        targets,
        delete_targets: Seq::empty(),
        phase: Phase::Select,
        phase_started: now,
        target_position: ((width as int / 2) as i32, (height as int / 2) as i32),
        points_left: false,
        explosion_started: None,
        explosion_positions: Seq::empty(),
        deletion_started: false,
        after_kick: AfterKick::FlyAway,
        error: None,
        candidates: Seq::empty(),
        confirmed: Seq::empty(),
        current: 0,
        markers: Seq::empty(),
        probe_sources: Seq::empty(),
        probe: Seq::empty(),
        owed: Owed::Nothing,
        effects: Seq::empty(),
        recycled: Seq::empty(),
    }
}

/// Whether the phase shows two answer buttons.
pub open spec fn has_choices(phase: Phase) -> bool {
    phase == Phase::Ask || phase == Phase::UninstallModeAsk || phase == Phase::UninstallAsk || phase
        == Phase::UninstallUnavailable
}

/// Where the two answer buttons stand.
pub struct Buttons {
    pub first: Area,
    pub second: Area,
}

/// How often a deletion explodes: once for each point that was assigned, or else
/// once for each item, and never not at all.
pub open spec fn explosion_count(markers: nat, items: nat) -> nat {
    if markers > 0 {
        markers
    } else if items > 0 {
        items
    } else {
        1
    }
}

/// Where a deletion explodes: at the points that were assigned one by one, or
/// else at the target, around which several items fan out.
pub open spec fn explosion_spots(
    markers: Seq<(i32, i32)>,
    items: nat,
    target: (i32, i32),
    fan: Seq<(i32, i32)>,
) -> Seq<(i32, i32)> {
    if markers.len() > 0 {
        markers
    } else if items <= 1 {
        seq![target]
    } else {
        Seq::new(
            items,
            |i: int| ((target.0 + fan[i].0) as i32, (target.1 + fan[i].1) as i32),
        )
    }
}

impl OverlayView {
    /// Whether `fan` says for each of several items how far from the target it
    /// explodes, and every such place is a screen coordinate.
    pub open spec fn fan_fits(self, fan: Seq<(i32, i32)>) -> bool {
        self.markers.len() == 0 && self.delete_targets.len() > 1 ==> {
            &&& fan.len() == self.delete_targets.len()
            &&& forall|i: int|
                0 <= i < fan.len() ==> is_coordinate(
                    self.target_position.0 + (#[trigger] fan[i]).0,
                ) && is_coordinate(self.target_position.1 + fan[i].1)
        }
    }

    /// The state with the places where its deletion explodes.
    pub open spec fn exploding(self, fan: Seq<(i32, i32)>) -> Self {
        OverlayView {
            explosion_positions: explosion_spots(
                self.markers,
                self.delete_targets.len(),
                self.target_position,
                fan,
            ),
            ..self
        }
    }

    /// Whether the next hit of the kick is still to come.
    pub open spec fn awaits_hit(self) -> bool {
        self.phase == Phase::Kick && !self.deletion_started
    }

    pub open spec fn elapsed(self, now: u64) -> u64 {
        time_since(self.phase_started, now)
    }

    pub open spec fn buttons(self, monster: Area, m: ChoiceMetrics) -> Buttons {
        Buttons {
            first: first_choice(self.width as int, self.height as int, monster, m),
            second: second_choice(self.width as int, self.height as int, monster, m),
        }
    }

    /// The state with the target where the user clicked. The monster comes from
    /// the farther side.
    pub open spec fn aiming(self, x: i32, y: i32) -> Self {
        OverlayView {
            target_position: (x, y),
            points_left: x < self.width as int / 2,
            ..self
        }
    }

    /// The state after a click.
    pub open spec fn clicked(self, x: i32, y: i32, buttons: Buttons, now: u64) -> Self {
        let first = buttons.first.covers(x as int, y as int);
        let second = buttons.second.covers(x as int, y as int);
        match self.phase {
            Phase::Select => self.aiming(x, y).doing(Effect::RestoreCursor).doing(
                Effect::LoadWalk,
            ).entered(Phase::FadeOut, now),
            Phase::SelectUninstallTarget => (OverlayView {
                markers: self.markers.push((x, y)),
                ..self.aiming(x, y)
            }).doing(Effect::RestoreCursor).doing(Effect::LoadPoint).entered(Phase::Point, now),
            Phase::Ask => if first || second {
                (OverlayView { owed: Owed::Settings, ..self }).doing(Effect::ReadSettings)
            } else {
                self
            },
            Phase::UninstallAsk => if first {
                self.confirming(now)
            } else if second {
                self.deleting(now)
            } else {
                self
            },
            Phase::UninstallModeAsk => if first {
                self.going_one_by_one(now)
            } else if second {
                self.uninstalling_all(now)
            } else {
                self
            },
            Phase::UninstallUnavailable => if first {
                self.recycling_everything(now)
            } else if second {
                self.doing(Effect::Close)
            } else {
                self
            },
            Phase::Elevate => {
                let panel = modal_area(self.width as int, self.height as int);
                if modal_button(panel, 90).covers(x as int, y as int) {
                    (OverlayView { owed: Owed::Elevation, ..self }).doing(Effect::RequestElevation)
                } else if modal_button(panel, 270).covers(x as int, y as int) {
                    self.doing(Effect::Close)
                } else {
                    self
                }
            },
            Phase::Error => self.doing(Effect::Close),
            _ => self,
        }
    }

    /// The state after the settings were read.
    pub open spec fn told_settings(self, config: ConfigView, now: u64) -> Self {
        let state = OverlayView { owed: Owed::Nothing, ..self };
        let list = wanted(self.targets, patterns_for(config, self.targets.len()));
        if config.enabled && list.len() > 0 {
            (OverlayView { probe_sources: list, owed: Owed::Programs, ..self }).doing(
                Effect::FindPrograms,
            )
        } else {
            state.recycling_everything(now)
        }
    }

    /// What the bridge can be asked about.
    pub open spec fn askable(self, programs: Seq<Option<Seq<char>>>) -> Seq<ProbeTargetView> {
        with_programs(
            self.probe_sources,
            programs,
            shorter(self.probe_sources.len(), programs.len()),
        )
    }

    /// Whether the bridge is to be asked: there is something to ask about, and the
    /// bridge is there.
    pub open spec fn can_probe(
        self,
        programs: Seq<Option<Seq<char>>>,
        bridge_is_file: bool,
    ) -> bool {
        self.askable(programs).len() > 0 && bridge_is_file
    }

    /// The state with what the bridge is to be asked about, if it is.
    pub open spec fn probing(self, programs: Seq<Option<Seq<char>>>, bridge_is_file: bool) -> Self {
        if self.can_probe(programs, bridge_is_file) {
            OverlayView { probe: self.askable(programs), ..self }
        } else {
            self
        }
    }

    /// The state after programs were looked for.
    pub open spec fn told_programs(
        self,
        programs: Seq<Option<Seq<char>>>,
        bridge_is_file: bool,
        now: u64,
    ) -> Self {
        let state = OverlayView {
            owed: Owed::Nothing,
            probe_sources: Seq::empty(),
            ..self.probing(programs, bridge_is_file)
        };
        if self.can_probe(programs, bridge_is_file) {
            state.doing(Effect::StartProbe).entered(Phase::DetectUninstall, now)
        } else {
            state.recycling_everything(now)
        }
    }

    /// The state after the bridge has answered.
    pub open spec fn told_candidates(self, answers: Seq<ProbeView>, now: u64) -> Self {
        let state = OverlayView {
            candidates: found_candidates(
                self.probe,
                answers,
                shorter(self.probe.len(), answers.len()),
            ),
            probe: Seq::empty(),
            current: 0,
            confirmed: Seq::empty(),
            markers: Seq::empty(),
            ..self
        };
        if state.candidates.len() == 0 {
            state.recycling_everything(now)
        } else if state.candidates.len() == 1 {
            state.asking_about_one(now)
        } else {
            state.entered(Phase::UninstallModeAsk, now)
        }
    }

    /// The state when the kick has hit.
    pub open spec fn hitting(self, fan: Seq<(i32, i32)>, now: u64) -> Self {
        (OverlayView {
            deletion_started: true,
            explosion_started: Some(now),
            owed: Owed::Recycling,
            ..self.exploding(fan)
        }).doing(Effect::PlayBoom).doing(Effect::Recycle)
    }

    /// The state after the end of the kick, if it is over.
    pub open spec fn after_the_kick(self, now: u64) -> Self {
        if self.phase == Phase::Kick && self.elapsed(now) >= ANIMATION_MS {
            self.entered(Phase::Leo, now)
        } else {
            self
        }
    }

    /// The state as time passes. `fan` says where several items explode if the kick
    /// hits.
    pub open spec fn ticked(self, news: NewsView, fan: Seq<(i32, i32)>, now: u64) -> Self {
        let elapsed = self.elapsed(now);
        match self.phase {
            Phase::FadeOut => if elapsed >= FADE_MS {
                self.doing(Effect::PlayMusic).doing(Effect::LoadPoint).entered(Phase::Walk, now)
            } else {
                self
            },
            Phase::Walk => if elapsed >= WALK_MS {
                self.doing(Effect::PlayTalk).entered(Phase::Point, now)
            } else {
                self
            },
            Phase::Point => if elapsed >= POINT_MS {
                self.doing(Effect::LoadKickSequence).entered(
                    if self.current < self.candidates.len() && self.markers.len() > 0 {
                        Phase::UninstallAsk
                    } else {
                        Phase::Ask
                    },
                    now,
                )
            } else {
                self
            },
            Phase::DetectUninstall => match news {
                NewsView::Pending => self,
                NewsView::Answered(answers) => self.told_candidates(answers, now),
                NewsView::Lost => self.told_candidates(Seq::empty(), now),
            },
            Phase::Kick => if elapsed / FRAME_MS >= HIT_FRAME && !self.deletion_started {
                self.hitting(fan, now)
            } else {
                self.after_the_kick(now)
            },
            Phase::Leo => if elapsed >= ANIMATION_MS {
                match self.after_kick {
                    AfterKick::FlyAway => self.entered(Phase::Fly, now),
                    AfterKick::AskSingleUninstall => self.entered(Phase::UninstallAsk, now),
                    AfterKick::SelectUninstallTarget => self.selecting(now),
                }
            } else {
                self
            },
            Phase::Fly => if elapsed >= FLY_MS {
                self.doing(Effect::Close)
            } else {
                self
            },
            _ => self,
        }
    }

    /// The state that shows an error.
    pub open spec fn failing(self, message: Seq<char>, now: u64) -> Self {
        (OverlayView { error: Some(message), ..self }).entered(Phase::Error, now)
    }

    /// The state after the queued items were, or were not, recycled.
    pub open spec fn told_recycled(self, outcome: OutcomeView, now: u64) -> Self {
        let state = OverlayView { owed: Owed::Nothing, ..self };
        match outcome {
            OutcomeView::Done => (OverlayView {
                delete_targets: Seq::empty(),
                recycled: self.recycled + self.delete_targets,
                ..state
            }).after_the_kick(now),
            OutcomeView::AccessDenied => state.entered(Phase::Elevate, now),
            OutcomeView::Failed(message) => state.failing("删除失败："@ + message, now),
        }
    }

    /// The state after the uninstallers were started, or were not.
    pub open spec fn told_launched(self, failure: Option<Seq<char>>, now: u64) -> Self {
        let state = OverlayView { owed: Owed::Nothing, ..self };
        match failure {
            Some(message) => state.failing(
                "无法启动软件的官方卸载程序："@ + message,
                now,
            ),
            None => state.departing(now),
        }
    }

    /// The state after more rights were granted, or were not.
    pub open spec fn told_elevated(self, failure: Option<Seq<char>>, now: u64) -> Self {
        let state = OverlayView { owed: Owed::Nothing, ..self };
        match failure {
            Some(message) => state.failing("无法请求管理员权限："@ + message, now),
            None => state.doing(Effect::Close),
        }
    }
}

} // verus!
