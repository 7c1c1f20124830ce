//! The overlay as a state machine: clicks, the passing of time and the results
//! of outside work come in; the next phase and the effects that the program
//! shall perform come out.

use vstd::prelude::*;

use crate::bridge::{
    batch_arguments, candidate_views, launch_bcu_uninstaller, probe_views, BcuCandidate, BcuProbe,
    CandidateView,
};
use crate::config::{
    batch_uninstall_target_matches_config, is_silent, uninstall_feature_enabled,
    uninstall_silent_execution_enabled, uninstall_target_matches_config, UninstallConfig,
};
use crate::layout::{choice_rects, is_coordinate, place_modal, ChoiceMetrics, Choices};
use crate::overlay::soundness::{
    lemma_clicked, lemma_same_accounts, lemma_ticked, lemma_told_elevated, lemma_told_launched,
    lemma_told_programs, lemma_told_recycled, lemma_told_settings,
};
use crate::overlay::state::{
    explosion_spots, first_of_each_id, first_state, found_candidates, has_choices, has_id, ordinary,
    patterns_for, probe_target_views, program_views, shorter, shortcuts, sources, wanted,
    with_programs, AfterKick, Effect, OverlayView, Owed, Phase, ProbeNews, ProbeTarget,
    ProbeTargetView, RecycleOutcome, ANIMATION_MS, FADE_MS, FLY_MS, FRAME_MS, HIT_FRAME, POINT_MS,
    WALK_MS,
};
use crate::paths::{is_listed, is_shortcut_file};
use crate::scene::{asking_area, asking_fits, Sprites};
use crate::text::{same_text, text_view, views};

pub mod lists;
pub mod runs;
pub mod soundness;
pub mod state;
pub mod steps;

verus! {

/// The overlay.
pub struct OverlayApp {
    pub width: i32,
    pub height: i32,
    /// The selected items. They are never replaced by what they lead to.
    pub targets: Vec<String>,
    /// The items that are still to be moved to the recycle bin.
    pub delete_targets: Vec<String>,
    pub phase: Phase,
    /// When the phase was entered, in milliseconds.
    pub phase_started: u64,
    pub target_position: (i32, i32),
    pub points_left: bool,
    pub explosion_started: Option<u64>,
    pub explosion_positions: Vec<(i32, i32)>,
    pub deletion_started: bool,
    pub after_kick: AfterKick,
    pub error: Option<String>,
    pub uninstall_candidates: Vec<BcuCandidate>,
    pub confirmed_uninstall_candidates: Vec<BcuCandidate>,
    pub current_uninstall_candidate: usize,
    /// The points that were assigned to programs one by one.
    pub uninstall_markers: Vec<(i32, i32)>,
    /// The items that the settings want looked at.
    pub probe_sources: Vec<String>,
    /// The items that the bridge is asked about.
    pub uninstall_probe: Vec<ProbeTarget>,
    pub owed: Owed,
    /// What the program shall do, oldest first.
    pub effects: Vec<Effect>,
    /// What was moved to the recycle bin, for statements about a whole run.
    pub recycled: Ghost<Seq<Seq<char>>>,
}

impl View for OverlayApp {
    type V = OverlayView;

    open spec fn view(&self) -> OverlayView {
        OverlayView {
            width: self.width,
            height: self.height,
            targets: views(self.targets@),
            delete_targets: views(self.delete_targets@),
            phase: self.phase,
            phase_started: self.phase_started,
            target_position: self.target_position,
            points_left: self.points_left,
            explosion_started: self.explosion_started,
            explosion_positions: self.explosion_positions@,
            deletion_started: self.deletion_started,
            after_kick: self.after_kick,
            error: match self.error {
                Some(text) => Some(text@),
                None => None,
            },
            candidates: candidate_views(self.uninstall_candidates@),
            confirmed: candidate_views(self.confirmed_uninstall_candidates@),
            current: self.current_uninstall_candidate as nat,
            markers: self.uninstall_markers@,
            probe_sources: views(self.probe_sources@),
            probe: probe_target_views(self.uninstall_probe@),
            owed: self.owed,
            effects: self.effects@,
            recycled: self.recycled@,
        }
    }
}

impl OverlayApp {
    /// Enters a phase.
    pub fn enter(&mut self, phase: Phase, now: u64)
        ensures
            final(self)@ == old(self)@.entered(phase, now),
    {
        self.phase = phase;
        self.phase_started = now;
    }

    fn request(&mut self, effect: Effect)
        ensures
            final(self)@ == old(self)@.doing(effect),
    {
        self.effects.push(effect);
    }

    /// Queues a path for the recycle bin, unless it is queued already.
    pub fn queue_delete_path(&mut self, path: String)
        ensures
            final(self)@ == old(self)@.queueing(path@),
    {
        if !is_listed(&self.delete_targets, path.as_str()) {
            let ghost before = self@;
            let ghost text = path@;
            self.delete_targets.push(path);
            assert(self@.delete_targets =~= before.delete_targets.push(text));
            assert(self@ =~= before.queueing(text));
        }
    }

    /// Queues paths for the recycle bin, in their order.
    pub fn queue_delete_paths(&mut self, paths: &Vec<String>)
        ensures
            final(self)@ == old(self)@.queueing_all(views(paths@)),
    {
        let ghost start = self@;
        let ghost all = views(paths@);
        let mut i: usize = 0;
        while i < paths.len()
            invariant
                i <= paths@.len(),
                all == views(paths@),
                self@ == start.queueing_all(all.take(i as int)),
            decreases paths@.len() - i,
        {
            self.queue_delete_path(paths[i].clone());
            i = i + 1;
            assert(all.take(i as int).drop_last() =~= all.take(i - 1));
            assert(all.take(i as int).last() == all[i - 1]);
        }
        assert(all.take(i as int) =~= all);
    }

    /// Starts the kick that deletes.
    pub fn start_delete_sequence(&mut self, after_kick: AfterKick, now: u64)
        ensures
            final(self)@ == old(self)@.kicking(after_kick, now),
    {
        self.after_kick = after_kick;
        self.deletion_started = false;
        self.explosion_started = None;
        self.request(Effect::LoadKickSequence);
        self.enter(Phase::Kick, now);
    }

    /// Recycles all selected items in one operation.
    pub fn begin_direct_batch_recycle(&mut self, now: u64)
        ensures
            final(self)@ == old(self)@.recycling_everything(now),
    {
        let paths = self.targets.clone();
        assert(views(paths@) =~= self@.targets);
        self.queue_delete_paths(&paths);
        self.start_delete_sequence(AfterKick::FlyAway, now);
    }

    fn candidate_sources(&self) -> (list: Vec<String>)
        ensures
            views(list@) == sources(self@.candidates),
    {
        let mut list: Vec<String> = Vec::new();
        let mut i: usize = 0;
        while i < self.uninstall_candidates.len()
            invariant
                i <= self.uninstall_candidates@.len(),
                list@.len() == i,
                forall|j: int| 0 <= j < i ==> (#[trigger] list@[j])@ == self@.candidates[j].source,
            decreases self.uninstall_candidates@.len() - i,
        {
            list.push(self.uninstall_candidates[i].source.clone());
            i = i + 1;
        }
        assert(views(list@) =~= sources(self@.candidates));
        list
    }

    /// Queues the selected items that are no candidate's.
    pub fn queue_ordinary_targets(&mut self)
        ensures
            final(self)@ == old(self)@.queueing_ordinary(),
    {
        let owned = self.candidate_sources();
        let mut paths: Vec<String> = Vec::new();
        let ghost all = self@.targets;
        let ghost candidates = self@.candidates;
        let mut i: usize = 0;
        assert(views(paths@) =~= ordinary(all.take(0), candidates));
        while i < self.targets.len()
            invariant
                i <= self.targets@.len(),
                all == views(self.targets@),
                views(owned@) == sources(candidates),
                views(paths@) == ordinary(all.take(i as int), candidates),
            decreases self.targets@.len() - i,
        {
            let ghost before = views(paths@);
            if !is_listed(&owned, self.targets[i].as_str()) {
                paths.push(self.targets[i].clone());
                assert(views(paths@) =~= before.push(all[i as int]));
            }
            i = i + 1;
            assert(all.take(i as int).drop_last() =~= all.take(i - 1));
        }
        assert(all.take(i as int) =~= all);
        self.queue_delete_paths(&paths);
    }

    /// Lets the user assign a point to the current candidate.
    pub fn enter_uninstall_target_selection(&mut self, now: u64)
        ensures
            final(self)@ == old(self)@.selecting(now),
    {
        if self.current_uninstall_candidate > self.uninstall_candidates.len() {
            self.current_uninstall_candidate = self.uninstall_candidates.len();
        }
        self.enter(Phase::SelectUninstallTarget, now);
    }

    /// Recycles the ordinary items, and then goes through the candidates one by
    /// one.
    pub fn begin_manual_uninstall_selection(&mut self, now: u64)
        ensures
            final(self)@ == old(self)@.going_one_by_one(now),
    {
        self.queue_ordinary_targets();
        if self.delete_targets.len() == 0 {
            self.enter_uninstall_target_selection(now);
        } else {
            self.start_delete_sequence(AfterKick::SelectUninstallTarget, now);
        }
    }

    /// Recycles the ordinary items, and then asks about the only candidate.
    pub fn begin_single_uninstall_flow(&mut self, now: u64)
        ensures
            final(self)@ == old(self)@.asking_about_one(now),
    {
        self.queue_ordinary_targets();
        if self.delete_targets.len() == 0 {
            self.enter(Phase::UninstallAsk, now);
        } else {
            self.start_delete_sequence(AfterKick::AskSingleUninstall, now);
        }
    }

    fn depart(&mut self, now: u64)
        ensures
            final(self)@ == old(self)@.departing(now),
    {
        if self.delete_targets.len() == 0 {
            self.enter(Phase::Fly, now);
        } else {
            self.start_delete_sequence(AfterKick::FlyAway, now);
        }
    }

    /// Starts the uninstallers that were confirmed, or goes on without any.
    pub fn finish_uninstall_selection(&mut self, now: u64)
        ensures
            final(self)@ == old(self)@.finishing(now),
    {
        if self.confirmed_uninstall_candidates.len() > 0 {
            self.owed = Owed::Launch;
            self.request(Effect::LaunchUninstallers);
        } else {
            self.depart(now);
        }
    }

    /// Goes on to the next candidate, or finishes.
    pub fn advance_uninstall_selection(&mut self, now: u64)
        requires
            old(self).current_uninstall_candidate < usize::MAX,
        ensures
            final(self)@ == old(self)@.advancing(now),
    {
        self.current_uninstall_candidate = self.current_uninstall_candidate + 1;
        if self.current_uninstall_candidate < self.uninstall_candidates.len() {
            self.enter_uninstall_target_selection(now);
        } else {
            self.finish_uninstall_selection(now);
        }
    }

    /// Takes note that the current candidate shall be uninstalled.
    pub fn confirm_current_uninstall_candidate(&mut self, now: u64)
        requires
            old(self).current_uninstall_candidate < usize::MAX,
        ensures
            final(self)@ == old(self)@.confirming(now),
    {
        let current: usize = self.current_uninstall_candidate;
        if current < self.uninstall_candidates.len() {
            let ghost before = self@;
            let candidate = self.uninstall_candidates[current].duplicate();
            if is_shortcut_file(candidate.source.as_str()) {
                self.queue_delete_path(candidate.source.clone());
            }
            let ghost middle = self@;
            let ghost text = candidate@;
            self.confirmed_uninstall_candidates.push(candidate);
            assert(self@ =~= (OverlayView { confirmed: middle.confirmed.push(text), ..middle }));
        }
        self.advance_uninstall_selection(now);
    }

    /// Queues the item of the current candidate for the recycle bin.
    pub fn delete_current_uninstall_source(&mut self, now: u64)
        requires
            old(self).current_uninstall_candidate < usize::MAX,
        ensures
            final(self)@ == old(self)@.deleting(now),
    {
        let current: usize = self.current_uninstall_candidate;
        if current < self.uninstall_candidates.len() {
            let source = self.uninstall_candidates[current].source.clone();
            self.queue_delete_path(source);
        }
        self.advance_uninstall_selection(now);
    }

    /// The candidates without those whose identifier an earlier one has.
    fn programs_to_uninstall(&self) -> (kept: Vec<BcuCandidate>)
        ensures
            candidate_views(kept@) == first_of_each_id(self@.candidates),
    {
        let ghost all = self@.candidates;
        let mut kept: Vec<BcuCandidate> = Vec::new();
        let mut i: usize = 0;
        assert(candidate_views(kept@) =~= first_of_each_id(all.take(0)));
        while i < self.uninstall_candidates.len()
            invariant
                i <= self.uninstall_candidates@.len(),
                all == candidate_views(self.uninstall_candidates@),
                candidate_views(kept@) == first_of_each_id(all.take(i as int)),
            decreases self.uninstall_candidates@.len() - i,
        {
            let ghost before = candidate_views(kept@);
            let candidate = &self.uninstall_candidates[i];
            if !names_program(&kept, candidate.id.as_str()) {
                kept.push(candidate.duplicate());
                assert(candidate_views(kept@) =~= before.push(all[i as int]));
            }
            i = i + 1;
            assert(all.take(i as int).drop_last() =~= all.take(i - 1));
        }
        assert(all.take(i as int) =~= all);
        kept
    }

    /// Takes note that every candidate shall be uninstalled, each program once.
    pub fn uninstall_all_candidates(&mut self, now: u64)
        ensures
            final(self)@ == old(self)@.uninstalling_all(now),
    {
        let ghost start = self@;
        let confirmed = self.programs_to_uninstall();
        let mut links: Vec<String> = Vec::new();
        let ghost all = sources(start.candidates);
        let mut i: usize = 0;
        assert(views(links@) =~= shortcuts(all.take(0)));
        while i < self.uninstall_candidates.len()
            invariant
                i <= self.uninstall_candidates@.len(),
                self@ == start,
                all == sources(start.candidates),
                views(links@) == shortcuts(all.take(i as int)),
            decreases self.uninstall_candidates@.len() - i,
        {
            let ghost before = views(links@);
            assert(self.uninstall_candidates@[i as int]@ == start.candidates[i as int]);
            assert(all[i as int] == start.candidates[i as int].source);
            if is_shortcut_file(self.uninstall_candidates[i].source.as_str()) {
                links.push(self.uninstall_candidates[i].source.clone());
                assert(views(links@) =~= before.push(all[i as int]));
            }
            i = i + 1;
            assert(all.take(i as int).drop_last() =~= all.take(i - 1));
        }
        assert(all.take(i as int) =~= all);
        self.confirmed_uninstall_candidates = confirmed;
        assert(self@ =~= (OverlayView { confirmed: first_of_each_id(start.candidates), ..start }));
        self.queue_ordinary_targets();
        self.queue_delete_paths(&links);
        self.finish_uninstall_selection(now);
    }

    /// The arguments with which the bridge is started for the confirmed programs:
    /// silently where the settings say so. Nothing where the bridge is no file or
    /// no program is confirmed.
    pub fn launch_arguments(&self, config: &UninstallConfig, bridge_is_file: bool) -> (arguments:
        Option<Vec<String>>)
        ensures
            match arguments {
                Some(arguments) => {
                    &&& bridge_is_file && self@.confirmed.len() > 0
                    &&& views(arguments@) == batch_arguments(self@.confirmed, is_silent(config@))
                },
                None => !bridge_is_file || self@.confirmed.len() == 0,
            },
    {
        launch_bcu_uninstaller(
            bridge_is_file,
            &self.confirmed_uninstall_candidates,
            uninstall_silent_execution_enabled(config),
        )
    }
}

impl OverlayApp {
    /// The overlay for a selection on a screen of the given size. There is none
    /// without items or without a screen.
    pub fn new(targets: Vec<String>, width: i32, height: i32, now: u64) -> (app: Option<Self>)
        ensures
            match app {
                Some(app) => {
                    &&& targets@.len() > 0 && width > 0 && height > 0
                    &&& app@ == first_state(views(targets@), width, height, now)
                    &&& app@.wf()
                },
                None => targets@.len() == 0 || width <= 0 || height <= 0,
            },
    {
        if targets.len() == 0 || width <= 0 || height <= 0 {
            return None;
        }
        let ghost texts = views(targets@);
        let app = OverlayApp {
            width,
            height,
            targets,
            delete_targets: Vec::new(),
            phase: Phase::Select,
            phase_started: now,
            target_position: (width / 2, height / 2),
            points_left: false,
            explosion_started: None,
            explosion_positions: Vec::new(),
            deletion_started: false,
            after_kick: AfterKick::FlyAway,
            error: None,
            uninstall_candidates: Vec::new(),
            confirmed_uninstall_candidates: Vec::new(),
            current_uninstall_candidate: 0,
            uninstall_markers: Vec::new(),
            probe_sources: Vec::new(),
            uninstall_probe: Vec::new(),
            owed: Owed::Nothing,
            effects: Vec::new(),
            recycled: Ghost(Seq::empty()),
        };
        assert(app@ =~= first_state(texts, width, height, now));
        Some(app)
    }

    /// The time since the phase was entered.
    pub fn elapsed(&self, now: u64) -> (elapsed: u64)
        ensures
            elapsed == self@.elapsed(now),
    {
        if self.phase_started <= now {
            now - self.phase_started
        } else {
            0
        }
    }

    /// The number of the frame that is due in the phase.
    pub fn frame(&self, now: u64) -> (frame: u64)
        ensures
            frame == self@.elapsed(now) / FRAME_MS,
    {
        self.elapsed(now) / FRAME_MS
    }

    /// Takes the effects that are to be performed.
    pub fn take_effects(&mut self) -> (effects: Vec<Effect>)
        ensures
            effects@ == old(self)@.effects,
            final(self)@ == (OverlayView { effects: Seq::empty(), ..old(self)@ }),
            old(self)@.wf() ==> final(self)@.wf(),
    {
        let ghost before = self@;
        let mut effects: Vec<Effect> = Vec::new();
        std::mem::swap(&mut effects, &mut self.effects);
        assert(self@ =~= (OverlayView { effects: Seq::empty(), ..before }));
        proof {
            if before.wf() && before.is_settled() {
                lemma_same_accounts(before, self@);
            }
        }
        effects
    }

    fn aim(&mut self, x: i32, y: i32)
        requires
            old(self).width > 0,
        ensures
            final(self)@ == old(self)@.aiming(x, y),
    {
        self.target_position = (x, y);
        self.points_left = x < self.width / 2;
    }

    fn answer_buttons(&self, sprites: &Sprites, metrics: &ChoiceMetrics) -> (choices: Choices)
        requires
            sprites.wf(),
            asking_fits(self@, *sprites, *metrics),
        ensures
            ({
                let buttons = self@.buttons(asking_area(self@, sprites.point), *metrics);
                choices.first@ == buttons.first && choices.second@ == buttons.second
            }),
    {
        choice_rects(self.width, self.height, self.asking_monster(sprites), metrics)
    }

    /// Handles a click. While the monster asks, the answer buttons stand by its
    /// animation, which is one of `sprites`.
    pub fn click(&mut self, x: i32, y: i32, sprites: &Sprites, metrics: &ChoiceMetrics, now: u64)
        requires
            old(self)@.wf(),
            old(self).owed == Owed::Nothing,
            sprites.wf(),
            has_choices(old(self).phase) ==> asking_fits(old(self)@, *sprites, *metrics),
        ensures
            final(self)@ == old(self)@.clicked(
                x,
                y,
                old(self)@.buttons(asking_area(old(self)@, sprites.point), *metrics),
                now,
            ),
            final(self)@.wf(),
            old(self).phase == Phase::Select || old(self).phase == Phase::SelectUninstallTarget ==> {
                &&& final(self).target_position == (x, y)
                &&& final(self).points_left == (2 * x + 2 <= old(self).width)
            },
            old(self).phase == Phase::SelectUninstallTarget ==> final(self).uninstall_markers@
                == old(self).uninstall_markers@.push((x, y)),
    {
        proof {
            let monster = asking_area(self@, sprites.point);
            lemma_clicked(self@, x, y, self@.buttons(monster, *metrics), now);
        }
        match self.phase {
            Phase::Select => {
                self.aim(x, y);
                self.request(Effect::RestoreCursor);
                self.request(Effect::LoadWalk);
                self.enter(Phase::FadeOut, now);
            },
            Phase::SelectUninstallTarget => {
                self.aim(x, y);
                self.uninstall_markers.push((x, y));
                self.request(Effect::RestoreCursor);
                self.request(Effect::LoadPoint);
                self.enter(Phase::Point, now);
            },
            Phase::Ask => {
                let choices = self.answer_buttons(sprites, metrics);
                if choices.first.contains(x, y) || choices.second.contains(x, y) {
                    self.owed = Owed::Settings;
                    self.request(Effect::ReadSettings);
                }
            },
            Phase::UninstallAsk => {
                let choices = self.answer_buttons(sprites, metrics);
                let count: usize = self.uninstall_candidates.len();
                assert(self.current_uninstall_candidate < count);
                if choices.first.contains(x, y) {
                    self.confirm_current_uninstall_candidate(now);
                } else if choices.second.contains(x, y) {
                    self.delete_current_uninstall_source(now);
                }
            },
            Phase::UninstallModeAsk => {
                let choices = self.answer_buttons(sprites, metrics);
                if choices.first.contains(x, y) {
                    self.begin_manual_uninstall_selection(now);
                } else if choices.second.contains(x, y) {
                    self.uninstall_all_candidates(now);
                }
            },
            Phase::UninstallUnavailable => {
                let choices = self.answer_buttons(sprites, metrics);
                if choices.first.contains(x, y) {
                    self.begin_direct_batch_recycle(now);
                } else if choices.second.contains(x, y) {
                    self.request(Effect::Close);
                }
            },
            Phase::Elevate => {
                let modal = place_modal(self.width, self.height, false);
                if modal.yes.contains(x, y) {
                    self.owed = Owed::Elevation;
                    self.request(Effect::RequestElevation);
                } else if modal.no.contains(x, y) {
                    self.request(Effect::Close);
                }
            },
            Phase::Error => {
                self.request(Effect::Close);
            },
            _ => {},
        }
    }

    fn wanted_targets(&self, config: &UninstallConfig) -> (list: Vec<String>)
        ensures
            views(list@) == wanted(
                self@.targets,
                patterns_for(config@, self@.targets.len()),
            ),
    {
        let ghost all = self@.targets;
        let ghost patterns = patterns_for(config@, all.len());
        let several = self.targets.len() > 1;
        let mut list: Vec<String> = Vec::new();
        let mut i: usize = 0;
        assert(views(list@) =~= wanted(all.take(0), patterns));
        while i < self.targets.len()
            invariant
                i <= self.targets@.len(),
                all == views(self.targets@),
                several == (all.len() > 1),
                patterns == patterns_for(config@, all.len()),
                views(list@) == wanted(all.take(i as int), patterns),
            decreases self.targets@.len() - i,
        {
            let ghost before = views(list@);
            let target = self.targets[i].as_str();
            let matching = if several {
                batch_uninstall_target_matches_config(target, config)
            } else {
                uninstall_target_matches_config(target, config)
            };
            if matching {
                list.push(self.targets[i].clone());
                assert(views(list@) =~= before.push(all[i as int]));
            }
            i = i + 1;
            assert(all.take(i as int).drop_last() =~= all.take(i - 1));
        }
        assert(all.take(i as int) =~= all);
        list
    }

    /// Goes on once the settings are known: looks for programs behind the items
    /// that the settings name, or recycles everything at once.
    pub fn settings_read(&mut self, config: &UninstallConfig, now: u64)
        requires
            old(self)@.wf(),
            old(self).owed == Owed::Settings,
        ensures
            final(self)@ == old(self)@.told_settings(config@, now),
            final(self)@.wf(),
    {
        let ghost before = self@;
        proof {
            lemma_told_settings(self@, config@, now);
        }
        let list = self.wanted_targets(config);
        if uninstall_feature_enabled(config) && list.len() > 0 {
            self.probe_sources = list;
            self.owed = Owed::Programs;
            self.request(Effect::FindPrograms);
            assert(self@ =~= before.told_settings(config@, now));
        } else {
            self.owed = Owed::Nothing;
            self.begin_direct_batch_recycle(now);
        }
    }

    /// Takes note of what the bridge is to be asked about: the named items behind
    /// which a program was found. Says whether it is to be asked, which it is not
    /// without such an item or without the bridge.
    pub fn begin_uninstall_probe(
        &mut self,
        programs: &Vec<Option<String>>,
        bridge_is_file: bool,
    ) -> (started: bool)
        ensures
            started == (old(self)@.askable(program_views(programs@)).len() > 0 && bridge_is_file),
            final(self)@ == (if started {
                OverlayView { probe: old(self)@.askable(program_views(programs@)), ..old(self)@ }
            } else {
                old(self)@
            }),
    {
        let ghost before = self@;
        let ghost texts = program_views(programs@);
        let mut list: Vec<ProbeTarget> = Vec::new();
        let mut i: usize = 0;
        assert(probe_target_views(list@) =~= with_programs(before.probe_sources, texts, 0));
        while i < self.probe_sources.len() && i < programs.len()
            invariant
                i <= self.probe_sources@.len(),
                i <= programs@.len(),
                self@ == before,
                texts == program_views(programs@),
                probe_target_views(list@) == with_programs(before.probe_sources, texts, i as nat),
            decreases programs@.len() - i,
        {
            let ghost so_far = probe_target_views(list@);
            assert(before.probe_sources[i as int] == self.probe_sources@[i as int]@);
            match &programs[i] {
                Some(executable) => {
                    list.push(
                        ProbeTarget {
                            source: self.probe_sources[i].clone(),
                            executable: executable.clone(),
                        },
                    );
                    assert(probe_target_views(list@) =~= so_far.push(
                        ProbeTargetView {
                            source: before.probe_sources[i as int],
                            executable: executable@,
                        },
                    ));
                },
                None => {},
            }
            i = i + 1;
        }
        if list.len() > 0 && bridge_is_file {
            self.uninstall_probe = list;
            assert(self@ =~= (OverlayView { probe: before.askable(texts), ..before }));
            true
        } else {
            false
        }
    }

    /// Goes on once it is known which program each of the named items leads to:
    /// asks the bridge about them, or recycles everything at once.
    pub fn programs_found(
        &mut self,
        programs: &Vec<Option<String>>,
        bridge_is_file: bool,
        now: u64,
    )
        requires
            old(self)@.wf(),
            old(self).owed == Owed::Programs,
        ensures
            final(self)@ == old(self)@.told_programs(
                program_views(programs@),
                bridge_is_file,
                now,
            ),
            final(self)@.wf(),
    {
        let ghost before = self@;
        let ghost texts = program_views(programs@);
        proof {
            lemma_told_programs(self@, texts, bridge_is_file, now);
        }
        let started = self.begin_uninstall_probe(programs, bridge_is_file);
        self.owed = Owed::Nothing;
        self.probe_sources = Vec::new();
        assert(self@ =~= (OverlayView {
            owed: Owed::Nothing,
            probe_sources: Seq::empty(),
            ..before.probing(texts, bridge_is_file)
        }));
        if started {
            self.request(Effect::StartProbe);
            self.enter(Phase::DetectUninstall, now);
        } else {
            self.begin_direct_batch_recycle(now);
        }
    }

    fn candidates_found(&mut self, answers: Vec<BcuProbe>, now: u64)
        ensures
            final(self)@ == old(self)@.told_candidates(probe_views(answers@), now),
    {
        let ghost before = self@;
        let ghost told = probe_views(answers@);
        let mut list: Vec<BcuCandidate> = Vec::new();
        let mut i: usize = 0;
        assert(candidate_views(list@) =~= found_candidates(before.probe, told, 0));
        while i < self.uninstall_probe.len() && i < answers.len()
            invariant
                i <= self.uninstall_probe@.len(),
                i <= answers@.len(),
                self@ == before,
                told == probe_views(answers@),
                candidate_views(list@) == found_candidates(before.probe, told, i as nat),
            decreases answers@.len() - i,
        {
            let ghost so_far = candidate_views(list@);
            assert(before.probe[i as int] == self.uninstall_probe@[i as int]@);
            assert(told[i as int] == answers@[i as int]@);
            match &answers[i] {
                BcuProbe::Candidate(candidate) => {
                    list.push(
                        BcuCandidate {
                            source: self.uninstall_probe[i].source.clone(),
                            ..candidate.duplicate()
                        },
                    );
                    assert(candidate_views(list@) =~= so_far.push(
                        CandidateView { source: before.probe[i as int].source, ..candidate@ },
                    ));
                },
                _ => {},
            }
            i = i + 1;
        }
        self.uninstall_probe = Vec::new();
        self.uninstall_candidates = list;
        self.current_uninstall_candidate = 0;
        self.confirmed_uninstall_candidates = Vec::new();
        self.uninstall_markers = Vec::new();
        assert(self@ =~= (OverlayView {
            candidates: found_candidates(
                before.probe,
                told,
                shorter(before.probe.len(), told.len()),
            ),
            probe: Seq::empty(),
            current: 0,
            confirmed: Seq::empty(),
            markers: Seq::empty(),
            ..before
        }));
        if self.uninstall_candidates.len() == 0 {
            self.begin_direct_batch_recycle(now);
        } else if self.uninstall_candidates.len() == 1 {
            self.begin_single_uninstall_flow(now);
        } else {
            self.enter(Phase::UninstallModeAsk, now);
        }
    }

    /// Takes note of where the deletion explodes. `fan` says by how much each of
    /// several items is away from the target.
    pub fn explode(&mut self, fan: &Vec<(i32, i32)>)
        requires
            old(self)@.fan_fits(fan@),
        ensures
            final(self)@ == old(self)@.exploding(fan@),
    {
        let ghost before = self@;
        self.explosion_positions = self.explosion_positions_for_delete(fan);
        assert(self@ =~= before.exploding(fan@));
    }

    /// Starts the deletion, and its explosions, when the kick hits.
    pub fn trigger_delete(&mut self, fan: &Vec<(i32, i32)>, now: u64)
        requires
            old(self)@.fan_fits(fan@),
        ensures
            final(self)@ == old(self)@.hitting(fan@, now),
    {
        self.explode(fan);
        self.deletion_started = true;
        self.explosion_started = Some(now);
        self.owed = Owed::Recycling;
        self.request(Effect::PlayBoom);
        self.request(Effect::Recycle);
    }

    fn end_kick(&mut self, now: u64)
        ensures
            final(self)@ == old(self)@.after_the_kick(now),
    {
        if self.phase == Phase::Kick && self.elapsed(now) >= ANIMATION_MS {
            self.enter(Phase::Leo, now);
        }
    }

    /// Lets time pass. `news` is what the bridge has answered; `fan` says by how
    /// much each of several items is away from the target when it explodes, and
    /// matters only as long as a kick is yet to hit.
    pub fn tick(&mut self, news: ProbeNews, fan: &Vec<(i32, i32)>, now: u64)
        requires
            old(self)@.wf(),
            old(self).owed == Owed::Nothing,
            old(self)@.awaits_hit() ==> old(self)@.fan_fits(fan@),
        ensures
            final(self)@ == old(self)@.ticked(news@, fan@, now),
            final(self)@.wf(),
    {
        proof {
            lemma_ticked(self@, news@, fan@, now);
        }
        let elapsed: u64 = self.elapsed(now);
        match self.phase {
            Phase::FadeOut => {
                if elapsed >= FADE_MS {
                    self.request(Effect::PlayMusic);
                    self.request(Effect::LoadPoint);
                    self.enter(Phase::Walk, now);
                }
            },
            Phase::Walk => {
                if elapsed >= WALK_MS {
                    self.request(Effect::PlayTalk);
                    self.enter(Phase::Point, now);
                }
            },
            Phase::Point => {
                if elapsed >= POINT_MS {
                    self.request(Effect::LoadKickSequence);
                    if self.current_uninstall_candidate < self.uninstall_candidates.len()
                        && self.uninstall_markers.len() > 0 {
                        self.enter(Phase::UninstallAsk, now);
                    } else {
                        self.enter(Phase::Ask, now);
                    }
                }
            },
            Phase::DetectUninstall => match news {
                ProbeNews::Pending => {},
                ProbeNews::Answered(answers) => {
                    self.candidates_found(answers, now);
                },
                ProbeNews::Lost => {
                    let none: Vec<BcuProbe> = Vec::new();
                    assert(probe_views(none@) =~= Seq::empty());
                    self.candidates_found(none, now);
                },
            },
            Phase::Kick => {
                if self.frame(now) >= HIT_FRAME && !self.deletion_started {
                    self.trigger_delete(fan, now);
                } else {
                    self.end_kick(now);
                }
            },
            Phase::Leo => {
                if elapsed >= ANIMATION_MS {
                    match self.after_kick {
                        AfterKick::FlyAway => {
                            self.enter(Phase::Fly, now);
                        },
                        AfterKick::AskSingleUninstall => {
                            self.enter(Phase::UninstallAsk, now);
                        },
                        AfterKick::SelectUninstallTarget => {
                            self.enter_uninstall_target_selection(now);
                        },
                    }
                }
            },
            Phase::Fly => {
                if elapsed >= FLY_MS {
                    self.request(Effect::Close);
                }
            },
            _ => {},
        }
    }

    fn fail(&mut self, what: &str, message: &str, now: u64)
        ensures
            final(self)@ == old(self)@.failing(what@ + message@, now),
    {
        let mut text = what.to_owned();
        text.append(message);
        self.error = Some(text);
        self.enter(Phase::Error, now);
    }

    /// Goes on once the queued items were recycled, or could not be.
    pub fn recycle_ended(&mut self, outcome: RecycleOutcome, now: u64)
        requires
            old(self)@.wf(),
            old(self).owed == Owed::Recycling,
        ensures
            final(self)@ == old(self)@.told_recycled(outcome@, now),
            final(self)@.wf(),
    {
        let ghost before = self@;
        proof {
            lemma_told_recycled(self@, outcome@, now);
        }
        self.owed = Owed::Nothing;
        match outcome {
            RecycleOutcome::Done => {
                self.recycled = Ghost(self.recycled@ + views(self.delete_targets@));
                self.delete_targets = Vec::new();
                assert(self@ =~= (OverlayView {
                    owed: Owed::Nothing,
                    delete_targets: Seq::empty(),
                    recycled: before.recycled + before.delete_targets,
                    ..before
                }));
                self.end_kick(now);
            },
            RecycleOutcome::AccessDenied => {
                self.enter(Phase::Elevate, now);
            },
            RecycleOutcome::Failed(message) => {
                self.fail("删除失败：", message.as_str(), now);
            },
        }
    }

    /// Goes on once the uninstallers were started, or could not be.
    pub fn launch_ended(&mut self, failure: Option<String>, now: u64)
        requires
            old(self)@.wf(),
            old(self).owed == Owed::Launch,
        ensures
            final(self)@ == old(self)@.told_launched(text_view(failure), now),
            final(self)@.wf(),
    {
        proof {
            lemma_told_launched(self@, text_view(failure), now);
        }
        self.owed = Owed::Nothing;
        match failure {
            Some(message) => {
                self.fail(
                    "无法启动软件的官方卸载程序：",
                    message.as_str(),
                    now,
                );
            },
            None => {
                self.depart(now);
            },
        }
    }

    /// Goes on once more rights were asked for.
    pub fn elevation_ended(&mut self, failure: Option<String>, now: u64)
        requires
            old(self)@.wf(),
            old(self).owed == Owed::Elevation,
        ensures
            final(self)@ == old(self)@.told_elevated(text_view(failure), now),
            final(self)@.wf(),
    {
        proof {
            lemma_told_elevated(self@, text_view(failure), now);
        }
        self.owed = Owed::Nothing;
        match failure {
            Some(message) => {
                self.fail("无法请求管理员权限：", message.as_str(), now);
            },
            None => {
                self.request(Effect::Close);
            },
        }
    }

    /// Where the deletion explodes. `fan` says by how much each of several items
    /// is away from the target.
    pub fn explosion_positions_for_delete(&self, fan: &Vec<(i32, i32)>) -> (spots: Vec<(i32, i32)>)
        requires
            self@.fan_fits(fan@),
        ensures
            spots@ == explosion_spots(
                self@.markers,
                self@.delete_targets.len(),
                self.target_position,
                fan@,
            ),
    {
        let ghost expected = explosion_spots(
            self@.markers,
            self@.delete_targets.len(),
            self.target_position,
            fan@,
        );
        let mut spots: Vec<(i32, i32)> = Vec::new();
        if self.uninstall_markers.len() > 0 {
            let mut i: usize = 0;
            while i < self.uninstall_markers.len()
                invariant
                    i <= self.uninstall_markers@.len(),
                    spots@ == self.uninstall_markers@.take(i as int),
                decreases self.uninstall_markers@.len() - i,
            {
                spots.push(self.uninstall_markers[i]);
                i = i + 1;
            }
            assert(spots@ =~= expected);
            return spots;
        }
        if self.delete_targets.len() <= 1 {
            spots.push(self.target_position);
            assert(spots@ =~= expected);
            return spots;
        }
        let mut i: usize = 0;
        while i < fan.len()
            invariant
                i <= fan@.len(),
                spots@.len() == i,
                forall|j: int|
                    0 <= j < fan@.len() ==> is_coordinate(
                        self.target_position.0 + (#[trigger] fan@[j]).0,
                    ) && is_coordinate(self.target_position.1 + fan@[j].1),
                forall|j: int|
                    0 <= j < i ==> #[trigger] spots@[j] == (
                        (self.target_position.0 + fan@[j].0) as i32,
                        (self.target_position.1 + fan@[j].1) as i32,
                    ),
            decreases fan@.len() - i,
        {
            let step: (i32, i32) = fan[i];
            assert(is_coordinate(self.target_position.0 + fan@[i as int].0));
            spots.push((self.target_position.0 + step.0, self.target_position.1 + step.1));
            i = i + 1;
        }
        assert(spots@ =~= expected);
        spots
    }
}

/// Whether one of the candidates has the identifier `id`.
fn names_program(candidates: &Vec<BcuCandidate>, id: &str) -> (found: bool)
    ensures
        found == has_id(candidate_views(candidates@), id@),
{
    let ghost all = candidate_views(candidates@);
    let mut i: usize = 0;
    while i < candidates.len()
        invariant
            i <= candidates@.len(),
            all == candidate_views(candidates@),
            forall|j: int| 0 <= j < i ==> (#[trigger] all[j]).id != id@,
        decreases candidates@.len() - i,
    {
        if same_text(candidates[i].id.as_str(), id) {
            assert(all[i as int].id == id@);
            return true;
        }
        i = i + 1;
    }
    false
}

/// How far, in unscaled pixels, an item that fans out is from the target.
pub fn fan_radius(index: usize) -> (radius: i32)
    ensures
        radius == 42 + (index % 3) * 18,
{
    42 + (index % 3) as i32 * 18
}

} // verus!
