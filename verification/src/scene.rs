//! What the overlay shows in each phase.

use vstd::prelude::*;

use crate::canvas::Color;
use crate::layout::{
    choices_have_room, explosion_area, explosion_rect, first_choice, is_coordinate, is_point,
    modal_area, modal_button, monster_corner, monster_position, point_view, second_choice,
    standing_area, Area, ChoiceMetrics, RectI,
};
use crate::overlay::state::{
    has_choices, has_id, time_since, Buttons, Effect, OverlayView, Owed, Phase, ANIMATION_MS,
    FRAME_MS,
};
use crate::overlay::steps::{
    lasted, law_first_answer_uninstalls, law_second_answer_deletes_the_item,
    law_second_answer_uninstalls_all,
};
use crate::overlay::OverlayApp;
use crate::paths::lists_path;
use crate::sprite::Sprite;
use crate::text::{chars_of, decimal, decimal_text};

verus! {

/// The animations of the monster.
#[derive(Clone, Copy, PartialEq, Eq, Structural)]
pub enum Sheet {
    Walk,
    Point,
    Kick,
    Leo,
    Fly,
}

/// How the darkened screen of a selection is shown.
#[derive(Clone, Copy, PartialEq, Eq, Structural)]
pub enum Backdrop {
    FadingIn,
    Full,
    FadingOut,
}

/// How the monster moves along the horizontal.
#[derive(Clone, Copy, PartialEq, Eq, Structural)]
pub enum Motion {
    Still,
    /// It comes from there to its place.
    From(i32),
    /// It leaves its place for there.
    To(i32),
}

/// How the monster is shown.
#[derive(Clone, Copy, PartialEq, Eq, Structural)]
pub struct MonsterPlan {
    pub sheet: Sheet,
    /// The frame of the animation.
    pub frame: usize,
    /// Its place.
    pub area: RectI,
    pub mirrored: bool,
    pub motion: Motion,
}

/// What the monster says, and the answers that it offers. Without answers there
/// are no buttons.
#[derive(Clone, Copy)]
pub struct Question {
    pub message: &'static str,
    pub first: &'static str,
    pub second: &'static str,
}

/// The look of a dialog.
#[derive(Clone, Copy)]
pub struct ModalLook {
    pub color: Color,
    pub answers: Option<(&'static str, &'static str)>,
}

/// The explosions of a deletion.
pub struct Explosion {
    pub frame: usize,
    pub areas: Vec<RectI>,
}

/// Everything that is shown.
pub struct Scene {
    pub backdrop: Option<Backdrop>,
    pub monster: Option<MonsterPlan>,
    pub question: Option<Question>,
    pub explosion: Option<Explosion>,
    /// A dialog; it reports an error where this is set.
    pub modal: Option<bool>,
    /// Whether the points that were assigned one by one are marked.
    pub marks: bool,
}

/// The animations that are loaded.
pub struct Sprites {
    pub walk: Option<Sprite>,
    pub point: Option<Sprite>,
    pub kick: Option<Sprite>,
    pub leo: Option<Sprite>,
    pub fly: Option<Sprite>,
    pub explosion: Option<Sprite>,
}

pub open spec fn loaded(sprite: Option<Sprite>) -> bool {
    sprite matches Some(sprite) ==> sprite.wf()
}

/// The size of an animation that is loaded.
pub open spec fn size_of_sprite(sprite: Option<Sprite>) -> Option<(i32, i32)> {
    match sprite {
        Some(sprite) => Some((sprite.width, sprite.height)),
        None => None,
    }
}

impl Sprites {
    pub open spec fn wf(self) -> bool {
        loaded(self.walk) && loaded(self.point) && loaded(self.kick) && loaded(self.leo) && loaded(
            self.fly,
        ) && loaded(self.explosion)
    }

    /// The animation of the given sheet.
    pub open spec fn of(self, sheet: Sheet) -> Option<Sprite> {
        match sheet {
            Sheet::Walk => self.walk,
            Sheet::Point => self.point,
            Sheet::Kick => self.kick,
            Sheet::Leo => self.leo,
            Sheet::Fly => self.fly,
        }
    }

    /// The animation of the given sheet.
    pub fn sprite(&self, sheet: Sheet) -> (found: &Option<Sprite>)
        ensures
            *found == self.of(sheet),
    {
        match sheet {
            Sheet::Walk => &self.walk,
            Sheet::Point => &self.point,
            Sheet::Kick => &self.kick,
            Sheet::Leo => &self.leo,
            Sheet::Fly => &self.fly,
        }
    }
}

/// The animation that a phase shows.
pub open spec fn sheet_of(phase: Phase) -> Option<Sheet> {
    match phase {
        Phase::Walk => Some(Sheet::Walk),
        Phase::Point
        | Phase::Ask
        | Phase::DetectUninstall
        | Phase::UninstallModeAsk
        | Phase::UninstallAsk
        | Phase::UninstallUnavailable => Some(Sheet::Point),
        Phase::Kick => Some(Sheet::Kick),
        Phase::Leo => Some(Sheet::Leo),
        Phase::Fly => Some(Sheet::Fly),
        _ => None,
    }
}

/// The frame of its animation that a phase shows when `due` frames have passed.
/// Walking and flying go round; pointing ends with a raised arm, and the kick
/// and what follows it stop at the last frame.
pub open spec fn frame_of(phase: Phase, due: int) -> int {
    match phase {
        Phase::Walk | Phase::Fly => due % 15,
        Phase::Point => if due < 3 {
            11 + due
        } else {
            14
        },
        Phase::Kick | Phase::Leo => if due < 14 {
            due
        } else {
            14
        },
        _ => 14,
    }
}

/// How the monster moves: it walks in from beyond the edge of the screen, and
/// flies out beyond the other.
pub open spec fn motion_of(s: OverlayView, w: int) -> Motion {
    match s.phase {
        Phase::Walk => Motion::From(
            if s.points_left {
                s.width
            } else {
                (-w) as i32
            },
        ),
        Phase::Fly => Motion::To(
            if s.points_left {
                (-w - 200) as i32
            } else {
                (s.width + 200) as i32
            },
        ),
        _ => Motion::Still,
    }
}

pub open spec fn corner_of(s: OverlayView, size: (i32, i32)) -> (int, int) {
    monster_corner(point_view(s.target_position), s.points_left, size.0 as int, size.1 as int)
}

/// How the monster is shown.
pub open spec fn monster_of(s: OverlayView, sprites: Sprites, now: u64) -> Option<MonsterPlan> {
    match sheet_of(s.phase) {
        Some(sheet) => match size_of_sprite(sprites.of(sheet)) {
            Some(size) => Some(
                MonsterPlan {
                    sheet,
                    frame: frame_of(s.phase, s.elapsed(now) as int / FRAME_MS as int) as usize,
                    area: RectI {
                        x: corner_of(s, size).0 as i32,
                        y: corner_of(s, size).1 as i32,
                        w: size.0,
                        h: size.1,
                    },
                    mirrored: s.points_left,
                    motion: motion_of(s, size.0 as int),
                },
            ),
            None => None,
        },
        None => None,
    }
}

/// Whether the place of the monster can be named in screen coordinates.
pub open spec fn monster_fits(s: OverlayView, sprites: Sprites) -> bool {
    match sheet_of(s.phase) {
        Some(sheet) => match size_of_sprite(sprites.of(sheet)) {
            Some(size) => is_point(corner_of(s, size)) && (s.phase == Phase::Fly ==> is_coordinate(
                -size.0 - 200,
            ) && is_coordinate(s.width + 200)),
            None => true,
        },
        None => true,
    }
}

pub open spec fn backdrop_of(phase: Phase) -> Option<Backdrop> {
    match phase {
        Phase::Select => Some(Backdrop::FadingIn),
        Phase::SelectUninstallTarget => Some(Backdrop::Full),
        Phase::FadeOut => Some(Backdrop::FadingOut),
        _ => None,
    }
}

/// What a [`Question`] reads.
pub struct QuestionView {
    pub message: Seq<char>,
    pub first: Seq<char>,
    pub second: Seq<char>,
}

impl View for Question {
    type V = QuestionView;

    open spec fn view(&self) -> QuestionView {
        QuestionView { message: self.message@, first: self.first@, second: self.second@ }
    }
}

/// What the monster asks in a phase, of one item or of several. `silent` says
/// whether uninstallers run without being seen.
pub open spec fn question_of(phase: Phase, several: bool, silent: bool) -> QuestionView {
    match phase {
        Phase::UninstallModeAsk => QuestionView {
            message: "检测到多个可卸载软件，\n要怎么处理？"@,
            first: "逐一指定"@,
            second: "全部卸载"@,
        },
        Phase::UninstallAsk => if silent {
            QuestionView {
                message: "居然是软件，\n要悄悄卸载吗？"@,
                first: "静默卸载"@,
                second: "就删除快捷方式好啦"@,
            }
        } else {
            QuestionView {
                message: "居然是软件，\n需要卸载吗？"@,
                first: "卸载"@,
                second: "就删除快捷方式好啦"@,
            }
        },
        Phase::DetectUninstall => QuestionView {
            message: "让我查查这是什么……"@,
            first: ""@,
            second: ""@,
        },
        Phase::UninstallUnavailable => QuestionView {
            message: "这个软件只能删除，\n无法卸载"@,
            first: "只删除"@,
            second: "取消"@,
        },
        _ => if several {
            QuestionView {
                message: "喂，是这些吗？"@,
                first: "是的"@,
                second: "嘤嘤嘤就是这些"@,
            }
        } else {
            QuestionView {
                message: "喂，是这个吗？"@,
                first: "是的"@,
                second: "嘤嘤嘤就是这个"@,
            }
        },
    }
}

/// What the monster asks.
pub fn question(phase: Phase, several: bool, silent: bool) -> (question: Question)
    ensures
        question@ == question_of(phase, several, silent),
        speaks_for(phase, several, silent, question@),
{
    proof {
        law_questions_say_what_they_ask(phase, several, silent);
    }
    match phase {
        Phase::UninstallModeAsk => Question {
            message: "检测到多个可卸载软件，\n要怎么处理？",
            first: "逐一指定",
            second: "全部卸载",
        },
        Phase::UninstallAsk => if silent {
            Question {
                message: "居然是软件，\n要悄悄卸载吗？",
                first: "静默卸载",
                second: "就删除快捷方式好啦",
            }
        } else {
            Question {
                message: "居然是软件，\n需要卸载吗？",
                first: "卸载",
                second: "就删除快捷方式好啦",
            }
        },
        Phase::DetectUninstall => Question {
            message: "让我查查这是什么……",
            first: "",
            second: "",
        },
        Phase::UninstallUnavailable => Question {
            message: "这个软件只能删除，\n无法卸载",
            first: "只删除",
            second: "取消",
        },
        _ => if several {
            Question {
                message: "喂，是这些吗？",
                first: "是的",
                second: "嘤嘤嘤就是这些",
            }
        } else {
            Question {
                message: "喂，是这个吗？",
                first: "是的",
                second: "嘤嘤嘤就是这个",
            }
        },
    }
}

/// Whether the monster speaks in the phase.
pub open spec fn speaks(phase: Phase) -> bool {
    has_choices(phase) || phase == Phase::DetectUninstall
}

/// Whether the explosions of the deletion are to be seen.
pub open spec fn explodes(s: OverlayView, now: u64) -> bool {
    &&& s.phase == Phase::Kick
    &&& s.explosion_started matches Some(started) && time_since(
        started,
        now,
    ) <= ANIMATION_MS
}

/// Whether every explosion can be placed in screen coordinates.
pub open spec fn explosions_fit(s: OverlayView, sprites: Sprites) -> bool {
    size_of_sprite(sprites.explosion) matches Some(size) ==> forall|i: int|
        0 <= i < s.explosion_positions.len() ==> explosion_area(
            point_view(#[trigger] s.explosion_positions[i]),
            size.0 as int,
            size.1 as int,
        ).fits()
}

pub open spec fn marks_of(s: OverlayView) -> bool {
    s.markers.len() > 0 && (s.phase == Phase::SelectUninstallTarget || s.phase == Phase::Point
        || s.phase == Phase::UninstallAsk)
}

fn frame_for(phase: Phase, due: u64) -> (frame: usize)
    ensures
        frame == frame_of(phase, due as int),
        frame < 15,
{
    match phase {
        Phase::Walk | Phase::Fly => (due % 15) as usize,
        Phase::Point => if due < 3 {
            11 + due as usize
        } else {
            14
        },
        Phase::Kick | Phase::Leo => if due < 14 {
            due as usize
        } else {
            14
        },
        _ => 14,
    }
}

impl OverlayApp {
    fn plan_monster(&self, sprites: &Sprites, now: u64) -> (plan: Option<MonsterPlan>)
        requires
            sprites.wf(),
            0 < self.width,
            monster_fits(self@, *sprites),
        ensures
            plan == monster_of(self@, *sprites, now),
    {
        let sheet = match self.phase {
            Phase::Walk => Sheet::Walk,
            Phase::Point
            | Phase::Ask
            | Phase::DetectUninstall
            | Phase::UninstallModeAsk
            | Phase::UninstallAsk
            | Phase::UninstallUnavailable => Sheet::Point,
            Phase::Kick => Sheet::Kick,
            Phase::Leo => Sheet::Leo,
            Phase::Fly => Sheet::Fly,
            _ => {
                return None;
            },
        };
        match sprites.sprite(sheet) {
            Some(sprite) => {
                let corner: (i32, i32) = monster_position(
                    self.target_position,
                    self.points_left,
                    sprite.width,
                    sprite.height,
                );
                let motion = match self.phase {
                    Phase::Walk => Motion::From(
                        if self.points_left {
                            self.width
                        } else {
                            -sprite.width
                        },
                    ),
                    Phase::Fly => Motion::To(
                        if self.points_left {
                            -sprite.width - 200
                        } else {
                            self.width + 200
                        },
                    ),
                    _ => Motion::Still,
                };
                Some(
                    MonsterPlan {
                        sheet,
                        frame: frame_for(self.phase, self.frame(now)),
                        area: RectI {
                            x: corner.0,
                            y: corner.1,
                            w: sprite.width,
                            h: sprite.height,
                        },
                        mirrored: self.points_left,
                        motion,
                    },
                )
            },
            None => None,
        }
    }

    fn plan_explosion(&self, sprites: &Sprites, now: u64) -> (explosion: Option<Explosion>)
        requires
            sprites.wf(),
            explosions_fit(self@, *sprites),
        ensures
            match explosion {
                Some(explosion) => {
                    &&& explodes(self@, now)
                    &&& sprites.explosion is Some
                    &&& explosion.frame == time_since(
                        self.explosion_started->0,
                        now,
                    ) as int / FRAME_MS as int % 15
                    &&& is_around(explosion.areas@, self@, size_of_sprite(sprites.explosion)->0)
                },
                None => !explodes(self@, now) || sprites.explosion is None,
            },
    {
        if self.phase != Phase::Kick {
            return None;
        }
        let started: u64 = match self.explosion_started {
            Some(started) => started,
            None => {
                return None;
            },
        };
        let elapsed: u64 = if started <= now { now - started } else { 0 };
        if elapsed > ANIMATION_MS {
            return None;
        }
        match &sprites.explosion {
            Some(sprite) => {
                let mut areas: Vec<RectI> = Vec::new();
                let mut i: usize = 0;
                while i < self.explosion_positions.len()
                    invariant
                        i <= self.explosion_positions@.len(),
                        areas@.len() == i,
                        sprite.wf(),
                        sprites.explosion == Some(*sprite),
                        explosions_fit(self@, *sprites),
                        forall|j: int|
                            0 <= j < i ==> (#[trigger] areas@[j])@ == explosion_area(
                                point_view(self@.explosion_positions[j]),
                                sprite.width as int,
                                sprite.height as int,
                            ),
                    decreases self.explosion_positions@.len() - i,
                {
                    assert(self@.explosion_positions[i as int] == self.explosion_positions@[i as int]);
                    areas.push(
                        explosion_rect(self.explosion_positions[i], sprite.width, sprite.height),
                    );
                    i = i + 1;
                }
                Some(Explosion { frame: (elapsed / FRAME_MS % 15) as usize, areas })
            },
            None => None,
        }
    }

    /// What is to be shown. `silent` says whether uninstallers run without being
    /// seen.
    pub fn render(&self, sprites: &Sprites, silent: bool, now: u64) -> (scene: Scene)
        requires
            sprites.wf(),
            0 < self.width,
            monster_fits(self@, *sprites),
            explosions_fit(self@, *sprites),
        ensures
            scene.backdrop == backdrop_of(self.phase),
            scene.monster == monster_of(self@, *sprites, now),
            shows_its_phase(self.phase, *sprites, scene.monster),
            stands_by_its_target(self@, scene.monster),
            keeps_time(self@, scene.monster, now),
            scene.question matches Some(question) ==> speaks_for(
                self.phase,
                self.targets@.len() > 1,
                silent,
                question@,
            ),
            match scene.question {
                Some(question) => speaks(self.phase) && scene.monster is Some && question@
                    == question_of(self.phase, self@.targets.len() > 1, silent),
                None => !speaks(self.phase) || scene.monster is None,
            },
            match scene.explosion {
                Some(explosion) => {
                    &&& explodes(self@, now)
                    &&& sprites.explosion is Some
                    &&& explosion.frame == time_since(
                        self.explosion_started->0,
                        now,
                    ) as int / FRAME_MS as int % 15
                    &&& is_around(explosion.areas@, self@, size_of_sprite(sprites.explosion)->0)
                },
                None => !explodes(self@, now) || sprites.explosion is None,
            },
            scene.modal == (if self.phase == Phase::Elevate {
                Some(false)
            } else if self.phase == Phase::Error {
                Some(true)
            } else {
                None
            }),
            scene.marks == marks_of(self@),
    {
        let backdrop = match self.phase {
            Phase::Select => Some(Backdrop::FadingIn),
            Phase::SelectUninstallTarget => Some(Backdrop::Full),
            Phase::FadeOut => Some(Backdrop::FadingOut),
            _ => None,
        };
        let monster = self.plan_monster(sprites, now);
        proof {
            law_phases_show_their_animations(self@, *sprites, now);
            law_questions_say_what_they_ask(self.phase, self@.targets.len() > 1, silent);
        }
        let asking = match self.phase {
            Phase::Ask
            | Phase::DetectUninstall
            | Phase::UninstallModeAsk
            | Phase::UninstallAsk
            | Phase::UninstallUnavailable => true,
            _ => false,
        };
        let words = if asking && monster.is_some() {
            Some(question(self.phase, self.targets.len() > 1, silent))
        } else {
            None
        };
        let modal = match self.phase {
            Phase::Elevate => Some(false),
            Phase::Error => Some(true),
            _ => None,
        };
        let marked = match self.phase {
            Phase::SelectUninstallTarget | Phase::Point | Phase::UninstallAsk => true,
            _ => false,
        };
        Scene {
            backdrop,
            monster,
            question: words,
            explosion: self.plan_explosion(sprites, now),
            modal,
            marks: marked && self.uninstall_markers.len() > 0,
        }
    }

    /// Whether the mark of the given number is still growing: the newest one
    /// does while the monster points at it.
    pub fn mark_grows(&self, index: usize) -> (grows: bool)
        requires
            index < self.uninstall_markers@.len(),
        ensures
            grows == (index == self@.markers.len() - 1 && self.phase == Phase::Point),
    {
        index == self.uninstall_markers.len() - 1 && self.phase == Phase::Point
    }

    /// The prompt of a selection.
    pub fn selection_prompt(&self) -> (prompt: String)
        ensures
            prompt@ == prompt_of(self@),
    {
        if self.phase != Phase::SelectUninstallTarget {
            return "请选择你要摧毁的文件".to_owned();
        }
        let current: usize = self.current_uninstall_candidate;
        let count: usize = self.uninstall_candidates.len();
        if current >= count {
            return "请选择要卸载的软件目标".to_owned();
        }
        let mut prompt = "请用准星标记要卸载的：".to_owned();
        prompt.append(self.uninstall_candidates[current].display_name.as_str());
        prompt.append("（");
        prompt.append(decimal_text(current + 1).as_str());
        prompt.append("/");
        prompt.append(decimal_text(count).as_str());
        prompt.append("）");
        prompt
    }

    /// What a dialog says.
    pub fn modal_message(&self, is_error: bool) -> (message: String)
        ensures
            message@ == (if is_error {
                match self@.error {
                    Some(text) => text,
                    None => "删除失败"@,
                }
            } else {
                "该文件需要管理员权限，继续吗？"@
            }),
    {
        if is_error {
            match &self.error {
                Some(text) => text.clone(),
                None => "删除失败".to_owned(),
            }
        } else {
            "该文件需要管理员权限，继续吗？".to_owned()
        }
    }

    /// How a dialog looks: the colour of what it says, and the answers that it
    /// offers. An error has none.
    pub fn modal_look(is_error: bool) -> (look: ModalLook)
        ensures
            look.color == (if is_error {
                Color { r: 180, g: 30, b: 30, a: 255 }
            } else {
                Color { r: 28, g: 28, b: 30, a: 255 }
            }),
            match look.answers {
                Some((yes, no)) => !is_error && yes@ == "继续"@ && no@ == "取消"@,
                None => is_error,
            },
    {
        if is_error {
            ModalLook { color: Color { r: 180, g: 30, b: 30, a: 255 }, answers: None }
        } else {
            ModalLook {
                color: Color { r: 28, g: 28, b: 30, a: 255 },
                answers: Some(("继续", "取消")),
            }
        }
    }

    /// Where the monster stands while it asks. Without its animation a square
    /// at the target stands for it.
    pub fn asking_monster(&self, sprites: &Sprites) -> (area: RectI)
        requires
            sprites.wf(),
            asking_area(self@, sprites.point).fits(),
        ensures
            area@ == asking_area(self@, sprites.point),
    {
        match &sprites.point {
            Some(sprite) => {
                let corner: (i32, i32) = monster_position(
                    self.target_position,
                    self.points_left,
                    sprite.width,
                    sprite.height,
                );
                RectI { x: corner.0, y: corner.1, w: sprite.width, h: sprite.height }
            },
            None => RectI { x: self.target_position.0, y: self.target_position.1, w: 250, h: 250 },
        }
    }
}

/// Where the monster, whose animation is `point`, stands while it asks.
pub open spec fn asking_area(s: OverlayView, point: Option<Sprite>) -> Area {
    standing_area(
        point_view(s.target_position),
        s.points_left,
        match point {
            Some(sprite) => Some((sprite.width as int, sprite.height as int)),
            None => None,
        },
    )
}

/// Whether the monster and the answer buttons can be placed while it asks.
pub open spec fn asking_fits(s: OverlayView, sprites: Sprites, m: ChoiceMetrics) -> bool {
    let monster = asking_area(s, sprites.point);
    monster.fits() && choices_have_room(s.width as int, s.height as int, monster, m)
}

/// Whether the rectangles are those of explosions at the overlay's positions.
pub open spec fn is_around(areas: Seq<RectI>, s: OverlayView, size: (i32, i32)) -> bool {
    &&& areas.len() == s.explosion_positions.len()
    &&& forall|i: int|
        0 <= i < areas.len() ==> (#[trigger] areas[i])@ == explosion_area(
            point_view(s.explosion_positions[i]),
            size.0 as int,
            size.1 as int,
        )
}

/// The prompt of a selection: for a program, its name and its number.
pub open spec fn prompt_of(s: OverlayView) -> Seq<char> {
    if s.phase != Phase::SelectUninstallTarget {
        "请选择你要摧毁的文件"@
    } else if s.current < s.candidates.len() {
        "请用准星标记要卸载的："@ + s.candidates[s.current as int].display_name + "（"@
            + decimal((s.current + 1) as nat) + "/"@ + decimal(s.candidates.len()) + "）"@
    } else {
        "请选择要卸载的软件目标"@
    }
}

/// Whether the plan shows the given animation, in its own size, where that is
/// loaded.
pub open spec fn shows(plan: Option<MonsterPlan>, sprite: Option<Sprite>, sheet: Sheet) -> bool {
    match sprite {
        Some(sprite) => plan matches Some(plan) && plan.sheet == sheet && plan.area.w
            == sprite.width && plan.area.h == sprite.height,
        None => plan is None,
    }
}

/// Whether the monster walks when it walks, kicks when it kicks, and so on: each
/// phase shows the animation that is meant for it, and a phase without the monster
/// none.
pub open spec fn shows_its_phase(
    phase: Phase,
    sprites: Sprites,
    plan: Option<MonsterPlan>,
) -> bool {
    &&& phase == Phase::Walk ==> shows(plan, sprites.walk, Sheet::Walk)
    &&& phase == Phase::Point || phase == Phase::Ask || phase == Phase::DetectUninstall || phase
        == Phase::UninstallModeAsk || phase == Phase::UninstallAsk || phase
        == Phase::UninstallUnavailable ==> shows(plan, sprites.point, Sheet::Point)
    &&& phase == Phase::Kick ==> shows(plan, sprites.kick, Sheet::Kick)
    &&& phase == Phase::Leo ==> shows(plan, sprites.leo, Sheet::Leo)
    &&& phase == Phase::Fly ==> shows(plan, sprites.fly, Sheet::Fly)
    &&& phase == Phase::Select || phase == Phase::FadeOut || phase == Phase::SelectUninstallTarget
        || phase == Phase::Elevate || phase == Phase::Error ==> plan is None
}

/// Whether the monster stands thirty pixels beside its target, looks at it, and
/// comes and goes from beyond the screen: where it looks left, it stands to the
/// right of the target, comes from the right and leaves to the left, and else the
/// other way round. Its middle is fifty pixels below the target.
pub open spec fn stands_by_its_target(s: OverlayView, plan: Option<MonsterPlan>) -> bool {
    plan matches Some(plan) ==> {
        &&& plan.mirrored == s.points_left
        &&& s.points_left ==> plan.area.x - s.target_position.0 == 30
        &&& !s.points_left ==> s.target_position.0 - (plan.area.x + plan.area.w) == 30
        &&& plan.area.y + plan.area.h as int / 2 - s.target_position.1 == 50
        &&& match plan.motion {
            Motion::Still => s.phase != Phase::Walk && s.phase != Phase::Fly,
            Motion::From(x) => s.phase == Phase::Walk && (if s.points_left {
                x == s.width
            } else {
                x + plan.area.w == 0
            }),
            Motion::To(x) => s.phase == Phase::Fly && (if s.points_left {
                x + plan.area.w == -200
            } else {
                x - s.width == 200
            }),
        }
    }
}

/// Whether the frame is the one that is due, with eight frames in a second. Walking
/// and flying go round through all fifteen; the arm is raised over the last four of
/// them and stays up while the monster asks; the kick and what follows it run once
/// from the first frame to the last.
pub open spec fn keeps_time(s: OverlayView, plan: Option<MonsterPlan>, now: u64) -> bool {
    plan matches Some(plan) ==> {
        let ms = lasted(s, now);
        let frame = plan.frame as int;
        &&& 0 <= frame < 15
        &&& s.phase == Phase::Walk || s.phase == Phase::Fly ==> goes_round(frame, ms)
        &&& s.phase == Phase::Point ==> 11 <= frame && (is_due(frame - 11, ms) || frame == 14 && ms
            >= 375)
        &&& s.phase == Phase::Kick || s.phase == Phase::Leo ==> is_due(frame, ms) || frame == 14
            && ms >= 1750
        &&& s.phase == Phase::Ask || s.phase == Phase::DetectUninstall || s.phase
            == Phase::UninstallModeAsk || s.phase == Phase::UninstallAsk || s.phase
            == Phase::UninstallUnavailable ==> frame == 14
    }
}

/// Whether the frame of the given number is shown at that time, at 125
/// milliseconds for each.
pub open spec fn is_due(number: int, ms: int) -> bool {
    125 * number <= ms < 125 * (number + 1)
}

/// Whether the frame of the given number is shown at that time when all fifteen
/// follow one another again and again.
pub open spec fn goes_round(number: int, ms: int) -> bool {
    exists|round: int| is_due_in(round, number, ms)
}

pub open spec fn is_due_in(round: int, number: int, ms: int) -> bool {
    is_due(15 * round + number, ms)
}

/// Each phase shows the monster as it should: with the right animation, at the
/// right place, at the right time.
pub proof fn law_phases_show_their_animations(s: OverlayView, sprites: Sprites, now: u64)
    requires
        sprites.wf(),
        0 < s.width,
        monster_fits(s, sprites),
    ensures
        shows_its_phase(s.phase, sprites, monster_of(s, sprites, now)),
        stands_by_its_target(s, monster_of(s, sprites, now)),
        keeps_time(s, monster_of(s, sprites, now), now),
        sprites.of(Sheet::Walk) == sprites.walk,
        sprites.of(Sheet::Point) == sprites.point,
        sprites.of(Sheet::Kick) == sprites.kick,
        sprites.of(Sheet::Leo) == sprites.leo,
        sprites.of(Sheet::Fly) == sprites.fly,
{
    let ms = s.elapsed(now) as int;
    let due = ms / 125;
    assert(is_due(due, ms));
    assert(15 * (due / 15) + due % 15 == due);
    assert(is_due_in(due / 15, due % 15, ms));
    assert(lasted(s, now) == ms);
}

/// The answer buttons belong to the monster that is shown: while it asks, it stands
/// where they are placed by.
pub proof fn law_buttons_stand_by_the_shown_monster(s: OverlayView, sprites: Sprites, now: u64)
    requires
        sprites.wf(),
        0 < s.width,
        monster_fits(s, sprites),
        has_choices(s.phase),
    ensures
        monster_of(s, sprites, now) matches Some(plan) ==> asking_area(s, sprites.point)
            == plan.area@,
        forall|monster: Area, m: ChoiceMetrics|
            #![trigger s.buttons(monster, m)]
            s.buttons(monster, m).first == first_choice(
                s.width as int,
                s.height as int,
                monster,
                m,
            ) && s.buttons(monster, m).second == second_choice(
                s.width as int,
                s.height as int,
                monster,
                m,
            ),
{
}

/// What the monster says in a phase and what its two answers read. Only the very
/// last resort can be cancelled; a program is uninstalled silently only where the
/// settings say so, and instead of that its shortcut can always just be deleted.
pub open spec fn speaks_for(
    phase: Phase,
    several: bool,
    silent: bool,
    words: QuestionView,
) -> bool {
    &&& phase == Phase::Ask && several ==> words.message == "喂，是这些吗？"@ && words.first
        == "是的"@ && words.second == "嘤嘤嘤就是这些"@
    &&& phase == Phase::Ask && !several ==> words.message == "喂，是这个吗？"@ && words.first
        == "是的"@ && words.second == "嘤嘤嘤就是这个"@
    &&& phase == Phase::DetectUninstall ==> words.message == "让我查查这是什么……"@
        && words.first.len() == 0 && words.second.len() == 0
    &&& phase == Phase::UninstallModeAsk ==> words.message
        == "检测到多个可卸载软件，\n要怎么处理？"@ && words.first == "逐一指定"@ && words.second
        == "全部卸载"@
    &&& phase == Phase::UninstallAsk ==> words.second == "就删除快捷方式好啦"@
    &&& phase == Phase::UninstallAsk && silent ==> words.message
        == "居然是软件，\n要悄悄卸载吗？"@ && words.first == "静默卸载"@
    &&& phase == Phase::UninstallAsk && !silent ==> words.message
        == "居然是软件，\n需要卸载吗？"@ && words.first == "卸载"@
    &&& phase == Phase::UninstallUnavailable ==> words.message
        == "这个软件只能删除，\n无法卸载"@ && words.first == "只删除"@ && words.second
        == "取消"@
    &&& words.first != "取消"@
    &&& words.second == "取消"@ <==> phase == Phase::UninstallUnavailable
}

proof fn lemma_labels_differ()
    ensures
        "取消"@ == seq!['取', '消'],
        "是的"@ == seq!['是', '的'],
        "卸载"@ == seq!['卸', '载'],
        "只删除"@.len() == 3,
        "静默卸载"@.len() == 4,
        "逐一指定"@.len() == 4,
        "全部卸载"@.len() == 4,
        "就删除快捷方式好啦"@.len() == 9,
        "嘤嘤嘤就是这些"@.len() == 7,
        "嘤嘤嘤就是这个"@.len() == 7,
        ""@.len() == 0,
{
    reveal_strlit("取消");
    reveal_strlit("是的");
    reveal_strlit("卸载");
    reveal_strlit("只删除");
    reveal_strlit("静默卸载");
    reveal_strlit("逐一指定");
    reveal_strlit("全部卸载");
    reveal_strlit("就删除快捷方式好啦");
    reveal_strlit("嘤嘤嘤就是这些");
    reveal_strlit("嘤嘤嘤就是这个");
    reveal_strlit("");
    assert("取消"@ =~= seq!['取', '消']);
    assert("是的"@ =~= seq!['是', '的']);
    assert("卸载"@ =~= seq!['卸', '载']);
}

/// What the monster asks is what it should ask in the phase.
pub proof fn law_questions_say_what_they_ask(phase: Phase, several: bool, silent: bool)
    ensures
        speaks_for(phase, several, silent, question_of(phase, several, silent)),
{
    lemma_labels_differ();
    assert(seq!['取', '消'][0] != seq!['是', '的'][0]);
    assert(seq!['取', '消'][0] != seq!['卸', '载'][0]);
}

/// The answers keep their word. Where an answer reads that it cancels, a click on
/// it closes the overlay and does nothing else; where it reads that only the
/// shortcut is deleted, a click confirms no program and queues that item; and where
/// it reads that a program is uninstalled, a click confirms one.
pub proof fn law_answers_keep_their_word(
    s: OverlayView,
    several: bool,
    silent: bool,
    x: i32,
    y: i32,
    buttons: Buttons,
    now: u64,
)
    requires
        s.wf(),
        s.owed == Owed::Nothing,
        has_choices(s.phase),
        !(buttons.first.covers(x as int, y as int) && buttons.second.covers(x as int, y as int)),
    ensures
        ({
            let words = question_of(s.phase, several, silent);
            let out = s.clicked(x, y, buttons, now);
            let first = buttons.first.covers(x as int, y as int);
            let second = buttons.second.covers(x as int, y as int);
            let label = if first {
                words.first
            } else {
                words.second
            };
            &&& (first || second) && label == "取消"@ ==> out == (OverlayView {
                effects: s.effects.push(Effect::Close),
                ..s
            })
            &&& (first || second) && label == "就删除快捷方式好啦"@ ==> {
                &&& out.confirmed == s.confirmed
                &&& lists_path(out.delete_targets, s.candidates[s.current as int].source)
            }
            &&& (first || second) && (label == "卸载"@ || label == "静默卸载"@) ==> out.confirmed
                == s.confirmed.push(s.candidates[s.current as int])
            &&& (first || second) && label == "静默卸载"@ ==> silent
            &&& (first || second) && label == "卸载"@ ==> !silent
            &&& (first || second) && label == "全部卸载"@ ==> out.owed == Owed::Launch && forall|
                c: int,
            |
                0 <= c < s.candidates.len() ==> has_id(out.confirmed, (#[trigger] s.candidates[c]).id)
        }),
{
    lemma_labels_differ();
    law_questions_say_what_they_ask(s.phase, several, silent);
    reveal_strlit("静默卸载");
    reveal_strlit("逐一指定");
    reveal_strlit("全部卸载");
    assert("静默卸载"@[0] == '静' && "逐一指定"@[0] == '逐' && "全部卸载"@[0] == '全');
    assert(seq!['取', '消'][0] != seq!['是', '的'][0]);
    assert(seq!['取', '消'][0] != seq!['卸', '载'][0]);
    assert(seq!['是', '的'][0] != seq!['卸', '载'][0]);
    let first = buttons.first.covers(x as int, y as int);
    let second = buttons.second.covers(x as int, y as int);
    if s.phase == Phase::UninstallAsk {
        if first {
            law_first_answer_uninstalls(s, x, y, buttons, now);
        } else if second {
            law_second_answer_deletes_the_item(s, x, y, buttons, now);
        }
    } else if s.phase == Phase::UninstallModeAsk && second {
        law_second_answer_uninstalls_all(s, x, y, buttons, now);
        let out = s.clicked(x, y, buttons, now);
        assert forall|c: int| 0 <= c < s.candidates.len() implies has_id(
            out.confirmed,
            (#[trigger] s.candidates[c]).id,
        ) by {
            assert(has_id(s.candidates, s.candidates[c].id));
        }
    }
}

/// The answers of a dialog keep their word as well: the one that reads that it goes on
/// asks for more rights, and the one that reads that it cancels only closes. An error
/// offers neither.
pub proof fn law_dialog_answers_keep_their_word(
    look: ModalLook,
    is_error: bool,
    s: OverlayView,
    x: i32,
    y: i32,
    buttons: Buttons,
    now: u64,
)
    requires
        call_ensures(OverlayApp::modal_look, (is_error,), look),
        s.phase == Phase::Elevate,
    ensures
        is_error ==> look.answers is None,
        !is_error ==> {
            let panel = modal_area(s.width as int, s.height as int);
            let out = s.clicked(x, y, buttons, now);
            let (yes, no) = look.answers->0;
            &&& look.answers is Some
            &&& yes@ == "继续"@ && modal_button(panel, 90).covers(x as int, y as int) ==> out == (
            OverlayView {
                owed: Owed::Elevation,
                effects: s.effects.push(Effect::RequestElevation),
                ..s
            })
            &&& no@ == "取消"@ && modal_button(panel, 270).covers(x as int, y as int) ==> out == (
            OverlayView { effects: s.effects.push(Effect::Close), ..s })
            &&& yes@ == "继续"@ && no@ == "取消"@
        },
{
}

/// What else is shown. The screen is darkened where the user aims, and only fades
/// then; the dialogs come where rights are missing and where something failed; the
/// marks are shown where the user aims, where the monster points, and where it asks
/// about a program, as long as there are any.
pub proof fn law_rest_of_the_scene(s: OverlayView)
    ensures
        s.phase == Phase::Select <==> backdrop_of(s.phase) == Some(Backdrop::FadingIn),
        s.phase == Phase::FadeOut <==> backdrop_of(s.phase) == Some(Backdrop::FadingOut),
        s.phase == Phase::SelectUninstallTarget <==> backdrop_of(s.phase) == Some(Backdrop::Full),
        speaks(s.phase) <==> s.phase == Phase::Ask || s.phase == Phase::DetectUninstall || s.phase
            == Phase::UninstallModeAsk || s.phase == Phase::UninstallAsk || s.phase
            == Phase::UninstallUnavailable,
        marks_of(s) <==> s.markers.len() > 0 && (s.phase == Phase::SelectUninstallTarget || s.phase
            == Phase::Point || s.phase == Phase::UninstallAsk),
{
}

/// The explosions are seen for 1875 milliseconds after the foot has hit, and only
/// during the kick.
pub proof fn law_explosions_are_brief(s: OverlayView, now: u64)
    ensures
        explodes(s, now) <==> s.phase == Phase::Kick && (s.explosion_started matches Some(started)
            && now - started <= 1875),
{
}

/// The explosions stand around the points where the deletion explodes, each in the
/// middle of its picture and forty pixels above that.
pub proof fn law_explosions_stand_at_their_points(
    areas: Seq<RectI>,
    s: OverlayView,
    size: (i32, i32),
    i: int,
)
    requires
        is_around(areas, s, size),
        0 <= i < areas.len(),
    ensures
        areas.len() == s.explosion_positions.len(),
        areas[i].w == size.0,
        areas[i].h == size.1,
        areas[i].x + size.0 as int / 2 == s.explosion_positions[i].0,
        areas[i].y + size.1 as int / 2 + 40 == s.explosion_positions[i].1,
{
    assert(areas[i]@ == explosion_area(
        point_view(s.explosion_positions[i]),
        size.0 as int,
        size.1 as int,
    ));
}

/// The prompt asks for the item at first; where points are assigned to programs, it
/// names the program whose turn it is, and says which of how many that is.
pub proof fn law_prompt_names_the_program(s: OverlayView)
    ensures
        s.phase != Phase::SelectUninstallTarget ==> prompt_of(s) == "请选择你要摧毁的文件"@,
        s.phase == Phase::SelectUninstallTarget && s.current < s.candidates.len() ==> {
            let name = s.candidates[s.current as int].display_name;
            let start = "请用准星标记要卸载的："@;
            &&& start.is_prefix_of(prompt_of(s))
            &&& (start + name).is_prefix_of(prompt_of(s))
            &&& prompt_of(s).skip((start.len() + name.len()) as int) == "（"@ + decimal(
                s.current + 1,
            ) + "/"@ + decimal(s.candidates.len()) + "）"@
        },
{
    if s.phase == Phase::SelectUninstallTarget && s.current < s.candidates.len() {
        let name = s.candidates[s.current as int].display_name;
        let start = "请用准星标记要卸载的："@;
        let rest = "（"@ + decimal(s.current + 1) + "/"@ + decimal(s.candidates.len()) + "）"@;
        assert(prompt_of(s) =~= start + name + rest);
        assert(prompt_of(s).skip((start.len() + name.len()) as int) =~= rest);
    }
}

/// Whether a text has more than one line.
pub fn has_line_break(text: &str) -> (found: bool)
    ensures
        found == text@.contains('\n'),
{
    let chars = chars_of(text);
    let mut i: usize = 0;
    while i < chars.len()
        invariant
            i <= chars@.len(),
            chars@ == text@,
            forall|j: int| 0 <= j < i ==> chars@[j] != '\n',
        decreases chars@.len() - i,
    {
        if chars[i] == '\n' {
            assert(chars@[i as int] == '\n');
            return true;
        }
        i = i + 1;
    }
    false
}

} // verus!
