use monster_deleter::bridge::{BcuCandidate, BcuProbe};
use monster_deleter::config::UninstallConfig;
use monster_deleter::layout::{choice_rects, ChoiceMetrics, Choices, RectI};
use monster_deleter::overlay::state::{
    AfterKick, Effect, Owed, Phase, ProbeNews, RecycleOutcome,
};
use monster_deleter::overlay::{fan_radius, OverlayApp};
use monster_deleter::scene::{
    has_line_break, question, Backdrop, Motion, Sheet, Sprites,
};
use monster_deleter::canvas::{Color, Raster};
use monster_deleter::sprite::Sprite;

fn texts(list: &[&str]) -> Vec<String> {
    list.iter().map(|text| (*text).to_owned()).collect()
}

fn overlay(targets: &[&str]) -> OverlayApp {
    OverlayApp::new(texts(targets), 1000, 800, 0).unwrap()
}

fn no_sprites() -> Sprites {
    Sprites { walk: None, point: None, kick: None, leo: None, fly: None, explosion: None }
}

fn press(app: &mut OverlayApp, x: i32, y: i32, now: u64) {
    app.click(x, y, &no_sprites(), &ChoiceMetrics::unscaled(), now);
}

fn buttons(app: &OverlayApp) -> Choices {
    let monster = app.asking_monster(&no_sprites());
    choice_rects(app.width, app.height, monster, &ChoiceMetrics::unscaled())
}

/// Clicks on the first answer button.
fn first(app: &mut OverlayApp, now: u64) {
    let button = buttons(app).first;
    press(app, button.x, button.y, now);
}

/// Clicks on the second answer button.
fn second(app: &mut OverlayApp, now: u64) {
    let button = buttons(app).second;
    press(app, button.x, button.y, now);
}

/// Items fan out to the right, ten pixels apart.
fn fan(app: &OverlayApp) -> Vec<(i32, i32)> {
    (0..app.delete_targets.len()).map(|index| (10 * index as i32, 0)).collect()
}

fn hear(app: &mut OverlayApp, news: ProbeNews, now: u64) {
    let fan = fan(app);
    app.tick(news, &fan, now);
}

fn pass(app: &mut OverlayApp, now: u64) {
    hear(app, ProbeNews::Pending, now);
}

/// Brings a new overlay to its first question.
fn ask(app: &mut OverlayApp) {
    press(app, 300, 400, 100);
    pass(app, 600);
    pass(app, 5100);
    pass(app, 5600);
    assert!(app.phase == Phase::Ask);
    app.take_effects();
}

/// Brings a new overlay to the search for uninstallers of its items.
fn detect(app: &mut OverlayApp, programs: &[Option<&str>]) {
    ask(app);
    first(app, 6000);
    assert!(app.owed == Owed::Settings);
    app.settings_read(&UninstallConfig::default(), 6000);
    assert!(app.owed == Owed::Programs);
    let programs: Vec<Option<String>> =
        programs.iter().map(|program| program.map(str::to_owned)).collect();
    app.programs_found(&programs, true, 6000);
    assert!(app.phase == Phase::DetectUninstall);
    app.take_effects();
}

fn found(id: &str) -> BcuProbe {
    BcuProbe::Candidate(BcuCandidate {
        source: String::new(),
        executable: format!("{id}.exe"),
        id: id.to_owned(),
        display_name: format!("Program {id}"),
    })
}

/// Lets the kick that has just begun delete what is queued.
fn kick(app: &mut OverlayApp, now: u64) {
    assert!(app.phase == Phase::Kick);
    pass(app, now + 624);
    assert!(app.owed == Owed::Nothing);
    pass(app, now + 625);
    assert!(app.owed == Owed::Recycling);
    assert!(app.explosion_started == Some(now + 625));
    app.recycle_ended(RecycleOutcome::Done, now + 700);
    assert!(app.delete_targets.is_empty());
    assert!(app.phase == Phase::Kick);
    pass(app, now + 1875);
    assert!(app.phase == Phase::Leo);
    pass(app, now + 1875 + 1875);
}

#[test]
fn overlays_need_items_and_a_screen() {
    assert!(OverlayApp::new(Vec::new(), 10, 10, 0).is_none());
    assert!(OverlayApp::new(texts(&["a"]), 0, 10, 0).is_none());
    assert!(OverlayApp::new(texts(&["a"]), 10, -1, 0).is_none());
    let app = overlay(&["a"]);
    assert!(app.phase == Phase::Select);
    assert_eq!(app.target_position, (500, 400));
}

#[test]
fn the_monster_walks_in_and_asks() {
    let mut app = overlay(&["a.txt"]);
    press(&mut app, 499, 10, 100);
    assert!(app.phase == Phase::FadeOut);
    assert!(app.points_left);
    assert!(app.take_effects() == vec![Effect::RestoreCursor, Effect::LoadWalk]);
    pass(&mut app, 599);
    assert!(app.phase == Phase::FadeOut);
    pass(&mut app, 600);
    assert!(app.phase == Phase::Walk);
    assert!(app.take_effects() == vec![Effect::PlayMusic, Effect::LoadPoint]);
    pass(&mut app, 5099);
    assert!(app.phase == Phase::Walk);
    pass(&mut app, 5100);
    assert!(app.phase == Phase::Point);
    assert!(app.take_effects() == vec![Effect::PlayTalk]);
    pass(&mut app, 5600);
    assert!(app.phase == Phase::Ask);
    assert!(app.take_effects() == vec![Effect::LoadKickSequence]);
    press(&mut app, 1, 1, 5700);
    assert!(app.owed == Owed::Nothing);
    assert!(app.delete_targets.is_empty());
    second(&mut app, 5800);
    assert!(app.take_effects() == vec![Effect::ReadSettings]);
}

#[test]
fn the_monster_looks_away_from_the_middle() {
    let mut app = overlay(&["a.txt"]);
    press(&mut app, 500, 10, 100);
    assert!(!app.points_left);
}

#[test]
fn a_switched_off_feature_recycles_everything_at_once() {
    let mut app = overlay(&["a.lnk", "b.txt", "./a.lnk"]);
    ask(&mut app);
    first(&mut app, 6000);
    let config = UninstallConfig { enabled: false, ..UninstallConfig::default() };
    app.settings_read(&config, 6000);
    assert!(app.phase == Phase::Kick);
    assert!(app.after_kick == AfterKick::FlyAway);
    assert_eq!(app.delete_targets, texts(&["a.lnk", "b.txt", "./a.lnk"]));
    kick(&mut app, 6000);
    assert!(app.phase == Phase::Fly);
    app.take_effects();
    pass(&mut app, 6000 + 3750 + 1999);
    assert!(app.take_effects().is_empty());
    pass(&mut app, 6000 + 3750 + 2000);
    assert!(app.take_effects() == vec![Effect::Close]);
}

#[test]
fn the_same_item_is_queued_once() {
    let mut app = overlay(&["d/a.txt", "d//a.txt", "b"]);
    app.begin_direct_batch_recycle(0);
    assert_eq!(app.delete_targets, texts(&["d/a.txt", "b"]));
}

#[test]
fn larger_selections_look_at_shortcuts_alone() {
    let mut app = overlay(&["a.exe", "b.lnk"]);
    ask(&mut app);
    first(&mut app, 6000);
    app.settings_read(&UninstallConfig::default(), 6000);
    assert_eq!(app.probe_sources, texts(&["b.lnk"]));
    let mut single = overlay(&["a.exe"]);
    ask(&mut single);
    first(&mut single, 6000);
    single.settings_read(&UninstallConfig::default(), 6000);
    assert_eq!(single.probe_sources, texts(&["a.exe"]));
    let mut plain = overlay(&["a.txt"]);
    ask(&mut plain);
    first(&mut plain, 6000);
    plain.settings_read(&UninstallConfig::default(), 6000);
    assert!(plain.phase == Phase::Kick);
}

#[test]
fn missing_programs_or_a_missing_bridge_recycle_everything() {
    for (programs, bridge) in [(vec![None], true), (vec![Some("p.exe".to_owned())], false)] {
        let mut app = overlay(&["a.lnk"]);
        ask(&mut app);
        first(&mut app, 6000);
        app.settings_read(&UninstallConfig::default(), 6000);
        assert!(!app.begin_uninstall_probe(&programs, bridge));
        assert!(app.phase == Phase::Ask);
        assert!(app.delete_targets.is_empty());
        app.programs_found(&programs, bridge, 6000);
        assert!(app.phase == Phase::Kick);
        assert_eq!(app.delete_targets, texts(&["a.lnk"]));
    }
}

#[test]
fn no_uninstaller_means_one_batch() {
    let mut app = overlay(&["a.lnk", "b.txt"]);
    detect(&mut app, &[Some("p.exe")]);
    pass(&mut app, 7000);
    assert!(app.phase == Phase::DetectUninstall);
    hear(&mut app, ProbeNews::Answered(vec![BcuProbe::ExecutableWithoutUninstaller]), 7100);
    assert!(app.phase == Phase::Kick);
    assert_eq!(app.delete_targets, texts(&["a.lnk", "b.txt"]));
    let mut lost = overlay(&["a.lnk"]);
    detect(&mut lost, &[Some("p.exe")]);
    hear(&mut lost, ProbeNews::Lost, 7100);
    assert_eq!(lost.delete_targets, texts(&["a.lnk"]));
}

#[test]
fn one_program_is_asked_about_after_the_others_are_gone() {
    let mut app = overlay(&["a.lnk", "b.txt"]);
    detect(&mut app, &[Some("p.exe")]);
    hear(&mut app, ProbeNews::Answered(vec![found("1")]), 7000);
    assert_eq!(app.delete_targets, texts(&["b.txt"]));
    assert_eq!(app.uninstall_candidates[0].source, "a.lnk");
    kick(&mut app, 7000);
    assert!(app.phase == Phase::UninstallAsk);
    app.take_effects();
    first(&mut app, 11000);
    assert!(app.owed == Owed::Launch);
    assert!(app.take_effects() == vec![Effect::LaunchUninstallers]);
    assert_eq!(app.delete_targets, texts(&["a.lnk"]));
    assert_eq!(app.confirmed_uninstall_candidates.len(), 1);
    app.launch_ended(None, 11000);
    kick(&mut app, 11000);
    assert!(app.phase == Phase::Fly);
}

#[test]
fn one_program_alone_is_asked_about_at_once() {
    let mut app = overlay(&["a.exe"]);
    detect(&mut app, &[Some("a.exe")]);
    hear(&mut app, ProbeNews::Answered(vec![found("1")]), 7000);
    assert!(app.phase == Phase::UninstallAsk);
    first(&mut app, 8000);
    assert!(app.delete_targets.is_empty());
    app.launch_ended(None, 8000);
    assert!(app.phase == Phase::Fly);
}

#[test]
fn a_program_can_be_kept_and_only_its_shortcut_deleted() {
    let mut app = overlay(&["a.lnk"]);
    detect(&mut app, &[Some("p.exe")]);
    hear(&mut app, ProbeNews::Answered(vec![found("1")]), 7000);
    second(&mut app, 8000);
    assert!(app.owed == Owed::Nothing);
    assert!(app.phase == Phase::Kick);
    assert_eq!(app.delete_targets, texts(&["a.lnk"]));
}

#[test]
fn several_programs_are_gone_through_one_by_one() {
    let mut app = overlay(&["a.lnk", "b.lnk", "c.txt"]);
    detect(&mut app, &[Some("a.exe"), Some("b.exe")]);
    hear(&mut app, ProbeNews::Answered(vec![found("1"), found("2")]), 7000);
    assert!(app.phase == Phase::UninstallModeAsk);
    first(&mut app, 7500);
    assert_eq!(app.delete_targets, texts(&["c.txt"]));
    kick(&mut app, 7500);
    assert!(app.phase == Phase::SelectUninstallTarget);
    assert_eq!(app.selection_prompt(), "请用准星标记要卸载的：Program 1（1/2）");
    press(&mut app, 10, 20, 12000);
    assert!(app.phase == Phase::Point);
    assert_eq!(app.uninstall_markers, vec![(10, 20)]);
    assert!(app.mark_grows(0));
    pass(&mut app, 12500);
    assert!(app.phase == Phase::UninstallAsk);
    assert!(!app.mark_grows(0));
    second(&mut app, 13000);
    assert!(app.phase == Phase::SelectUninstallTarget);
    assert_eq!(app.delete_targets, texts(&["a.lnk"]));
    assert_eq!(app.uninstall_markers, vec![(10, 20)]);
    press(&mut app, 30, 40, 13500);
    assert_eq!(app.uninstall_markers, vec![(10, 20), (30, 40)]);
    pass(&mut app, 14000);
    first(&mut app, 14500);
    assert!(app.owed == Owed::Launch);
    assert_eq!(app.confirmed_uninstall_candidates.len(), 1);
    assert_eq!(app.confirmed_uninstall_candidates[0].id, "2");
    assert_eq!(app.delete_targets, texts(&["a.lnk", "b.lnk"]));
    assert_eq!(
        app.explosion_positions_for_delete(&Vec::new()),
        vec![(10, 20), (30, 40)]
    );
    app.launch_ended(None, 14500);
    kick(&mut app, 14500);
    assert!(app.phase == Phase::Fly);
    assert_eq!(app.uninstall_markers, vec![(10, 20), (30, 40)]);
}

#[test]
fn the_bin_is_used_twice_and_the_uninstallers_once() {
    let mut app = overlay(&["a.lnk", "b.lnk", "c.txt"]);
    detect(&mut app, &[Some("a.exe"), Some("b.exe")]);
    hear(&mut app, ProbeNews::Answered(vec![found("1"), found("2")]), 7000);
    first(&mut app, 7000);
    kick(&mut app, 7000);
    for now in [11000, 13000] {
        press(&mut app, 10, 20, now);
        pass(&mut app, now + 500);
        first(&mut app, now + 600);
    }
    app.launch_ended(None, 14000);
    kick(&mut app, 14000);
    assert!(app.phase == Phase::Fly);
    let effects = app.take_effects();
    assert_eq!(effects.iter().filter(|effect| **effect == Effect::Recycle).count(), 2);
    assert_eq!(effects.iter().filter(|effect| **effect == Effect::LaunchUninstallers).count(), 1);
}

#[test]
fn the_answers_stand_by_the_animation() {
    let mut app = overlay(&["a.txt"]);
    ask(&mut app);
    let sprites = Sprites { point: sprite(40), ..no_sprites() };
    let metrics = ChoiceMetrics::unscaled();
    let monster = app.asking_monster(&sprites);
    assert_eq!((monster.x, monster.y, monster.w, monster.h), (330, 445, 40, 10));
    app.click(202, 470, &sprites, &metrics, 6000);
    assert!(app.owed == Owed::Nothing);
    app.click(202, 471, &sprites, &metrics, 6000);
    assert!(app.owed == Owed::Settings);
}

#[test]
fn a_probe_is_taken_note_of_and_nothing_else() {
    let mut app = overlay(&["a.lnk", "b.lnk", "c.txt"]);
    ask(&mut app);
    first(&mut app, 6000);
    app.settings_read(&UninstallConfig::default(), 6000);
    let effects = app.take_effects();
    assert!(app.begin_uninstall_probe(&vec![None, Some("b.exe".to_owned())], true));
    assert_eq!(app.uninstall_probe.len(), 1);
    assert_eq!(app.uninstall_probe[0].source, "b.lnk");
    assert_eq!(app.uninstall_probe[0].executable, "b.exe");
    assert!(app.phase == Phase::Ask);
    assert!(app.owed == Owed::Programs);
    assert!(app.delete_targets.is_empty());
    assert!(app.take_effects().is_empty());
    assert!(effects.last() == Some(&Effect::FindPrograms));
}

#[test]
fn one_program_behind_several_items_is_uninstalled_once() {
    let mut app = overlay(&["a.lnk", "b.lnk", "c.lnk"]);
    detect(&mut app, &[Some("a.exe"), Some("a.exe"), Some("c.exe")]);
    hear(&mut app, ProbeNews::Answered(vec![found("1"), found("1"), found("2")]), 7000);
    second(&mut app, 7500);
    let ids: Vec<&str> =
        app.confirmed_uninstall_candidates.iter().map(|program| program.id.as_str()).collect();
    assert_eq!(ids, vec!["1", "2"]);
    assert_eq!(app.confirmed_uninstall_candidates[0].source, "a.lnk");
    assert_eq!(app.delete_targets, texts(&["a.lnk", "b.lnk", "c.lnk"]));
    let mut config = UninstallConfig::default();
    assert_eq!(
        app.launch_arguments(&config, true),
        Some(texts(&["uninstall-batch", "1.exe", "1", "2.exe", "2"]))
    );
    config.mode = "silent".to_owned();
    assert_eq!(
        app.launch_arguments(&config, true),
        Some(texts(&["uninstall-batch", "--quiet", "1.exe", "1", "2.exe", "2"]))
    );
    assert_eq!(app.launch_arguments(&config, false), None);
    assert_eq!(overlay(&["a"]).launch_arguments(&config, true), None);
    app.launch_ended(None, 7500);
    kick(&mut app, 7500);
    assert!(app.phase == Phase::Fly);
}

#[test]
fn all_programs_can_be_uninstalled_together() {
    let mut app = overlay(&["a.lnk", "c.txt", "b.lnk"]);
    detect(&mut app, &[Some("a.exe"), Some("b.exe")]);
    hear(&mut app, ProbeNews::Answered(vec![found("1"), found("2")]), 7000);
    second(&mut app, 7500);
    assert!(app.owed == Owed::Launch);
    assert_eq!(app.confirmed_uninstall_candidates.len(), 2);
    assert_eq!(app.delete_targets, texts(&["c.txt", "a.lnk", "b.lnk"]));
    app.launch_ended(None, 7500);
    assert!(app.phase == Phase::Kick);
}

#[test]
fn failures_are_shown_and_clicked_away() {
    let mut app = overlay(&["a.lnk"]);
    detect(&mut app, &[Some("p.exe")]);
    hear(&mut app, ProbeNews::Answered(vec![found("1")]), 7000);
    first(&mut app, 8000);
    app.launch_ended(Some("no bridge".to_owned()), 8000);
    assert!(app.phase == Phase::Error);
    assert_eq!(app.modal_message(true), "无法启动软件的官方卸载程序：no bridge");
    app.take_effects();
    press(&mut app, 0, 0, 8100);
    assert!(app.take_effects() == vec![Effect::Close]);

    let mut other = overlay(&["a.txt"]);
    other.begin_direct_batch_recycle(0);
    pass(&mut other, 625);
    assert!(other.take_effects()
        == vec![Effect::LoadKickSequence, Effect::PlayBoom, Effect::Recycle]);
    other.recycle_ended(RecycleOutcome::Failed("gone".to_owned()), 700);
    assert!(other.phase == Phase::Error);
    assert_eq!(other.modal_message(true), "删除失败：gone");
    assert_eq!(other.delete_targets, texts(&["a.txt"]));
    assert_eq!(overlay(&["a"]).modal_message(true), "删除失败");
}

#[test]
fn missing_rights_are_offered_to_be_granted() {
    let mut app = overlay(&["a.txt"]);
    app.begin_direct_batch_recycle(0);
    pass(&mut app, 625);
    app.recycle_ended(RecycleOutcome::AccessDenied, 700);
    assert!(app.phase == Phase::Elevate);
    assert_eq!(app.modal_message(false), "该文件需要管理员权限，继续吗？");
    let question = OverlayApp::modal_look(false);
    assert!(question.color == Color { r: 28, g: 28, b: 30, a: 255 });
    assert_eq!(question.answers, Some(("继续", "取消")));
    let error = OverlayApp::modal_look(true);
    assert!(error.color == Color { r: 180, g: 30, b: 30, a: 255 });
    assert_eq!(error.answers, None);
    app.take_effects();
    press(&mut app, 0, 0, 800);
    assert!(app.take_effects().is_empty());
    press(&mut app, 520, 420, 800);
    assert!(app.take_effects() == vec![Effect::Close]);
    press(&mut app, 340, 420, 900);
    assert!(app.take_effects() == vec![Effect::RequestElevation]);
    assert!(app.owed == Owed::Elevation);
    app.elevation_ended(Some("refused".to_owned()), 900);
    assert!(app.phase == Phase::Error);
    assert_eq!(app.modal_message(true), "无法请求管理员权限：refused");

    let mut granted = overlay(&["a.txt"]);
    granted.begin_direct_batch_recycle(0);
    pass(&mut granted, 625);
    granted.recycle_ended(RecycleOutcome::AccessDenied, 700);
    press(&mut granted, 340, 420, 900);
    granted.take_effects();
    granted.elevation_ended(None, 900);
    assert!(granted.take_effects() == vec![Effect::Close]);
}

#[test]
fn a_late_deletion_ends_the_kick() {
    let mut app = overlay(&["a.txt"]);
    app.begin_direct_batch_recycle(0);
    pass(&mut app, 5000);
    assert!(app.owed == Owed::Recycling);
    app.recycle_ended(RecycleOutcome::Done, 6000);
    assert!(app.phase == Phase::Leo);
    assert_eq!(app.phase_started, 6000);
}

#[test]
fn several_items_fan_out() {
    let mut app = overlay(&["a", "b", "c"]);
    app.target_position = (100, 200);
    assert_eq!(app.explosion_positions_for_delete(&Vec::new()), vec![(100, 200)]);
    app.begin_direct_batch_recycle(0);
    let fan = vec![(42, 0), (-30, 52), (-39, -68)];
    assert_eq!(
        app.explosion_positions_for_delete(&fan),
        vec![(142, 200), (70, 252), (61, 132)]
    );
    app.explode(&fan);
    assert_eq!(app.explosion_positions, vec![(142, 200), (70, 252), (61, 132)]);
    assert!(app.phase == Phase::Kick);
    app.explosion_positions.clear();
    app.tick(ProbeNews::Pending, &fan, 625);
    assert!(app.owed == Owed::Recycling);
    assert_eq!(app.explosion_positions, vec![(142, 200), (70, 252), (61, 132)]);
    assert_eq!((0..4).map(fan_radius).collect::<Vec<i32>>(), vec![42, 60, 78, 42]);
}

#[test]
fn an_unavailable_uninstaller_still_allows_deleting() {
    let mut app = overlay(&["a.lnk"]);
    app.phase = Phase::UninstallUnavailable;
    second(&mut app, 10);
    assert!(app.take_effects() == vec![Effect::Close]);
    first(&mut app, 20);
    assert_eq!(app.delete_targets, texts(&["a.lnk"]));
    assert!(app.phase == Phase::Kick);
}

#[test]
fn frames_follow_the_clock() {
    let mut app = overlay(&["a"]);
    app.enter(Phase::Walk, 1000);
    assert_eq!(app.elapsed(900), 0);
    assert_eq!(app.frame(1124), 0);
    assert_eq!(app.frame(1125), 1);
    assert_eq!(app.frame(3000), 16);
}

fn sprite(width: u32) -> Option<Sprite> {
    let sheet = Raster { width: width * 5, height: 30, pixels: vec![0; (width * 5 * 30 * 4) as usize] };
    Sprite::load(Some(&sheet), 10)
}

fn sprites() -> Sprites {
    Sprites {
        walk: sprite(8),
        point: sprite(8),
        kick: sprite(8),
        leo: sprite(8),
        fly: sprite(8),
        explosion: sprite(6),
    }
}

#[test]
fn scenes_show_the_monster_where_it_is() {
    let sprites = sprites();
    let mut app = overlay(&["a"]);
    assert!(app.render(&sprites, false, 0).backdrop == Some(Backdrop::FadingIn));
    assert!(app.render(&sprites, false, 0).monster.is_none());
    app.target_position = (100, 200);
    app.points_left = true;
    app.enter(Phase::Walk, 0);
    let walking = app.render(&sprites, false, 2000).monster.unwrap();
    assert!(walking.sheet == Sheet::Walk);
    assert_eq!(walking.frame, 1);
    assert!(walking.area == RectI { x: 130, y: 245, w: 8, h: 10 });
    assert!(walking.mirrored);
    assert!(walking.motion == Motion::From(1000));
    app.points_left = false;
    let other = app.render(&sprites, false, 0).monster.unwrap();
    assert!(other.area == RectI { x: 62, y: 245, w: 8, h: 10 });
    assert!(other.motion == Motion::From(-8));
    app.enter(Phase::Fly, 0);
    assert!(app.render(&sprites, false, 0).monster.unwrap().motion == Motion::To(1200));
    app.points_left = true;
    assert!(app.render(&sprites, false, 0).monster.unwrap().motion == Motion::To(-208));
    app.enter(Phase::Point, 0);
    for (now, frame) in [(0, 11), (125, 12), (374, 13), (375, 14), (9999, 14)] {
        assert_eq!(app.render(&sprites, false, now).monster.unwrap().frame, frame);
    }
    app.enter(Phase::Leo, 0);
    assert_eq!(app.render(&sprites, false, 1749).monster.unwrap().frame, 13);
    assert_eq!(app.render(&sprites, false, 9999).monster.unwrap().frame, 14);
    app.enter(Phase::Error, 0);
    assert!(app.render(&sprites, false, 0).modal == Some(true));
    app.enter(Phase::Elevate, 0);
    assert!(app.render(&sprites, false, 0).modal == Some(false));
    app.enter(Phase::FadeOut, 0);
    assert!(app.render(&sprites, false, 0).backdrop == Some(Backdrop::FadingOut));
}

#[test]
fn scenes_show_questions_and_explosions() {
    let mut sprites = sprites();
    let mut app = overlay(&["a", "b"]);
    app.enter(Phase::Ask, 0);
    let scene = app.render(&sprites, false, 0);
    assert_eq!(scene.question.unwrap().message, "喂，是这些吗？");
    assert_eq!(scene.monster.unwrap().frame, 14);
    assert!(scene.explosion.is_none());
    app.enter(Phase::Kick, 0);
    app.explosion_started = Some(625);
    app.explosion_positions = vec![(100, 100), (0, 0)];
    let explosion = app.render(&sprites, false, 2500).explosion.unwrap();
    assert_eq!(explosion.frame, 0);
    assert!(explosion.areas[0] == RectI { x: 97, y: 55, w: 6, h: 10 });
    assert!(explosion.areas[1] == RectI { x: -3, y: -45, w: 6, h: 10 });
    assert_eq!(app.render(&sprites, false, 1000).explosion.unwrap().frame, 3);
    assert!(app.render(&sprites, false, 2501).explosion.is_none());
    sprites.explosion = None;
    assert!(app.render(&sprites, false, 1000).explosion.is_none());
    sprites.point = None;
    app.enter(Phase::Ask, 0);
    let bare = app.render(&sprites, false, 0);
    assert!(bare.monster.is_none());
    assert!(bare.question.is_none());
    assert!(app.asking_monster(&sprites) == RectI { x: 500, y: 400, w: 250, h: 250 });
}

#[test]
fn marks_stay_while_more_points_are_chosen() {
    let sprites = sprites();
    let mut app = overlay(&["a"]);
    app.uninstall_markers.push((1, 2));
    for (phase, shown) in [
        (Phase::SelectUninstallTarget, true),
        (Phase::Point, true),
        (Phase::UninstallAsk, true),
        (Phase::Kick, false),
        (Phase::Ask, false),
    ] {
        app.enter(phase, 0);
        assert_eq!(app.render(&sprites, false, 0).marks, shown);
    }
    assert_eq!(overlay(&["a"]).selection_prompt(), "请选择你要摧毁的文件");
    app.enter(Phase::SelectUninstallTarget, 0);
    assert_eq!(app.selection_prompt(), "请选择要卸载的软件目标");
}

#[test]
fn every_question_has_its_words() {
    let single = question(Phase::Ask, false, false);
    assert_eq!(single.message, "喂，是这个吗？");
    assert_eq!((single.first, single.second), ("是的", "嘤嘤嘤就是这个"));
    let mode = question(Phase::UninstallModeAsk, true, false);
    assert_eq!((mode.first, mode.second), ("逐一指定", "全部卸载"));
    assert!(has_line_break(mode.message));
    assert_eq!(question(Phase::UninstallAsk, false, true).first, "静默卸载");
    assert_eq!(question(Phase::UninstallAsk, false, false).first, "卸载");
    let detecting = question(Phase::DetectUninstall, false, false);
    assert_eq!((detecting.first, detecting.second), ("", ""));
    assert!(!has_line_break(detecting.message));
    assert_eq!(question(Phase::UninstallUnavailable, false, false).second, "取消");
}
