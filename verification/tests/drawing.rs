use monster_deleter::canvas::{fade, Canvas, Color, Raster};
use monster_deleter::layout::{
    choice_rects, explosion_rect, modal_rect, monster_position, place_bubble, place_modal,
    prompt_rect, BubbleMetrics, ChoiceMetrics, RectI,
};
use monster_deleter::overlay::state::Phase;
use monster_deleter::sprite::{sheet_frames, Sprite};
use monster_deleter::window::{
    signed_high_word, signed_low_word, window_action, WindowAction, ESC_HOTKEY_ID, ESC_KEY,
    TICK_ID, WM_DESTROY, WM_HOTKEY, WM_KEYDOWN, WM_LBUTTONDOWN, WM_SETCURSOR, WM_TIMER,
};

fn rect(x: i32, y: i32, w: i32, h: i32) -> RectI {
    RectI { x, y, w, h }
}

#[test]
fn rectangles_hold_their_upper_left_edges() {
    let area = rect(-2, 3, 4, 5);
    assert!(area.contains(-2, 3));
    assert!(area.contains(1, 7));
    assert!(!area.contains(2, 3));
    assert!(!area.contains(-2, 8));
    assert!(!area.contains(-3, 3));
    assert!(rect(i32::MAX - 1, 0, 10, 1).contains(i32::MAX, 0));
}

#[test]
fn the_monster_stands_beside_the_target() {
    assert_eq!(monster_position((100, 200), true, 8, 11), (130, 245));
    assert_eq!(monster_position((100, 200), false, 8, 11), (62, 245));
}

#[test]
fn buttons_stand_below_or_above_and_on_the_screen() {
    let m = ChoiceMetrics::unscaled();
    let below = choice_rects(1000, 800, rect(400, 300, 250, 250), &m);
    assert!(below.first == rect(377, 566, 92, 52));
    assert!(below.second == rect(484, 566, 190, 52));
    let above = choice_rects(1000, 800, rect(900, 500, 250, 250), &m);
    assert!(above.first == rect(691, 432, 92, 52));
    let top = choice_rects(1000, 250, rect(-500, 20, 250, 250), &m);
    assert!(top.first == rect(12, 12, 92, 52));
    for y in [0, 100, 399, 700, 799] {
        for x in [0, 499, 500, 999] {
            let (left, high) = monster_position((x, y), x < 500, 200, 250);
            let choices = choice_rects(1000, 800, rect(left, high, 200, 250), &m);
            for button in [choices.first, choices.second] {
                assert!(button.x >= 12 && button.x + button.w <= 988);
                assert!(button.y >= 12 && button.y + button.h <= 788);
            }
        }
    }
}

#[test]
fn bubbles_stand_beside_or_below_and_on_the_screen() {
    let m = BubbleMetrics::unscaled();
    let left = place_bubble(1000, 800, rect(400, 300, 250, 250), true, &m, false);
    assert!(left.body == rect(668, 343, 220, 64));
    assert_eq!(left.tail.a, (668, 377));
    assert_eq!(left.tail.b, (668, 407));
    assert_eq!(left.tail.c, (653, 392));
    assert_eq!(left.shadow_tail.c, (653, 399));
    let right = place_bubble(1000, 800, rect(400, 300, 250, 250), false, &m, true);
    assert!(right.body == rect(162, 335, 220, 80));
    assert_eq!(right.tail.c, (397, 400));
    let below = place_bubble(1000, 800, rect(400, -40, 250, 250), true, &m, false);
    assert!(below.body == rect(668, 230, 220, 64));
    assert_eq!(below.tail.a, (763, 230));
    assert_eq!(below.tail.b, (793, 230));
    assert_eq!(below.tail.c, (778, 215));
}

#[test]
fn dialogs_stand_in_the_middle() {
    assert!(modal_rect(1000, 800) == rect(250, 315, 500, 170));
    let ask = place_modal(1001, 801, false);
    assert!(ask.panel == rect(250, 315, 500, 170));
    assert!(ask.shadow == rect(250, 323, 500, 170));
    assert!(ask.message == rect(270, 335, 460, 70));
    assert!(ask.yes == rect(340, 420, 140, 45));
    assert!(ask.no == rect(520, 420, 140, 45));
    assert!(place_modal(1000, 800, true).panel == rect(220, 325, 560, 150));
    assert!(prompt_rect(1000, 800) == rect(200, 372, 600, 56));
    assert!(explosion_rect((100, 100), 7, 9) == rect(97, 56, 7, 9));
}

fn pixel(canvas: &Canvas, x: i32, y: i32) -> [u8; 4] {
    let index = ((y * canvas.width + x) * 4) as usize;
    [
        canvas.pixels[index],
        canvas.pixels[index + 1],
        canvas.pixels[index + 2],
        canvas.pixels[index + 3],
    ]
}

const RED: Color = Color { r: 200, g: 100, b: 50, a: 128 };

#[test]
fn colours_are_laid_over_each_other() {
    let mut canvas = Canvas::new(3, 2);
    assert_eq!(canvas.pixels, vec![0; 24]);
    canvas.blend(1, 1, RED);
    assert_eq!(pixel(&canvas, 1, 1), [25, 50, 100, 128]);
    canvas.blend(1, 1, RED);
    assert_eq!(pixel(&canvas, 1, 1), [37, 75, 150, 191]);
    canvas.blend(3, 0, RED);
    canvas.blend(-1, 0, RED);
    canvas.blend(0, 2, RED);
    canvas.blend(0, 0, Color { a: 0, ..RED });
    assert_eq!(canvas.pixels.iter().filter(|byte| **byte != 0).count(), 4);
    canvas.clear();
    assert_eq!(canvas.pixels, vec![0; 24]);
    assert_eq!(fade(255, 255), 255);
    assert_eq!(fade(128, 127), 63);
}

fn picture() -> Raster {
    Raster { width: 2, height: 1, pixels: vec![1, 2, 3, 255, 4, 5, 6, 255] }
}

#[test]
fn pictures_are_stretched_and_mirrored() {
    let mut canvas = Canvas::new(5, 1);
    canvas.image(&picture(), rect(0, 0, 4, 1), 255, false);
    assert_eq!(pixel(&canvas, 0, 0), [3, 2, 1, 255]);
    assert_eq!(pixel(&canvas, 1, 0), [3, 2, 1, 255]);
    assert_eq!(pixel(&canvas, 2, 0), [6, 5, 4, 255]);
    assert_eq!(pixel(&canvas, 4, 0), [0, 0, 0, 0]);
    let mut mirrored = Canvas::new(2, 1);
    mirrored.image(&picture(), rect(-1, 0, 2, 1), 255, true);
    assert_eq!(pixel(&mirrored, 0, 0), [3, 2, 1, 255]);
    assert_eq!(pixel(&mirrored, 1, 0), [0, 0, 0, 0]);
    mirrored.image(&picture(), rect(0, 0, 0, 1), 255, true);
    assert_eq!(pixel(&mirrored, 1, 0), [0, 0, 0, 0]);
    assert!(picture().pixel(1, 0) == Color { r: 4, g: 5, b: 6, a: 255 });
}

#[test]
fn glyphs_colour_what_they_cover() {
    let mut canvas = Canvas::new(2, 1);
    let raw = vec![10, 255, 0, 0, 0, 0, 0, 0];
    canvas.text(&raw, rect(0, 0, 2, 1), Color { r: 10, g: 20, b: 30, a: 255 });
    assert_eq!(pixel(&canvas, 0, 0), [30, 20, 10, 255]);
    assert_eq!(pixel(&canvas, 1, 0), [0, 0, 0, 0]);
}

#[test]
fn crosses_meet_in_the_middle() {
    let mut canvas = Canvas::new(3, 3);
    canvas.cross((1, 1), 1, 0, Color { r: 0, g: 0, b: 0, a: 128 });
    assert_eq!(pixel(&canvas, 0, 0)[3], 128);
    assert_eq!(pixel(&canvas, 2, 0)[3], 128);
    assert_eq!(pixel(&canvas, 1, 1)[3], 191);
    assert_eq!(pixel(&canvas, 1, 0)[3], 0);
}

fn sheet() -> Raster {
    let mut pixels = Vec::new();
    for y in 0..3u8 {
        for x in 0..5u8 {
            pixels.extend_from_slice(&[x, y, 7, 255]);
        }
    }
    Raster { width: 5, height: 3, pixels }
}

#[test]
fn sheets_are_cut_row_by_row() {
    let frames = sheet_frames(&sheet()).unwrap();
    assert_eq!(frames.len(), 15);
    assert_eq!(frames[7].pixels, vec![2, 1, 7, 255]);
    let sprite = Sprite::load(Some(&sheet()), 1).unwrap();
    assert_eq!((sprite.width, sprite.height), (1, 1));
    assert_eq!(sprite.frames[14].pixels, vec![4, 2, 7, 255]);
    assert!(Sprite::load(None, 1).is_none());
    let narrow = Raster { width: 4, height: 3, pixels: vec![0; 48] };
    assert!(Sprite::load(Some(&narrow), 1).is_none());
    assert!(sheet_frames(&Raster { width: 5, height: 2, pixels: vec![0; 40] }).is_none());
}

#[test]
fn frames_are_scaled_in_proportion() {
    let wide = Raster { width: 10, height: 3, pixels: vec![255; 120] };
    let sprite = Sprite::load(Some(&wide), 4).unwrap();
    assert_eq!((sprite.width, sprite.height), (8, 4));
    assert_eq!(sprite.frames[0].pixels, vec![255; 8 * 4 * 4]);
    let mut pixels = Vec::new();
    for y in 0..6u8 {
        for x in 0..10u8 {
            pixels.extend_from_slice(&[(x / 2) * 50, (y / 2) * 100, 0, 255]);
        }
    }
    let sheet = Raster { width: 10, height: 6, pixels };
    let sprite = Sprite::load(Some(&sheet), 5).unwrap();
    for (number, frame) in sprite.frames.iter().enumerate() {
        let color = [number as u8 % 5 * 50, number as u8 / 5 * 100, 0, 255];
        assert_eq!(frame.pixels, color.repeat(25));
    }
}

#[test]
fn message_words_are_signed() {
    for value in [0, 1, 0x7fff, 0x8000, 0xffff, 0x1_0000, 0x7fff_8000, -1, -65537, isize::MIN] {
        assert_eq!(signed_low_word(value), (value as i16) as i32);
        assert_eq!(signed_high_word(value), ((value >> 16) as i16) as i32);
    }
}

#[test]
fn messages_ask_for_actions() {
    let phases = [Phase::Select, Phase::SelectUninstallTarget, Phase::Ask, Phase::Error];
    for phase in phases {
        assert!(window_action(WM_TIMER, TICK_ID, 0, phase) == WindowAction::Tick);
        assert!(window_action(WM_TIMER, 2, 0, phase) == WindowAction::Default);
        assert!(
            window_action(WM_LBUTTONDOWN, 0, 0x0003_fffe, phase) == WindowAction::Click(-2, 3)
        );
        assert!(
            window_action(WM_HOTKEY, ESC_HOTKEY_ID as usize, 0, phase) == WindowAction::Close
        );
        assert!(window_action(WM_HOTKEY, 1, 0, phase) == WindowAction::Default);
        assert!(window_action(WM_KEYDOWN, ESC_KEY, 0, phase) == WindowAction::Close);
        assert!(window_action(WM_KEYDOWN, 0x20, 0, phase) == WindowAction::Default);
        assert!(window_action(WM_DESTROY, 0, 0, phase) == WindowAction::Quit);
        assert!(window_action(0x9999, 0, 0, phase) == WindowAction::Default);
    }
    assert!(window_action(WM_SETCURSOR, 0, 0, phases[0]) == WindowAction::ShowCrosshair);
    assert!(window_action(WM_SETCURSOR, 0, 0, phases[1]) == WindowAction::ShowCrosshair);
    assert!(window_action(WM_SETCURSOR, 0, 0, phases[2]) == WindowAction::Default);
}
