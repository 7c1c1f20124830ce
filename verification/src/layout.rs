//! Where things stand on the screen, in physical pixels. Lengths that depend
//! on the display's scale come in as numbers.

use vstd::prelude::*;

verus! {

/// A rectangle by its upper left corner and its size.
#[derive(Clone, Copy, PartialEq, Eq, Structural)]
pub struct RectI {
    pub x: i32,
    pub y: i32,
    pub w: i32,
    pub h: i32,
}

/// A rectangle with unbounded coordinates.
pub struct Area {
    pub x: int,
    pub y: int,
    pub w: int,
    pub h: int,
}

impl View for RectI {
    type V = Area;

    open spec fn view(&self) -> Area {
        Area { x: self.x as int, y: self.y as int, w: self.w as int, h: self.h as int }
    }
}

/// A number that a screen coordinate can be.
pub open spec fn is_coordinate(value: int) -> bool {
    i32::MIN <= value <= i32::MAX
}

impl Area {
    /// Whether every number of the area can be a screen coordinate.
    pub open spec fn fits(self) -> bool {
        is_coordinate(self.x) && is_coordinate(self.y) && is_coordinate(self.w) && is_coordinate(
            self.h,
        )
    }

    /// Whether the point is in the area; the right and the lower edge are not.
    pub open spec fn covers(self, x: int, y: int) -> bool {
        self.x <= x < self.x + self.w && self.y <= y < self.y + self.h
    }
}

impl RectI {
    /// Whether the point is in the rectangle; its right and lower edges are not.
    pub fn contains(self, x: i32, y: i32) -> (inside: bool)
        ensures
            inside == self@.covers(x as int, y as int),
    {
        x >= self.x && (x as i64) < self.x as i64 + self.w as i64 && y >= self.y && (y as i64)
            < self.y as i64 + self.h as i64
    }
}

/// `value`, or the nearer of the two bounds where it is outside them.
pub open spec fn clamped(value: int, low: int, high: int) -> int {
    if value < low {
        low
    } else if value > high {
        high
    } else {
        value
    }
}

fn clamp_to(value: i64, low: i64, high: i64) -> (inside: i64)
    requires
        low <= high,
    ensures
        inside == clamped(value as int, low as int, high as int),
        low <= inside <= high,
{
    if value < low {
        low
    } else if value > high {
        high
    } else {
        value
    }
}

/// Where the monster stands: beside the target, on the side that its look
/// comes from, and a little lower.
pub open spec fn monster_corner(target: (int, int), points_left: bool, w: int, h: int) -> (
    int,
    int,
) {
    (
        if points_left {
            target.0 + 30
        } else {
            target.0 - w - 30
        },
        target.1 - h / 2 + 50,
    )
}

/// Where the monster stands while it asks. Without an animation, which has a
/// size, a square at the target stands for it.
pub open spec fn standing_area(
    target: (int, int),
    points_left: bool,
    size: Option<(int, int)>,
) -> Area {
    match size {
        Some((w, h)) => {
            let (x, y) = monster_corner(target, points_left, w, h);
            Area { x, y, w, h }
        },
        None => Area { x: target.0, y: target.1, w: 250, h: 250 },
    }
}

/// The corner of a monster of the given size.
pub fn monster_position(target: (i32, i32), points_left: bool, w: i32, h: i32) -> (corner: (
    i32,
    i32,
))
    requires
        0 <= w,
        0 <= h,
        ({
            let (x, y) = monster_corner((target.0 as int, target.1 as int), points_left, w as int, h as int);
            is_coordinate(x) && is_coordinate(y)
        }),
    ensures
        (corner.0 as int, corner.1 as int) == monster_corner(
            (target.0 as int, target.1 as int),
            points_left,
            w as int,
            h as int,
        ),
{
    let x: i64 = if points_left {
        target.0 as i64 + 30
    } else {
        target.0 as i64 - w as i64 - 30
    };
    let y: i64 = target.1 as i64 - (h / 2) as i64 + 50;
    (x as i32, y as i32)
}

/// The lengths of the two answer buttons.
#[derive(Clone, Copy)]
pub struct ChoiceMetrics {
    /// Both buttons with the gap between them.
    pub group_width: i32,
    /// The least distance from the edge of the screen.
    pub margin: i32,
    /// What the buttons need below or above the monster.
    pub drop: i32,
    /// The distance from the monster to buttons below it.
    pub gap: i32,
    pub first_width: i32,
    pub height: i32,
    /// The distance between the left edges of the buttons.
    pub second_offset: i32,
    pub second_width: i32,
}

impl ChoiceMetrics {
    /// The lengths on a display that is not scaled.
    pub fn unscaled() -> (m: Self)
        ensures
            m == (ChoiceMetrics {
                group_width: 297,
                margin: 12,
                drop: 68,
                gap: 16,
                first_width: 92,
                height: 52,
                second_offset: 107,
                second_width: 190,
            }),
            m.wf(),
    {
        ChoiceMetrics {
            group_width: 297,
            margin: 12,
            drop: 68,
            gap: 16,
            first_width: 92,
            height: 52,
            second_offset: 107,
            second_width: 190,
        }
    }
}

/// The two answer buttons.
#[derive(Clone, Copy)]
pub struct Choices {
    pub first: RectI,
    pub second: RectI,
}

/// Left edge of the buttons: centred under the monster, and on the screen.
pub open spec fn choice_x(screen_w: int, monster: Area, m: ChoiceMetrics) -> int {
    clamped(
        monster.x + monster.w / 2 - m.group_width as int / 2,
        m.margin as int,
        screen_w - m.group_width - m.margin,
    )
}

/// Upper edge of the buttons: below the monster where there is room, and else
/// above it.
pub open spec fn choice_y(screen_h: int, monster: Area, m: ChoiceMetrics) -> int {
    let foot = monster.y + monster.h;
    if foot + m.drop <= screen_h - m.margin {
        foot + m.gap
    } else if monster.y - m.drop > m.margin {
        monster.y - m.drop
    } else {
        m.margin as int
    }
}

/// The first answer button.
pub open spec fn first_choice(
    screen_w: int,
    screen_h: int,
    monster: Area,
    m: ChoiceMetrics,
) -> Area {
    Area {
        x: choice_x(screen_w, monster, m),
        y: choice_y(screen_h, monster, m),
        w: m.first_width as int,
        h: m.height as int,
    }
}

/// The second answer button.
pub open spec fn second_choice(
    screen_w: int,
    screen_h: int,
    monster: Area,
    m: ChoiceMetrics,
) -> Area {
    Area {
        x: choice_x(screen_w, monster, m) + m.second_offset,
        y: choice_y(screen_h, monster, m),
        w: m.second_width as int,
        h: m.height as int,
    }
}

/// Whether the answer buttons can be placed on the screen.
pub open spec fn choices_have_room(
    screen_w: int,
    screen_h: int,
    monster: Area,
    m: ChoiceMetrics,
) -> bool {
    &&& 0 <= monster.w
    &&& 0 <= m.group_width
    &&& m.margin <= screen_w - m.group_width - m.margin
    &&& first_choice(screen_w, screen_h, monster, m).fits()
    &&& second_choice(screen_w, screen_h, monster, m).fits()
}

/// The answer buttons for a monster on a screen that is wide enough for them.
pub fn choice_rects(screen_w: i32, screen_h: i32, monster: RectI, m: &ChoiceMetrics) -> (choices:
    Choices)
    requires
        choices_have_room(screen_w as int, screen_h as int, monster@, *m),
    ensures
        choices.first@ == first_choice(screen_w as int, screen_h as int, monster@, *m),
        choices.second@ == second_choice(screen_w as int, screen_h as int, monster@, *m),
{
    let x: i64 = clamp_to(
        monster.x as i64 + (monster.w / 2) as i64 - (m.group_width / 2) as i64,
        m.margin as i64,
        screen_w as i64 - m.group_width as i64 - m.margin as i64,
    );
    let foot: i64 = monster.y as i64 + monster.h as i64;
    let y: i64 = if foot + m.drop as i64 <= screen_h as i64 - m.margin as i64 {
        foot + m.gap as i64
    } else if monster.y as i64 - m.drop as i64 > m.margin as i64 {
        monster.y as i64 - m.drop as i64
    } else {
        m.margin as i64
    };
    let second_x: i64 = x + m.second_offset as i64;
    Choices {
        first: RectI { x: x as i32, y: y as i32, w: m.first_width, h: m.height },
        second: RectI { x: second_x as i32, y: y as i32, w: m.second_width, h: m.height },
    }
}

impl ChoiceMetrics {
    /// Whether the lengths belong together: the buttons are as wide as the group
    /// and need no more room than is kept for them.
    pub open spec fn wf(self) -> bool {
        &&& 0 <= self.first_width <= self.second_offset
        &&& 0 <= self.second_width
        &&& self.second_offset + self.second_width <= self.group_width
        &&& 0 <= self.height
        &&& 0 <= self.gap
        &&& self.gap + self.height <= self.drop
        &&& 0 <= self.margin <= self.gap
    }
}

/// The buttons keep their margin to the left and right, wherever the monster
/// stands, and do not overlap.
pub proof fn law_choices_stay_between_the_sides(
    screen_w: int,
    screen_h: int,
    monster: Area,
    m: ChoiceMetrics,
)
    requires
        m.wf(),
        m.margin <= screen_w - m.group_width - m.margin,
    ensures
        ({
            let first = first_choice(screen_w, screen_h, monster, m);
            let second = second_choice(screen_w, screen_h, monster, m);
            &&& m.margin <= first.x && first.x + first.w <= second.x
            &&& second.x + second.w <= screen_w - m.margin
            &&& forall|x: int, y: int| !(#[trigger] first.covers(x, y) && second.covers(x, y))
        }),
{
}

/// Whether the area is on the screen and keeps a margin to all sides.
pub open spec fn is_within(area: Area, screen_w: int, screen_h: int, margin: int) -> bool {
    &&& margin <= area.x && area.x + area.w <= screen_w - margin
    &&& margin <= area.y && area.y + area.h <= screen_h - margin
}

/// For a target on the screen both buttons stand on the screen, with their margin
/// to all four sides, and do not overlap. The screen must have room for them, and
/// the place above the monster must end on it, as it does above every animation
/// that is at least 98 pixels high.
pub proof fn law_choices_stay_on_screen(
    screen_w: int,
    screen_h: int,
    target: (int, int),
    points_left: bool,
    size: Option<(int, int)>,
    m: ChoiceMetrics,
)
    requires
        0 <= target.0 < screen_w,
        0 <= target.1 < screen_h,
        size matches Some((w, h)) ==> 0 <= w && 0 <= h && (98 <= h || standing_area(
            target,
            points_left,
            size,
        ).y - m.drop + m.height <= screen_h - m.margin),
        m.wf(),
        m.margin <= screen_w - m.group_width - m.margin,
        m.margin <= screen_h - m.height - m.margin,
    ensures
        ({
            let monster = standing_area(target, points_left, size);
            let first = first_choice(screen_w, screen_h, monster, m);
            let second = second_choice(screen_w, screen_h, monster, m);
            &&& is_within(first, screen_w, screen_h, m.margin as int)
            &&& is_within(second, screen_w, screen_h, m.margin as int)
            &&& forall|x: int, y: int| !(#[trigger] first.covers(x, y) && second.covers(x, y))
        }),
{
}

/// The lengths of a speech bubble.
#[derive(Clone, Copy)]
pub struct BubbleMetrics {
    pub width: i32,
    /// The height for a message of one line.
    pub line_height: i32,
    /// The height for a message of two lines.
    pub double_height: i32,
    pub margin: i32,
    /// Half the width, and the length, of the tail.
    pub tail: i32,
    /// The distance from the monster to a bubble beside it.
    pub side_gap: i32,
    /// The distance from the monster to a bubble below it.
    pub below_gap: i32,
    /// How far the shadow lies below its object.
    pub shadow_drop: i32,
}

impl BubbleMetrics {
    /// The lengths on a display that is not scaled.
    pub fn unscaled() -> (m: Self)
        ensures
            m == (BubbleMetrics {
                width: 220,
                line_height: 64,
                double_height: 80,
                margin: 28,
                tail: 15,
                side_gap: 18,
                below_gap: 20,
                shadow_drop: 7,
            }),
    {
        BubbleMetrics {
            width: 220,
            line_height: 64,
            double_height: 80,
            margin: 28,
            tail: 15,
            side_gap: 18,
            below_gap: 20,
            shadow_drop: 7,
        }
    }
}

/// A triangle by its corners.
#[derive(Clone, Copy)]
pub struct Triangle {
    pub a: (i32, i32),
    pub b: (i32, i32),
    pub c: (i32, i32),
}

pub open spec fn point_view(p: (i32, i32)) -> (int, int) {
    (p.0 as int, p.1 as int)
}

pub open spec fn is_point(p: (int, int)) -> bool {
    is_coordinate(p.0) && is_coordinate(p.1)
}

/// The corners of a triangle with unbounded coordinates.
pub struct Corners {
    pub a: (int, int),
    pub b: (int, int),
    pub c: (int, int),
}

impl View for Triangle {
    type V = Corners;

    open spec fn view(&self) -> Corners {
        Corners { a: point_view(self.a), b: point_view(self.b), c: point_view(self.c) }
    }
}

impl Corners {
    pub open spec fn fits(self) -> bool {
        is_point(self.a) && is_point(self.b) && is_point(self.c)
    }

    /// The triangle moved down.
    pub open spec fn lowered(self, by: int) -> Corners {
        Corners {
            a: (self.a.0, self.a.1 + by),
            b: (self.b.0, self.b.1 + by),
            c: (self.c.0, self.c.1 + by),
        }
    }
}

/// A speech bubble with its tail and the shadow of the tail.
#[derive(Clone, Copy)]
pub struct Bubble {
    pub body: RectI,
    pub tail: Triangle,
    pub shadow_tail: Triangle,
}

pub open spec fn bubble_height(m: BubbleMetrics, two_lines: bool) -> int {
    if two_lines {
        m.double_height as int
    } else {
        m.line_height as int
    }
}

/// The upper edge of a bubble beside the monster, at the height of its head.
pub open spec fn beside_y(monster: Area, height: int) -> int {
    monster.y + monster.h * 30 / 100 - height / 2
}

/// Whether the bubble goes below the monster, for want of room beside its head.
pub open spec fn bubble_is_below(monster: Area, m: BubbleMetrics, two_lines: bool) -> bool {
    beside_y(monster, bubble_height(m, two_lines)) < m.margin
}

/// The body of the bubble: on the side that the monster looks to, or below it,
/// and on the screen.
pub open spec fn bubble_body(
    screen_w: int,
    screen_h: int,
    monster: Area,
    points_left: bool,
    m: BubbleMetrics,
    two_lines: bool,
) -> Area {
    let h = bubble_height(m, two_lines);
    Area {
        x: clamped(
            if points_left {
                monster.x + monster.w + m.side_gap
            } else {
                monster.x - m.width - m.side_gap
            },
            m.margin as int,
            screen_w - m.width - m.margin,
        ),
        y: clamped(
            if bubble_is_below(monster, m, two_lines) {
                monster.y + monster.h + m.below_gap
            } else {
                beside_y(monster, h)
            },
            m.margin as int,
            screen_h - h - m.margin,
        ),
        w: m.width as int,
        h,
    }
}

/// The tail of the bubble, which points at the monster.
pub open spec fn bubble_tail(
    body: Area,
    monster: Area,
    points_left: bool,
    m: BubbleMetrics,
    below: bool,
) -> Corners {
    let tail = m.tail as int;
    let middle = clamped(monster.y + monster.h / 2, body.y + tail, body.y + body.h - tail);
    if below {
        Corners {
            a: (body.x + body.w / 2 - tail, body.y),
            b: (body.x + body.w / 2 + tail, body.y),
            c: (body.x + body.w / 2, body.y - tail),
        }
    } else if points_left {
        Corners {
            a: (body.x, middle - tail),
            b: (body.x, middle + tail),
            c: (body.x - tail, middle),
        }
    } else {
        Corners {
            a: (body.x + body.w, middle - tail),
            b: (body.x + body.w, middle + tail),
            c: (body.x + body.w + tail, middle),
        }
    }
}

/// Whether a bubble of these lengths can be placed on the screen.
pub open spec fn bubble_has_room(
    screen_w: int,
    screen_h: int,
    m: BubbleMetrics,
    two_lines: bool,
) -> bool {
    let h = bubble_height(m, two_lines);
    &&& 0 <= m.width
    &&& 0 <= h
    &&& m.margin <= screen_w - m.width - m.margin
    &&& m.margin <= screen_h - h - m.margin
    &&& m.tail <= h - m.tail
}

/// Places the bubble of a monster.
pub fn place_bubble(
    screen_w: i32,
    screen_h: i32,
    monster: RectI,
    points_left: bool,
    m: &BubbleMetrics,
    two_lines: bool,
) -> (bubble: Bubble)
    requires
        0 <= monster.h,
        bubble_has_room(screen_w as int, screen_h as int, *m, two_lines),
        ({
            let body = bubble_body(
                screen_w as int,
                screen_h as int,
                monster@,
                points_left,
                *m,
                two_lines,
            );
            let tail = bubble_tail(
                body,
                monster@,
                points_left,
                *m,
                bubble_is_below(monster@, *m, two_lines),
            );
            body.fits() && tail.fits() && tail.lowered(m.shadow_drop as int).fits()
        }),
    ensures
        bubble.body@ == bubble_body(
            screen_w as int,
            screen_h as int,
            monster@,
            points_left,
            *m,
            two_lines,
        ),
        bubble.tail@ == bubble_tail(
            bubble.body@,
            monster@,
            points_left,
            *m,
            bubble_is_below(monster@, *m, two_lines),
        ),
        bubble.shadow_tail@ == bubble.tail@.lowered(m.shadow_drop as int),
{
    let h: i64 = if two_lines { m.double_height as i64 } else { m.line_height as i64 };
    let raw_x: i64 = if points_left {
        monster.x as i64 + monster.w as i64 + m.side_gap as i64
    } else {
        monster.x as i64 - m.width as i64 - m.side_gap as i64
    };
    let x: i64 = clamp_to(
        raw_x,
        m.margin as i64,
        screen_w as i64 - m.width as i64 - m.margin as i64,
    );
    let side_y: i64 = monster.y as i64 + monster.h as i64 * 30 / 100 - h / 2;
    let below = side_y < m.margin as i64;
    let raw_y: i64 = if below {
        monster.y as i64 + monster.h as i64 + m.below_gap as i64
    } else {
        side_y
    };
    let y: i64 = clamp_to(raw_y, m.margin as i64, screen_h as i64 - h - m.margin as i64);
    let tail: i64 = m.tail as i64;
    let middle: i64 = clamp_to(
        monster.y as i64 + (monster.h / 2) as i64,
        y + tail,
        y + h - tail,
    );
    let center: i64 = x + (m.width / 2) as i64;
    let right: i64 = x + m.width as i64;
    let (a, b, c): ((i64, i64), (i64, i64), (i64, i64)) = if below {
        ((center - tail, y), (center + tail, y), (center, y - tail))
    } else if points_left {
        ((x, middle - tail), (x, middle + tail), (x - tail, middle))
    } else {
        ((right, middle - tail), (right, middle + tail), (right + tail, middle))
    };
    let drop: i64 = m.shadow_drop as i64;
    Bubble {
        body: RectI { x: x as i32, y: y as i32, w: m.width, h: h as i32 },
        tail: Triangle {
            a: (a.0 as i32, a.1 as i32),
            b: (b.0 as i32, b.1 as i32),
            c: (c.0 as i32, c.1 as i32),
        },
        shadow_tail: Triangle {
            a: (a.0 as i32, (a.1 + drop) as i32),
            b: (b.0 as i32, (b.1 + drop) as i32),
            c: (c.0 as i32, (c.1 + drop) as i32),
        },
    }
}

/// A bubble stands within the margins on all four sides, whatever the place of
/// the monster.
pub proof fn law_bubble_stays_on_screen(
    screen_w: int,
    screen_h: int,
    monster: Area,
    points_left: bool,
    m: BubbleMetrics,
    two_lines: bool,
)
    requires
        bubble_has_room(screen_w, screen_h, m, two_lines),
    ensures
        ({
            let body = bubble_body(screen_w, screen_h, monster, points_left, m, two_lines);
            &&& m.margin <= body.x && body.x + body.w <= screen_w - m.margin
            &&& m.margin <= body.y && body.y + body.h <= screen_h - m.margin
        }),
{
}

/// The dialog that stands in the middle of the screen.
#[derive(Clone, Copy)]
pub struct ModalLayout {
    pub panel: RectI,
    pub shadow: RectI,
    pub message: RectI,
    pub yes: RectI,
    pub no: RectI,
}

/// The panel of the dialog that asks for more rights.
pub open spec fn modal_area(screen_w: int, screen_h: int) -> Area {
    Area { x: screen_w / 2 - 250, y: screen_h / 2 - 85, w: 500, h: 170 }
}

/// The panel of the dialog that reports an error.
pub open spec fn error_area(screen_w: int, screen_h: int) -> Area {
    Area { x: screen_w / 2 - 280, y: screen_h / 2 - 75, w: 560, h: 150 }
}

/// The button of a dialog that starts `dx` pixels into its panel.
pub open spec fn modal_button(panel: Area, dx: int) -> Area {
    Area { x: panel.x + dx, y: panel.y + 105, w: 140, h: 45 }
}

/// The panel of the dialog that asks for more rights.
pub fn modal_rect(screen_w: i32, screen_h: i32) -> (panel: RectI)
    requires
        0 <= screen_w,
        0 <= screen_h,
    ensures
        panel@ == modal_area(screen_w as int, screen_h as int),
{
    RectI { x: screen_w / 2 - 250, y: screen_h / 2 - 85, w: 500, h: 170 }
}

/// Places a dialog and what it holds. The buttons belong to the dialog that
/// asks; an error has none.
pub fn place_modal(screen_w: i32, screen_h: i32, is_error: bool) -> (modal: ModalLayout)
    requires
        0 <= screen_w,
        0 <= screen_h,
    ensures
        modal.panel@ == (if is_error {
            error_area(screen_w as int, screen_h as int)
        } else {
            modal_area(screen_w as int, screen_h as int)
        }),
        modal.shadow@ == (Area { y: modal.panel@.y + 8, ..modal.panel@ }),
        modal.message@ == (Area {
            x: modal.panel@.x + 20,
            y: modal.panel@.y + 20,
            w: modal.panel@.w - 40,
            h: 70,
        }),
        modal.yes@ == modal_button(modal.panel@, 90),
        modal.no@ == modal_button(modal.panel@, 270),
{
    let panel = if is_error {
        RectI { x: screen_w / 2 - 280, y: screen_h / 2 - 75, w: 560, h: 150 }
    } else {
        modal_rect(screen_w, screen_h)
    };
    ModalLayout {
        panel,
        shadow: RectI { x: panel.x, y: panel.y + 8, w: panel.w, h: panel.h },
        message: RectI { x: panel.x + 20, y: panel.y + 20, w: panel.w - 40, h: 70 },
        yes: RectI { x: panel.x + 90, y: panel.y + 105, w: 140, h: 45 },
        no: RectI { x: panel.x + 270, y: panel.y + 105, w: 140, h: 45 },
    }
}

/// Where the prompt of the selection stands.
pub fn prompt_rect(screen_w: i32, screen_h: i32) -> (rect: RectI)
    requires
        0 <= screen_w,
        0 <= screen_h,
    ensures
        rect@ == (Area { x: screen_w / 2 - 300, y: screen_h / 2 - 28, w: 600, h: 56 }),
{
    RectI { x: screen_w / 2 - 300, y: screen_h / 2 - 28, w: 600, h: 56 }
}

/// Where an explosion of the given size is drawn for a point.
pub open spec fn explosion_area(point: (int, int), w: int, h: int) -> Area {
    Area { x: point.0 - w / 2, y: point.1 - h / 2 - 40, w, h }
}

/// The rectangle of an explosion around a point.
pub fn explosion_rect(point: (i32, i32), w: i32, h: i32) -> (rect: RectI)
    requires
        0 <= w,
        0 <= h,
        explosion_area(point_view(point), w as int, h as int).fits(),
    ensures
        rect@ == explosion_area(point_view(point), w as int, h as int),
{
    let x: i64 = point.0 as i64 - (w / 2) as i64;
    let y: i64 = point.1 as i64 - (h / 2) as i64 - 40;
    RectI { x: x as i32, y: y as i32, w, h }
}

/// A rectangle covers its upper left corner but not what its size leads to; cut in
/// two at any place, each of its points is in exactly one of the halves.
pub proof fn law_rectangles_can_be_cut(area: Area, cut: int, x: int, y: int)
    requires
        0 < cut < area.w,
        0 < area.h,
    ensures
        area.covers(area.x, area.y),
        area.covers(area.x + area.w - 1, area.y + area.h - 1),
        !area.covers(area.x + area.w, area.y) && !area.covers(area.x, area.y + area.h),
        !area.covers(area.x - 1, area.y) && !area.covers(area.x, area.y - 1),
        ({
            let left = Area { w: cut, ..area };
            let right = Area { x: area.x + cut, w: area.w - cut, ..area };
            &&& area.covers(x, y) <==> left.covers(x, y) || right.covers(x, y)
            &&& !(left.covers(x, y) && right.covers(x, y))
        }),
{
}

/// The monster stands beside its target and does not hide it: thirty pixels to the
/// right where it looks left, and to the left where it looks right. Its middle is
/// fifty pixels below the target.
pub proof fn law_monster_stands_beside_its_target(
    target: (int, int),
    points_left: bool,
    w: int,
    h: int,
)
    requires
        0 <= w,
        0 <= h,
    ensures
        ({
            let area = standing_area(target, points_left, Some((w, h)));
            &&& area.w == w && area.h == h
            &&& points_left ==> area.x - target.0 == 30
            &&& !points_left ==> target.0 - (area.x + area.w) == 30
            &&& area.y + h / 2 - target.1 == 50
            &&& !area.covers(target.0, target.1)
            &&& monster_corner(target, points_left, w, h) == (area.x, area.y)
        }),
        standing_area(target, points_left, None) == (Area {
            x: target.0,
            y: target.1,
            w: 250,
            h: 250,
        }),
{
}

/// Whether the middles of two spans are at most a pixel apart.
pub open spec fn has_same_middle(x: int, w: int, other_x: int, other_w: int) -> bool {
    -2 <= (2 * x + w) - (2 * other_x + other_w) <= 2
}

/// The answer buttons stand side by side below the monster where there is room for
/// them, and else above it, or else at the top of the screen; they are centred on
/// it as far as the sides of the screen allow.
pub proof fn law_choices_stand_by_the_monster(
    screen_w: int,
    screen_h: int,
    monster: Area,
    m: ChoiceMetrics,
)
    requires
        m.wf(),
        m.margin <= screen_w - m.group_width - m.margin,
    ensures
        ({
            let first = first_choice(screen_w, screen_h, monster, m);
            let second = second_choice(screen_w, screen_h, monster, m);
            let foot = monster.y + monster.h;
            &&& first.w == m.first_width && second.w == m.second_width
            &&& first.h == m.height && second.h == m.height
            &&& first.y == second.y
            &&& second.x - first.x == m.second_offset
            &&& foot + m.drop + m.margin <= screen_h ==> first.y - foot == m.gap
            &&& foot + m.drop + m.margin > screen_h && monster.y - m.drop > m.margin ==> monster.y
                - first.y == m.drop
            &&& foot + m.drop + m.margin > screen_h && monster.y - m.drop <= m.margin ==> first.y
                == m.margin
            &&& m.margin < first.x && first.x + m.group_width < screen_w - m.margin
                ==> has_same_middle(first.x, m.group_width as int, monster.x, monster.w)
            &&& m.margin < screen_w - m.group_width - m.margin ==> {
                &&& first.x == m.margin ==> 2 * monster.x + monster.w <= 2 * first.x
                    + m.group_width + 2
                &&& first.x == screen_w - m.group_width - m.margin ==> 2 * monster.x + monster.w
                    + 2 >= 2 * first.x + m.group_width
            }
        }),
{
}

/// The speech bubble stands on the far side of the monster from its target, at the
/// height of its head, or below the monster where its head is too high for that, as
/// far as the screen allows. It is higher for two lines.
pub proof fn law_bubble_stands_by_the_monster(
    screen_w: int,
    screen_h: int,
    monster: Area,
    points_left: bool,
    m: BubbleMetrics,
    two_lines: bool,
)
    requires
        bubble_has_room(screen_w, screen_h, m, two_lines),
    ensures
        ({
            let body = bubble_body(screen_w, screen_h, monster, points_left, m, two_lines);
            let head = monster.y + monster.h * 30 / 100;
            let inside_x = m.margin < body.x && body.x + body.w < screen_w - m.margin;
            let inside_y = m.margin < body.y && body.y + body.h < screen_h - m.margin;
            &&& body.w == m.width
            &&& body.h == if two_lines {
                m.double_height
            } else {
                m.line_height
            }
            &&& inside_x && points_left ==> body.x - (monster.x + monster.w) == m.side_gap
            &&& inside_x && !points_left ==> monster.x - (body.x + body.w) == m.side_gap
            &&& bubble_is_below(monster, m, two_lines) <==> head - body.h / 2 < m.margin
            &&& inside_y && bubble_is_below(monster, m, two_lines) ==> body.y - (monster.y
                + monster.h) == m.below_gap
            &&& inside_y && !bubble_is_below(monster, m, two_lines) ==> body.y + body.h / 2 == head
        }),
{
}

/// The tail of the bubble starts at its edge, twice as wide as long, and points away
/// from the bubble: up where the bubble is below the monster, and else to the side
/// where the monster is, as near to the monster's middle as the edge allows.
pub proof fn law_tail_points_at_the_monster(
    body: Area,
    monster: Area,
    points_left: bool,
    m: BubbleMetrics,
    below: bool,
)
    requires
        0 < m.tail <= body.h - m.tail,
    ensures
        ({
            let tail = bubble_tail(body, monster, points_left, m, below);
            let middle = monster.y + monster.h / 2;
            &&& below ==> {
                &&& tail.a.1 == body.y && tail.b.1 == body.y && tail.c.1 == body.y - m.tail
                &&& tail.b.0 - tail.a.0 == 2 * m.tail && tail.c.0 - tail.a.0 == m.tail
                &&& tail.c.0 == body.x + body.w / 2
            }
            &&& !below ==> {
                &&& tail.b.1 - tail.a.1 == 2 * m.tail && tail.c.1 - tail.a.1 == m.tail
                &&& body.y <= tail.a.1 && tail.b.1 <= body.y + body.h
                &&& body.y + m.tail <= middle <= body.y + body.h - m.tail ==> tail.c.1 == middle
                &&& middle < body.y + m.tail ==> tail.a.1 == body.y
                &&& middle > body.y + body.h - m.tail ==> tail.b.1 == body.y + body.h
            }
            &&& !below && points_left ==> tail.a.0 == body.x && tail.b.0 == body.x && tail.c.0
                == body.x - m.tail
            &&& !below && !points_left ==> tail.a.0 == body.x + body.w && tail.b.0 == body.x
                + body.w && tail.c.0 == body.x + body.w + m.tail
        }),
{
}

/// Whether the inner area is within the outer one.
pub open spec fn holds_area(outer: Area, inner: Area) -> bool {
    &&& outer.x <= inner.x && inner.x + inner.w <= outer.x + outer.w
    &&& outer.y <= inner.y && inner.y + inner.h <= outer.y + outer.h
}

/// Both dialogs stand in the middle of the screen. The one that asks for rights has
/// two buttons of the same size side by side within it, the one that agrees at the
/// left.
pub proof fn law_dialogs_stand_in_the_middle(screen_w: int, screen_h: int)
    ensures
        ({
            let panel = modal_area(screen_w, screen_h);
            let yes = modal_button(panel, 90);
            let no = modal_button(panel, 270);
            &&& panel.w == 500 && panel.h == 170
            &&& panel.x + 250 == screen_w / 2 && panel.y + 85 == screen_h / 2
            &&& holds_area(panel, yes) && holds_area(panel, no)
            &&& yes.w == 140 && yes.h == 45 && no.w == 140 && no.h == 45
            &&& yes.y == no.y && yes.y == panel.y + 105
            &&& no.x - (yes.x + yes.w) == 40 && yes.x - panel.x == 90
        }),
        ({
            let panel = error_area(screen_w, screen_h);
            &&& panel.w == 560 && panel.h == 150
            &&& panel.x + 280 == screen_w / 2 && panel.y + 75 == screen_h / 2
        }),
{
}

/// An explosion stands in the middle over its point, and forty pixels higher.
pub proof fn law_explosion_stands_over_its_point(point: (int, int), w: int, h: int)
    ensures
        ({
            let area = explosion_area(point, w, h);
            &&& area.w == w && area.h == h
            &&& area.x + w / 2 == point.0
            &&& area.y + h / 2 + 40 == point.1
        }),
{
}

} // verus!
