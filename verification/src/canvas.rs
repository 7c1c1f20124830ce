//! The picture that the overlay shows: pixels with alpha, blended one over
//! another.

use vstd::prelude::*;

use crate::layout::{is_coordinate, Area, RectI};

verus! {

/// A pixel or a colour.
#[derive(Clone, Copy, PartialEq, Eq, Structural)]
pub struct Color {
    pub r: u8,
    pub g: u8,
    pub b: u8,
    pub a: u8,
}

/// A picture of the size of the screen. Each pixel has four bytes: blue, green,
/// red and alpha.
pub struct Canvas {
    pub width: i32,
    pub height: i32,
    pub pixels: Vec<u8>,
}

/// A picture to draw, four bytes for each pixel: red, green, blue and alpha.
pub struct Raster {
    pub width: u32,
    pub height: u32,
    pub pixels: Vec<u8>,
}

/// The index of the first byte of a pixel.
pub open spec fn byte_index(width: int, x: int, y: int) -> int {
    (y * width + x) * 4
}

/// The pixel at a point of a picture that keeps blue first.
pub open spec fn pixel_at(pixels: Seq<u8>, width: int, x: int, y: int) -> Color {
    let at = byte_index(width, x, y);
    Color { b: pixels[at], g: pixels[at + 1], r: pixels[at + 2], a: pixels[at + 3] }
}

/// One channel of a colour laid over a channel of a pixel.
pub open spec fn mixed(over: u8, under: u8, alpha: u8) -> u8 {
    ((over * alpha + under * (255 - alpha)) / 255) as u8
}

/// `over` laid over `under`.
pub open spec fn laid_over(under: Color, over: Color) -> Color {
    if over.a == 0 {
        under
    } else {
        Color {
            r: mixed(over.r, under.r, over.a),
            g: mixed(over.g, under.g, over.a),
            b: mixed(over.b, under.b, over.a),
            a: (over.a + under.a * (255 - over.a) / 255) as u8,
        }
    }
}

/// A colour with its alpha reduced by an opacity.
pub open spec fn faded(alpha: u8, opacity: u8) -> u8 {
    (alpha * opacity / 255) as u8
}

proof fn lemma_index(width: int, height: int, x: int, y: int)
    requires
        0 <= x < width,
        0 <= y < height,
    ensures
        0 <= byte_index(width, x, y),
        byte_index(width, x, y) + 3 < width * height * 4,
        0 <= y * width,
        y * width + x < width * height,
{
    assert(0 <= y * width) by (nonlinear_arith)
        requires
            0 <= y,
            0 < width,
    ;
    assert(y * width + width <= width * height) by (nonlinear_arith)
        requires
            0 <= y < height,
            0 < width,
    ;
}

proof fn lemma_index_is_injective(width: int, x: int, y: int, u: int, v: int)
    requires
        0 <= x < width,
        0 <= u < width,
        byte_index(width, x, y) - 4 < byte_index(width, u, v) < byte_index(width, x, y) + 4,
    ensures
        x == u,
        y == v,
{
    assert(y * width + x == v * width + u);
    assert(y == v && x == u) by (nonlinear_arith)
        requires
            y * width + x == v * width + u,
            0 <= x < width,
            0 <= u < width,
    ;
}

proof fn lemma_mix_fits(over: u8, under: u8, alpha: u8)
    ensures
        over * alpha + under * (255 - alpha) <= 255 * 255,
        alpha + under * (255 - alpha) / 255 <= 255,
        0 <= under * (255 - alpha),
{
    assert(over * alpha <= 255 * alpha) by (nonlinear_arith)
        requires
            over <= 255,
            0 <= alpha,
    ;
    assert(under * (255 - alpha) <= 255 * (255 - alpha)) by (nonlinear_arith)
        requires
            under <= 255,
            alpha <= 255,
    ;
    assert(0 <= under * (255 - alpha)) by (nonlinear_arith)
        requires
            0 <= under,
            alpha <= 255,
    ;
}

fn mix(over: u8, under: u8, alpha: u8) -> (channel: u8)
    ensures
        channel == mixed(over, under, alpha),
{
    let inverse: u32 = 255 - alpha as u32;
    proof {
        lemma_mix_fits(over, under, alpha);
        assert(over as u32 * alpha as u32 <= 65025) by (nonlinear_arith)
            requires
                over <= 255,
                alpha <= 255,
        ;
        assert(under as u32 * inverse <= 65025) by (nonlinear_arith)
            requires
                under <= 255,
                inverse <= 255,
        ;
    }
    ((over as u32 * alpha as u32 + under as u32 * inverse) / 255) as u8
}

fn mix_alpha(under: u8, alpha: u8) -> (channel: u8)
    ensures
        channel == (alpha + under * (255 - alpha) / 255) as u8,
{
    let inverse: u32 = 255 - alpha as u32;
    proof {
        lemma_mix_fits(0, under, alpha);
        assert(under as u32 * inverse <= 65025) by (nonlinear_arith)
            requires
                under <= 255,
                inverse <= 255,
        ;
    }
    (alpha as u32 + under as u32 * inverse / 255) as u8
}

/// The alpha of a pixel that is drawn with an opacity.
pub fn fade(alpha: u8, opacity: u8) -> (faint: u8)
    ensures
        faint == faded(alpha, opacity),
{
    assert(alpha as u16 * opacity as u16 <= 65025) by (nonlinear_arith)
        requires
            alpha <= 255,
            opacity <= 255,
    ;
    (alpha as u16 * opacity as u16 / 255) as u8
}

impl Canvas {
    /// A canvas whose pixels are exactly those of its size.
    pub open spec fn wf(self) -> bool {
        &&& 0 < self.width
        &&& 0 < self.height
        &&& self.pixels@.len() == self.width * self.height * 4
    }

    /// Whether the point is on the canvas.
    pub open spec fn has(self, x: int, y: int) -> bool {
        0 <= x < self.width && 0 <= y < self.height
    }

    /// The pixel at a point.
    pub open spec fn at(self, x: int, y: int) -> Color {
        pixel_at(self.pixels@, self.width as int, x, y)
    }

    /// Whether the canvas has the size of `other`.
    pub open spec fn same_size(self, other: Canvas) -> bool {
        self.width == other.width && self.height == other.height
    }

    /// An empty canvas: every pixel is transparent.
    pub fn new(width: i32, height: i32) -> (canvas: Self)
        requires
            0 < width,
            0 < height,
            width * height * 4 <= usize::MAX,
        ensures
            canvas.wf(),
            canvas.width == width,
            canvas.height == height,
            forall|i: int| 0 <= i < canvas.pixels@.len() ==> #[trigger] canvas.pixels@[i] == 0,
    {
        proof {
            assert(0 <= width * height) by (nonlinear_arith)
                requires
                    0 < width,
                    0 < height,
            ;
            assert(width as usize as int == width as int);
            assert(height as usize as int == height as int);
        }
        let count: usize = width as usize * height as usize * 4;
        let pixels: Vec<u8> = vec![0u8; count];
        Canvas { width, height, pixels }
    }

    /// Makes every pixel transparent.
    pub fn clear(&mut self)
        requires
            old(self).wf(),
        ensures
            final(self).wf(),
            final(self).same_size(*old(self)),
            forall|i: int|
                0 <= i < final(self).pixels@.len() ==> #[trigger] final(self).pixels@[i] == 0,
    {
        let mut i: usize = 0;
        while i < self.pixels.len()
            invariant
                i <= self.pixels@.len(),
                self.pixels@.len() == old(self).pixels@.len(),
                self.width == old(self).width,
                self.height == old(self).height,
                forall|j: int| 0 <= j < i ==> #[trigger] self.pixels@[j] == 0,
            decreases self.pixels@.len() - i,
        {
            self.pixels.set(i, 0);
            i = i + 1;
        }
    }

    /// Lays a colour over one pixel; a point that is not on the canvas is left
    /// out.
    pub fn blend(&mut self, x: i32, y: i32, color: Color)
        requires
            old(self).wf(),
        ensures
            final(self).wf(),
            final(self).same_size(*old(self)),
            forall|u: int, v: int|
                old(self).has(u, v) ==> #[trigger] final(self).at(u, v) == (if u == x && v == y {
                    laid_over(old(self).at(u, v), color)
                } else {
                    old(self).at(u, v)
                }),
    {
        if x < 0 || y < 0 || x >= self.width || y >= self.height || color.a == 0 {
            return;
        }
        let ghost w = self.width as int;
        let count: usize = self.pixels.len();
        proof {
            lemma_index(w, self.height as int, x as int, y as int);
            assert(count == w * self.height * 4);
            assert(x as usize as int == x as int);
            assert(y as usize as int == y as int);
            assert(self.width as usize as int == self.width as int);
            assert(y as usize * self.width as usize == y * w);
        }
        let index: usize = (y as usize * self.width as usize + x as usize) * 4;
        assert(index == byte_index(w, x as int, y as int));
        let blue: u8 = mix(color.b, self.pixels[index], color.a);
        let green: u8 = mix(color.g, self.pixels[index + 1], color.a);
        let red: u8 = mix(color.r, self.pixels[index + 2], color.a);
        let alpha: u8 = mix_alpha(self.pixels[index + 3], color.a);
        self.pixels.set(index, blue);
        self.pixels.set(index + 1, green);
        self.pixels.set(index + 2, red);
        self.pixels.set(index + 3, alpha);
        proof {
            assert forall|u: int, v: int| old(self).has(u, v) implies #[trigger] self.at(u, v) == (
            if u == x && v == y {
                laid_over(old(self).at(u, v), color)
            } else {
                old(self).at(u, v)
            }) by {
                lemma_index(w, self.height as int, u, v);
                let there = byte_index(w, u, v);
                if u == x && v == y {
                } else {
                    if index - 4 < there < index + 4 {
                        lemma_index_is_injective(w, x as int, y as int, u, v);
                    }
                }
            }
        }
    }
}

impl Raster {
    /// A picture whose pixels are exactly those of its size.
    pub open spec fn wf(self) -> bool {
        self.pixels@.len() == self.width * self.height * 4
    }

    /// The pixel at a point.
    pub open spec fn at(self, x: int, y: int) -> Color {
        let index = byte_index(self.width as int, x, y);
        Color {
            r: self.pixels@[index],
            g: self.pixels@[index + 1],
            b: self.pixels@[index + 2],
            a: self.pixels@[index + 3],
        }
    }

    /// The pixel at a point.
    pub fn pixel(&self, x: u32, y: u32) -> (color: Color)
        requires
            self.wf(),
            x < self.width,
            y < self.height,
        ensures
            color == self.at(x as int, y as int),
    {
        let count: usize = self.pixels.len();
        proof {
            lemma_index(self.width as int, self.height as int, x as int, y as int);
            assert(count == self.width * self.height * 4);
            assert(y as usize * self.width as usize == y * self.width);
        }
        let index: usize = (y as usize * self.width as usize + x as usize) * 4;
        Color {
            r: self.pixels[index],
            g: self.pixels[index + 1],
            b: self.pixels[index + 2],
            a: self.pixels[index + 3],
        }
    }
}

/// Which of `size` source pixels stands for pixel `at` of `length`.
pub open spec fn sampled(at: int, size: int, length: int) -> int {
    at * size / length
}

/// What a picture shows at a point of the rectangle that it is stretched over.
pub open spec fn stretched(
    image: Raster,
    rect: Area,
    opacity: u8,
    mirrored: bool,
    x: int,
    y: int,
) -> Color {
    let sx = sampled(x - rect.x, image.width as int, rect.w);
    let sy = sampled(y - rect.y, image.height as int, rect.h);
    let pixel = image.at(
        if mirrored {
            image.width - 1 - sx
        } else {
            sx
        },
        sy,
    );
    Color { a: faded(pixel.a, opacity), ..pixel }
}

proof fn lemma_sampled(at: int, size: int, length: int)
    requires
        0 <= at < length,
        0 < size,
    ensures
        0 <= sampled(at, size, length) < size,
        0 <= at * size < length * size,
{
    assert(0 <= at * size < length * size) by (nonlinear_arith)
        requires
            0 <= at < length,
            0 < size,
    ;
    assert(0 <= (at * size) / length < size) by (nonlinear_arith)
        requires
            0 <= at * size < length * size,
            0 < length,
    ;
}

impl Canvas {
    /// Draws a picture stretched over `rect`, over what is there: every pixel of
    /// the rectangle takes the nearest pixel of the picture, turned about where
    /// it is mirrored. A rectangle without area draws nothing.
    pub fn image(&mut self, image: &Raster, rect: RectI, opacity: u8, mirrored: bool)
        requires
            old(self).wf(),
            image.wf(),
            rect.w > 0 && rect.h > 0 ==> 0 < image.width && 0 < image.height,
            is_coordinate(rect.x + rect.w) && is_coordinate(rect.y + rect.h),
        ensures
            final(self).wf(),
            final(self).same_size(*old(self)),
            forall|u: int, v: int|
                old(self).has(u, v) ==> #[trigger] final(self).at(u, v) == (if rect@.covers(u, v) {
                    laid_over(
                        old(self).at(u, v),
                        stretched(*image, rect@, opacity, mirrored, u, v),
                    )
                } else {
                    old(self).at(u, v)
                }),
            rect.w == image.width && rect.h == image.height && opacity == 255 ==> forall|
                u: int,
                v: int,
            |
                0 <= u < rect.w && 0 <= v < rect.h && old(self).has(rect.x + u, rect.y + v)
                    ==> #[trigger] final(self).at(rect.x + u, rect.y + v) == laid_over(
                    old(self).at(rect.x + u, rect.y + v),
                    image.at(
                        if mirrored {
                            image.width - 1 - u
                        } else {
                            u
                        },
                        v,
                    ),
                ),
    {
        proof {
            assert forall|u: int, v: int|
                rect.w == image.width && rect.h == image.height && 0 <= u < rect.w && 0 <= v
                    < rect.h implies #[trigger] stretched(
                *image,
                rect@,
                255,
                mirrored,
                rect.x + u,
                rect.y + v,
            ) == image.at(
                if mirrored {
                    image.width - 1 - u
                } else {
                    u
                },
                v,
            ) by {
                law_pictures_keep_upright(*image, rect@, mirrored, u, v);
            }
        }
        if rect.w <= 0 || rect.h <= 0 {
            return;
        }
        let mut dy: i32 = 0;
        while dy < rect.h
            invariant
                0 <= dy <= rect.h,
                0 < rect.w,
                0 < rect.h,
                image.wf(),
                0 < image.width,
                0 < image.height,
                is_coordinate(rect.x + rect.w) && is_coordinate(rect.y + rect.h),
                self.wf(),
                self.same_size(*old(self)),
                forall|u: int, v: int|
                    old(self).has(u, v) ==> #[trigger] self.at(u, v) == (if rect@.covers(u, v) && v
                        < rect.y + dy {
                        laid_over(
                            old(self).at(u, v),
                            stretched(*image, rect@, opacity, mirrored, u, v),
                        )
                    } else {
                        old(self).at(u, v)
                    }),
            decreases rect.h - dy,
        {
            proof {
                lemma_sampled(dy as int, image.height as int, rect.h as int);
                lemma_product_fits(dy, image.height);
            }
            let sy: u32 = (dy as u64 * image.height as u64 / rect.h as u64) as u32;
            let mut dx: i32 = 0;
            while dx < rect.w
                invariant
                    0 <= dx <= rect.w,
                    0 <= dy < rect.h,
                    0 < rect.w,
                    0 < rect.h,
                    image.wf(),
                    0 < image.width,
                    0 < image.height,
                    is_coordinate(rect.x + rect.w) && is_coordinate(rect.y + rect.h),
                    sy == sampled(dy as int, image.height as int, rect.h as int),
                    sy < image.height,
                    self.wf(),
                    self.same_size(*old(self)),
                    forall|u: int, v: int|
                        old(self).has(u, v) ==> #[trigger] self.at(u, v) == (if rect@.covers(u, v)
                            && (v < rect.y + dy || (v == rect.y + dy && u < rect.x + dx)) {
                            laid_over(
                                old(self).at(u, v),
                                stretched(*image, rect@, opacity, mirrored, u, v),
                            )
                        } else {
                            old(self).at(u, v)
                        }),
                decreases rect.w - dx,
            {
                proof {
                    lemma_sampled(dx as int, image.width as int, rect.w as int);
                    lemma_product_fits(dx, image.width);
                }
                let raw: u32 = (dx as u64 * image.width as u64 / rect.w as u64) as u32;
                let sx: u32 = if mirrored { image.width - 1 - raw } else { raw };
                let pixel = image.pixel(sx, sy);
                let color = Color { r: pixel.r, g: pixel.g, b: pixel.b, a: fade(pixel.a, opacity) };
                assert(color == stretched(
                    *image,
                    rect@,
                    opacity,
                    mirrored,
                    rect.x + dx,
                    rect.y + dy,
                ));
                self.blend(rect.x + dx, rect.y + dy, color);
                dx = dx + 1;
            }
            dy = dy + 1;
        }
    }
}

/// The strongest of the three colour channels of a pixel: how much of it a
/// white glyph on black covers.
pub open spec fn coverage_at(raw: Seq<u8>, width: int, x: int, y: int) -> u8 {
    let pixel = pixel_at(raw, width, x, y);
    let most = if pixel.b > pixel.g {
        pixel.b
    } else {
        pixel.g
    };
    if most > pixel.r {
        most
    } else {
        pixel.r
    }
}

impl Canvas {
    /// Draws text in a colour. `raw` is the text in white on black, in the size
    /// of `rect` and four bytes for each pixel; each pixel is laid over the
    /// canvas with the alpha that the glyphs cover of it.
    pub fn text(&mut self, raw: &Vec<u8>, rect: RectI, color: Color)
        requires
            old(self).wf(),
            rect.w > 0 && rect.h > 0 ==> raw@.len() == rect.w * rect.h * 4,
            is_coordinate(rect.x + rect.w) && is_coordinate(rect.y + rect.h),
        ensures
            final(self).wf(),
            final(self).same_size(*old(self)),
            forall|u: int, v: int|
                old(self).has(u, v) ==> #[trigger] final(self).at(u, v) == (if rect@.covers(u, v) {
                    laid_over(
                        old(self).at(u, v),
                        Color {
                            a: faded(
                                coverage_at(raw@, rect.w as int, u - rect.x, v - rect.y),
                                color.a,
                            ),
                            ..color
                        },
                    )
                } else {
                    old(self).at(u, v)
                }),
    {
        if rect.w <= 0 || rect.h <= 0 {
            return;
        }
        let count: usize = raw.len();
        let mut dy: i32 = 0;
        while dy < rect.h
            invariant
                0 <= dy <= rect.h,
                0 < rect.w,
                0 < rect.h,
                count == raw@.len(),
                raw@.len() == rect.w * rect.h * 4,
                is_coordinate(rect.x + rect.w) && is_coordinate(rect.y + rect.h),
                self.wf(),
                self.same_size(*old(self)),
                forall|u: int, v: int|
                    old(self).has(u, v) ==> #[trigger] self.at(u, v) == (if rect@.covers(u, v) && v
                        < rect.y + dy {
                        laid_over(
                            old(self).at(u, v),
                            Color {
                                a: faded(
                                    coverage_at(raw@, rect.w as int, u - rect.x, v - rect.y),
                                    color.a,
                                ),
                                ..color
                            },
                        )
                    } else {
                        old(self).at(u, v)
                    }),
            decreases rect.h - dy,
        {
            let mut dx: i32 = 0;
            while dx < rect.w
                invariant
                    0 <= dx <= rect.w,
                    0 <= dy < rect.h,
                    0 < rect.w,
                    0 < rect.h,
                    count == raw@.len(),
                    raw@.len() == rect.w * rect.h * 4,
                    is_coordinate(rect.x + rect.w) && is_coordinate(rect.y + rect.h),
                    self.wf(),
                    self.same_size(*old(self)),
                    forall|u: int, v: int|
                        old(self).has(u, v) ==> #[trigger] self.at(u, v) == (if rect@.covers(u, v)
                            && (v < rect.y + dy || (v == rect.y + dy && u < rect.x + dx)) {
                            laid_over(
                                old(self).at(u, v),
                                Color {
                                    a: faded(
                                        coverage_at(raw@, rect.w as int, u - rect.x, v - rect.y),
                                        color.a,
                                    ),
                                    ..color
                                },
                            )
                        } else {
                            old(self).at(u, v)
                        }),
                decreases rect.w - dx,
            {
                proof {
                    lemma_index(rect.w as int, rect.h as int, dx as int, dy as int);
                    assert(dx as usize as int == dx as int);
                    assert(dy as usize as int == dy as int);
                    assert(rect.w as usize as int == rect.w as int);
                    assert(dy as usize * rect.w as usize == dy * rect.w);
                }
                let index: usize = (dy as usize * rect.w as usize + dx as usize) * 4;
                let mut coverage: u8 = raw[index + 1];
                if raw[index] > coverage {
                    coverage = raw[index];
                }
                if coverage <= raw[index + 2] {
                    coverage = raw[index + 2];
                }
                assert(coverage == coverage_at(raw@, rect.w as int, dx as int, dy as int));
                let ink = Color {
                    r: color.r,
                    g: color.g,
                    b: color.b,
                    a: fade(coverage, color.a),
                };
                self.blend(rect.x + dx, rect.y + dy, ink);
                dx = dx + 1;
            }
            dy = dy + 1;
        }
    }
}

/// How often the strokes of a cross pass over a point.
pub open spec fn cross_hits(
    center: (int, int),
    arm: int,
    stroke: int,
    x: int,
    y: int,
) -> nat {
    let dx = x - center.0;
    let dy = y - center.1;
    if -arm <= dx <= arm {
        (if -stroke <= dy - dx <= stroke {
            1nat
        } else {
            0nat
        }) + (if -stroke <= dy + dx <= stroke {
            1nat
        } else {
            0nat
        })
    } else {
        0
    }
}

/// A colour laid over a pixel several times.
pub open spec fn laid_over_times(under: Color, over: Color, times: nat) -> Color
    decreases times,
{
    if times == 0 {
        under
    } else {
        laid_over(laid_over_times(under, over, (times - 1) as nat), over)
    }
}

/// How often the strokes of a cross have passed over a point when all offsets
/// before `offset`, and of that offset all steps before `step`, are drawn.
pub open spec fn hits_before(
    center: (int, int),
    arm: int,
    stroke: int,
    offset: int,
    step: int,
    x: int,
    y: int,
) -> nat {
    let dx = x - center.0;
    let dy = y - center.1;
    let drawn = |at: int| -stroke <= at && (at < offset || (at == offset && dx < step)) && -arm
        <= dx <= arm;
    (if drawn(dy - dx) && dy - dx <= stroke {
        1nat
    } else {
        0nat
    }) + (if drawn(dy + dx) && dy + dx <= stroke {
        1nat
    } else {
        0nat
    })
}

impl Canvas {
    /// Draws a cross of two diagonal strokes: each pixel takes the colour once
    /// for each stroke that passes over it.
    pub fn cross(&mut self, center: (i32, i32), arm: i32, stroke: i32, color: Color)
        requires
            old(self).wf(),
            0 <= arm,
            0 <= stroke,
            arm + stroke < i32::MAX,
            is_coordinate(center.0 - arm) && is_coordinate(center.0 + arm),
            is_coordinate(center.1 - arm - stroke) && is_coordinate(center.1 + arm + stroke),
        ensures
            final(self).wf(),
            final(self).same_size(*old(self)),
            forall|u: int, v: int|
                old(self).has(u, v) ==> #[trigger] final(self).at(u, v) == laid_over_times(
                    old(self).at(u, v),
                    color,
                    cross_hits((center.0 as int, center.1 as int), arm as int, stroke as int, u, v),
                ),
    {
        let ghost middle = (center.0 as int, center.1 as int);
        let mut offset: i32 = -stroke;
        while offset <= stroke
            invariant
                0 <= arm,
                0 <= stroke,
                arm + stroke < i32::MAX,
                is_coordinate(center.0 - arm) && is_coordinate(center.0 + arm),
                is_coordinate(center.1 - arm - stroke) && is_coordinate(center.1 + arm + stroke),
                middle == (center.0 as int, center.1 as int),
                -stroke <= offset <= stroke + 1,
                self.wf(),
                self.same_size(*old(self)),
                forall|u: int, v: int|
                    old(self).has(u, v) ==> #[trigger] self.at(u, v) == laid_over_times(
                        old(self).at(u, v),
                        color,
                        hits_before(
                            middle,
                            arm as int,
                            stroke as int,
                            offset as int,
                            -arm as int,
                            u,
                            v,
                        ),
                    ),
            decreases stroke + 1 - offset,
        {
            let mut step: i32 = -arm;
            while step <= arm
                invariant
                    0 <= arm,
                    0 <= stroke,
                    arm + stroke < i32::MAX,
                    is_coordinate(center.0 - arm) && is_coordinate(center.0 + arm),
                    is_coordinate(center.1 - arm - stroke) && is_coordinate(center.1 + arm + stroke),
                    middle == (center.0 as int, center.1 as int),
                    -stroke <= offset <= stroke,
                    -arm <= step <= arm + 1,
                    self.wf(),
                    self.same_size(*old(self)),
                    forall|u: int, v: int|
                        old(self).has(u, v) ==> #[trigger] self.at(u, v) == laid_over_times(
                            old(self).at(u, v),
                            color,
                            hits_before(
                                middle,
                                arm as int,
                                stroke as int,
                                offset as int,
                                step as int,
                                u,
                                v,
                            ),
                        ),
                decreases arm + 1 - step,
            {
                let x: i32 = (center.0 as i64 + step as i64) as i32;
                let falling: i32 = (center.1 as i64 + step as i64 + offset as i64) as i32;
                let rising: i32 = (center.1 as i64 - step as i64 + offset as i64) as i32;
                self.blend(x, falling, color);
                self.blend(x, rising, color);
                proof {
                    reveal_with_fuel(laid_over_times, 3);
                }
                step = step + 1;
            }
            offset = offset + 1;
        }
    }
}

/// A canvas keeps its pixels row by row from the top, each row from the left, and
/// of each pixel blue, green, red and alpha, as the screen wants them. A picture
/// keeps red first.
pub proof fn law_bytes_of_pixels(canvas: Canvas, image: Raster, x: int, y: int)
    ensures
        ({
            let at = 4 * (y * canvas.width + x);
            let pixel = canvas.at(x, y);
            &&& pixel.b == canvas.pixels@[at] && pixel.g == canvas.pixels@[at + 1]
            &&& pixel.r == canvas.pixels@[at + 2] && pixel.a == canvas.pixels@[at + 3]
        }),
        ({
            let at = 4 * (y * image.width + x);
            let pixel = image.at(x, y);
            &&& pixel.r == image.pixels@[at] && pixel.g == image.pixels@[at + 1]
            &&& pixel.b == image.pixels@[at + 2] && pixel.a == image.pixels@[at + 3]
        }),
{
}

/// Whether `out` is as far between `under` and `over` as `alpha` says of 255,
/// rounded down.
pub open spec fn is_between(under: int, over: int, alpha: int, out: int) -> bool {
    255 * out <= over * alpha + under * (255 - alpha) < 255 * (out + 1)
}

/// A colour that is laid over a pixel shows as far as it is opaque, each channel for
/// itself: an opaque one hides the pixel, a transparent one leaves it, and any other
/// gives what is between the two. The pixel gets no more transparent.
pub proof fn law_colors_are_laid_over(under: Color, over: Color)
    ensures
        ({
            let out = laid_over(under, over);
            &&& over.a == 255 ==> out == over
            &&& over.a == 0 ==> out == under
            &&& over.a > 0 ==> {
                &&& is_between(under.r as int, over.r as int, over.a as int, out.r as int)
                &&& is_between(under.g as int, over.g as int, over.a as int, out.g as int)
                &&& is_between(under.b as int, over.b as int, over.a as int, out.b as int)
                &&& 255 * (out.a - over.a) <= under.a * (255 - over.a) < 255 * (out.a - over.a + 1)
            }
            &&& over.a <= out.a && under.a <= out.a + 1
        }),
{
    lemma_mix_fits(over.r, under.r, over.a);
    lemma_mix_fits(over.g, under.g, over.a);
    lemma_mix_fits(over.b, under.b, over.a);
    lemma_mix_fits(0, under.a, over.a);
    lemma_products_are_positive(over.r, under.r, over.a);
    lemma_products_are_positive(over.g, under.g, over.a);
    lemma_products_are_positive(over.b, under.b, over.a);
    lemma_products_are_positive(over.a, under.a, over.a);
    assert(under.a * 255 <= under.a * (255 - over.a) + 255 * over.a) by (nonlinear_arith)
        requires
            under.a <= 255,
            0 <= over.a,
    ;
    if over.a == 255 {
        assert(over.r * 255 / 255 == over.r && over.g * 255 / 255 == over.g && over.b * 255 / 255
            == over.b);
        assert(under.r * 0 == 0 && under.g * 0 == 0 && under.b * 0 == 0 && under.a * 0 == 0);
    }
}

proof fn lemma_products_are_positive(over: u8, under: u8, alpha: u8)
    ensures
        0 <= over * alpha,
        0 <= under * (255 - alpha),
{
    assert(0 <= over * alpha) by (nonlinear_arith)
        requires
            0 <= over,
            0 <= alpha,
    ;
    assert(0 <= under * (255 - alpha)) by (nonlinear_arith)
        requires
            0 <= under,
            alpha <= 255,
    ;
}

/// Drawing with full opacity keeps the alpha, with none takes it all, and with any
/// other leaves that share of it.
pub proof fn law_fading_leaves_its_share(alpha: u8, opacity: u8)
    ensures
        faded(alpha, 255) == alpha,
        faded(alpha, 0) == 0,
        255 * faded(alpha, opacity) <= alpha * opacity < 255 * (faded(alpha, opacity) + 1),
        faded(alpha, opacity) <= alpha,
        faded(alpha, opacity) <= opacity,
{
    assert(0 <= alpha * opacity <= 255 * opacity && alpha * opacity <= alpha * 255)
        by (nonlinear_arith)
        requires
            0 <= alpha <= 255,
            0 <= opacity <= 255,
    ;
    assert(alpha * 255 / 255 == alpha && alpha * 0 == 0);
}

/// Whether `from` is the place in a row of `size` that stands for place `at` of a
/// row of `length`: as far along as that.
pub open spec fn stands_for(from: int, size: int, at: int, length: int) -> bool {
    from * length <= at * size < (from + 1) * length
}

/// A stretched picture shows at every point the pixel that is as far from its left
/// edge, or from its right edge where it is mirrored, and as far from its upper edge
/// as the point is from those of the rectangle. Only the alpha fades.
pub proof fn law_stretching_keeps_places(
    image: Raster,
    rect: Area,
    opacity: u8,
    mirrored: bool,
    u: int,
    v: int,
    from_x: int,
    from_y: int,
)
    requires
        0 <= u < rect.w,
        0 <= v < rect.h,
        0 < image.width,
        0 < image.height,
        stands_for(from_x, image.width as int, u, rect.w),
        stands_for(from_y, image.height as int, v, rect.h),
    ensures
        0 <= from_x < image.width,
        0 <= from_y < image.height,
        ({
            let shown = stretched(image, rect, opacity, mirrored, rect.x + u, rect.y + v);
            let pixel = image.at(
                if mirrored {
                    image.width - 1 - from_x
                } else {
                    from_x
                },
                from_y,
            );
            &&& shown.r == pixel.r && shown.g == pixel.g && shown.b == pixel.b
            &&& shown.a == faded(pixel.a, opacity)
        }),
{
    lemma_stands_for(from_x, image.width as int, u, rect.w);
    lemma_stands_for(from_y, image.height as int, v, rect.h);
}

proof fn lemma_stands_for(from: int, size: int, at: int, length: int)
    requires
        0 <= at < length,
        0 < size,
        stands_for(from, size, at, length),
    ensures
        from == sampled(at, size, length),
        0 <= from < size,
{
    lemma_sampled(at, size, length);
    assert(from == (at * size) / length) by (nonlinear_arith)
        requires
            from * length <= at * size < (from + 1) * length,
            0 < length,
    ;
}

/// A picture that is drawn in its own size and with full opacity shows each of its
/// pixels at its own place: the first row on top, and the first column at the left,
/// or at the right where it is mirrored.
pub proof fn law_pictures_keep_upright(
    image: Raster,
    rect: Area,
    mirrored: bool,
    u: int,
    v: int,
)
    requires
        rect.w == image.width,
        rect.h == image.height,
        0 <= u < rect.w,
        0 <= v < rect.h,
    ensures
        stretched(image, rect, 255, mirrored, rect.x + u, rect.y + v) == image.at(
            if mirrored {
                image.width - 1 - u
            } else {
                u
            },
            v,
        ),
{
    assert(stands_for(u, image.width as int, u, rect.w)) by (nonlinear_arith)
        requires
            0 <= u,
            rect.w == image.width,
            0 < rect.w,
    ;
    assert(stands_for(v, image.height as int, v, rect.h)) by (nonlinear_arith)
        requires
            0 <= v,
            rect.h == image.height,
            0 < rect.h,
    ;
    law_stretching_keeps_places(image, rect, 255, mirrored, u, v, u, v);
    let pixel = image.at(
        if mirrored {
            image.width - 1 - u
        } else {
            u
        },
        v,
    );
    law_fading_leaves_its_share(pixel.a, 255);
}

/// Stretching keeps the order of rows and columns: what is shown further down or
/// further right is not taken from further up or further left.
pub proof fn law_stretching_keeps_order(size: int, length: int, a: int, b: int)
    requires
        0 <= a <= b < length,
        0 < size,
    ensures
        0 <= sampled(a, size, length) <= sampled(b, size, length) < size,
        sampled(0, size, length) == 0,
        size <= length ==> sampled(length - 1, size, length) == size - 1,
{
    lemma_sampled(a, size, length);
    lemma_sampled(b, size, length);
    assert(a * size <= b * size) by (nonlinear_arith)
        requires
            a <= b,
            0 < size,
    ;
    assert((a * size) / length <= (b * size) / length) by (nonlinear_arith)
        requires
            a * size <= b * size,
            0 < length,
    ;
    assert(0 * size / length == 0) by (nonlinear_arith)
        requires
            0 < length,
    ;
    if size <= length {
        assert(stands_for(size - 1, size, length - 1, length)) by (nonlinear_arith)
            requires
                0 < size <= length,
        ;
        lemma_stands_for(size - 1, size, length - 1, length);
    }
}

/// A glyph covers as much of a pixel as the strongest of its three colour channels
/// says; its alpha says nothing.
pub proof fn law_strongest_channel_covers(raw: Seq<u8>, width: int, x: int, y: int)
    ensures
        ({
            let at = 4 * (y * width + x);
            let covered = coverage_at(raw, width, x, y);
            &&& raw[at] <= covered && raw[at + 1] <= covered && raw[at + 2] <= covered
            &&& covered == raw[at] || covered == raw[at + 1] || covered == raw[at + 2]
        }),
{
}

/// Whether the distance between two numbers is at most `most`.
pub open spec fn is_near(a: int, b: int, most: int) -> bool {
    -most <= a - b <= most
}

/// A cross is drawn on both of its diagonals, as far as its arms reach to either
/// side, and nowhere else; where the strokes meet, twice. It is the same from left
/// and right and from above and below.
pub proof fn law_cross_marks_its_point(
    center: (int, int),
    arm: int,
    stroke: int,
    dx: int,
    dy: int,
)
    requires
        0 <= arm,
        0 <= stroke,
    ensures
        ({
            let hits = cross_hits(center, arm, stroke, center.0 + dx, center.1 + dy);
            let in_reach = is_near(dx, 0, arm);
            let falls = is_near(dy, dx, stroke);
            let rises = is_near(dy, -dx, stroke);
            &&& hits == 0 <==> !in_reach || !falls && !rises
            &&& hits == 2 <==> in_reach && falls && rises
            &&& hits <= 2
            &&& hits == cross_hits(center, arm, stroke, center.0 - dx, center.1 + dy)
            &&& hits == cross_hits(center, arm, stroke, center.0 + dx, center.1 - dy)
        }),
        cross_hits(center, arm, stroke, center.0, center.1) == 2,
{
}

/// A colour that is laid over a pixel once or twice.
pub proof fn law_strokes_add_up(under: Color, over: Color)
    ensures
        laid_over_times(under, over, 0) == under,
        laid_over_times(under, over, 1) == laid_over(under, over),
        laid_over_times(under, over, 2) == laid_over(laid_over(under, over), over),
{
    reveal_with_fuel(laid_over_times, 3);
}

proof fn lemma_product_fits(a: i32, b: u32)
    requires
        0 <= a,
    ensures
        0 <= a * b <= u64::MAX,
        a as u64 * b as u64 == a * b,
{
    assert(0 <= a * b <= 0x7fffffff * 0xffffffff) by (nonlinear_arith)
        requires
            0 <= a <= 0x7fffffff,
            0 <= b <= 0xffffffff,
    ;
}

} // verus!
