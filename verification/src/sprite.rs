//! Sprites: animations whose frames stand in a sheet of five columns and three
//! rows.

use image::imageops::FilterType;
use image::RgbaImage;

use vstd::prelude::*;

use crate::canvas::{byte_index, Color, Raster};

verus! {

/// An animation, scaled to the height at which it is shown.
pub struct Sprite {
    pub frames: Vec<Raster>,
    pub width: i32,
    pub height: i32,
}

/// The frames in a row of a sheet.
pub const SHEET_COLUMNS: u32 = 5;

/// The rows of a sheet.
pub const SHEET_ROWS: u32 = 3;

/// The largest width or height of a picture that is scaled: the pixels up to
/// it have exact positions in single precision.
pub const SCALE_LIMIT: u32 = 0x100_0000;

/// Whether `part` is the piece of `whole` of the given size at `(x, y)`.
pub open spec fn is_piece(
    part: Raster,
    whole: Raster,
    x: int,
    y: int,
    width: int,
    height: int,
) -> bool {
    &&& part.wf()
    &&& part.width == width
    &&& part.height == height
    &&& forall|u: int, v: int|
        0 <= u < width && 0 <= v < height ==> #[trigger] part.at(u, v) == whole.at(x + u, y + v)
}

/// Whether a picture can be scaled to the given size: no number is too large
/// for its pixels or their memory.
pub open spec fn is_scalable(source: Raster, width: int, height: int) -> bool {
    &&& 0 < source.width <= SCALE_LIMIT
    &&& 0 < source.height <= SCALE_LIMIT
    &&& 0 <= width <= SCALE_LIMIT
    &&& 0 <= height <= SCALE_LIMIT
    &&& source.width * height * 16 <= isize::MAX
    &&& width * height * 4 <= isize::MAX
}

/// Calls `image::imageops::resize` with the `Lanczos3` filter: a picture of the
/// asked size. A picture that has that size already is copied; what the pixels
/// of any other are is left unsaid, for the filter computes in floating point
/// with a sine that differs from platform to platform.
#[verifier::external_body]
fn resize(source: &Raster, width: u32, height: u32) -> (scaled: Raster)
    requires
        source.wf(),
        is_scalable(*source, width as int, height as int),
    ensures
        scaled.wf(),
        scaled.width == width,
        scaled.height == height,
        source.width == width && source.height == height ==> scaled.pixels@ == source.pixels@,
{
    let picture = RgbaImage::from_raw(source.width, source.height, source.pixels.clone()).unwrap();
    let scaled = image::imageops::resize(&picture, width, height, FilterType::Lanczos3);
    Raster { width, height, pixels: scaled.into_raw() }
}

impl Raster {
    /// The piece of the given size at `(x, y)`.
    pub fn crop(&self, x: u32, y: u32, width: u32, height: u32) -> (part: Raster)
        requires
            self.wf(),
            x + width <= self.width,
            y + height <= self.height,
        ensures
            is_piece(part, *self, x as int, y as int, width as int, height as int),
    {
        let mut pixels: Vec<u8> = Vec::new();
        let ghost wide = width as int;
        let mut row: u32 = 0;
        while row < height
            invariant
                self.wf(),
                x + width <= self.width,
                y + height <= self.height,
                wide == width,
                row <= height,
                pixels@.len() == row * wide * 4,
                forall|u: int, v: int|
                    0 <= u < width && 0 <= v < row ==> #[trigger] rgba_at(pixels@, wide, u, v)
                        == self.at(x + u, y + v),
            decreases height - row,
        {
            let mut column: u32 = 0;
            while column < width
                invariant
                    self.wf(),
                    x + width <= self.width,
                    y + height <= self.height,
                    wide == width,
                    row < height,
                    column <= width,
                    pixels@.len() == (row * wide + column) * 4,
                    forall|u: int, v: int|
                        0 <= u < width && 0 <= v <= row && (v < row || u < column)
                            ==> #[trigger] rgba_at(pixels@, wide, u, v) == self.at(x + u, y + v),
                decreases width - column,
            {
                let pixel = self.pixel(x + column, y + row);
                let ghost before = pixels@;
                pixels.push(pixel.r);
                pixels.push(pixel.g);
                pixels.push(pixel.b);
                pixels.push(pixel.a);
                proof {
                    assert forall|u: int, v: int|
                        0 <= u < width && 0 <= v <= row && (v < row || u < column + 1) implies
                        #[trigger] rgba_at(pixels@, wide, u, v) == self.at(x + u, y + v) by {
                        if v == row && u == column {
                            assert(byte_index(wide, u, v) == before.len());
                        } else {
                            lemma_earlier(wide, u, v, column as int, row as int);
                            assert(rgba_at(pixels@, wide, u, v) == rgba_at(before, wide, u, v));
                        }
                    }
                }
                column = column + 1;
            }
            proof {
                assert((row + 1) * wide * 4 == (row * wide + wide) * 4) by (nonlinear_arith);
            }
            row = row + 1;
        }
        let part = Raster { width, height, pixels };
        proof {
            assert forall|u: int, v: int| 0 <= u < width && 0 <= v < height implies
                #[trigger] part.at(u, v) == self.at(x + u, y + v) by {
                assert(part.at(u, v) == rgba_at(part.pixels@, wide, u, v));
            }
            assert(height * wide * 4 == width * height * 4) by (nonlinear_arith)
                requires
                    wide == width,
            ;
        }
        part
    }
}

/// The pixel at a point of a picture that keeps red first.
spec fn rgba_at(pixels: Seq<u8>, width: int, x: int, y: int) -> Color {
    let at = byte_index(width, x, y);
    Color { r: pixels[at], g: pixels[at + 1], b: pixels[at + 2], a: pixels[at + 3] }
}

proof fn lemma_earlier(width: int, u: int, v: int, column: int, row: int)
    requires
        0 <= u < width,
        0 <= v <= row,
        v < row || u < column,
        0 <= column < width,
    ensures
        0 <= byte_index(width, u, v),
        byte_index(width, u, v) + 3 < (row * width + column) * 4,
{
    assert(0 <= v * width) by (nonlinear_arith)
        requires
            0 <= v,
            0 < width,
    ;
    if v < row {
        assert(v * width + width <= row * width) by (nonlinear_arith)
            requires
                v < row,
                0 < width,
        ;
    }
}

/// The size of one frame of a sheet.
pub open spec fn frame_size(sheet: Raster) -> (int, int) {
    (sheet.width as int / 5, sheet.height as int / 3)
}

/// The width of a frame after it is scaled to `height`.
pub open spec fn scaled_width(sheet: Raster, height: int) -> int {
    frame_size(sheet).0 * height / frame_size(sheet).1
}

/// Whether `frame` is the frame of the given number, counted row by row.
pub open spec fn is_frame(frame: Raster, sheet: Raster, number: int) -> bool {
    let (w, h) = frame_size(sheet);
    is_piece(frame, sheet, (number % 5) * w, (number / 5) * h, w, h)
}

proof fn lemma_frame_is_in_sheet(sheet: Raster, column: int, row: int)
    requires
        0 <= column < 5,
        0 <= row < 3,
    ensures
        0 <= column * frame_size(sheet).0,
        column * frame_size(sheet).0 + frame_size(sheet).0 <= sheet.width,
        0 <= row * frame_size(sheet).1,
        row * frame_size(sheet).1 + frame_size(sheet).1 <= sheet.height,
{
    let (w, h) = frame_size(sheet);
    assert(0 <= column * w && column * w + w <= 5 * w) by (nonlinear_arith)
        requires
            0 <= column < 5,
            0 <= w,
    ;
    assert(0 <= row * h && row * h + h <= 3 * h) by (nonlinear_arith)
        requires
            0 <= row < 3,
            0 <= h,
    ;
}

/// The frames of a sheet, row by row; nothing where the sheet is too small to
/// have any.
pub fn sheet_frames(sheet: &Raster) -> (frames: Option<Vec<Raster>>)
    requires
        sheet.wf(),
    ensures
        match frames {
            Some(frames) => {
                &&& frame_size(*sheet).0 > 0 && frame_size(*sheet).1 > 0
                &&& frames@.len() == 15
                &&& forall|i: int| 0 <= i < 15 ==> is_frame(#[trigger] frames@[i], *sheet, i)
            },
            None => frame_size(*sheet).0 == 0 || frame_size(*sheet).1 == 0,
        },
{
    let frame_width: u32 = sheet.width / SHEET_COLUMNS;
    let frame_height: u32 = sheet.height / SHEET_ROWS;
    if frame_width == 0 || frame_height == 0 {
        return None;
    }
    let mut frames: Vec<Raster> = Vec::new();
    let mut row: u32 = 0;
    while row < SHEET_ROWS
        invariant
            sheet.wf(),
            frame_width == frame_size(*sheet).0,
            frame_height == frame_size(*sheet).1,
            row <= 3,
            frames@.len() == row * 5,
            forall|i: int| 0 <= i < row * 5 ==> is_frame(#[trigger] frames@[i], *sheet, i),
        decreases 3 - row,
    {
        let mut column: u32 = 0;
        while column < SHEET_COLUMNS
            invariant
                sheet.wf(),
                frame_width == frame_size(*sheet).0,
                frame_height == frame_size(*sheet).1,
                row < 3,
                column <= 5,
                frames@.len() == row * 5 + column,
                forall|i: int|
                    0 <= i < row * 5 + column ==> is_frame(#[trigger] frames@[i], *sheet, i),
            decreases 5 - column,
        {
            proof {
                lemma_frame_is_in_sheet(*sheet, column as int, row as int);
            }
            let frame = sheet.crop(
                column * frame_width,
                row * frame_height,
                frame_width,
                frame_height,
            );
            proof {
                let number = row * 5 + column;
                assert(number % 5 == column && number / 5 == row as int);
                assert(is_frame(frame, *sheet, number));
            }
            frames.push(frame);
            column = column + 1;
        }
        row = row + 1;
    }
    Some(frames)
}

/// Whether `scaled` is what scaling `source` to the given size can give.
pub closed spec fn is_scaling(source: Raster, width: u32, height: u32, scaled: Raster) -> bool {
    call_ensures(resize, (&source, width, height), scaled)
}

/// Whether `frame` shows the frame of the given number of a sheet, scaled to its
/// own size.
pub open spec fn is_scaled_frame(frame: Raster, sheet: Raster, number: int) -> bool {
    exists|piece: Raster| #[trigger]
        is_frame(piece, sheet, number) && is_scaling(piece, frame.width, frame.height, frame)
}

impl Sprite {
    /// A sprite with frames of its size.
    pub open spec fn wf(self) -> bool {
        &&& self.frames@.len() == 15
        &&& 0 <= self.width
        &&& 0 <= self.height
        &&& forall|i: int|
            0 <= i < self.frames@.len() ==> (#[trigger] self.frames@[i]).wf()
                && self.frames@[i].width == self.width && self.frames@[i].height == self.height
    }

    /// Cuts a sheet into its frames and scales them to `height`, keeping their
    /// proportions. Nothing where there is no sheet or it is too small.
    pub fn load(sheet: Option<&Raster>, height: u32) -> (sprite: Option<Self>)
        requires
            sheet matches Some(sheet) ==> sheet.wf() && (frame_size(*sheet).0 > 0 && frame_size(
                *sheet,
            ).1 > 0 ==> {
                let (w, h) = frame_size(*sheet);
                let scaled = scaled_width(*sheet, height as int);
                &&& w <= SCALE_LIMIT && h <= SCALE_LIMIT
                &&& w * height <= u32::MAX
                &&& scaled <= SCALE_LIMIT && height <= SCALE_LIMIT
                &&& w * height * 16 <= isize::MAX && scaled * height * 4 <= isize::MAX
            }),
        ensures
            match sprite {
                Some(sprite) => {
                    &&& sheet matches Some(sheet) && {
                        &&& frame_size(*sheet).0 > 0 && frame_size(*sheet).1 > 0
                        &&& sprite.width == scaled_width(*sheet, height as int)
                        &&& sprite.height == height
                        &&& forall|i: int|
                            0 <= i < 15 ==> is_scaled_frame(
                                #[trigger] sprite.frames@[i],
                                *sheet,
                                i,
                            )
                        &&& frame_size(*sheet) == (sprite.width as int, height as int)
                            ==> forall|i: int|
                            0 <= i < 15 ==> is_frame(#[trigger] sprite.frames@[i], *sheet, i)
                    }
                    &&& sprite.wf()
                },
                None => sheet matches Some(sheet) ==> frame_size(*sheet).0 == 0 || frame_size(
                    *sheet,
                ).1 == 0,
            },
    {
        let sheet = match sheet {
            Some(sheet) => sheet,
            None => {
                return None;
            },
        };
        let pieces = match sheet_frames(sheet) {
            Some(pieces) => pieces,
            None => {
                return None;
            },
        };
        let frame_width: u32 = sheet.width / SHEET_COLUMNS;
        let frame_height: u32 = sheet.height / SHEET_ROWS;
        let width: u32 = frame_width * height / frame_height;
        let mut frames: Vec<Raster> = Vec::new();
        let mut i: usize = 0;
        while i < pieces.len()
            invariant
                i <= pieces@.len(),
                pieces@.len() == 15,
                frames@.len() == i,
                frame_width == frame_size(*sheet).0,
                frame_height == frame_size(*sheet).1,
                0 < frame_width <= SCALE_LIMIT,
                0 < frame_height <= SCALE_LIMIT,
                width <= SCALE_LIMIT,
                height <= SCALE_LIMIT,
                frame_width * height * 16 <= isize::MAX,
                width * height * 4 <= isize::MAX,
                forall|j: int| 0 <= j < 15 ==> is_frame(#[trigger] pieces@[j], *sheet, j),
                forall|j: int|
                    0 <= j < i ==> (#[trigger] frames@[j]).wf() && frames@[j].width == width
                        && frames@[j].height == height && is_scaled_frame(frames@[j], *sheet, j),
                frame_width == width && frame_height == height ==> forall|j: int|
                    0 <= j < i ==> (#[trigger] frames@[j]).pixels@ == pieces@[j].pixels@,
            decreases pieces@.len() - i,
        {
            assert(is_frame(pieces@[i as int], *sheet, i as int));
            let frame = resize(&pieces[i], width, height);
            assert(is_scaling(pieces@[i as int], width, height, frame));
            frames.push(frame);
            i = i + 1;
        }
        proof {
            if frame_width == width && frame_height == height {
                assert forall|j: int| 0 <= j < 15 implies is_frame(
                    #[trigger] frames@[j],
                    *sheet,
                    j,
                ) by {
                    let piece = pieces@[j];
                    assert(is_frame(piece, *sheet, j));
                    let (w, h) = frame_size(*sheet);
                    assert forall|u: int, v: int| 0 <= u < w && 0 <= v < h implies
                        #[trigger] frames@[j].at(u, v) == sheet.at((j % 5) * w + u, (j / 5) * h + v) by {
                        assert(frames@[j].at(u, v) == piece.at(u, v));
                    }
                }
            }
        }
        Some(Sprite { frames, width: width as i32, height: height as i32 })
    }
}

/// The frames of a sheet lie side by side, five in each of its three rows: every
/// pixel of the sheet, but for what is left over at its right and lower edges, is
/// shown by the frame in whose column and row it lies, at its place within that.
pub proof fn law_frames_tile_the_sheet(sheet: Raster, frame: Raster, x: int, y: int)
    requires
        ({
            let (w, h) = frame_size(sheet);
            &&& w > 0 && h > 0
            &&& 0 <= x < 5 * w && 0 <= y < 3 * h
            &&& is_frame(frame, sheet, (y / h) * 5 + x / w)
        }),
    ensures
        ({
            let (w, h) = frame_size(sheet);
            &&& 5 * w <= sheet.width < 5 * w + 5
            &&& 3 * h <= sheet.height < 3 * h + 3
            &&& frame.width == w && frame.height == h
            &&& frame.at(x % w, y % h) == sheet.at(x, y)
        }),
{
    let (w, h) = frame_size(sheet);
    let column = x / w;
    let row = y / h;
    assert(0 <= column < 5 && column * w + x % w == x && 0 <= x % w < w) by (nonlinear_arith)
        requires
            0 <= x < 5 * w,
            0 < w,
            column == x / w,
    ;
    assert(0 <= row < 3 && row * h + y % h == y && 0 <= y % h < h) by (nonlinear_arith)
        requires
            0 <= y < 3 * h,
            0 < h,
            row == y / h,
    ;
    let number = row * 5 + column;
    assert(number % 5 == column && number / 5 == row);
    assert(frame.at(x % w, y % h) == sheet.at(column * w + x % w, row * h + y % h));
}

/// Scaling keeps the proportions of a frame, rounded down to whole pixels.
pub proof fn law_scaling_keeps_proportions(sheet: Raster, height: int)
    requires
        frame_size(sheet).1 > 0,
    ensures
        ({
            let (w, h) = frame_size(sheet);
            let scaled = scaled_width(sheet, height);
            scaled * h <= w * height < (scaled + 1) * h
        }),
        height == frame_size(sheet).1 ==> scaled_width(sheet, height) == frame_size(sheet).0,
{
    let (w, h) = frame_size(sheet);
    let scaled = (w * height) / h;
    assert(scaled * h <= w * height < (scaled + 1) * h) by (nonlinear_arith)
        requires
            scaled == (w * height) / h,
            0 < h,
    ;
    if height == h {
        assert((w * h) / h == w) by (nonlinear_arith)
            requires
                0 < h,
        ;
    }
}

} // verus!
