use vstd::prelude::*;


use crate::canvas::{
    spec_merge_pixel, tile_in_grid, DirtyRegion,
    lemma_grid_bound, lemma_grid_index, lemma_tracks_changes_transitive, lemma_u16_product,
    spec_blend_over, tracks_changes, Canvas, CanvasError, Rgba,
};
use crate::layout::saturating_product;
use crate::metrics::cpu::dec;
use crate::text::{append_decimal, append_str};

verus! {

/// A small RGBA image that can be stamped onto a canvas.
#[derive(Clone, Debug, PartialEq, Eq)]
pub struct Sprite {
    width: u16,
    height: u16,
    pixels: Vec<Rgba>,
}

/// Where a sprite is stamped and by what whole-number factor it is enlarged.
#[derive(Clone, Copy, Debug, PartialEq, Eq, Structural)]
pub struct SpriteBlit {
    pub x: u16,
    pub y: u16,
    pub scale: u16,
}

#[verifier::external_type_specification]
#[verifier::external_body]
pub struct ExPngDecodingError(png::DecodingError);

/// The sample layout of a decoded PNG frame.
#[derive(Clone, Copy, Debug, PartialEq, Eq, Structural)]
pub enum PngColorType {
    Grayscale,
    Rgb,
    Indexed,
    GrayscaleAlpha,
    Rgba,
}

/// The bits per sample of a decoded PNG frame.
#[derive(Clone, Copy, Debug, PartialEq, Eq, Structural)]
pub enum PngBitDepth {
    One,
    Two,
    Four,
    Eight,
    Sixteen,
}

/// What the decoder reports about the frame it wrote.
#[derive(Clone, Copy, Debug, PartialEq, Eq, Structural)]
pub struct PngFrameInfo {
    pub width: u32,
    pub height: u32,
    pub color_type: PngColorType,
    pub bit_depth: PngBitDepth,
    pub line_size: usize,
}

/// Formats a `png::DecodingError` with its `Display` impl; the text is not stated.
#[verifier::external_body]
fn png_error_text(error: &png::DecodingError) -> (text: String) {
    format!("{}", error)
}

/// Why a sprite could not be built or stamped.
#[derive(Debug)]
pub enum SpriteError {
    PngDecode(png::DecodingError),
    UnsupportedOutputSize,
    UnsupportedFormat { color_type: PngColorType, bit_depth: PngBitDepth },
    ImageTooLarge { width: u32, height: u32 },
    InvalidSize { width: u16, height: u16 },
    PixelCountMismatch { expected: usize, actual: usize },
    InvalidScale,
    OutOfCanvas { x: u16, y: u16, width: u16, height: u16 },
    Canvas(CanvasError),
}

impl Sprite {
    pub closed spec fn spec_width(&self) -> int {
        self.width as int
    }

    pub closed spec fn spec_height(&self) -> int {
        self.height as int
    }

    pub closed spec fn spec_pixels(&self) -> Seq<Rgba> {
        self.pixels@
    }

    /// A sprite is never empty and holds one pixel per coordinate, row by row.
    pub closed spec fn wf(&self) -> bool {
        &&& self.width > 0
        &&& self.height > 0
        &&& self.pixels@.len() == self.width * self.height
    }

    pub proof fn lemma_wf(&self)
        requires
            self.wf(),
        ensures
            0 < self.spec_width() <= u16::MAX,
            0 < self.spec_height() <= u16::MAX,
            self.spec_pixels().len() == self.spec_width() * self.spec_height(),
    {
    }

    /// The pixel at column `x`, row `y`.
    pub open spec fn pixel_at(&self, x: int, y: int) -> Rgba {
        self.spec_pixels()[y * self.spec_width() + x]
    }

    /// A `width` x `height` sprite from its pixels in row-major order.
    pub fn from_rgba_pixels(width: u16, height: u16, pixels: Vec<Rgba>) -> (result: Result<
        Sprite,
        SpriteError,
    >)
        ensures
            (width == 0 || height == 0) ==> result == Err::<Sprite, SpriteError>(
                SpriteError::InvalidSize { width, height },
            ),
            width > 0 && height > 0 && pixels@.len() != width * height ==> result == Err::<
                Sprite,
                SpriteError,
            >(
                SpriteError::PixelCountMismatch {
                    expected: (width * height) as usize,
                    actual: pixels@.len() as usize,
                },
            ),
            result is Ok <==> (width > 0 && height > 0 && pixels@.len() == width * height),
            result matches Ok(sprite) ==> sprite.wf() && sprite.spec_width() == width
                && sprite.spec_height() == height && sprite.spec_pixels() == pixels@,
    {
        if width == 0 || height == 0 {
            return Err(SpriteError::InvalidSize { width, height });
        }
        proof {
            lemma_u16_product(width as int, height as int);
        }
        let expected = width as usize * height as usize;
        if pixels.len() != expected {
            return Err(SpriteError::PixelCountMismatch { expected, actual: pixels.len() });
        }
        Ok(Sprite { width, height, pixels })
    }

    pub fn width(&self) -> (width: u16)
        ensures
            width == self.spec_width(),
    {
        self.width
    }

    pub fn height(&self) -> (height: u16)
        ensures
            height == self.spec_height(),
    {
        self.height
    }

    /// The pixel at `(x, y)`, or `None` outside the sprite.
    pub fn pixel(&self, x: u16, y: u16) -> (pixel: Option<Rgba>)
        requires
            self.wf(),
        ensures
            pixel is Some <==> (x < self.spec_width() && y < self.spec_height()),
            pixel matches Some(p) ==> p == self.pixel_at(x as int, y as int),
    {
        if x >= self.width || y >= self.height {
            return None;
        }
        proof {
            lemma_grid_bound(self.width as int, self.height as int, x as int, y as int);
            lemma_u16_product(y as int, self.width as int);
        }
        Some(self.pixels[y as usize * self.width as usize + x as usize])
    }
}

/// `a + b`, or `u16::MAX` where the sum does not fit.
pub open spec fn saturating_sum(a: u16, b: u16) -> u16 {
    if a + b > u16::MAX {
        u16::MAX
    } else {
        (a + b) as u16
    }
}

/// `a - b`, or zero where `b` is larger.
pub open spec fn saturating_diff(a: u16, b: u16) -> u16 {
    if a >= b {
        (a - b) as u16
    } else {
        0
    }
}

/// The canvas bounds check, done on the scaled size saturated at `u16::MAX`.
pub open spec fn blit_out_of_canvas(sprite: Sprite, canvas: Canvas, blit: SpriteBlit) -> bool {
    let width = saturating_product(sprite.spec_width() as u16, blit.scale);
    let height = saturating_product(sprite.spec_height() as u16, blit.scale);
    ||| blit.x >= canvas.spec_width()
    ||| blit.y >= canvas.spec_height()
    ||| saturating_sum(blit.x, width) > canvas.spec_width()
    ||| saturating_sum(blit.y, height) > canvas.spec_height()
}

/// A blit that passes the bounds check although the enlarged sprite runs past the canvas,
/// which only saturation at `u16::MAX` allows; such a blit cannot be carried out.
pub open spec fn blit_runs_past_canvas(sprite: Sprite, canvas: Canvas, blit: SpriteBlit) -> bool {
    &&& blit.scale > 0
    &&& !blit_out_of_canvas(sprite, canvas, blit)
    &&& (blit.x + sprite.spec_width() * blit.scale > canvas.spec_width() || blit.y
        + sprite.spec_height() * blit.scale > canvas.spec_height())
}

/// The pixel at `(x, y)` after the blit: inside the enlarged sprite, each sprite pixel covers
/// a `scale` x `scale` block and is blended over the canvas unless fully transparent.
pub open spec fn spec_blit_pixel(sprite: Sprite, canvas: Canvas, blit: SpriteBlit, x: int, y: int) -> Rgba {
    let scale = blit.scale as int;
    if blit.x <= x < blit.x + sprite.spec_width() * scale && blit.y <= y < blit.y
        + sprite.spec_height() * scale {
        let source = sprite.pixel_at((x - blit.x) / scale, (y - blit.y) / scale);
        if source.a == 0 {
            canvas.pixel_at(x, y)
        } else {
            spec_blend_over(source, canvas.pixel_at(x, y))
        }
    } else {
        canvas.pixel_at(x, y)
    }
}

proof fn lemma_scaled_source(offset: int, scale: int, extent: int)
    requires
        0 <= offset < extent * scale,
        scale > 0,
    ensures
        0 <= offset / scale < extent,
{
    vstd::arithmetic::div_mod::lemma_fundamental_div_mod(offset, scale);
    vstd::arithmetic::div_mod::lemma_div_pos_is_pos(offset, scale);
    if offset / scale >= extent {
        assert(scale * (offset / scale) >= scale * extent) by (nonlinear_arith)
            requires
                offset / scale >= extent,
                scale > 0,
        ;
        assert(extent * scale == scale * extent) by (nonlinear_arith);
    }
}

/// The dirty region after the first `count` pixels of a blit's stamped rectangle, in
/// row-major order, were written: the canvas's earlier region, grown by each of those pixels
/// whose colour the blit changes.
pub open spec fn blit_dirty_region(sprite: Sprite, before: Canvas, blit: SpriteBlit, count: nat) -> Option<
    DirtyRegion,
>
    decreases count,
{
    if count == 0 {
        before.spec_dirty_region()
    } else {
        let k = count - 1;
        let stamp_width = sprite.spec_width() * blit.scale;
        let px = blit.x + k % stamp_width;
        let py = blit.y + k / stamp_width;
        let earlier = blit_dirty_region(sprite, before, blit, k as nat);
        if spec_blit_pixel(sprite, before, blit, px, py) != before.pixel_at(px, py) {
            spec_merge_pixel(earlier, px, py)
        } else {
            earlier
        }
    }
}

/// The 16x16 tile `(tile_x, tile_y)` holds a pixel of the blit's stamped rectangle.
pub open spec fn tile_touches_blit(sprite: Sprite, blit: SpriteBlit, tile_x: int, tile_y: int) -> bool {
    &&& blit.x / 16 <= tile_x <= (blit.x + sprite.spec_width() * blit.scale - 1) / 16
    &&& blit.y / 16 <= tile_y <= (blit.y + sprite.spec_height() * blit.scale - 1) / 16
}

proof fn lemma_row_major_step(k: int, row: int, column: int, width: int)
    requires
        width > 0,
        0 <= column < width,
        0 <= row,
        k == row * width + column,
    ensures
        k % width == column,
        k / width == row,
{
    vstd::arithmetic::div_mod::lemma_fundamental_div_mod_converse(k, width, row, column);
}

impl Sprite {
    /// Stamps the sprite onto `canvas` with its top-left corner at `(blit.x, blit.y)`,
    /// enlarged `blit.scale` times by pixel repetition; transparent pixels are skipped and
    /// the others are blended over the canvas, which records the changes as dirty.
    pub fn blit_scaled(&self, canvas: &mut Canvas, blit: SpriteBlit) -> (result: Result<
        (),
        SpriteError,
    >)
        requires
            self.wf(),
            old(canvas).wf(),
            !blit_runs_past_canvas(*self, *old(canvas), blit),
        ensures
            final(canvas).wf(),
            blit.scale == 0 ==> result == Err::<(), SpriteError>(SpriteError::InvalidScale)
                && *final(canvas) == *old(canvas),
            blit.scale > 0 && blit_out_of_canvas(*self, *old(canvas), blit) ==> result == Err::<
                (),
                SpriteError,
            >(
                SpriteError::OutOfCanvas {
                    x: blit.x,
                    y: blit.y,
                    width: saturating_product(self.spec_width() as u16, blit.scale),
                    height: saturating_product(self.spec_height() as u16, blit.scale),
                },
            ) && *final(canvas) == *old(canvas),
            result is Ok <==> (blit.scale > 0 && !blit_out_of_canvas(*self, *old(canvas), blit)),
            result is Ok ==> {
                &&& tracks_changes(*old(canvas), *final(canvas))
                &&& final(canvas).spec_full_frame_required() == old(canvas).spec_full_frame_required()
                &&& final(canvas).spec_dirty_region() == blit_dirty_region(
                    *self,
                    *old(canvas),
                    blit,
                    (self.spec_width() * blit.scale * self.spec_height() * blit.scale) as nat,
                )
                &&& forall|tile_x: int, tile_y: int|
                    tile_in_grid(tile_x, tile_y, old(canvas).spec_width(), old(canvas).spec_height())
                        && !tile_touches_blit(*self, blit, tile_x, tile_y) ==> #[trigger] final(canvas).spec_tile_dirty(tile_x, tile_y) == old(canvas).spec_tile_dirty(tile_x, tile_y)
                &&& forall|x: int, y: int|
                    0 <= x < old(canvas).spec_width() && 0 <= y < old(canvas).spec_height()
                        ==> #[trigger] final(canvas).pixel_at(x, y) == spec_blit_pixel(
                        *self,
                        *old(canvas),
                        blit,
                        x,
                        y,
                    )
            },
    {
        if blit.scale == 0 {
            return Err(SpriteError::InvalidScale);
        }
        let scale = blit.scale;
        proof {
            self.lemma_wf();
            lemma_u16_product(self.width as int, scale as int);
            lemma_u16_product(self.height as int, scale as int);
        }
        let scaled_width: u16 = if self.width as u32 * scale as u32 > 65535 {
            65535
        } else {
            self.width * scale
        };
        let scaled_height: u16 = if self.height as u32 * scale as u32 > 65535 {
            65535
        } else {
            self.height * scale
        };
        let right: u16 = if blit.x as u32 + scaled_width as u32 > 65535 {
            65535
        } else {
            blit.x + scaled_width
        };
        let bottom: u16 = if blit.y as u32 + scaled_height as u32 > 65535 {
            65535
        } else {
            blit.y + scaled_height
        };
        if blit.x >= canvas.width() || blit.y >= canvas.height() || right > canvas.width() || bottom
            > canvas.height() {
            return Err(
                SpriteError::OutOfCanvas {
                    x: blit.x,
                    y: blit.y,
                    width: scaled_width,
                    height: scaled_height,
                },
            );
        }
        proof {
            canvas.lemma_wf();
            self.lemma_wf();
        }
        let ghost before = *canvas;
        let ghost width = self.spec_width();
        let ghost height = self.spec_height();
        let end_y: u16 = blit.y + self.height * scale;
        let end_x: u16 = blit.x + self.width * scale;
        let mut ty: u16 = blit.y;
        while ty < end_y
            invariant
                self.wf(),
                canvas.wf(),
                before.wf(),
                blit.scale == scale,
                scale > 0,
                width == self.spec_width(),
                height == self.spec_height(),
                end_x == blit.x + width * scale,
                end_y == blit.y + height * scale,
                end_x <= before.spec_width(),
                end_y <= before.spec_height(),
                blit.y <= ty <= end_y,
                canvas.spec_width() == before.spec_width(),
                canvas.spec_height() == before.spec_height(),
                canvas.spec_full_frame_required() == before.spec_full_frame_required(),
                tracks_changes(before, *canvas),
                canvas.spec_dirty_region() == blit_dirty_region(
                    *self,
                    before,
                    blit,
                    ((ty - blit.y) * (width * scale)) as nat,
                ),
                forall|tile_x: int, tile_y: int|
                    tile_in_grid(tile_x, tile_y, before.spec_width(), before.spec_height())
                        && !tile_touches_blit(*self, blit, tile_x, tile_y) ==> #[trigger] canvas.spec_tile_dirty(
                        tile_x,
                        tile_y,
                    ) == before.spec_tile_dirty(tile_x, tile_y),
                forall|x: int, y: int|
                    0 <= x < before.spec_width() && 0 <= y < before.spec_height()
                        ==> #[trigger] canvas.pixel_at(x, y) == if y < ty {
                        spec_blit_pixel(*self, before, blit, x, y)
                    } else {
                        before.pixel_at(x, y)
                    },
            decreases end_y - ty,
        {
            let mut tx: u16 = blit.x;
            while tx < end_x
                invariant
                    self.wf(),
                    canvas.wf(),
                    before.wf(),
                    blit.scale == scale,
                    scale > 0,
                    width == self.spec_width(),
                    height == self.spec_height(),
                    end_x == blit.x + width * scale,
                    end_y == blit.y + height * scale,
                    end_x <= before.spec_width(),
                    end_y <= before.spec_height(),
                    blit.y <= ty < end_y,
                    blit.x <= tx <= end_x,
                    canvas.spec_width() == before.spec_width(),
                    canvas.spec_height() == before.spec_height(),
                    canvas.spec_full_frame_required() == before.spec_full_frame_required(),
                    tracks_changes(before, *canvas),
                    canvas.spec_dirty_region() == blit_dirty_region(
                        *self,
                        before,
                        blit,
                        ((ty - blit.y) * (width * scale) + (tx - blit.x)) as nat,
                    ),
                    forall|tile_x: int, tile_y: int|
                        tile_in_grid(tile_x, tile_y, before.spec_width(), before.spec_height())
                            && !tile_touches_blit(*self, blit, tile_x, tile_y) ==> #[trigger] canvas.spec_tile_dirty(
                            tile_x,
                            tile_y,
                        ) == before.spec_tile_dirty(tile_x, tile_y),
                    forall|x: int, y: int|
                        0 <= x < before.spec_width() && 0 <= y < before.spec_height()
                            ==> #[trigger] canvas.pixel_at(x, y) == if y < ty || (y == ty && x
                            < tx) {
                            spec_blit_pixel(*self, before, blit, x, y)
                        } else {
                            before.pixel_at(x, y)
                        },
                decreases end_x - tx,
            {
                proof {
                    lemma_scaled_source(tx - blit.x, scale as int, width);
                    lemma_scaled_source(ty - blit.y, scale as int, height);
                }
                let source_x: u16 = (tx - blit.x) / scale;
                let source_y: u16 = (ty - blit.y) / scale;
                proof {
                    lemma_grid_bound(width, height, source_x as int, source_y as int);
                    lemma_u16_product(source_y as int, width);
                }
                let source = self.pixels[source_y as usize * self.width as usize + source_x as usize];
                proof {
                    assert(0 <= (ty - blit.y) * (width * scale)) by (nonlinear_arith)
                        requires
                            ty >= blit.y,
                            width >= 0,
                            scale > 0,
                    ;
                    lemma_row_major_step(
                        (ty - blit.y) * (width * scale) + (tx - blit.x),
                        ty - blit.y,
                        tx - blit.x,
                        width * scale,
                    );
                    assert(source == self.pixel_at(source_x as int, source_y as int));
                }
                if source.a != 0 {
                    let ghost current = *canvas;
                    let background = match canvas.pixel(tx, ty) {
                        Some(pixel) => pixel,
                        None => Rgba::transparent(),
                    };
                    let blended = source.blend_over(background);
                    let written = canvas.set_pixel(tx, ty, blended);
                    proof {
                        assert(current.in_bounds(tx as int, ty as int));
                        assert(written is Ok);
                        assert(current.pixel_at(tx as int, ty as int) == before.pixel_at(tx as int, ty as int));
                        assert(tile_touches_blit(*self, blit, (tx / 16) as int, (ty / 16) as int)) by {
                            assert(blit.x / 16 <= tx / 16) by (nonlinear_arith)
                                requires
                                    blit.x <= tx,
                            ;
                            assert(tx / 16 <= (end_x - 1) / 16) by (nonlinear_arith)
                                requires
                                    tx <= end_x - 1,
                            ;
                            assert(blit.y / 16 <= ty / 16) by (nonlinear_arith)
                                requires
                                    blit.y <= ty,
                            ;
                            assert(ty / 16 <= (end_y - 1) / 16) by (nonlinear_arith)
                                requires
                                    ty <= end_y - 1,
                            ;
                        }
                        current.lemma_wf();
                        canvas.lemma_wf();
                        lemma_tracks_changes_transitive(before, current, *canvas);
                        assert forall|x: int, y: int|
                            0 <= x < before.spec_width() && 0 <= y < before.spec_height()
                                implies #[trigger] canvas.pixel_at(x, y) == if y < ty || (y == ty
                                && x < tx + 1) {
                                spec_blit_pixel(*self, before, blit, x, y)
                            } else {
                                before.pixel_at(x, y)
                            } by {
                            lemma_grid_index(before.spec_width(), x, y, tx as int, ty as int);
                            lemma_grid_bound(before.spec_width(), before.spec_height(), x, y);
                            lemma_grid_bound(
                                before.spec_width(),
                                before.spec_height(),
                                tx as int,
                                ty as int,
                            );
                            if x == tx && y == ty {
                                assert(current.pixel_at(x, y) == before.pixel_at(x, y));
                            } else {
                                let index = y * before.spec_width() + x;
                                assert(index != ty * before.spec_width() + tx);
                                assert(canvas.spec_pixels()[index] == current.spec_pixels()[index]);
                                assert(canvas.pixel_at(x, y) == current.pixel_at(x, y));
                            }
                        }
                    }
                } else {
                    proof {
                        assert forall|x: int, y: int|
                            0 <= x < before.spec_width() && 0 <= y < before.spec_height()
                                implies #[trigger] canvas.pixel_at(x, y) == if y < ty || (y == ty
                                && x < tx + 1) {
                                spec_blit_pixel(*self, before, blit, x, y)
                            } else {
                                before.pixel_at(x, y)
                            } by {
                            if x == tx && y == ty {
                                assert(self.pixel_at(source_x as int, source_y as int) == source);
                            }
                        }
                    }
                }
                tx = tx + 1;
            }
            proof {
                assert((ty - blit.y) * (width * scale) + (tx - blit.x) == (ty + 1 - blit.y) * (width
                    * scale)) by (nonlinear_arith)
                    requires
                        tx == end_x,
                        end_x == blit.x + width * scale,
                ;
                assert forall|x: int, y: int|
                    0 <= x < before.spec_width() && 0 <= y < before.spec_height()
                        implies #[trigger] canvas.pixel_at(x, y) == if y < ty + 1 {
                        spec_blit_pixel(*self, before, blit, x, y)
                    } else {
                        before.pixel_at(x, y)
                    } by {
                    if y == ty && x >= end_x {
                        assert(canvas.pixel_at(x, y) == before.pixel_at(x, y));
                    }
                }
            }
            ty = ty + 1;
        }
        proof {
            assert((ty - blit.y) * (width * scale) == width * scale * height * scale) by (nonlinear_arith)
                requires
                    ty == end_y,
                    end_y == blit.y + height * scale,
            ;
            assert forall|x: int, y: int|
                0 <= x < before.spec_width() && 0 <= y < before.spec_height()
                    implies #[trigger] canvas.pixel_at(x, y) == spec_blit_pixel(
                    *self,
                    before,
                    blit,
                    x,
                    y,
                ) by {
                if y >= ty {
                    assert(canvas.pixel_at(x, y) == before.pixel_at(x, y));
                }
            }
        }
        Ok(())
    }
}


/// Consecutive groups of four bytes read as red, green, blue and alpha; a trailing partial
/// group is dropped.
pub open spec fn spec_rgba_pixels(bytes: Seq<u8>) -> Seq<Rgba> {
    Seq::new(
        bytes.len() / 4,
        |i: int| Rgba { r: bytes[4 * i], g: bytes[4 * i + 1], b: bytes[4 * i + 2], a: bytes[4 * i + 3] },
    )
}

/// What `Sprite::from_rgba8_frame` gives for a decoded frame: the frame must be 8-bit RGBA
/// with sides that fit a `u16`, and its first `line_size * height` bytes of `data` hold the
/// pixels.
pub open spec fn rgba8_frame_result(frame: PngFrameInfo, data: Seq<u8>, result: Result<Sprite, SpriteError>) -> bool {
    &&& (frame.color_type != PngColorType::Rgba || frame.bit_depth != PngBitDepth::Eight) ==> result
        == Err::<Sprite, SpriteError>(
        SpriteError::UnsupportedFormat { color_type: frame.color_type, bit_depth: frame.bit_depth },
    )
    &&& frame.color_type == PngColorType::Rgba && frame.bit_depth == PngBitDepth::Eight && (frame.width
        > u16::MAX || frame.height > u16::MAX) ==> result == Err::<Sprite, SpriteError>(
        SpriteError::ImageTooLarge { width: frame.width, height: frame.height },
    )
    &&& frame.color_type == PngColorType::Rgba && frame.bit_depth == PngBitDepth::Eight && frame.width
        <= u16::MAX && frame.height <= u16::MAX ==> {
        let size = frame.line_size * frame.height;
        if size > data.len() {
            result == Err::<Sprite, SpriteError>(SpriteError::UnsupportedOutputSize)
        } else {
            let pixels = spec_rgba_pixels(data.take(size));
            &&& (frame.width == 0 || frame.height == 0) ==> result == Err::<Sprite, SpriteError>(
                SpriteError::InvalidSize { width: frame.width as u16, height: frame.height as u16 },
            )
            &&& frame.width > 0 && frame.height > 0 && pixels.len() != frame.width * frame.height
                ==> result == Err::<Sprite, SpriteError>(
                SpriteError::PixelCountMismatch {
                    expected: (frame.width * frame.height) as usize,
                    actual: pixels.len() as usize,
                },
            )
            &&& frame.width > 0 && frame.height > 0 && pixels.len() == frame.width * frame.height
                ==> (result matches Ok(sprite) && sprite.wf() && sprite.spec_width() == frame.width
                && sprite.spec_height() == frame.height && sprite.spec_pixels() == pixels)
        }
    }
    &&& result matches Ok(sprite) ==> sprite.wf()
}

/// What the `png` crate's decoder makes of `bytes`: the first frame's colour type and bit
/// depth as their PNG codes, its width, height and line size, and the output buffer it
/// filled; `None` where decoding fails or the output size is unknown.
pub uninterp spec fn png_first_frame(bytes: Seq<u8>) -> Option<(u8, u8, u32, u32, usize, Seq<u8>)>;

/// Decodes the first frame of the PNG image in `bytes` with the `png` crate: a `Decoder`
/// over the bytes, `read_info`, `output_buffer_size` and `next_frame` into a zeroed buffer of
/// that size. The colour type and bit depth come back as their `repr(u8)` codes, which the
/// crate defines as the PNG codes.
#[verifier::external_body]
fn decode_png_frame(bytes: &[u8]) -> (result: Result<(u8, u8, u32, u32, usize, Vec<u8>), SpriteError>)
    ensures
        match result {
            Ok(frame) => {
                &&& png_first_frame(bytes@) == Some((frame.0, frame.1, frame.2, frame.3, frame.4, frame.5@))
                &&& spec_color_type(frame.0) is Some
                &&& spec_bit_depth(frame.1) is Some
            },
            Err(error) => png_first_frame(bytes@) is None && (error is PngDecode || error is UnsupportedOutputSize),
        },
{
    let mut reader = png::Decoder::new(std::io::Cursor::new(bytes)).read_info().map_err(SpriteError::PngDecode)?;
    let size = reader.output_buffer_size().ok_or(SpriteError::UnsupportedOutputSize)?;
    let mut buffer = vec![0; size];
    let info = reader.next_frame(&mut buffer).map_err(SpriteError::PngDecode)?;
    Ok((info.color_type as u8, info.bit_depth as u8, info.width, info.height, info.line_size, buffer))
}

/// The colour type with PNG code `code`.
pub open spec fn spec_color_type(code: u8) -> Option<PngColorType> {
    if code == 0 {
        Some(PngColorType::Grayscale)
    } else if code == 2 {
        Some(PngColorType::Rgb)
    } else if code == 3 {
        Some(PngColorType::Indexed)
    } else if code == 4 {
        Some(PngColorType::GrayscaleAlpha)
    } else if code == 6 {
        Some(PngColorType::Rgba)
    } else {
        None
    }
}

/// The bit depth with PNG code `code`.
pub open spec fn spec_bit_depth(code: u8) -> Option<PngBitDepth> {
    if code == 1 {
        Some(PngBitDepth::One)
    } else if code == 2 {
        Some(PngBitDepth::Two)
    } else if code == 4 {
        Some(PngBitDepth::Four)
    } else if code == 8 {
        Some(PngBitDepth::Eight)
    } else if code == 16 {
        Some(PngBitDepth::Sixteen)
    } else {
        None
    }
}

pub fn png_color_type(code: u8) -> (color_type: Option<PngColorType>)
    ensures
        color_type == spec_color_type(code),
{
    if code == 0 {
        Some(PngColorType::Grayscale)
    } else if code == 2 {
        Some(PngColorType::Rgb)
    } else if code == 3 {
        Some(PngColorType::Indexed)
    } else if code == 4 {
        Some(PngColorType::GrayscaleAlpha)
    } else if code == 6 {
        Some(PngColorType::Rgba)
    } else {
        None
    }
}

pub fn png_bit_depth(code: u8) -> (bit_depth: Option<PngBitDepth>)
    ensures
        bit_depth == spec_bit_depth(code),
{
    if code == 1 {
        Some(PngBitDepth::One)
    } else if code == 2 {
        Some(PngBitDepth::Two)
    } else if code == 4 {
        Some(PngBitDepth::Four)
    } else if code == 8 {
        Some(PngBitDepth::Eight)
    } else if code == 16 {
        Some(PngBitDepth::Sixteen)
    } else {
        None
    }
}

/// The frame the decoder reported, in the library's terms.
pub open spec fn decoded_frame_info(frame: (u8, u8, u32, u32, usize, Seq<u8>)) -> PngFrameInfo {
    PngFrameInfo {
        width: frame.2,
        height: frame.3,
        color_type: spec_color_type(frame.0)->0,
        bit_depth: spec_bit_depth(frame.1)->0,
        line_size: frame.4,
    }
}

impl Sprite {
    /// Builds a sprite from a decoded frame: the frame must be 8-bit RGBA with sides that fit
    /// a `u16`, and its first `line_size * height` bytes of `data` hold the pixels.
    pub fn from_rgba8_frame(frame: PngFrameInfo, data: &[u8]) -> (result: Result<Sprite, SpriteError>)
        ensures
            rgba8_frame_result(frame, data@, result),
    {
        if frame.color_type != PngColorType::Rgba || frame.bit_depth != PngBitDepth::Eight {
            return Err(
                SpriteError::UnsupportedFormat {
                    color_type: frame.color_type,
                    bit_depth: frame.bit_depth,
                },
            );
        }
        if frame.width > 65535 || frame.height > 65535 {
            return Err(SpriteError::ImageTooLarge { width: frame.width, height: frame.height });
        }
        let size = match frame.line_size.checked_mul(frame.height as usize) {
            Some(size) => size,
            None => {
                let data_len = data.len();
                proof {
                    assert(frame.line_size * frame.height > usize::MAX);
                    assert(data_len == data@.len());
                }
                return Err(SpriteError::UnsupportedOutputSize);
            },
        };
        if size > data.len() {
            return Err(SpriteError::UnsupportedOutputSize);
        }
        let ghost bytes = data@.take(size as int);
        let count = size / 4;
        let mut pixels: Vec<Rgba> = Vec::new();
        let mut i: usize = 0;
        while i < count
            invariant
                count == size / 4,
                size <= data@.len(),
                bytes == data@.take(size as int),
                i <= count,
                pixels@.len() == i,
                forall|j: int| 0 <= j < i ==> #[trigger] pixels@[j] == spec_rgba_pixels(bytes)[j],
            decreases count - i,
        {
            assert(4 * i + 3 < size) by (nonlinear_arith)
                requires
                    i < count,
                    count == size / 4,
            ;
            let base = 4 * i;
            pixels.push(Rgba::new(data[base], data[base + 1], data[base + 2], data[base + 3]));
            i = i + 1;
        }
        proof {
            assert(pixels@ =~= spec_rgba_pixels(bytes));
        }
        Sprite::from_rgba_pixels(frame.width as u16, frame.height as u16, pixels)
    }

    /// Decodes a PNG image with the `png` crate and builds a sprite from its first frame, as
    /// `from_rgba8_frame` does; a decoding failure or an unknown output size is an error.
    pub fn from_png_bytes(bytes: &[u8]) -> (result: Result<Sprite, SpriteError>)
        ensures
            match png_first_frame(bytes@) {
                None => result matches Err(error) && (error is PngDecode || error is UnsupportedOutputSize),
                Some(frame) => rgba8_frame_result(decoded_frame_info(frame), frame.5, result),
            },
    {
        let (color_code, depth_code, width, height, line_size, data) = match decode_png_frame(bytes) {
            Ok(frame) => frame,
            Err(error) => return Err(error),
        };
        let color_type = match png_color_type(color_code) {
            Some(color_type) => color_type,
            None => return Err(SpriteError::UnsupportedOutputSize),
        };
        let bit_depth = match png_bit_depth(depth_code) {
            Some(bit_depth) => bit_depth,
            None => return Err(SpriteError::UnsupportedOutputSize),
        };
        let frame = PngFrameInfo { width, height, color_type, bit_depth, line_size };
        Sprite::from_rgba8_frame(frame, data.as_slice())
    }

}

pub open spec fn color_type_name(color_type: PngColorType) -> Seq<char> {
    match color_type {
        PngColorType::Grayscale => "Grayscale"@,
        PngColorType::Rgb => "Rgb"@,
        PngColorType::Indexed => "Indexed"@,
        PngColorType::GrayscaleAlpha => "GrayscaleAlpha"@,
        PngColorType::Rgba => "Rgba"@,
    }
}

pub open spec fn bit_depth_name(bit_depth: PngBitDepth) -> Seq<char> {
    match bit_depth {
        PngBitDepth::One => "One"@,
        PngBitDepth::Two => "Two"@,
        PngBitDepth::Four => "Four"@,
        PngBitDepth::Eight => "Eight"@,
        PngBitDepth::Sixteen => "Sixteen"@,
    }
}

fn append_color_type(text: &mut String, color_type: PngColorType)
    ensures
        final(text)@ == old(text)@ + color_type_name(color_type),
{
    match color_type {
        PngColorType::Grayscale => append_str(text, "Grayscale"),
        PngColorType::Rgb => append_str(text, "Rgb"),
        PngColorType::Indexed => append_str(text, "Indexed"),
        PngColorType::GrayscaleAlpha => append_str(text, "GrayscaleAlpha"),
        PngColorType::Rgba => append_str(text, "Rgba"),
    }
}

fn append_bit_depth(text: &mut String, bit_depth: PngBitDepth)
    ensures
        final(text)@ == old(text)@ + bit_depth_name(bit_depth),
{
    match bit_depth {
        PngBitDepth::One => append_str(text, "One"),
        PngBitDepth::Two => append_str(text, "Two"),
        PngBitDepth::Four => append_str(text, "Four"),
        PngBitDepth::Eight => append_str(text, "Eight"),
        PngBitDepth::Sixteen => append_str(text, "Sixteen"),
    }
}

impl SpriteError {
    /// The user-facing description of every error but a decoding failure, whose text comes
    /// from the decoder.
    pub open spec fn spec_message(&self) -> Seq<char> {
        match self {
            SpriteError::PngDecode(_) => "sprite png decode failed: "@,
            SpriteError::UnsupportedOutputSize => "sprite png output size is unknown"@,
            SpriteError::UnsupportedFormat { color_type, bit_depth } =>
                "sprite png must be 8-bit RGBA, got "@ + color_type_name(*color_type) + " "@
                + bit_depth_name(*bit_depth),
            SpriteError::ImageTooLarge { width, height } =>
                "sprite image is too large for canvas coordinates: "@ + dec(*width as nat) + "x"@
                + dec(*height as nat),
            SpriteError::InvalidSize { width, height } => "sprite size must be non-zero, got "@
                + dec(*width as nat) + "x"@ + dec(*height as nat),
            SpriteError::PixelCountMismatch { expected, actual } => "sprite expected "@ + dec(
                *expected as nat,
            ) + " pixels, got "@ + dec(*actual as nat),
            SpriteError::InvalidScale => "sprite scale must be at least 1"@,
            SpriteError::OutOfCanvas { x, y, width, height } =>
                "sprite blit out of canvas bounds: "@ + dec(*x as nat) + ","@ + dec(*y as nat)
                + " "@ + dec(*width as nat) + "x"@ + dec(*height as nat),
            SpriteError::Canvas(error) => "sprite canvas write failed: "@ + error.spec_message(),
        }
    }

    /// The user-facing description; for a decoding failure, the decoder's own description
    /// follows `spec_message`.
    pub fn message(&self) -> (message: String)
        ensures
            !(self is PngDecode) ==> message@ == self.spec_message(),
            self is PngDecode ==> message@.len() >= self.spec_message().len() && message@.take(
                self.spec_message().len() as int,
            ) == self.spec_message(),
    {
        let mut text = String::new();
        match self {
            SpriteError::PngDecode(error) => {
                append_str(&mut text, "sprite png decode failed: ");
                let ghost prefix = text@;
                append_str(&mut text, png_error_text(error).as_str());
                proof {
                    assert(text@.take(prefix.len() as int) =~= prefix);
                }
            },
            SpriteError::UnsupportedOutputSize => {
                append_str(&mut text, "sprite png output size is unknown");
            },
            SpriteError::UnsupportedFormat { color_type, bit_depth } => {
                append_str(&mut text, "sprite png must be 8-bit RGBA, got ");
                append_color_type(&mut text, *color_type);
                append_str(&mut text, " ");
                append_bit_depth(&mut text, *bit_depth);
            },
            SpriteError::ImageTooLarge { width, height } => {
                append_str(&mut text, "sprite image is too large for canvas coordinates: ");
                append_decimal(&mut text, *width as u64);
                append_str(&mut text, "x");
                append_decimal(&mut text, *height as u64);
            },
            SpriteError::InvalidSize { width, height } => {
                append_str(&mut text, "sprite size must be non-zero, got ");
                append_decimal(&mut text, *width as u64);
                append_str(&mut text, "x");
                append_decimal(&mut text, *height as u64);
            },
            SpriteError::PixelCountMismatch { expected, actual } => {
                append_str(&mut text, "sprite expected ");
                append_decimal(&mut text, *expected as u64);
                append_str(&mut text, " pixels, got ");
                append_decimal(&mut text, *actual as u64);
            },
            SpriteError::InvalidScale => {
                append_str(&mut text, "sprite scale must be at least 1");
            },
            SpriteError::OutOfCanvas { x, y, width, height } => {
                append_str(&mut text, "sprite blit out of canvas bounds: ");
                append_decimal(&mut text, *x as u64);
                append_str(&mut text, ",");
                append_decimal(&mut text, *y as u64);
                append_str(&mut text, " ");
                append_decimal(&mut text, *width as u64);
                append_str(&mut text, "x");
                append_decimal(&mut text, *height as u64);
            },
            SpriteError::Canvas(error) => {
                append_str(&mut text, "sprite canvas write failed: ");
                let detail = error.message();
                append_str(&mut text, detail.as_str());
            },
        }
        proof {
            if !(self is PngDecode) {
                assert(text@ =~= self.spec_message());
            }
        }
        text
    }
}

} // verus!
