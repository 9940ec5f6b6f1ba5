use vstd::prelude::*;

use crate::assets::{saturating_diff, saturating_sum, Sprite, SpriteError};
use crate::visual::{cafe_counter_top, spec_counter_top};
use crate::canvas::{
    dirty_grows_within, lemma_grid_bound, lemma_grid_index, lemma_grows_by_pixel_write,
    lemma_tracks_changes_transitive, lemma_u16_product, spec_blend_over, tracks_changes, Canvas,
    Rgba,
};

verus! {

/// What the cafe cat is doing.
#[derive(Clone, Copy, Debug, PartialEq, Eq, Structural)]
pub enum CatPresence {
    Asleep,
    Idle,
    Walking,
}

/// Where the average core load stands against the thresholds the cat reacts to.
#[derive(Clone, Copy, Debug, PartialEq, Eq, Structural)]
pub struct CatLoadSignals {
    /// The load is at least 0.72: enough to wake the cat and set it walking.
    pub busy: bool,
    /// The load is at least 0.45: enough to keep a walking cat walking.
    pub lively: bool,
    /// The load is at most 0.25: low enough to keep a sleeping cat asleep.
    pub drowsy: bool,
    /// The load is at most 0.12: low enough for a walking cat to fall asleep.
    pub quiet: bool,
    /// The load is at most 0.08: low enough for an idle cat to fall asleep.
    pub still: bool,
    /// The load is above 0.55: the cat bobs up on every twelfth tick.
    pub energetic: bool,
}

/// The cat's next state. A walking cat keeps walking while the load is lively, falls asleep
/// when it is quiet and idles otherwise; a sleeping cat stays asleep while drowsy and wakes
/// up walking when busy; an idle cat starts walking when busy and falls asleep when still.
pub open spec fn spec_next_presence(presence: CatPresence, signals: CatLoadSignals) -> CatPresence {
    match presence {
        CatPresence::Walking => if signals.lively {
            CatPresence::Walking
        } else if signals.quiet {
            CatPresence::Asleep
        } else {
            CatPresence::Idle
        },
        CatPresence::Asleep => if signals.drowsy {
            CatPresence::Asleep
        } else if signals.busy {
            CatPresence::Walking
        } else {
            CatPresence::Idle
        },
        CatPresence::Idle => if signals.busy {
            CatPresence::Walking
        } else if signals.still {
            CatPresence::Asleep
        } else {
            CatPresence::Idle
        },
    }
}

pub fn next_presence(presence: CatPresence, signals: CatLoadSignals) -> (next: CatPresence)
    ensures
        next == spec_next_presence(presence, signals),
{
    match presence {
        CatPresence::Walking => if signals.lively {
            CatPresence::Walking
        } else if signals.quiet {
            CatPresence::Asleep
        } else {
            CatPresence::Idle
        },
        CatPresence::Asleep => if signals.drowsy {
            CatPresence::Asleep
        } else if signals.busy {
            CatPresence::Walking
        } else {
            CatPresence::Idle
        },
        CatPresence::Idle => if signals.busy {
            CatPresence::Walking
        } else if signals.still {
            CatPresence::Asleep
        } else {
            CatPresence::Idle
        },
    }
}

/// Signals read from one load value are ordered: busy implies energetic implies lively, and
/// still implies quiet implies drowsy.
pub open spec fn signals_consistent(signals: CatLoadSignals) -> bool {
    &&& signals.busy ==> signals.energetic
    &&& signals.energetic ==> signals.lively
    &&& signals.still ==> signals.quiet
    &&& signals.quiet ==> signals.drowsy
    &&& signals.lively ==> !signals.drowsy
}

/// The cat follows the extremes of the load from any mood: a still machine (load at most
/// 0.08) puts it to sleep, a busy one (load at least 0.72) sets it walking, and a load that
/// is neither drowsy nor lively (between 0.25 and 0.45) leaves it idle.
pub proof fn lemma_presence_follows_load_extremes(presence: CatPresence, signals: CatLoadSignals)
    requires
        signals_consistent(signals),
    ensures
        signals.still ==> spec_next_presence(presence, signals) == CatPresence::Asleep,
        signals.busy ==> spec_next_presence(presence, signals) == CatPresence::Walking,
        !signals.drowsy && !signals.lively ==> spec_next_presence(presence, signals)
            == CatPresence::Idle,
{
}

/// Mood by mood: a walking cat keeps walking while the load is lively, falls asleep once it
/// is quiet and idles in between; a sleeping cat sleeps on while the load is drowsy, wakes
/// walking when it is busy and idles in between; an idle cat starts walking when the load
/// is busy, falls asleep when it is still and stays idle in between.
pub proof fn lemma_presence_by_mood(presence: CatPresence, signals: CatLoadSignals)
    requires
        signals_consistent(signals),
    ensures
        presence == CatPresence::Walking && signals.lively ==> spec_next_presence(presence, signals)
            == CatPresence::Walking,
        presence == CatPresence::Walking && signals.quiet ==> spec_next_presence(presence, signals)
            == CatPresence::Asleep,
        presence == CatPresence::Walking && !signals.lively && !signals.quiet ==> spec_next_presence(
            presence,
            signals,
        ) == CatPresence::Idle,
        presence == CatPresence::Asleep && signals.busy ==> spec_next_presence(presence, signals)
            == CatPresence::Walking,
        presence == CatPresence::Asleep && !signals.drowsy && !signals.busy ==> spec_next_presence(
            presence,
            signals,
        ) == CatPresence::Idle,
        presence == CatPresence::Idle && signals.still ==> spec_next_presence(presence, signals)
            == CatPresence::Asleep,
        presence == CatPresence::Idle && !signals.busy && !signals.still ==> spec_next_presence(
            presence,
            signals,
        ) == CatPresence::Idle,
{
}

/// A walking cat stays on its feet through a brief dip that is not quiet, and a sleeping
/// cat is never woken by a load that is still drowsy.
pub proof fn lemma_presence_hysteresis(presence: CatPresence, signals: CatLoadSignals)
    requires
        signals_consistent(signals),
    ensures
        presence == CatPresence::Walking && !signals.quiet ==> spec_next_presence(presence, signals)
            != CatPresence::Asleep,
        presence == CatPresence::Asleep && signals.drowsy ==> spec_next_presence(presence, signals)
            == CatPresence::Asleep,
        spec_next_presence(presence, signals) == CatPresence::Walking ==> signals.lively,
{
}

/// The cat sprite's side in pixels for a canvas of this size.
pub open spec fn spec_main_cat_size(width: u16, height: u16) -> u16 {
    if width >= 640 && height >= 300 {
        66
    } else if width >= 540 && height >= 252 {
        50
    } else {
        42
    }
}

pub fn main_cat_size(width: u16, height: u16) -> (size: u16)
    ensures
        size == spec_main_cat_size(width, height),
{
    if width >= 640 && height >= 300 {
        66
    } else if width >= 540 && height >= 252 {
        50
    } else {
        42
    }
}

/// The cat's breathing: one pixel every other 30 ticks when idle, every other 45 asleep.
pub fn main_cat_breath_offset(presence: CatPresence, tick: u64) -> (offset: u16)
    ensures
        offset == match presence {
            CatPresence::Idle => (tick / 30) % 2,
            CatPresence::Asleep => (tick / 45) % 2,
            CatPresence::Walking => 0,
        },
{
    match presence {
        CatPresence::Idle => ((tick / 30) % 2) as u16,
        CatPresence::Asleep => ((tick / 45) % 2) as u16,
        CatPresence::Walking => 0,
    }
}

/// A walking cat paces back and forth along a triangle wave of period 144 ticks between
/// -30 and +30 pixels; otherwise it stays put.
pub open spec fn spec_walking_pace(presence: CatPresence, tick: u64) -> int {
    if presence != CatPresence::Walking {
        0
    } else {
        let phase: int = ((tick / 6) % 24) as int;
        let triangle: int = if phase <= 12 {
            phase
        } else {
            24 - phase
        };
        (triangle - 6) * 5
    }
}

pub fn walking_pace_offset(presence: CatPresence, tick: u64) -> (offset: i16)
    ensures
        offset == spec_walking_pace(presence, tick),
        -30 <= offset <= 30,
{
    if presence != CatPresence::Walking {
        return 0;
    }
    let phase = ((tick / 6) % 24) as i16;
    let triangle: i16 = if phase <= 12 {
        phase
    } else {
        24 - phase
    };
    (triangle - 6) * 5
}

/// `value` moved by `offset`, saturating at both ends of `u16`.
pub open spec fn spec_offset_u16(value: u16, offset: i16) -> u16 {
    let moved = value + offset;
    if moved < 0 {
        0
    } else if moved > u16::MAX {
        u16::MAX
    } else {
        moved as u16
    }
}

pub fn offset_u16(value: u16, offset: i16) -> (moved: u16)
    ensures
        moved == spec_offset_u16(value, offset),
{
    if offset < 0 {
        let magnitude: u16 = (0i32 - offset as i32) as u16;
        if magnitude > value {
            0
        } else {
            value - magnitude
        }
    } else {
        let step = offset as u16;
        if value as u32 + step as u32 > 65535 {
            65535
        } else {
            value + step
        }
    }
}

/// The pixels of `source` inside the rectangle, row by row.
pub open spec fn spec_crop_pixels(source: Sprite, x: int, y: int, width: int, height: int) -> Seq<Rgba> {
    Seq::new(
        (width * height) as nat,
        |i: int| source.pixel_at(x + i % width, y + i / width),
    )
}

/// Cuts a `width` x `height` sprite out of `source` at `(x, y)`.
pub fn crop_sprite(source: &Sprite, x: u16, y: u16, width: u16, height: u16) -> (result: Result<
    Sprite,
    SpriteError,
>)
    requires
        source.wf(),
        x + width <= u16::MAX,
        y + height <= u16::MAX,
        width > 0 && height > 0 ==> x + width <= source.spec_width() && y + height
            <= source.spec_height(),
    ensures
        (width == 0 || height == 0) ==> result == Err::<Sprite, SpriteError>(
            SpriteError::InvalidSize { width, height },
        ),
        width > 0 && height > 0 ==> (result matches Ok(sprite) && sprite.wf() && sprite.spec_width()
            == width && sprite.spec_height() == height && sprite.spec_pixels() == spec_crop_pixels(
            *source,
            x as int,
            y as int,
            width as int,
            height as int,
        )),
{
    if width == 0 || height == 0 {
        return Sprite::from_rgba_pixels(width, height, Vec::new());
    }
    proof {
        source.lemma_wf();
        lemma_u16_product(width as int, height as int);
    }
    let ghost expected = spec_crop_pixels(*source, x as int, y as int, width as int, height as int);
    let mut pixels: Vec<Rgba> = Vec::new();
    let mut row: u16 = 0;
    while row < height
        invariant
            source.wf(),
            source.spec_width() <= u16::MAX,
            source.spec_height() <= u16::MAX,
            width > 0,
            x + width <= source.spec_width(),
            y + height <= source.spec_height(),
            row <= height,
            expected == spec_crop_pixels(*source, x as int, y as int, width as int, height as int),
            pixels@.len() == row * width,
            forall|i: int| 0 <= i < pixels@.len() ==> #[trigger] pixels@[i] == expected[i],
        decreases height - row,
    {
        let mut column: u16 = 0;
        while column < width
            invariant
                source.wf(),
                source.spec_width() <= u16::MAX,
                source.spec_height() <= u16::MAX,
                width > 0,
                x + width <= source.spec_width(),
                y + height <= source.spec_height(),
                row < height,
                column <= width,
                expected == spec_crop_pixels(*source, x as int, y as int, width as int, height as int),
                pixels@.len() == row * width + column,
                forall|i: int| 0 <= i < pixels@.len() ==> #[trigger] pixels@[i] == expected[i],
            decreases width - column,
        {
            let pixel = match source.pixel(x + column, y + row) {
                Some(pixel) => pixel,
                None => Rgba::transparent(),
            };
            proof {
                let i = row * width + column;
                assert(i < width * height) by (nonlinear_arith)
                    requires
                        i == row * width + column,
                        row < height,
                        column < width,
                ;
                vstd::arithmetic::div_mod::lemma_fundamental_div_mod_converse(
                    i,
                    width as int,
                    row as int,
                    column as int,
                );
                assert(expected[i] == source.pixel_at(x + column, y + row));
            }
            pixels.push(pixel);
            column = column + 1;
        }
        proof {
            assert((row + 1) * width == row * width + width) by (nonlinear_arith);
        }
        row = row + 1;
    }
    proof {
        assert(height * width == width * height) by (nonlinear_arith);
        assert(pixels@ =~= expected);
    }
    Sprite::from_rgba_pixels(width, height, pixels)
}

/// The colour at `(px, py)` once `sprite` is stretched over the `width` x `height`
/// rectangle at `(x, y)` on top of `base`, the colour that was there: nearest-neighbour
/// sampling, transparent pixels skipped and the others blended over `base`.
pub open spec fn spec_resized_over(
    sprite: Sprite,
    base: Rgba,
    x: int,
    y: int,
    width: int,
    height: int,
    px: int,
    py: int,
) -> Rgba {
    if x <= px < x + width && y <= py < y + height {
        let source = sprite.pixel_at(
            (px - x) * sprite.spec_width() / width,
            (py - y) * sprite.spec_height() / height,
        );
        if source.a == 0 {
            base
        } else {
            spec_blend_over(source, base)
        }
    } else {
        base
    }
}

/// The pixel at `(px, py)` of `canvas` after `sprite` is stretched over the rectangle at
/// `(x, y)`.
pub open spec fn spec_resized_pixel(
    sprite: Sprite,
    canvas: Canvas,
    x: int,
    y: int,
    width: int,
    height: int,
    px: int,
    py: int,
) -> Rgba {
    spec_resized_over(sprite, canvas.pixel_at(px, py), x, y, width, height, px, py)
}

/// The bounds check of a stretched blit, on sides saturated at `u16::MAX`.
pub open spec fn resize_out_of_canvas(canvas: Canvas, x: u16, y: u16, width: u16, height: u16) -> bool {
    ||| x >= canvas.spec_width()
    ||| y >= canvas.spec_height()
    ||| saturating_sum(x, width) > canvas.spec_width()
    ||| saturating_sum(y, height) > canvas.spec_height()
}

proof fn lemma_scaled_index(offset: int, extent: int, target: int)
    requires
        0 <= offset < target,
        0 < extent,
    ensures
        0 <= offset * extent / target < extent,
{
    assert(0 <= offset * extent) by (nonlinear_arith)
        requires
            0 <= offset,
            0 < extent,
    ;
    assert(offset * extent < target * extent) by (nonlinear_arith)
        requires
            offset < target,
            0 < extent,
    ;
    vstd::arithmetic::div_mod::lemma_div_pos_is_pos(offset * extent, target);
    vstd::arithmetic::div_mod::lemma_fundamental_div_mod(offset * extent, target);
    if offset * extent / target >= extent {
        assert(target * (offset * extent / target) >= target * extent) by (nonlinear_arith)
            requires
                offset * extent / target >= extent,
                target > 0,
        ;
        assert(target * extent == extent * target) by (nonlinear_arith);
    }
}

/// Stretches `sprite` over the `width` x `height` rectangle at `(x, y)` with
/// nearest-neighbour sampling, blending each opaque or translucent pixel over the canvas.
pub fn blit_resized(sprite: &Sprite, canvas: &mut Canvas, x: u16, y: u16, width: u16, height: u16) -> (result:
    Result<(), SpriteError>)
    requires
        sprite.wf(),
        old(canvas).wf(),
        width > 0 && height > 0 && !resize_out_of_canvas(*old(canvas), x, y, width, height) ==> x
            + width <= old(canvas).spec_width() && y + height <= old(canvas).spec_height() && (width
            - 1) * sprite.spec_width() <= u16::MAX && (height - 1) * sprite.spec_height() <= u16::MAX,
    ensures
        final(canvas).wf(),
        (width == 0 || height == 0) ==> result == Err::<(), SpriteError>(
            SpriteError::InvalidSize { width, height },
        ) && *final(canvas) == *old(canvas),
        width > 0 && height > 0 && resize_out_of_canvas(*old(canvas), x, y, width, height) ==> result
            == Err::<(), SpriteError>(SpriteError::OutOfCanvas { x, y, width, height })
            && *final(canvas) == *old(canvas),
        result is Ok <==> (width > 0 && height > 0 && !resize_out_of_canvas(
            *old(canvas),
            x,
            y,
            width,
            height,
        )),
        dirty_grows_within(*old(canvas), *final(canvas), seq![(x as int, y as int, x + width, y + height)]),
        result is Ok ==> {
            &&& tracks_changes(*old(canvas), *final(canvas))
            &&& final(canvas).spec_full_frame_required() == old(canvas).spec_full_frame_required()
            &&& forall|px: int, py: int|
                0 <= px < old(canvas).spec_width() && 0 <= py < old(canvas).spec_height()
                    ==> #[trigger] final(canvas).pixel_at(px, py) == spec_resized_pixel(
                    *sprite,
                    *old(canvas),
                    x as int,
                    y as int,
                    width as int,
                    height as int,
                    px,
                    py,
                )
        },
{
    if width == 0 || height == 0 {
        return Err(SpriteError::InvalidSize { width, height });
    }
    let right: u16 = if x as u32 + width as u32 > 65535 {
        65535
    } else {
        x + width
    };
    let bottom: u16 = if y as u32 + height as u32 > 65535 {
        65535
    } else {
        y + height
    };
    if x >= canvas.width() || y >= canvas.height() || right > canvas.width() || bottom > canvas.height() {
        return Err(SpriteError::OutOfCanvas { x, y, width, height });
    }
    proof {
        canvas.lemma_wf();
        sprite.lemma_wf();
    }
    let ghost before = *canvas;
    proof {
        assert(dirty_grows_within(before, before, seq![(x as int, y as int, x + width, y + height)]));
    }
    let sprite_width = sprite.width();
    let sprite_height = sprite.height();
    let mut dy: u16 = 0;
    while dy < height
        invariant
            sprite.wf(),
            canvas.wf(),
            before.wf(),
            sprite_width == sprite.spec_width(),
            sprite_height == sprite.spec_height(),
            sprite_width > 0,
            sprite_height > 0,
            width > 0,
            height > 0,
            x + width <= before.spec_width(),
            y + height <= before.spec_height(),
            before.spec_width() <= u16::MAX,
            before.spec_height() <= u16::MAX,
            (width - 1) * sprite_width <= u16::MAX,
            (height - 1) * sprite_height <= u16::MAX,
            dy <= height,
            canvas.spec_width() == before.spec_width(),
            canvas.spec_height() == before.spec_height(),
            canvas.spec_full_frame_required() == before.spec_full_frame_required(),
            tracks_changes(before, *canvas),
            dirty_grows_within(before, *canvas, seq![(x as int, y as int, x + width, y + height)]),
            forall|px: int, py: int|
                0 <= px < before.spec_width() && 0 <= py < before.spec_height()
                    ==> #[trigger] canvas.pixel_at(px, py) == if py < y + dy {
                    spec_resized_pixel(*sprite, before, x as int, y as int, width as int, height as int, px, py)
                } else {
                    before.pixel_at(px, py)
                },
        decreases height - dy,
    {
        proof {
            assert(dy * sprite_height <= (height - 1) * sprite_height) by (nonlinear_arith)
                requires
                    dy <= height - 1,
                    0 <= sprite_height,
            ;
            lemma_scaled_index(dy as int, sprite_height as int, height as int);
        }
        let source_y: u16 = dy * sprite_height / height;
        let mut dx: u16 = 0;
        while dx < width
            invariant
                sprite.wf(),
                canvas.wf(),
                before.wf(),
                sprite_width == sprite.spec_width(),
                sprite_height == sprite.spec_height(),
                sprite_width > 0,
                sprite_height > 0,
                width > 0,
                height > 0,
                x + width <= before.spec_width(),
                y + height <= before.spec_height(),
                before.spec_width() <= u16::MAX,
                before.spec_height() <= u16::MAX,
                (width - 1) * sprite_width <= u16::MAX,
                dy < height,
                source_y == (dy * sprite_height) as int / height as int,
                source_y < sprite_height,
                dx <= width,
                canvas.spec_width() == before.spec_width(),
                canvas.spec_height() == before.spec_height(),
                canvas.spec_full_frame_required() == before.spec_full_frame_required(),
                tracks_changes(before, *canvas),
                dirty_grows_within(before, *canvas, seq![(x as int, y as int, x + width, y + height)]),
            dirty_grows_within(before, *canvas, seq![(x as int, y as int, x + width, y + height)]),
                forall|px: int, py: int|
                    0 <= px < before.spec_width() && 0 <= py < before.spec_height()
                        ==> #[trigger] canvas.pixel_at(px, py) == if py < y + dy || (py == y + dy && px
                        < x + dx) {
                        spec_resized_pixel(*sprite, before, x as int, y as int, width as int, height as int, px, py)
                    } else {
                        before.pixel_at(px, py)
                    },
            decreases width - dx,
        {
            proof {
                assert(dx * sprite_width <= (width - 1) * sprite_width) by (nonlinear_arith)
                    requires
                        dx <= width - 1,
                        0 <= sprite_width,
                ;
                lemma_scaled_index(dx as int, sprite_width as int, width as int);
            }
            let source_x: u16 = dx * sprite_width / width;
            let source = match sprite.pixel(source_x, source_y) {
                Some(pixel) => pixel,
                None => Rgba::transparent(),
            };
            let target_x = x + dx;
            let target_y = y + dy;
            if source.a != 0 {
                let ghost current = *canvas;
                let background = match canvas.pixel(target_x, target_y) {
                    Some(pixel) => pixel,
                    None => Rgba::transparent(),
                };
                let blended = source.blend_over(background);
                let written = canvas.set_pixel(target_x, target_y, blended);
                proof {
                    assert(current.in_bounds(target_x as int, target_y as int));
                    assert(written is Ok);
                    current.lemma_wf();
                    canvas.lemma_wf();
                    lemma_tracks_changes_transitive(before, current, *canvas);
                    lemma_grows_by_pixel_write(
                        before,
                        current,
                        *canvas,
                        target_x as int,
                        target_y as int,
                        blended,
                        seq![(x as int, y as int, x + width, y + height)],
                        0,
                    );
                    assert forall|px: int, py: int|
                        0 <= px < before.spec_width() && 0 <= py < before.spec_height()
                            implies #[trigger] canvas.pixel_at(px, py) == if py < y + dy || (py == y
                            + dy && px < x + dx + 1) {
                            spec_resized_pixel(*sprite, before, x as int, y as int, width as int, height as int, px, py)
                        } else {
                            before.pixel_at(px, py)
                        } by {
                        lemma_grid_bound(before.spec_width(), before.spec_height(), px, py);
                        lemma_grid_bound(
                            before.spec_width(),
                            before.spec_height(),
                            target_x as int,
                            target_y as int,
                        );
                        lemma_grid_index(before.spec_width(), px, py, target_x as int, target_y as int);
                        if px != target_x || py != target_y {
                            let index = py * before.spec_width() + px;
                            assert(index != target_y * before.spec_width() + target_x);
                            assert(canvas.spec_pixels()[index] == current.spec_pixels()[index]);
                            assert(canvas.pixel_at(px, py) == current.pixel_at(px, py));
                        } else {
                            assert(current.pixel_at(px, py) == before.pixel_at(px, py));
                            assert(sprite.pixel_at(source_x as int, source_y as int) == source);
                            assert(spec_resized_pixel(*sprite, before, x as int, y as int, width as int, height as int, px, py)
                                == spec_blend_over(source, before.pixel_at(px, py)));
                        }
                    }
                }
            } else {
                proof {
                    assert forall|px: int, py: int|
                        0 <= px < before.spec_width() && 0 <= py < before.spec_height()
                            implies #[trigger] canvas.pixel_at(px, py) == if py < y + dy || (py == y
                            + dy && px < x + dx + 1) {
                            spec_resized_pixel(*sprite, before, x as int, y as int, width as int, height as int, px, py)
                        } else {
                            before.pixel_at(px, py)
                        } by {
                        if px == target_x && py == target_y {
                            assert(sprite.pixel_at(source_x as int, source_y as int) == source);
                            assert(spec_resized_pixel(*sprite, before, x as int, y as int, width as int, height as int, px, py)
                                == before.pixel_at(px, py));
                            assert(canvas.pixel_at(px, py) == before.pixel_at(px, py));
                        } else if py < y + dy || (py == y + dy && px < x + dx) {
                            assert(canvas.pixel_at(px, py) == spec_resized_pixel(*sprite, before, x as int, y as int, width as int, height as int, px, py));
                        } else {
                            assert(canvas.pixel_at(px, py) == before.pixel_at(px, py));
                        }
                    }
                }
            }
            dx = dx + 1;
        }
        proof {
            assert forall|px: int, py: int|
                0 <= px < before.spec_width() && 0 <= py < before.spec_height()
                    implies #[trigger] canvas.pixel_at(px, py) == if py < y + dy + 1 {
                    spec_resized_pixel(*sprite, before, x as int, y as int, width as int, height as int, px, py)
                } else {
                    before.pixel_at(px, py)
                } by {
            }
        }
        dy = dy + 1;
    }
    Ok(())
}


/// The side of one frame in the cat sprite sheets.
pub const CAT_FRAME_SIZE: u16 = 32;

/// The frames cut from a sheet: one `CAT_FRAME_SIZE` square after another along its top,
/// or a single frame as large as the sheet allows where the sheet is narrower than one.
pub open spec fn spec_sheet_frames(sheet: Sprite) -> Seq<Seq<Rgba>> {
    let side_x = if sheet.spec_width() < 32 { sheet.spec_width() } else { 32 };
    let side_y = if sheet.spec_height() < 32 { sheet.spec_height() } else { 32 };
    let count = if sheet.spec_width() / 32 >= 1 { sheet.spec_width() / 32 } else { 1 };
    Seq::new(count as nat, |frame: int| spec_crop_pixels(sheet, frame * 32, 0, side_x, side_y))
}

/// Cuts the animation frames out of a sprite sheet.
pub fn load_cat_frames(sheet: &Sprite) -> (result: Result<Vec<Sprite>, SpriteError>)
    requires
        sheet.wf(),
    ensures
        result matches Ok(frames) && frames@.len() == spec_sheet_frames(*sheet).len() && forall|i: int|
            #![trigger frames@[i]]
            0 <= i < frames@.len() ==> {
                &&& frames@[i].wf()
                &&& frames@[i].spec_width() == if sheet.spec_width() < 32 { sheet.spec_width() } else { 32 }
                &&& frames@[i].spec_height() == if sheet.spec_height() < 32 { sheet.spec_height() } else { 32 }
                &&& frames@[i].spec_pixels() == spec_sheet_frames(*sheet)[i]
            },
{
    proof {
        sheet.lemma_wf();
    }
    let sheet_width = sheet.width();
    let sheet_height = sheet.height();
    let side_x = if sheet_width < CAT_FRAME_SIZE { sheet_width } else { CAT_FRAME_SIZE };
    let side_y = if sheet_height < CAT_FRAME_SIZE { sheet_height } else { CAT_FRAME_SIZE };
    let whole = sheet_width / CAT_FRAME_SIZE;
    let count: u16 = if whole >= 1 { whole } else { 1 };
    let ghost expected = spec_sheet_frames(*sheet);
    let mut frames: Vec<Sprite> = Vec::new();
    let mut frame: u16 = 0;
    while frame < count
        invariant
            sheet.wf(),
            sheet_width == sheet.spec_width(),
            sheet_height == sheet.spec_height(),
            0 < sheet_width <= u16::MAX,
            0 < sheet_height <= u16::MAX,
            side_x == (if sheet_width < 32 { sheet_width } else { 32 }),
            side_y == (if sheet_height < 32 { sheet_height } else { 32 }),
            count == (if sheet_width / 32 >= 1 { sheet_width / 32 } else { 1 }),
            frame <= count,
            expected == spec_sheet_frames(*sheet),
            frames@.len() == frame,
            forall|i: int|
                #![trigger frames@[i]]
                0 <= i < frame ==> {
                    &&& frames@[i].wf()
                    &&& frames@[i].spec_width() == side_x
                    &&& frames@[i].spec_height() == side_y
                    &&& frames@[i].spec_pixels() == expected[i]
                },
        decreases count - frame,
    {
        proof {
            assert(frame * 32 + side_x <= sheet_width) by (nonlinear_arith)
                requires
                    frame < count,
                    count == (if sheet_width / 32 >= 1 { sheet_width / 32 } else { 1 }),
                    side_x == (if sheet_width < 32 { sheet_width } else { 32 }),
                    sheet_width > 0,
            ;
        }
        let cropped = crop_sprite(sheet, frame * CAT_FRAME_SIZE, 0, side_x, side_y);
        match cropped {
            Ok(sprite) => {
                frames.push(sprite);
            },
            Err(error) => {
                return Err(error);
            },
        }
        frame = frame + 1;
    }
    proof {
        assert(expected.len() == count);
    }
    Ok(frames)
}

/// The ticks each frame of an animation stays up: slow while asleep, brisk while walking.
pub open spec fn spec_cadence(presence: CatPresence) -> u64 {
    match presence {
        CatPresence::Asleep => 18,
        CatPresence::Idle => 10,
        CatPresence::Walking => 6,
    }
}

/// The cafe canvas is large enough for the cat wherever its animation takes it: it paces
/// up to 30 pixels either side of the middle and sits on the counter.
pub open spec fn cafe_canvas_fits(width: u16, height: u16) -> bool {
    let size = spec_main_cat_size(width, height);
    width >= size + 59 && height >= size + 9
}

/// Whether a `width` x `height` cafe canvas is large enough for the cat.
pub fn cat_fits_canvas(width: u16, height: u16) -> (fits: bool)
    ensures
        fits == cafe_canvas_fits(width, height),
{
    let size = main_cat_size(width, height);
    width as u32 >= size as u32 + 59 && height as u32 >= size as u32 + 9
}

/// The cat's breathing offset.
pub open spec fn spec_breath(presence: CatPresence, tick: u64) -> int {
    match presence {
        CatPresence::Idle => ((tick / 30) % 2) as int,
        CatPresence::Asleep => ((tick / 45) % 2) as int,
        CatPresence::Walking => 0,
    }
}

/// Where the main cat's top left corner goes on a `width` x `height` canvas: centred,
/// moved along its pace, standing on the counter and lifted by its breath, and two pixels
/// higher on an energetic beat.
pub open spec fn main_cat_anchor(
    width: u16,
    height: u16,
    presence: CatPresence,
    tick: u64,
    energetic: bool,
) -> (u16, u16) {
    let size = spec_main_cat_size(width, height);
    let top = spec_counter_top(height);
    let bob: u16 = if energetic && tick % 12 == 0 { 2 } else { 0 };
    let x = spec_offset_u16(saturating_diff(width, size) / 2, spec_walking_pace(presence, tick) as i16);
    let y = saturating_diff(
        saturating_sum(saturating_sum(saturating_diff(top, size), 8), spec_breath(presence, tick) as u16),
        bob,
    );
    (x, y)
}

/// The sheet each mood's animation is cut from.
pub open spec fn sheet_for(presence: CatPresence, asleep: Sprite, idle: Sprite, walk: Sprite) -> Sprite {
    match presence {
        CatPresence::Asleep => asleep,
        CatPresence::Idle => idle,
        CatPresence::Walking => walk,
    }
}

/// The cafe cat: its three animations and its mood, which follows the processor load.
pub struct CatAnimator {
    asleep_frames: Vec<Sprite>,
    idle_frames: Vec<Sprite>,
    walk_frames: Vec<Sprite>,
    presence: CatPresence,
}

/// A sprite small enough to be stretched to any cat size without overflow.
pub open spec fn cat_sprite_ok(sprite: Sprite) -> bool {
    sprite.wf() && sprite.spec_width() <= 1008 && sprite.spec_height() <= 1008
}

/// Every frame in the list is a usable cat sprite, and there is at least one.
pub open spec fn frames_ok(frames: Seq<Sprite>) -> bool {
    frames.len() > 0 && forall|i: int| 0 <= i < frames.len() ==> cat_sprite_ok(#[trigger] frames[i])
}

impl CatAnimator {
    pub closed spec fn spec_presence(&self) -> CatPresence {
        self.presence
    }

    /// The frames of the animation for `presence`.
    pub closed spec fn spec_frames(&self, presence: CatPresence) -> Seq<Sprite> {
        match presence {
            CatPresence::Asleep => self.asleep_frames@,
            CatPresence::Idle => self.idle_frames@,
            CatPresence::Walking => self.walk_frames@,
        }
    }

    pub open spec fn wf(&self) -> bool {
        &&& frames_ok(self.spec_frames(CatPresence::Asleep))
        &&& frames_ok(self.spec_frames(CatPresence::Idle))
        &&& frames_ok(self.spec_frames(CatPresence::Walking))
    }

    /// The frame of the main cat shown at `tick`.
    pub open spec fn spec_frame_at(&self, tick: u64) -> Sprite {
        let frames = self.spec_frames(self.spec_presence());
        frames[((tick / spec_cadence(self.spec_presence())) as usize) as int % (frames.len() as int)]
    }

    /// Cuts the three animations out of their sprite sheets; the cat starts out idle.
    pub fn from_sheets(asleep_sheet: &Sprite, idle_sheet: &Sprite, walk_sheet: &Sprite) -> (result:
        Result<CatAnimator, SpriteError>)
        requires
            asleep_sheet.wf(),
            idle_sheet.wf(),
            walk_sheet.wf(),
        ensures
            result matches Ok(cat) && {
                &&& cat.wf()
                &&& cat.spec_presence() == CatPresence::Idle
                &&& forall|presence: CatPresence, i: int|
                    0 <= i < cat.spec_frames(presence).len() ==> #[trigger] cat.spec_frames(presence)[i].spec_width()
                        == if sheet_for(presence, *asleep_sheet, *idle_sheet, *walk_sheet).spec_width() < 32 {
                        sheet_for(presence, *asleep_sheet, *idle_sheet, *walk_sheet).spec_width()
                    } else {
                        32
                    } && cat.spec_frames(presence)[i].spec_height() == if sheet_for(
                        presence,
                        *asleep_sheet,
                        *idle_sheet,
                        *walk_sheet,
                    ).spec_height() < 32 {
                        sheet_for(presence, *asleep_sheet, *idle_sheet, *walk_sheet).spec_height()
                    } else {
                        32
                    }
                &&& cat.spec_frames(CatPresence::Asleep).map_values(|s: Sprite| s.spec_pixels())
                    == spec_sheet_frames(*asleep_sheet)
                &&& cat.spec_frames(CatPresence::Idle).map_values(|s: Sprite| s.spec_pixels())
                    == spec_sheet_frames(*idle_sheet)
                &&& cat.spec_frames(CatPresence::Walking).map_values(|s: Sprite| s.spec_pixels())
                    == spec_sheet_frames(*walk_sheet)
            },
    {
        let asleep_frames = match load_cat_frames(asleep_sheet) {
            Ok(frames) => frames,
            Err(error) => return Err(error),
        };
        let idle_frames = match load_cat_frames(idle_sheet) {
            Ok(frames) => frames,
            Err(error) => return Err(error),
        };
        let walk_frames = match load_cat_frames(walk_sheet) {
            Ok(frames) => frames,
            Err(error) => return Err(error),
        };
        let cat = CatAnimator {
            asleep_frames,
            idle_frames,
            walk_frames,
            presence: CatPresence::Idle,
        };
        proof {
            assert(cat.spec_frames(CatPresence::Asleep).map_values(|s: Sprite| s.spec_pixels())
                =~= spec_sheet_frames(*asleep_sheet));
            assert(cat.spec_frames(CatPresence::Idle).map_values(|s: Sprite| s.spec_pixels())
                =~= spec_sheet_frames(*idle_sheet));
            assert(cat.spec_frames(CatPresence::Walking).map_values(|s: Sprite| s.spec_pixels())
                =~= spec_sheet_frames(*walk_sheet));
        }
        Ok(cat)
    }

    pub fn presence(&self) -> (presence: CatPresence)
        ensures
            presence == self.spec_presence(),
    {
        self.presence
    }
}


/// The colour at `(px, py)` once the cat is drawn over `base`, the colour that was there:
/// the current frame of the cat stretched over its square.
pub open spec fn spec_cat_over(
    cat: CatAnimator,
    width: u16,
    height: u16,
    tick: u64,
    energetic: bool,
    base: Rgba,
    px: int,
    py: int,
) -> Rgba {
    let size = spec_main_cat_size(width, height) as int;
    let (mx, my) = main_cat_anchor(width, height, cat.spec_presence(), tick, energetic);
    spec_resized_over(cat.spec_frame_at(tick), base, mx as int, my as int, size, size, px, py)
}

/// On a canvas that fits the cafe, the cat lands inside it wherever its animation takes it.
pub proof fn lemma_cat_fits(width: u16, height: u16, presence: CatPresence, tick: u64, energetic: bool)
    requires
        cafe_canvas_fits(width, height),
    ensures
        ({
            let size = spec_main_cat_size(width, height);
            let (mx, my) = main_cat_anchor(width, height, presence, tick, energetic);
            &&& 42 <= size <= 66
            &&& mx + size <= width && my + size <= height
        }),
{
    let size = spec_main_cat_size(width, height);
    let pace = spec_walking_pace(presence, tick);
    assert(-30 <= pace <= 30);
    assert(0 <= spec_breath(presence, tick) <= 1);
}

/// The box the cat is stretched over for `tick`.
pub open spec fn spec_cat_box(cat: CatAnimator, width: u16, height: u16, tick: u64, energetic: bool) -> (
    int,
    int,
    int,
    int,
) {
    let size = spec_main_cat_size(width, height) as int;
    let (mx, my) = main_cat_anchor(width, height, cat.spec_presence(), tick, energetic);
    (mx as int, my as int, mx + size, my + size)
}

impl CatAnimator {
    /// Draws the cat for `tick` after moving its mood on by `signals`; the dirty region
    /// grows only inside the cat's box.
    #[verifier::rlimit(40)]
    pub fn render(&mut self, canvas: &mut Canvas, tick: u64, signals: CatLoadSignals)
        requires
            old(self).wf(),
            old(canvas).wf(),
            cafe_canvas_fits(old(canvas).spec_width() as u16, old(canvas).spec_height() as u16),
        ensures
            final(self).wf(),
            final(self).spec_presence() == spec_next_presence(old(self).spec_presence(), signals),
            forall|presence: CatPresence| #[trigger] final(self).spec_frames(presence) == old(self).spec_frames(presence),
            final(canvas).wf(),
            tracks_changes(*old(canvas), *final(canvas)),
            final(canvas).spec_full_frame_required() == old(canvas).spec_full_frame_required(),
            dirty_grows_within(
                *old(canvas),
                *final(canvas),
                seq![
                    spec_cat_box(
                        *final(self),
                        old(canvas).spec_width() as u16,
                        old(canvas).spec_height() as u16,
                        tick,
                        signals.energetic,
                    ),
                ],
            ),
            forall|px: int, py: int|
                0 <= px < old(canvas).spec_width() && 0 <= py < old(canvas).spec_height()
                    ==> #[trigger] final(canvas).pixel_at(px, py) == spec_cat_over(
                    *final(self),
                    old(canvas).spec_width() as u16,
                    old(canvas).spec_height() as u16,
                    tick,
                    signals.energetic,
                    old(canvas).pixel_at(px, py),
                    px,
                    py,
                ),
    {
        self.presence = next_presence(self.presence, signals);
        proof {
            canvas.lemma_wf();
        }
        let width = canvas.width();
        let height = canvas.height();
        let size = main_cat_size(width, height);
        let top = cafe_counter_top(height);
        proof {
            lemma_cat_fits(width, height, self.presence, tick, signals.energetic);
        }
        let ghost before = *canvas;
        let cadence: u64 = match self.presence {
            CatPresence::Asleep => 18,
            CatPresence::Idle => 10,
            CatPresence::Walking => 6,
        };
        let step = (tick / cadence) as usize;
        let frame: &Sprite = match self.presence {
            CatPresence::Asleep => &self.asleep_frames[step % self.asleep_frames.len()],
            CatPresence::Idle => &self.idle_frames[step % self.idle_frames.len()],
            CatPresence::Walking => &self.walk_frames[step % self.walk_frames.len()],
        };
        proof {
            assert(*frame == self.spec_frame_at(tick));
            let frames = self.spec_frames(self.presence);
            assert(cat_sprite_ok(frames[step as int % frames.len() as int]));
            frame.lemma_wf();
            assert((size - 1) * frame.spec_width() <= u16::MAX) by (nonlinear_arith)
                requires
                    1 <= size <= 66,
                    0 <= frame.spec_width() <= 1008,
            ;
            assert((size - 1) * frame.spec_height() <= u16::MAX) by (nonlinear_arith)
                requires
                    1 <= size <= 66,
                    0 <= frame.spec_height() <= 1008,
            ;
        }
        let bob: u16 = if signals.energetic && tick % 12 == 0 {
            2
        } else {
            0
        };
        let breath = main_cat_breath_offset(self.presence, tick);
        let x = offset_u16(width.saturating_sub(size) / 2, walking_pace_offset(self.presence, tick));
        let y = top.saturating_sub(size).saturating_add(8).saturating_add(breath).saturating_sub(bob);
        let _ = blit_resized(frame, canvas, x, y, size, size);
        proof {
            assert(seq![(x as int, y as int, x + size, y + size)] == seq![
                spec_cat_box(*self, width, height, tick, signals.energetic),
            ]);
            assert forall|px: int, py: int|
                0 <= px < before.spec_width() && 0 <= py < before.spec_height()
                    implies #[trigger] canvas.pixel_at(px, py) == spec_cat_over(
                    *self,
                    width,
                    height,
                    tick,
                    signals.energetic,
                    before.pixel_at(px, py),
                    px,
                    py,
                ) by {
            }
        }
    }
}

} // verus!
