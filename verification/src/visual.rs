use vstd::prelude::*;

use crate::assets::saturating_sum;
use crate::canvas::{
    dirty_grows_within, lemma_grid_bound, lemma_grid_index, lemma_grows_by_pixel_write,
    lemma_tracks_changes_transitive, tracks_changes, Canvas, Rgba,
};

verus! {

/// The pixel size of the cafe scene's canvas.
#[derive(Clone, Copy, Debug, PartialEq, Eq, Structural)]
pub struct CafeCanvasConfig {
    pub width: u16,
    pub height: u16,
}

impl CafeCanvasConfig {
    pub fn new(width: u16, height: u16) -> (config: CafeCanvasConfig)
        ensures
            config == (CafeCanvasConfig { width, height }),
    {
        CafeCanvasConfig { width, height }
    }
}

/// The pixel size of a layered scene's canvas.
#[derive(Clone, Copy, Debug, PartialEq, Eq, Structural)]
pub struct SceneCanvasConfig {
    pub width: u16,
    pub height: u16,
}

impl SceneCanvasConfig {
    pub fn new(width: u16, height: u16) -> (config: SceneCanvasConfig)
        ensures
            config == (SceneCanvasConfig { width, height }),
    {
        SceneCanvasConfig { width, height }
    }
}

/// The row where the cafe counter starts: two thirds of the way down.
pub open spec fn spec_counter_top(height: u16) -> u16 {
    (height - height / 3) as u16
}

pub fn cafe_counter_top(height: u16) -> (top: u16)
    ensures
        top == spec_counter_top(height),
{
    height - height / 3
}

/// Where the cafe window sits: a third of the canvas wide and half of it high, near the
/// top right.
#[derive(Clone, Copy, Debug, PartialEq, Eq, Structural)]
pub struct WindowGeometry {
    pub x: u16,
    pub y: u16,
    pub width: u16,
    pub height: u16,
}

pub fn window_geometry(canvas_width: u16, canvas_height: u16) -> (window: WindowGeometry)
    ensures
        window.width == canvas_width / 3,
        window.height == canvas_height / 2,
        window.x == canvas_width - canvas_width / 3 - canvas_width / 12,
        window.y == canvas_height / 8,
        window.x + window.width <= canvas_width,
        window.y + window.height <= canvas_height,
{
    let width = canvas_width / 3;
    let height = canvas_height / 2;
    WindowGeometry { x: canvas_width - width - canvas_width / 12, y: canvas_height / 8, width, height }
}

/// Whether `(px, py)` lies in the rectangle at `(x, y)` of the given size, clipped to the
/// canvas; the far edges saturate at `u16::MAX`.
pub open spec fn in_clipped_rect(canvas: Canvas, x: u16, y: u16, width: u16, height: u16, px: int, py: int) -> bool {
    &&& x <= px < saturating_sum(x, width)
    &&& y <= py < saturating_sum(y, height)
    &&& px < canvas.spec_width()
    &&& py < canvas.spec_height()
}

/// Fills the rectangle at `(x, y)` with `color`, clipped to the canvas; the canvas records
/// the pixels that change as dirty.
pub fn draw_rect(canvas: &mut Canvas, x: u16, y: u16, width: u16, height: u16, color: Rgba)
    requires
        old(canvas).wf(),
    ensures
        final(canvas).wf(),
        tracks_changes(*old(canvas), *final(canvas)),
        final(canvas).spec_full_frame_required() == old(canvas).spec_full_frame_required(),
        dirty_grows_within(*old(canvas), *final(canvas), seq![(x as int, y as int, x + width, y + height)]),
        forall|px: int, py: int|
            0 <= px < old(canvas).spec_width() && 0 <= py < old(canvas).spec_height()
                ==> #[trigger] final(canvas).pixel_at(px, py) == if in_clipped_rect(
                *old(canvas),
                x,
                y,
                width,
                height,
                px,
                py,
            ) {
                color
            } else {
                old(canvas).pixel_at(px, py)
            },
{
    let right_edge: u16 = if x as u32 + width as u32 > 65535 {
        65535
    } else {
        x + width
    };
    let bottom_edge: u16 = if y as u32 + height as u32 > 65535 {
        65535
    } else {
        y + height
    };
    let max_x = if right_edge < canvas.width() {
        right_edge
    } else {
        canvas.width()
    };
    let max_y = if bottom_edge < canvas.height() {
        bottom_edge
    } else {
        canvas.height()
    };
    let ghost before = *canvas;
    proof {
        canvas.lemma_wf();
        assert(tracks_changes(before, before));
        assert(dirty_grows_within(before, before, seq![(x as int, y as int, x + width, y + height)]));
    }
    let mut py: u16 = y;
    while py < max_y
        invariant
            canvas.wf(),
            before.wf(),
            max_x <= before.spec_width(),
            max_y <= before.spec_height(),
            max_x == (if saturating_sum(x, width) < before.spec_width() {
                saturating_sum(x, width) as int
            } else {
                before.spec_width()
            }),
            max_y == (if saturating_sum(y, height) < before.spec_height() {
                saturating_sum(y, height) as int
            } else {
                before.spec_height()
            }),
            y <= py,
            py <= max_y || py == y,
            canvas.spec_width() == before.spec_width(),
            canvas.spec_height() == before.spec_height(),
            canvas.spec_full_frame_required() == before.spec_full_frame_required(),
            tracks_changes(before, *canvas),
            dirty_grows_within(before, *canvas, seq![(x as int, y as int, x + width, y + height)]),
            forall|px: int, qy: int|
                0 <= px < before.spec_width() && 0 <= qy < before.spec_height()
                    ==> #[trigger] canvas.pixel_at(px, qy) == if in_clipped_rect(
                    before,
                    x,
                    y,
                    width,
                    height,
                    px,
                    qy,
                ) && qy < py {
                    color
                } else {
                    before.pixel_at(px, qy)
                },
        decreases max_y - py,
    {
        let mut px: u16 = x;
        while px < max_x
            invariant
                canvas.wf(),
                before.wf(),
                max_x <= before.spec_width(),
                max_y <= before.spec_height(),
                max_x == (if saturating_sum(x, width) < before.spec_width() {
                    saturating_sum(x, width) as int
                } else {
                    before.spec_width()
                }),
                max_y == (if saturating_sum(y, height) < before.spec_height() {
                    saturating_sum(y, height) as int
                } else {
                    before.spec_height()
                }),
                y <= py < max_y,
                x <= px,
                px <= max_x || px == x,
                canvas.spec_width() == before.spec_width(),
                canvas.spec_height() == before.spec_height(),
                canvas.spec_full_frame_required() == before.spec_full_frame_required(),
                tracks_changes(before, *canvas),
                dirty_grows_within(before, *canvas, seq![(x as int, y as int, x + width, y + height)]),
                forall|qx: int, qy: int|
                    0 <= qx < before.spec_width() && 0 <= qy < before.spec_height()
                        ==> #[trigger] canvas.pixel_at(qx, qy) == if in_clipped_rect(
                        before,
                        x,
                        y,
                        width,
                        height,
                        qx,
                        qy,
                    ) && (qy < py || (qy == py && qx < px)) {
                        color
                    } else {
                        before.pixel_at(qx, qy)
                    },
            decreases max_x - px,
        {
            let ghost current = *canvas;
            let written = canvas.set_pixel(px, py, color);
            proof {
                current.lemma_wf();
                canvas.lemma_wf();
                assert(current.in_bounds(px as int, py as int));
                assert(written is Ok);
                lemma_tracks_changes_transitive(before, current, *canvas);
                lemma_grows_by_pixel_write(
                    before,
                    current,
                    *canvas,
                    px as int,
                    py as int,
                    color,
                    seq![(x as int, y as int, x + width, y + height)],
                    0,
                );
                assert forall|qx: int, qy: int|
                    0 <= qx < before.spec_width() && 0 <= qy < before.spec_height()
                        implies #[trigger] canvas.pixel_at(qx, qy) == if in_clipped_rect(
                        before,
                        x,
                        y,
                        width,
                        height,
                        qx,
                        qy,
                    ) && (qy < py || (qy == py && qx < px + 1)) {
                        color
                    } else {
                        before.pixel_at(qx, qy)
                    } by {
                    lemma_grid_bound(before.spec_width(), before.spec_height(), qx, qy);
                    lemma_grid_bound(before.spec_width(), before.spec_height(), px as int, py as int);
                    lemma_grid_index(before.spec_width(), qx, qy, px as int, py as int);
                    if qx != px || qy != py {
                        let index = qy * before.spec_width() + qx;
                        assert(index != py * before.spec_width() + px);
                        assert(canvas.spec_pixels()[index] == current.spec_pixels()[index]);
                        assert(canvas.pixel_at(qx, qy) == current.pixel_at(qx, qy));
                    } else {
                        assert(canvas.pixel_at(qx, qy) == color);
                        assert(in_clipped_rect(before, x, y, width, height, qx, qy));
                    }
                }
            }
            px = px + 1;
        }
        proof {
            assert forall|qx: int, qy: int|
                0 <= qx < before.spec_width() && 0 <= qy < before.spec_height()
                    implies #[trigger] canvas.pixel_at(qx, qy) == if in_clipped_rect(
                    before,
                    x,
                    y,
                    width,
                    height,
                    qx,
                    qy,
                ) && qy < py + 1 {
                    color
                } else {
                    before.pixel_at(qx, qy)
                } by {
            }
        }
        py = py + 1;
    }
    proof {
        assert forall|qx: int, qy: int|
            0 <= qx < before.spec_width() && 0 <= qy < before.spec_height()
                implies #[trigger] canvas.pixel_at(qx, qy) == if in_clipped_rect(
                before,
                x,
                y,
                width,
                height,
                qx,
                qy,
            ) {
                color
            } else {
                before.pixel_at(qx, qy)
            } by {
        }
    }
}

/// Settings of the trails that lifeforms leave behind.
#[derive(Clone, Copy, Debug, PartialEq, Eq)]
pub struct LifeformTrailConfig;

impl LifeformTrailConfig {
    /// How many trail points a lifeform keeps by default.
    pub const DEFAULT_CAPACITY: usize = 8;
}

} // verus!
