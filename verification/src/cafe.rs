use vstd::prelude::*;

use crate::assets::{saturating_diff, saturating_sum, SpriteError};
use crate::canvas::{
    box_holds, boxes_within, dirty_grows_within, dirty_in_box, lemma_grows_by_region,
    lemma_grows_transitive, lemma_grows_within_one_of, region_box, region_boxes,
    change_recorded, lemma_changes_reported, lemma_dirty_tile_regions, lemma_tile_region_contains,
    reported_tile_is_dirty, tile_in_grid, tile_region, tiles_all,
    lemma_grid_bound, lemma_tracks_changes_transitive, region_contains, region_in_bounds, tracks_changes, Canvas,
    CanvasError, DirtyRegion, Rgba,
};
use crate::text::append_str;
use crate::cat::{
    spec_cat_box, cafe_canvas_fits, offset_u16, spec_cat_over, spec_next_presence, spec_offset_u16, CatAnimator,
    CatLoadSignals, CatPresence,
};
use crate::visual::{
    cafe_counter_top, draw_rect, in_clipped_rect, spec_counter_top, window_geometry, CafeCanvasConfig,
};

verus! {

/// The box a rectangle covers, before clipping.
pub open spec fn rect_box(r: ColoredRect) -> (int, int, int, int) {
    (r.x as int, r.y as int, r.x + r.width, r.y + r.height)
}

/// The boxes the rectangles cover.
pub open spec fn rect_boxes(rects: Seq<ColoredRect>) -> Seq<(int, int, int, int)> {
    rects.map_values(|r: ColoredRect| rect_box(r))
}

/// A solid rectangle to paint; it is clipped to the canvas when painted.
#[derive(Clone, Copy, Debug, PartialEq, Eq, Structural)]
pub struct ColoredRect {
    pub x: u16,
    pub y: u16,
    pub width: u16,
    pub height: u16,
    pub color: Rgba,
}

/// The colour of `(px, py)` after painting `rects` in order over `canvas`: that of the last
/// rectangle covering it, or the canvas's own.
pub open spec fn painted(rects: Seq<ColoredRect>, canvas: Canvas, px: int, py: int) -> Rgba
    decreases rects.len(),
{
    if rects.len() == 0 {
        canvas.pixel_at(px, py)
    } else {
        let last = rects.last();
        if in_clipped_rect(canvas, last.x, last.y, last.width, last.height, px, py) {
            last.color
        } else {
            painted(rects.drop_last(), canvas, px, py)
        }
    }
}

/// `after` is `before` with `rects` painted over it in order.
pub open spec fn painted_over(before: Canvas, after: Canvas, rects: Seq<ColoredRect>) -> bool {
    &&& after.wf()
    &&& after.spec_width() == before.spec_width()
    &&& after.spec_height() == before.spec_height()
    &&& after.spec_full_frame_required() == before.spec_full_frame_required()
    &&& tracks_changes(before, after)
    &&& forall|px: int, py: int|
        0 <= px < before.spec_width() && 0 <= py < before.spec_height()
            ==> #[trigger] after.pixel_at(px, py) == painted(rects, before, px, py)
}

fn rect(x: u16, y: u16, width: u16, height: u16, color: Rgba) -> (r: ColoredRect)
    ensures
        r == (ColoredRect { x, y, width, height, color }),
{
    ColoredRect { x, y, width, height, color }
}

/// Paints `rects` in order, each clipped to the canvas.
pub fn fill_rects(canvas: &mut Canvas, rects: &Vec<ColoredRect>)
    requires
        old(canvas).wf(),
    ensures
        painted_over(*old(canvas), *final(canvas), rects@),
        dirty_grows_within(*old(canvas), *final(canvas), rect_boxes(rects@)),
{
    let ghost before = *canvas;
    proof {
        canvas.lemma_wf();
        assert(rects@.take(0) =~= Seq::<ColoredRect>::empty());
        assert(dirty_grows_within(before, before, rect_boxes(rects@)));
    }
    let mut k: usize = 0;
    while k < rects.len()
        invariant
            k <= rects@.len(),
            before.wf(),
            canvas.wf(),
            canvas.spec_width() == before.spec_width(),
            canvas.spec_height() == before.spec_height(),
            canvas.spec_full_frame_required() == before.spec_full_frame_required(),
            tracks_changes(before, *canvas),
            dirty_grows_within(before, *canvas, rect_boxes(rects@)),
            forall|px: int, py: int|
                0 <= px < before.spec_width() && 0 <= py < before.spec_height()
                    ==> #[trigger] canvas.pixel_at(px, py) == painted(rects@.take(k as int), before, px, py),
        decreases rects@.len() - k,
    {
        let r = rects[k];
        let ghost current = *canvas;
        draw_rect(canvas, r.x, r.y, r.width, r.height, r.color);
        proof {
            lemma_tracks_changes_transitive(before, current, *canvas);
            assert(rect_boxes(rects@)[k as int] == rect_box(r));
            lemma_grows_within_one_of(current, *canvas, rect_box(r), rect_boxes(rects@), k as int);
            lemma_grows_transitive(before, current, *canvas, rect_boxes(rects@));
            assert(rects@.take(k as int + 1).drop_last() == rects@.take(k as int));
            assert(rects@.take(k as int + 1).last() == r);
            assert forall|px: int, py: int|
                0 <= px < before.spec_width() && 0 <= py < before.spec_height()
                    implies #[trigger] canvas.pixel_at(px, py) == painted(rects@.take(k as int + 1), before, px, py) by {
                if in_clipped_rect(current, r.x, r.y, r.width, r.height, px, py) {
                    assert(in_clipped_rect(before, r.x, r.y, r.width, r.height, px, py));
                } else {
                    assert(!in_clipped_rect(before, r.x, r.y, r.width, r.height, px, py));
                    assert(canvas.pixel_at(px, py) == current.pixel_at(px, py));
                }
            }
        }
        k = k + 1;
    }
    proof {
        assert(rects@.take(rects@.len() as int) == rects@);
    }
}

/// The shadowed wall strips behind the counter.
pub open spec fn spec_wall_depth_rects(width: u16, height: u16) -> Seq<ColoredRect> {
    let top = spec_counter_top(height);
    seq![
        ColoredRect { x: 82, y: 0, width: 26, height: top, color: Rgba { r: 12, g: 9, b: 19, a: 255 } },
        ColoredRect { x: 108, y: 0, width: 4, height: top, color: Rgba { r: 58, g: 34, b: 31, a: 255 } },
        ColoredRect {
            x: 0,
            y: saturating_diff(top, 18),
            width,
            height: 18,
            color: Rgba { r: 39, g: 23, b: 27, a: 255 },
        },
        ColoredRect {
            x: 0,
            y: saturating_diff(top, 2),
            width,
            height: 2,
            color: Rgba { r: 91, g: 50, b: 35, a: 255 },
        },
    ]
}

pub fn wall_depth_rects(width: u16, height: u16) -> (rects: Vec<ColoredRect>)
    ensures
        rects@ == spec_wall_depth_rects(width, height),

{
        let top = cafe_counter_top(height);
    let mut rects: Vec<ColoredRect> = Vec::new();
    rects.push(rect(82, 0, 26, top, Rgba::rgb(12, 9, 19)));
    rects.push(rect(108, 0, 4, top, Rgba::rgb(58, 34, 31)));
    rects.push(rect(0, top.saturating_sub(18), width, 18, Rgba::rgb(39, 23, 27)));
    rects.push(rect(0, top.saturating_sub(2), width, 2, Rgba::rgb(91, 50, 35)));
    proof {
        assert(rects@ =~= spec_wall_depth_rects(width, height));
    }
    rects
}

/// The lamp, its shade and the blocky glow under it.
pub open spec fn spec_warm_light_rects(width: u16, height: u16) -> Seq<ColoredRect> {
    let lamp_x = width / 5;
    let lamp_y = height / 5;
    seq![
        ColoredRect { x: saturating_diff(lamp_x, 2), y: 0, width: 4, height: (lamp_y + 5) as u16, color: Rgba { r: 58, g: 34, b: 31, a: 255 } },
        ColoredRect { x: saturating_diff(lamp_x, 18), y: lamp_y, width: 36, height: 11, color: Rgba { r: 219, g: 149, b: 68, a: 255 } },
        ColoredRect { x: saturating_diff(lamp_x, 12), y: (lamp_y + 11) as u16, width: 24, height: 7, color: Rgba { r: 255, g: 190, b: 91, a: 255 } },
        ColoredRect { x: saturating_diff(lamp_x, 52), y: (lamp_y + 18) as u16, width: 104, height: 24, color: Rgba { r: 91, g: 52, b: 38, a: 255 } },
        ColoredRect { x: saturating_diff(lamp_x, 36), y: (lamp_y + 18) as u16, width: 72, height: 18, color: Rgba { r: 120, g: 72, b: 45, a: 255 } },
        ColoredRect { x: saturating_diff(lamp_x, 20), y: (lamp_y + 18) as u16, width: 40, height: 12, color: Rgba { r: 188, g: 123, b: 61, a: 255 } },
    ]
}

pub fn warm_light_rects(width: u16, height: u16) -> (rects: Vec<ColoredRect>)
    ensures
        rects@ == spec_warm_light_rects(width, height),

{
    let lamp_x = width / 5;
    let lamp_y = height / 5;
    let mut rects: Vec<ColoredRect> = Vec::new();
    rects.push(rect(lamp_x.saturating_sub(2), 0, 4, lamp_y + 5, Rgba::rgb(58, 34, 31)));
    rects.push(rect(lamp_x.saturating_sub(18), lamp_y, 36, 11, Rgba::rgb(219, 149, 68)));
    rects.push(rect(lamp_x.saturating_sub(12), lamp_y + 11, 24, 7, Rgba::rgb(255, 190, 91)));
    // A cached, blocky glow reads from terminal distance without per-frame cost.
    rects.push(rect(lamp_x.saturating_sub(52), lamp_y + 18, 104, 24, Rgba::rgb(91, 52, 38)));
    rects.push(rect(lamp_x.saturating_sub(36), lamp_y + 18, 72, 18, Rgba::rgb(120, 72, 45)));
    rects.push(rect(lamp_x.saturating_sub(20), lamp_y + 18, 40, 12, Rgba::rgb(188, 123, 61)));
    proof {
        assert(rects@ =~= spec_warm_light_rects(width, height));
    }
    rects
}


proof fn lemma_counter_top_bound(height: u16)
    ensures
        spec_counter_top(height) <= 43690,
        spec_counter_top(height) <= height,
{
}

/// The counter: its body from the counter top to the bottom, its lit edge and its shadow.
pub open spec fn spec_counter_rects(width: u16, height: u16) -> Seq<ColoredRect> {
    let top = spec_counter_top(height);
    seq![
        ColoredRect { x: 0, y: top, width, height: (height - top) as u16, color: Rgba { r: 85, g: 43, b: 30, a: 255 } },
        ColoredRect { x: 0, y: top, width, height: 8, color: Rgba { r: 178, g: 101, b: 49, a: 255 } },
        ColoredRect { x: 0, y: (top + 8) as u16, width, height: 3, color: Rgba { r: 48, g: 26, b: 26, a: 255 } },
    ]
}

pub fn counter_rects(width: u16, height: u16) -> (rects: Vec<ColoredRect>)
    ensures
        rects@ == spec_counter_rects(width, height),

{
        let top = cafe_counter_top(height);
    proof {
        lemma_counter_top_bound(height);
    }
    let mut rects: Vec<ColoredRect> = Vec::new();
    rects.push(rect(0, top, width, height - top, Rgba::rgb(85, 43, 30)));
    rects.push(rect(0, top, width, 8, Rgba::rgb(178, 101, 49)));
    rects.push(rect(0, top + 8, width, 3, Rgba::rgb(48, 26, 26)));
    proof {
        assert(rects@ =~= spec_counter_rects(width, height));
    }
    rects
}

/// The cafe window of a `width` x `height` canvas: its left, top, width and height.
pub open spec fn window_box(width: u16, height: u16) -> (int, int, int, int) {
    (width as int - width as int / 3 - width as int / 12, height as int / 8, width as int / 3, height as int / 2)
}

/// The window's wooden frame, four pixels wider than the glass on every side.
pub open spec fn spec_window_frame_rects(width: u16, height: u16) -> Seq<ColoredRect> {
    let (x, y, w, h) = window_box(width, height);
    seq![
        ColoredRect {
            x: saturating_diff(x as u16, 4),
            y: saturating_diff(y as u16, 4),
            width: (w + 8) as u16,
            height: (h + 8) as u16,
            color: Rgba { r: 93, g: 55, b: 40, a: 255 },
        },
    ]
}

pub fn window_frame_rects(width: u16, height: u16) -> (rects: Vec<ColoredRect>)
    ensures
        rects@ == spec_window_frame_rects(width, height),

{
    let window = window_geometry(width, height);
    let mut rects: Vec<ColoredRect> = Vec::new();
    rects.push(
        rect(
            window.x.saturating_sub(4),
            window.y.saturating_sub(4),
            window.width + 8,
            window.height + 8,
            Rgba::rgb(93, 55, 40),
        ),
    );
    proof {
        assert(rects@ =~= spec_window_frame_rects(width, height));
    }
    rects
}

/// The window's glazing bars, which split it into quarters, have room on the canvas.
pub open spec fn window_bars_fit(width: u16, height: u16) -> bool {
    let (x, y, w, h) = window_box(width, height);
    x + w / 2 >= 2 && y + h / 2 >= 2
}

/// Whether the window's glazing bars have room on a `width` x `height` canvas.
pub fn window_bars_fit_canvas(width: u16, height: u16) -> (fits: bool)
    ensures
        fits == window_bars_fit(width, height),
{
    let x: u32 = width as u32 - width as u32 / 3 - width as u32 / 12;
    let y: u32 = height as u32 / 8;
    x + (width as u32 / 3) / 2 >= 2 && y + (height as u32 / 2) / 2 >= 2
}

/// The moon in the upper left pane, the glazing bars and the sill.
pub open spec fn spec_window_detail_rects(width: u16, height: u16) -> Seq<ColoredRect> {
    let (x, y, w, h) = window_box(width, height);
    let moon_x = x + w / 4;
    let moon_y = y + h / 5;
    seq![
        ColoredRect { x: moon_x as u16, y: moon_y as u16, width: 10, height: 10, color: Rgba { r: 207, g: 211, b: 184, a: 255 } },
        ColoredRect { x: (moon_x + 6) as u16, y: moon_y as u16, width: 5, height: 10, color: Rgba { r: 8, g: 31, b: 78, a: 255 } },
        ColoredRect { x: (x + w / 2 - 2) as u16, y: y as u16, width: 4, height: h as u16, color: Rgba { r: 36, g: 27, b: 38, a: 255 } },
        ColoredRect { x: x as u16, y: (y + h / 2 - 2) as u16, width: w as u16, height: 4, color: Rgba { r: 36, g: 27, b: 38, a: 255 } },
        ColoredRect {
            x: (x + 8) as u16,
            y: (y + saturating_diff(h as u16, 10)) as u16,
            width: saturating_diff(w as u16, 16),
            height: 3,
            color: Rgba { r: 23, g: 87, b: 132, a: 255 },
        },
    ]
}

pub fn window_detail_rects(width: u16, height: u16) -> (rects: Vec<ColoredRect>)
    requires
        window_bars_fit(width, height),
    ensures
        rects@ == spec_window_detail_rects(width, height),

{
        let window = window_geometry(width, height);
    let x = window.x;
    let y = window.y;
    let w = window.width;
    let h = window.height;
    proof {
        assert(x + 8 <= u16::MAX) by (nonlinear_arith)
            requires
                x == width - width / 3 - width / 12,
                width <= 65535,
        ;
    }
    let moon_x = x + w / 4;
    let moon_y = y + h / 5;
    let mut rects: Vec<ColoredRect> = Vec::new();
    rects.push(rect(moon_x, moon_y, 10, 10, Rgba::rgb(207, 211, 184)));
    rects.push(rect(moon_x + 6, moon_y, 5, 10, Rgba::rgb(8, 31, 78)));
    rects.push(rect(x + w / 2 - 2, y, 4, h, Rgba::rgb(36, 27, 38)));
    rects.push(rect(x, y + h / 2 - 2, w, 4, Rgba::rgb(36, 27, 38)));
    rects.push(rect(x + 8, y + h.saturating_sub(10), w.saturating_sub(16), 3, Rgba::rgb(23, 87, 132)));
    proof {
        assert(rects@ =~= spec_window_detail_rects(width, height));
    }
    rects
}

/// The shelf with five cups on it and the rail with four jars below.
pub open spec fn spec_shelf_rects(width: u16, height: u16) -> Seq<ColoredRect> {
    let y = height / 4;
    let w = width / 3;
    let cup = Rgba { r: 218, g: 166, b: 91, a: 255 };
    let rim = Rgba { r: 246, g: 205, b: 126, a: 255 };
    let jar = Rgba { r: 83, g: 61, b: 70, a: 255 };
    let label = Rgba { r: 197, g: 135, b: 80, a: 255 };
    seq![
        ColoredRect { x: 24, y: y as u16, width: w as u16, height: 6, color: Rgba { r: 132, g: 73, b: 42, a: 255 } },
        ColoredRect { x: 24, y: (y + 6) as u16, width: w as u16, height: 3, color: Rgba { r: 70, g: 38, b: 31, a: 255 } },
        ColoredRect { x: 34, y: saturating_diff(y as u16, 12), width: 10, height: 12, color: cup },
        ColoredRect { x: 36, y: saturating_diff(y as u16, 10), width: 6, height: 3, color: rim },
        ColoredRect { x: 56, y: saturating_diff(y as u16, 12), width: 10, height: 12, color: cup },
        ColoredRect { x: 58, y: saturating_diff(y as u16, 10), width: 6, height: 3, color: rim },
        ColoredRect { x: 78, y: saturating_diff(y as u16, 12), width: 10, height: 12, color: cup },
        ColoredRect { x: 80, y: saturating_diff(y as u16, 10), width: 6, height: 3, color: rim },
        ColoredRect { x: 100, y: saturating_diff(y as u16, 12), width: 10, height: 12, color: cup },
        ColoredRect { x: 102, y: saturating_diff(y as u16, 10), width: 6, height: 3, color: rim },
        ColoredRect { x: 122, y: saturating_diff(y as u16, 12), width: 10, height: 12, color: cup },
        ColoredRect { x: 124, y: saturating_diff(y as u16, 10), width: 6, height: 3, color: rim },
        ColoredRect { x: 42, y: (y + 34) as u16, width: saturating_diff(w as u16, 20), height: 5, color: Rgba { r: 112, g: 61, b: 40, a: 255 } },
        ColoredRect { x: 52, y: (y + 18) as u16, width: 12, height: 16, color: jar },
        ColoredRect { x: 54, y: (y + 20) as u16, width: 8, height: 9, color: label },
        ColoredRect { x: 77, y: (y + 18) as u16, width: 12, height: 16, color: jar },
        ColoredRect { x: 79, y: (y + 20) as u16, width: 8, height: 9, color: label },
        ColoredRect { x: 102, y: (y + 18) as u16, width: 12, height: 16, color: jar },
        ColoredRect { x: 104, y: (y + 20) as u16, width: 8, height: 9, color: label },
        ColoredRect { x: 127, y: (y + 18) as u16, width: 12, height: 16, color: jar },
        ColoredRect { x: 129, y: (y + 20) as u16, width: 8, height: 9, color: label },
    ]
}

pub fn shelf_rects(width: u16, height: u16) -> (rects: Vec<ColoredRect>)
    ensures
        rects@ == spec_shelf_rects(width, height),

{
        let y = height / 4;
    let w = width / 3;
    let mut rects: Vec<ColoredRect> = Vec::new();
    rects.push(rect(24, y, w, 6, Rgba::rgb(132, 73, 42)));
    rects.push(rect(24, y + 6, w, 3, Rgba::rgb(70, 38, 31)));
    let mut cup: u16 = 0;
    while cup < 5
        invariant
            cup <= 5,
            y == height / 4,
            rects@ == spec_shelf_rects(width, height).take(2 + 2 * cup),
        decreases 5 - cup,
    {
        let x = 34 + cup * 22;
        rects.push(rect(x, y.saturating_sub(12), 10, 12, Rgba::rgb(218, 166, 91)));
        rects.push(rect(x + 2, y.saturating_sub(10), 6, 3, Rgba::rgb(246, 205, 126)));
        proof {
            assert(rects@ =~= spec_shelf_rects(width, height).take(2 + 2 * cup + 2));
        }
        cup = cup + 1;
    }
    rects.push(rect(42, y + 34, w.saturating_sub(20), 5, Rgba::rgb(112, 61, 40)));
    proof {
        assert(rects@ =~= spec_shelf_rects(width, height).take(13));
    }
    let mut jar: u16 = 0;
    while jar < 4
        invariant
            jar <= 4,
            y == height / 4,
            rects@ == spec_shelf_rects(width, height).take(13 + 2 * jar),
        decreases 4 - jar,
    {
        let x = 52 + jar * 25;
        rects.push(rect(x, y + 18, 12, 16, Rgba::rgb(83, 61, 70)));
        rects.push(rect(x + 2, y + 20, 8, 9, Rgba::rgb(197, 135, 80)));
        proof {
            assert(rects@ =~= spec_shelf_rects(width, height).take(13 + 2 * jar + 2));
        }
        jar = jar + 1;
    }
    proof {
        assert(rects@ =~= spec_shelf_rects(width, height));
    }
    rects
}

/// The props on the counter: the dark stage in the middle with its rim, the kettle and its
/// glow on the stage, the cup and the bottle on the left, the box with its jar and flame on
/// the right, and the five panels of the counter front.
pub open spec fn spec_counter_prop_rects(width: u16, height: u16) -> Seq<ColoredRect> {
    let top = spec_counter_top(height);
    let y = saturating_sum(top, 14);
    let stage_width = width / 5;
    let stage_x = saturating_diff(width, stage_width) / 2;
    let panel = Rgba { r: 103, g: 53, b: 33, a: 255 };
    let trim = Rgba { r: 149, g: 82, b: 44, a: 255 };
    seq![
        ColoredRect { x: stage_x, y: saturating_sum(top, 12), width: stage_width, height: 10, color: Rgba { r: 46, g: 28, b: 28, a: 255 } },
        ColoredRect { x: saturating_sum(stage_x, 6), y: saturating_sum(top, 12), width: saturating_diff(stage_width, 12), height: 2, color: Rgba { r: 121, g: 64, b: 40, a: 255 } },
        ColoredRect { x: saturating_sum(stage_x, saturating_diff(stage_width, 28)), y: saturating_sum(top, 6), width: 15, height: 13, color: Rgba { r: 119, g: 69, b: 43, a: 255 } },
        ColoredRect { x: saturating_sum(stage_x, saturating_diff(stage_width, 25)), y: saturating_sum(top, 9), width: 9, height: 5, color: Rgba { r: 218, g: 150, b: 78, a: 255 } },
        ColoredRect { x: width / 5, y, width: 18, height: 10, color: Rgba { r: 204, g: 139, b: 74, a: 255 } },
        ColoredRect { x: (width / 5 + 22) as u16, y: saturating_diff(y, 8), width: 8, height: 18, color: Rgba { r: 182, g: 112, b: 61, a: 255 } },
        ColoredRect { x: saturating_diff(width, 90), y, width: 40, height: 14, color: Rgba { r: 45, g: 30, b: 32, a: 255 } },
        ColoredRect { x: saturating_diff(width, 78), y: saturating_diff(y, 14), width: 15, height: 14, color: Rgba { r: 108, g: 70, b: 52, a: 255 } },
        ColoredRect { x: saturating_diff(width, 73), y: saturating_diff(y, 24), width: 5, height: 10, color: Rgba { r: 214, g: 156, b: 88, a: 255 } },
        ColoredRect { x: 24, y: (y + 22) as u16, width: 48, height: 22, color: panel },
        ColoredRect { x: 27, y: (y + 25) as u16, width: 42, height: 3, color: trim },
        ColoredRect { x: 96, y: (y + 22) as u16, width: 48, height: 22, color: panel },
        ColoredRect { x: 99, y: (y + 25) as u16, width: 42, height: 3, color: trim },
        ColoredRect { x: 168, y: (y + 22) as u16, width: 48, height: 22, color: panel },
        ColoredRect { x: 171, y: (y + 25) as u16, width: 42, height: 3, color: trim },
        ColoredRect { x: 240, y: (y + 22) as u16, width: 48, height: 22, color: panel },
        ColoredRect { x: 243, y: (y + 25) as u16, width: 42, height: 3, color: trim },
        ColoredRect { x: 312, y: (y + 22) as u16, width: 48, height: 22, color: panel },
        ColoredRect { x: 315, y: (y + 25) as u16, width: 42, height: 3, color: trim },
    ]
}

pub fn counter_prop_rects(width: u16, height: u16) -> (rects: Vec<ColoredRect>)
    ensures
        rects@ == spec_counter_prop_rects(width, height),
{
    let top = cafe_counter_top(height);
    proof {
        lemma_counter_top_bound(height);
    }
    let y = top.saturating_add(14);
    let stage_width = width / 5;
    let stage_x = width.saturating_sub(stage_width) / 2;
    let mut rects: Vec<ColoredRect> = Vec::new();
    rects.push(rect(stage_x, top.saturating_add(12), stage_width, 10, Rgba::rgb(46, 28, 28)));
    rects.push(
        rect(
            stage_x.saturating_add(6),
            top.saturating_add(12),
            stage_width.saturating_sub(12),
            2,
            Rgba::rgb(121, 64, 40),
        ),
    );
    rects.push(
        rect(
            stage_x.saturating_add(stage_width.saturating_sub(28)),
            top.saturating_add(6),
            15,
            13,
            Rgba::rgb(119, 69, 43),
        ),
    );
    rects.push(
        rect(
            stage_x.saturating_add(stage_width.saturating_sub(25)),
            top.saturating_add(9),
            9,
            5,
            Rgba::rgb(218, 150, 78),
        ),
    );
    rects.push(rect(width / 5, y, 18, 10, Rgba::rgb(204, 139, 74)));
    rects.push(rect(width / 5 + 22, y.saturating_sub(8), 8, 18, Rgba::rgb(182, 112, 61)));
    rects.push(rect(width.saturating_sub(90), y, 40, 14, Rgba::rgb(45, 30, 32)));
    rects.push(rect(width.saturating_sub(78), y.saturating_sub(14), 15, 14, Rgba::rgb(108, 70, 52)));
    rects.push(rect(width.saturating_sub(73), y.saturating_sub(24), 5, 10, Rgba::rgb(214, 156, 88)));
    proof {
        assert(rects@ =~= spec_counter_prop_rects(width, height).take(9));
    }
    let mut panel: u16 = 0;
    while panel < 5
        invariant
            panel <= 5,
            y == saturating_sum(spec_counter_top(height), 14),
            y <= 43704,
            rects@ == spec_counter_prop_rects(width, height).take(9 + 2 * panel),
        decreases 5 - panel,
    {
        let x = 24 + panel * 72;
        rects.push(rect(x, y + 22, 48, 22, Rgba::rgb(103, 53, 33)));
        rects.push(rect(x + 3, y + 25, 42, 3, Rgba::rgb(149, 82, 44)));
        proof {
            assert(rects@ =~= spec_counter_prop_rects(width, height).take(9 + 2 * panel + 2));
        }
        panel = panel + 1;
    }
    proof {
        assert(rects@ =~= spec_counter_prop_rects(width, height));
    }
    rects
}

/// One-pixel-high bands at rows `y`, `y + 1`, ..., each `width` wide at column `x` and
/// painted in the colour given for its row.
pub open spec fn spec_band_rects(x: u16, y: u16, width: u16, colors: Seq<Rgba>) -> Seq<ColoredRect> {
    Seq::new(
        colors.len(),
        |i: int| ColoredRect { x, y: (y + i) as u16, width, height: 1, color: colors[i] },
    )
}

/// The rows of a vertical colour gradient as bands; `colors[i]` is the colour of row `y + i`.
pub fn band_rects(x: u16, y: u16, width: u16, colors: &Vec<Rgba>) -> (rects: Vec<ColoredRect>)
    requires
        y + colors@.len() <= u16::MAX + 1,
    ensures
        rects@ == spec_band_rects(x, y, width, colors@),
{
    let mut rects: Vec<ColoredRect> = Vec::new();
    let mut i: usize = 0;
    while i < colors.len()
        invariant
            i <= colors@.len(),
            y + colors@.len() <= u16::MAX + 1,
            rects@ =~= spec_band_rects(x, y, width, colors@).take(i as int),
        decreases colors@.len() - i,
    {
        rects.push(rect(x, y + i as u16, width, 1, colors[i]));
        proof {
            assert(rects@ =~= spec_band_rects(x, y, width, colors@).take(i as int + 1));
        }
        i = i + 1;
    }
    proof {
        assert(rects@ =~= spec_band_rects(x, y, width, colors@));
    }
    rects
}

/// The whole cafe backdrop, in painting order: the wall gradient, the wall's depth, the
/// lamp, the counter, the window frame, the sky gradient in the window, the window's
/// details, the shelves and the counter props. `wall_colors[i]` colours row `i` of the
/// wall and `sky_colors[i]` row `i` of the window glass.
pub open spec fn spec_background_rects(
    width: u16,
    height: u16,
    wall_colors: Seq<Rgba>,
    sky_colors: Seq<Rgba>,
) -> Seq<ColoredRect> {
    let (x, y, w, h) = window_box(width, height);
    spec_band_rects(0, 0, width, wall_colors) + spec_wall_depth_rects(width, height)
        + spec_warm_light_rects(width, height) + spec_counter_rects(width, height)
        + spec_window_frame_rects(width, height) + spec_band_rects(
        x as u16,
        y as u16,
        w as u16,
        sky_colors,
    ) + spec_window_detail_rects(width, height) + spec_shelf_rects(width, height)
        + spec_counter_prop_rects(width, height)
}

pub fn background_rects(width: u16, height: u16, wall_colors: &Vec<Rgba>, sky_colors: &Vec<Rgba>) -> (rects: Vec<
    ColoredRect,
>)
    requires
        wall_colors@.len() <= height,
        height / 8 + sky_colors@.len() <= height,
        window_bars_fit(width, height),
    ensures
        rects@ == spec_background_rects(width, height, wall_colors@, sky_colors@),
{
    let window = window_geometry(width, height);
    let mut rects = band_rects(0, 0, width, wall_colors);
    let mut part = wall_depth_rects(width, height);
    rects.append(&mut part);
    let mut part = warm_light_rects(width, height);
    rects.append(&mut part);
    let mut part = counter_rects(width, height);
    rects.append(&mut part);
    let mut part = window_frame_rects(width, height);
    rects.append(&mut part);
    let mut part = band_rects(window.x, window.y, window.width, sky_colors);
    rects.append(&mut part);
    let mut part = window_detail_rects(width, height);
    rects.append(&mut part);
    let mut part = shelf_rects(width, height);
    rects.append(&mut part);
    let mut part = counter_prop_rects(width, height);
    rects.append(&mut part);
    rects
}

/// Paints the cafe backdrop over `canvas`; see `spec_background_rects` for what is painted.
pub fn draw_cafe_background(canvas: &mut Canvas, wall_colors: &Vec<Rgba>, sky_colors: &Vec<Rgba>)
    requires
        old(canvas).wf(),
        wall_colors@.len() <= old(canvas).spec_height(),
        old(canvas).spec_height() / 8 + sky_colors@.len() <= old(canvas).spec_height(),
        window_bars_fit(old(canvas).spec_width() as u16, old(canvas).spec_height() as u16),
    ensures
        painted_over(
            *old(canvas),
            *final(canvas),
            spec_background_rects(
                old(canvas).spec_width() as u16,
                old(canvas).spec_height() as u16,
                wall_colors@,
                sky_colors@,
            ),
        ),
{
    proof {
        canvas.lemma_wf();
    }
    let rects = background_rects(canvas.width(), canvas.height(), wall_colors, sky_colors);
    fill_rects(canvas, &rects);
}

/// How lively the cafe's moving layers are this frame, in whole steps.
#[derive(Clone, Copy, Debug, PartialEq, Eq, Structural)]
pub struct CafeActivity {
    /// Rain streaks on the window (at most ten are drawn).
    pub rain_streaks: u16,
    /// Rows the rain falls per tick.
    pub rain_speed: u16,
    /// Whether anything besides the processor is busy enough to stir the counter.
    pub counter_active: bool,
    /// Steam puffs over the cup (at most six are drawn).
    pub steam_puffs: u16,
    /// Sideways pull on the steam, twice the shift in pixels.
    pub steam_drift: i16,
    /// Bubbles by the cup (at most five are drawn).
    pub bubbles: u16,
    /// Crumbs on the counter (at most three are drawn).
    pub clutter: u16,
    /// Where the processor load stands for the cat.
    pub cat: CatLoadSignals,
}

/// `a.min(b)` on integers.
pub open spec fn at_most(a: int, b: int) -> int {
    if a <= b {
        a
    } else {
        b
    }
}

/// `tick` cut to its low 16 bits, as a `u16` cast does.
pub open spec fn tick16(tick: u64) -> int {
    tick as int % 65536
}

/// The rain streak `index` on the window: its top left pixel.
pub open spec fn rain_origin(width: u16, height: u16, tick: u64, speed: u16, index: int) -> (int, int) {
    let (x, y, w, h) = window_box(width, height);
    let columns = if w - 20 >= 1 { w - 20 } else { 1 };
    let rows = if h - 16 >= 1 { h - 16 } else { 1 };
    let fall = (tick16(tick) * speed) % 65536;
    (x + 10 + (index * 29 + tick16(tick) % 11) % columns, y + 6 + ((index * 37 + fall) % 65536) % rows)
}

/// The rain on the window: each streak is seven pixels slanting down and right, one column
/// every three rows, in painting order.
pub open spec fn spec_rain_rects(width: u16, height: u16, tick: u64, streaks: u16, speed: u16) -> Seq<
    ColoredRect,
> {
    Seq::new(
        (at_most(streaks as int, 10) * 7) as nat,
        |k: int|
            {
                let (rx, ry) = rain_origin(width, height, tick, speed, k / 7);
                ColoredRect {
                    x: saturating_sum(rx as u16, ((k % 7) / 3) as u16),
                    y: (ry + k % 7) as u16,
                    width: 1,
                    height: 1,
                    color: Rgba { r: 96, g: 151, b: 190, a: 255 },
                }
            },
    )
}

proof fn lemma_window_box_bounds(width: u16, height: u16)
    ensures
        ({
            let (x, y, w, h) = window_box(width, height);
            &&& 0 <= x && x + w <= width
            &&& 0 <= y && y + h <= height
            &&& w == width / 3 && h == height / 2
        }),
{
}

pub fn rain_rects(width: u16, height: u16, tick: u64, streaks: u16, speed: u16) -> (rects: Vec<ColoredRect>)
    ensures
        rects@ == spec_rain_rects(width, height, tick, streaks, speed),
{
    let window = window_geometry(width, height);
    proof {
        lemma_window_box_bounds(width, height);
    }
    let columns: u16 = if window.width >= 21 { window.width - 20 } else { 1 };
    let rows: u16 = if window.height >= 17 { window.height - 16 } else { 1 };
    let t16 = (tick % 65536) as u16;
    let fall = t16.wrapping_mul(speed);
    let count: u16 = if streaks < 10 { streaks } else { 10 };
    let ghost expected = spec_rain_rects(width, height, tick, streaks, speed);
    let mut rects: Vec<ColoredRect> = Vec::new();
    let mut index: u16 = 0;
    while index < count
        invariant
            count <= 10,
            count == at_most(streaks as int, 10),
            index <= count,
            expected == spec_rain_rects(width, height, tick, streaks, speed),
            t16 == tick16(tick),
            fall == (tick16(tick) * speed) % 65536,
            window.x == width - width / 3 - width / 12,
            window.y == height / 8,
            window.width == width / 3,
            window.height == height / 2,
            columns == (if window.width - 20 >= 1 { window.width - 20 } else { 1 }),
            rows == (if window.height - 16 >= 1 { window.height - 16 } else { 1 }),
            rects@ =~= expected.take(index * 7),
        decreases count - index,
    {
        let rain_x = window.x + 10 + (index * 29 + t16 % 11) % columns;
        let rain_y = window.y + 6 + (index * 37).wrapping_add(fall) % rows;
        proof {
            let (rx, ry) = rain_origin(width, height, tick, speed, index as int);
            assert(rain_x == rx);
            assert(rain_y == ry);
        }
        let mut offset: u16 = 0;
        while offset < 7
            invariant
                count <= 10,
                index < count,
                offset <= 7,
                expected == spec_rain_rects(width, height, tick, streaks, speed),
                (rain_x as int, rain_y as int) == rain_origin(width, height, tick, speed, index as int),
                rain_y + 7 <= u16::MAX,
                count == at_most(streaks as int, 10),
                rects@ =~= expected.take(index * 7 + offset),
            decreases 7 - offset,
        {
            rects.push(
                rect(rain_x.saturating_add(offset / 3), rain_y + offset, 1, 1, Rgba::rgb(96, 151, 190)),
            );
            proof {
                let k = index * 7 + offset;
                assert(k / 7 == index && k % 7 == offset) by (nonlinear_arith)
                    requires
                        k == index * 7 + offset,
                        offset < 7,
                ;
                assert(k < count * 7) by (nonlinear_arith)
                    requires
                        k == index * 7 + offset,
                        offset < 7,
                        index < count,
                ;
                assert(expected.len() == count * 7);
                let (rx, ry) = rain_origin(width, height, tick, speed, index as int);
                assert(expected[k] == (ColoredRect {
                    x: saturating_sum(rx as u16, (offset / 3) as u16),
                    y: (ry + offset) as u16,
                    width: 1,
                    height: 1,
                    color: Rgba { r: 96, g: 151, b: 190, a: 255 },
                }));
                assert(rects@ =~= expected.take(index * 7 + offset + 1));
            }
            offset = offset + 1;
        }
        index = index + 1;
    }
    rects
}

/// `value / 2` rounded toward zero, as integer division in Rust does.
pub open spec fn half_toward_zero(value: int) -> int {
    if value >= 0 {
        value / 2
    } else {
        -((-value) / 2)
    }
}

/// The cup on the counter that the steam, bubbles and crumbs gather around.
pub open spec fn cup_spot(width: u16, height: u16) -> (u16, u16) {
    (saturating_sum(width / 2, width / 12), saturating_sum(spec_counter_top(height), 12))
}

/// The steam, bubbles and crumbs around the cup, or nothing while the counter is calm.
pub open spec fn spec_counter_activity_rects(width: u16, height: u16, tick: u64, activity: CafeActivity) -> Seq<
    ColoredRect,
> {
    let (cup_x, cup_y) = cup_spot(width, height);
    let shift = half_toward_zero(activity.steam_drift as int);
    let steam = Seq::new(
        at_most(activity.steam_puffs as int, 6) as nat,
        |puff: int|
            {
                let phase = ((tick / 4) as int + puff * 3) % 14;
                ColoredRect {
                    x: spec_offset_u16(cup_x, ((puff % 3) * 7 - 7 + shift) as i16),
                    y: saturating_diff(cup_y, (10 + phase + puff * 4) as u16),
                    width: (3 + puff % 2) as u16,
                    height: 2,
                    color: Rgba { r: 207, g: 164, b: 122, a: 255 },
                }
            },
    );
    let bubbles = Seq::new(
        at_most(activity.bubbles as int, 5) as nat,
        |bubble: int|
            ColoredRect {
                x: saturating_sum(cup_x, (16 + bubble * 4) as u16),
                y: saturating_diff(cup_y, (4 + ((tick16(tick) + bubble * 3) % 65536) % 10) as u16),
                width: 2,
                height: 2,
                color: Rgba { r: 235, g: 178, b: 89, a: 255 },
            },
    );
    let clutter = Seq::new(
        at_most(activity.clutter as int, 3) as nat,
        |item: int|
            ColoredRect {
                x: saturating_diff(cup_x, (24 + item * 9) as u16),
                y: saturating_sum(cup_y, 5),
                width: 7,
                height: 5,
                color: Rgba { r: 188, g: 118, b: 58, a: 255 },
            },
    );
    if activity.counter_active {
        steam + bubbles + clutter
    } else {
        Seq::empty()
    }
}

#[verifier::spinoff_prover]
pub fn counter_activity_rects(width: u16, height: u16, tick: u64, activity: &CafeActivity) -> (rects: Vec<
    ColoredRect,
>)
    ensures
        rects@ == spec_counter_activity_rects(width, height, tick, *activity),
{
    let ghost expected = spec_counter_activity_rects(width, height, tick, *activity);
    let mut rects: Vec<ColoredRect> = Vec::new();
    if !activity.counter_active {
        return rects;
    }
    proof {
        lemma_counter_top_bound(height);
    }
    let cup_x = (width / 2).saturating_add(width / 12);
    let cup_y = cafe_counter_top(height).saturating_add(12);
    let drift = activity.steam_drift as i32;
    let magnitude: u32 = if drift >= 0 { drift as u32 } else { (0 - drift) as u32 };
    let half = (magnitude / 2) as i32;
    let shift: i32 = if drift >= 0 { half } else { 0 - half };
    let puffs: u16 = if activity.steam_puffs < 6 { activity.steam_puffs } else { 6 };
    let mut puff: u16 = 0;
    while puff < puffs
        invariant
            puffs == at_most(activity.steam_puffs as int, 6),
            puff <= puffs,
            activity.counter_active,
            expected == spec_counter_activity_rects(width, height, tick, *activity),
            (cup_x, cup_y) == cup_spot(width, height),
            shift == half_toward_zero(activity.steam_drift as int),
            -16384 <= shift <= 16384,
            rects@ =~= expected.take(puff as int),
        decreases puffs - puff,
    {
        let phase = ((tick / 4 + puff as u64 * 3) % 14) as u16;
        let offset = ((puff % 3) * 7) as i32 - 7 + shift;
        let x = offset_u16(cup_x, offset as i16);
        let y = cup_y.saturating_sub(10 + phase + puff * 4);
        rects.push(rect(x, y, 3 + puff % 2, 2, Rgba::rgb(207, 164, 122)));
        proof {
            assert(rects@ =~= expected.take(puff as int + 1));
        }
        puff = puff + 1;
    }
    let t16 = (tick % 65536) as u16;
    let bubbles: u16 = if activity.bubbles < 5 { activity.bubbles } else { 5 };
    let mut bubble: u16 = 0;
    while bubble < bubbles
        invariant
            puffs == at_most(activity.steam_puffs as int, 6),
            bubbles == at_most(activity.bubbles as int, 5),
            bubble <= bubbles,
            activity.counter_active,
            t16 == tick16(tick),
            expected == spec_counter_activity_rects(width, height, tick, *activity),
            (cup_x, cup_y) == cup_spot(width, height),
            rects@ =~= expected.take(puffs + bubble),
        decreases bubbles - bubble,
    {
        let x = cup_x.saturating_add(16 + bubble * 4);
        let y = cup_y.saturating_sub(4 + t16.wrapping_add(bubble * 3) % 10);
        rects.push(rect(x, y, 2, 2, Rgba::rgb(235, 178, 89)));
        proof {
            assert(rects@ =~= expected.take(puffs + bubble + 1));
        }
        bubble = bubble + 1;
    }
    let clutter: u16 = if activity.clutter < 3 { activity.clutter } else { 3 };
    let mut item: u16 = 0;
    while item < clutter
        invariant
            puffs == at_most(activity.steam_puffs as int, 6),
            bubbles == at_most(activity.bubbles as int, 5),
            clutter == at_most(activity.clutter as int, 3),
            item <= clutter,
            activity.counter_active,
            expected == spec_counter_activity_rects(width, height, tick, *activity),
            (cup_x, cup_y) == cup_spot(width, height),
            rects@ =~= expected.take(puffs + bubbles + item),
        decreases clutter - item,
    {
        let x = cup_x.saturating_sub(24 + item * 9);
        rects.push(rect(x, cup_y.saturating_add(5), 7, 5, Rgba::rgb(188, 118, 58)));
        proof {
            assert(rects@ =~= expected.take(puffs + bubbles + item + 1));
        }
        item = item + 1;
    }
    proof {
        assert(rects@ =~= expected);
    }
    rects
}


/// The colour of `(px, py)` after painting `rects` in order, each clipped to a
/// `width` x `height` canvas, over a pixel that was `base`.
pub open spec fn painted_color(rects: Seq<ColoredRect>, width: int, height: int, base: Rgba, px: int, py: int) -> Rgba
    decreases rects.len(),
{
    if rects.len() == 0 {
        base
    } else {
        let last = rects.last();
        if last.x <= px < saturating_sum(last.x, last.width) && last.y <= py < saturating_sum(last.y, last.height)
            && px < width && py < height {
            last.color
        } else {
            painted_color(rects.drop_last(), width, height, base, px, py)
        }
    }
}

/// Painting over a canvas depends only on its size and on the pixel that was there.
pub proof fn lemma_painted_color(rects: Seq<ColoredRect>, canvas: Canvas, px: int, py: int)
    ensures
        painted(rects, canvas, px, py) == painted_color(
            rects,
            canvas.spec_width(),
            canvas.spec_height(),
            canvas.pixel_at(px, py),
            px,
            py,
        ),
    decreases rects.len(),
{
    if rects.len() > 0 {
        lemma_painted_color(rects.drop_last(), canvas, px, py);
    }
}

/// What moves in the cafe this frame, in painting order: the rain on the window, then the
/// steam, bubbles and crumbs at the counter.
pub open spec fn spec_dynamic_rects(width: u16, height: u16, tick: u64, activity: CafeActivity) -> Seq<ColoredRect> {
    spec_rain_rects(width, height, tick, activity.rain_streaks, activity.rain_speed)
        + spec_counter_activity_rects(width, height, tick, activity)
}

/// The cafe frame's pixel at `(px, py)` over a backdrop pixel `backdrop`: the moving
/// rectangles painted over it, then the cat.
pub open spec fn spec_frame_pixel(
    cat: CatAnimator,
    width: u16,
    height: u16,
    tick: u64,
    activity: CafeActivity,
    backdrop: Rgba,
    px: int,
    py: int,
) -> Rgba {
    spec_cat_over(
        cat,
        width,
        height,
        tick,
        activity.cat.energetic,
        painted_color(spec_dynamic_rects(width, height, tick, activity), width as int, height as int, backdrop, px, py),
        px,
        py,
    )
}

/// Some region of `regions` contains `(px, py)`.
pub open spec fn dirty_cover(regions: Seq<DirtyRegion>, px: int, py: int) -> bool {
    exists|j: int| 0 <= j < regions.len() && region_contains(#[trigger] regions[j], px, py)
}

/// The Midnight Cat Cafe: a backdrop drawn once, and rain, counter activity and the cat drawn
/// over it every frame. Each frame first restores the tiles the last frame dirtied from
/// the backdrop, so only changed tiles need to be sent to the terminal.
pub struct CafeScene {
    canvas: Canvas,
    background: Canvas,
    cat: CatAnimator,
    previous_dynamic_dirty: Vec<DirtyRegion>,
    first_render: bool,
}

/// Why the cafe scene could not be set up.
#[derive(Debug)]
pub enum CafeSceneError {
    Canvas(CanvasError),
    Sprite(SpriteError),
}

impl CafeSceneError {
    /// The error as text, as `Display` shows it: a prefix naming the part that failed, then
    /// the underlying error's own text.
    pub fn message(&self) -> (message: String)
        ensures
            self matches CafeSceneError::Canvas(error) ==> message@ == "cafe canvas failed: "@
                + error.spec_message(),
            self matches CafeSceneError::Sprite(error) ==> !(error is PngDecode) ==> message@
                == "cafe sprite failed: "@ + error.spec_message(),
            self matches CafeSceneError::Sprite(error) ==> message@.len() >= "cafe sprite failed: "@.len()
                + error.spec_message().len() && message@.take(
                ("cafe sprite failed: "@.len() + error.spec_message().len()) as int,
            ) == "cafe sprite failed: "@ + error.spec_message(),
    {
        let mut text = String::new();
        match self {
            CafeSceneError::Canvas(error) => {
                append_str(&mut text, "cafe canvas failed: ");
                let detail = error.message();
                append_str(&mut text, detail.as_str());
                proof {
                    assert(text@ =~= "cafe canvas failed: "@ + error.spec_message());
                }
            },
            CafeSceneError::Sprite(error) => {
                append_str(&mut text, "cafe sprite failed: ");
                let ghost prefix = text@;
                let detail = error.message();
                append_str(&mut text, detail.as_str());
                proof {
                    assert(text@ =~= prefix + detail@);
                    assert(text@.take((prefix.len() + error.spec_message().len()) as int) =~= prefix + error.spec_message());
                }
            },
        }
        text
    }
}


/// A region inside a `width` x `height` canvas ends within its pixel buffer.
proof fn lemma_region_index_bound(region: DirtyRegion, width: int, height: int)
    requires
        region_in_bounds(region, width, height),
    ensures
        (region.y + region.height - 1) * width + region.x + region.width <= width * height,
{
    let last = region.y + region.height - 1;
    assert(last * width <= (height - 1) * width) by (nonlinear_arith)
        requires
            last <= height - 1,
            0 <= width,
    ;
    assert((height - 1) * width + width == width * height) by (nonlinear_arith);
}

/// Every tile region a well-formed canvas reports lies inside it.
proof fn lemma_reported_regions_in_bounds(canvas: Canvas)
    requires
        canvas.wf(),
    ensures
        forall|j: int|
            0 <= j < canvas.spec_dirty_tile_regions().len() ==> region_in_bounds(
                #[trigger] canvas.spec_dirty_tile_regions()[j],
                canvas.spec_width(),
                canvas.spec_height(),
            ),
{
    canvas.lemma_wf();
    lemma_dirty_tile_regions(canvas);
    assert forall|j: int| 0 <= j < canvas.spec_dirty_tile_regions().len() implies region_in_bounds(
        #[trigger] canvas.spec_dirty_tile_regions()[j],
        canvas.spec_width(),
        canvas.spec_height(),
    ) by {
        assert(reported_tile_is_dirty(canvas, j));
        let (tile_x, tile_y) = choose|tile_x: int, tile_y: int|
            tile_in_grid(tile_x, tile_y, canvas.spec_width(), canvas.spec_height())
                && canvas.spec_tile_dirty(tile_x, tile_y) && canvas.spec_dirty_tile_regions()[j]
                == tile_region(tile_x, tile_y, canvas.spec_width(), canvas.spec_height());
        lemma_tile_region_contains(tile_x * 16, tile_y * 16, canvas.spec_width(), canvas.spec_height());
        assert((tile_x * 16) / 16 == tile_x);
        assert((tile_y * 16) / 16 == tile_y);
    }
}

impl CafeScene {
    pub closed spec fn spec_canvas(&self) -> Canvas {
        self.canvas
    }

    pub closed spec fn spec_background(&self) -> Canvas {
        self.background
    }

    pub closed spec fn spec_cat(&self) -> CatAnimator {
        self.cat
    }

    /// No frame has been drawn yet.
    pub closed spec fn spec_first_render(&self) -> bool {
        self.first_render
    }

    /// The dirty tile regions of the last frame, restored from the backdrop next frame.
    pub closed spec fn spec_previous_dirty(&self) -> Seq<DirtyRegion> {
        self.previous_dynamic_dirty@
    }

    /// The scene invariant: both canvases are well formed and of one size that fits the
    /// cat, and outside the last frame's dirty tiles the canvas still shows the backdrop.
    pub closed spec fn wf(&self) -> bool {
        &&& self.canvas.wf()
        &&& self.background.wf()
        &&& self.canvas.spec_width() == self.background.spec_width()
        &&& self.canvas.spec_height() == self.background.spec_height()
        &&& self.cat.wf()
        &&& forall|j: int|
            0 <= j < self.previous_dynamic_dirty@.len() ==> region_in_bounds(
                #[trigger] self.previous_dynamic_dirty@[j],
                self.canvas.spec_width(),
                self.canvas.spec_height(),
            )
        &&& !self.first_render ==> forall|px: int, py: int|
            self.canvas.in_bounds(px, py) && !dirty_cover(self.previous_dynamic_dirty@, px, py)
                ==> #[trigger] self.canvas.pixel_at(px, py) == self.background.pixel_at(px, py)
    }

    pub open spec fn spec_width(&self) -> int {
        self.spec_canvas().spec_width()
    }

    pub open spec fn spec_height(&self) -> int {
        self.spec_canvas().spec_height()
    }

    /// Sets up the scene on a `config.width` x `config.height` canvas: paints the backdrop
    /// over a near-black fill, with `wall_colors` and `sky_colors` as the rows of its two
    /// gradients (see `spec_background_rects`), and takes the cat.
    pub fn new(config: CafeCanvasConfig, wall_colors: &Vec<Rgba>, sky_colors: &Vec<Rgba>, cat: CatAnimator) -> (result:
        Result<CafeScene, CafeSceneError>)
        requires
            config.width == 0 || config.height == 0 || window_bars_fit(config.width, config.height),
            wall_colors@.len() <= config.height,
            config.height / 8 + sky_colors@.len() <= config.height,
            cat.wf(),
        ensures
            result is Err <==> (config.width == 0 || config.height == 0),
            result is Err ==> (result matches Err(CafeSceneError::Canvas(
                CanvasError::InvalidSize { width, height },
            )) && width == config.width && height == config.height),
            result matches Ok(scene) ==> {
                &&& scene.wf()
                &&& scene.spec_first_render()
                &&& scene.spec_width() == config.width
                &&& scene.spec_height() == config.height
                &&& scene.spec_cat() == cat
                &&& forall|px: int, py: int|
                    scene.spec_canvas().in_bounds(px, py) ==> #[trigger] scene.spec_canvas().pixel_at(px, py)
                        == Rgba { r: 0, g: 0, b: 0, a: 255 }
                &&& forall|px: int, py: int|
                    scene.spec_canvas().in_bounds(px, py) ==> #[trigger] scene.spec_background().pixel_at(px, py)
                        == painted_color(
                        spec_background_rects(config.width, config.height, wall_colors@, sky_colors@),
                        config.width as int,
                        config.height as int,
                        Rgba { r: 10, g: 8, b: 16, a: 255 },
                        px,
                        py,
                    )
            },
    {
        let mut background = match Canvas::new(config.width, config.height, Rgba::rgb(10, 8, 16)) {
            Ok(canvas) => canvas,
            Err(error) => return Err(CafeSceneError::Canvas(error)),
        };
        let ghost blank = background;
        proof {
            background.lemma_wf();
            lemma_window_box_bounds(config.width, config.height);
        }
        draw_cafe_background(&mut background, wall_colors, sky_colors);
        let ghost painted_background = background;
        background.clear_dirty();
        proof {
            let rects = spec_background_rects(config.width, config.height, wall_colors@, sky_colors@);
            assert forall|px: int, py: int|
                background.in_bounds(px, py) implies #[trigger] background.pixel_at(px, py) == painted_color(
                    rects,
                    config.width as int,
                    config.height as int,
                    Rgba { r: 10, g: 8, b: 16, a: 255 },
                    px,
                    py,
                ) by {
                assert(background.pixel_at(px, py) == painted_background.pixel_at(px, py));
                lemma_painted_color(rects, blank, px, py);
                lemma_grid_bound(blank.spec_width(), blank.spec_height(), px, py);
                assert(blank.pixel_at(px, py) == blank.spec_pixels()[py * blank.spec_width() + px]);
            }
        }
        let canvas = match Canvas::new(config.width, config.height, Rgba::rgb(0, 0, 0)) {
            Ok(canvas) => canvas,
            Err(error) => return Err(CafeSceneError::Canvas(error)),
        };
        proof {
            assert forall|px: int, py: int|
                canvas.in_bounds(px, py) implies #[trigger] canvas.pixel_at(px, py) == Rgba {
                    r: 0,
                    g: 0,
                    b: 0,
                    a: 255,
                } by {
                canvas.lemma_wf();
                lemma_grid_bound(canvas.spec_width(), canvas.spec_height(), px, py);
                assert(canvas.spec_pixels()[py * canvas.spec_width() + px] == (Rgba { r: 0, g: 0, b: 0, a: 255 }));
            }
        }
        Ok(CafeScene { canvas, background, cat, previous_dynamic_dirty: Vec::new(), first_render: true })
    }

    /// Draws the frame for `tick`. The tiles the last frame dirtied are first restored from
    /// the backdrop (on the first frame, all of it is copied), so the frame is the backdrop
    /// with this frame's rain, counter activity and the cat drawn over it; see
    /// `spec_frame_pixel`. Every pixel that differs from the last frame is recorded as
    /// dirty, and the first frame asks for a full update.
    pub fn render(&mut self, tick: u64, activity: &CafeActivity) -> (frame: &Canvas)
        requires
            old(self).wf(),
            cafe_canvas_fits(old(self).spec_width() as u16, old(self).spec_height() as u16),
        ensures
            *frame == final(self).spec_canvas(),
            final(self).wf(),
            !final(self).spec_first_render(),
            final(self).spec_background() == old(self).spec_background(),
            final(self).spec_width() == old(self).spec_width(),
            final(self).spec_height() == old(self).spec_height(),
            final(self).spec_cat().spec_presence() == spec_next_presence(
                old(self).spec_cat().spec_presence(),
                activity.cat,
            ),
            forall|presence: CatPresence| #[trigger] final(self).spec_cat().spec_frames(presence)
                == old(self).spec_cat().spec_frames(presence),
            forall|px: int, py: int|
                final(self).spec_canvas().in_bounds(px, py) ==> #[trigger] final(self).spec_canvas().pixel_at(px, py)
                    == spec_frame_pixel(
                    final(self).spec_cat(),
                    old(self).spec_width() as u16,
                    old(self).spec_height() as u16,
                    tick,
                    *activity,
                    old(self).spec_background().pixel_at(px, py),
                    px,
                    py,
                ),
            old(self).spec_first_render() ==> final(self).spec_canvas().spec_full_frame_required()
                && tiles_all(final(self).spec_canvas(), true),
            !old(self).spec_first_render() ==> !final(self).spec_canvas().spec_full_frame_required(),
            forall|px: int, py: int|
                final(self).spec_canvas().in_bounds(px, py) && #[trigger] final(self).spec_canvas().pixel_at(px, py)
                    != old(self).spec_canvas().pixel_at(px, py) ==> change_recorded(final(self).spec_canvas(), px, py),
            !old(self).spec_first_render() ==> final(self).spec_previous_dirty()
                == final(self).spec_canvas().spec_dirty_tile_regions(),
            !old(self).spec_first_render() ==> forall|outer: (int, int, int, int)|
                boxes_within(region_boxes(old(self).spec_previous_dirty()), outer) && boxes_within(
                    rect_boxes(
                        spec_dynamic_rects(
                            old(self).spec_width() as u16,
                            old(self).spec_height() as u16,
                            tick,
                            *activity,
                        ),
                    ),
                    outer,
                ) && box_holds(
                    outer,
                    spec_cat_box(
                        final(self).spec_cat(),
                        old(self).spec_width() as u16,
                        old(self).spec_height() as u16,
                        tick,
                        activity.cat.energetic,
                    ),
                ) ==> #[trigger] dirty_in_box(final(self).spec_canvas(), outer),
    {
        let ghost start = self.canvas;
        let ghost backdrop = self.background;
        let ghost cat = self.cat;
        let ghost regions = self.previous_dynamic_dirty@;
        proof {
            self.canvas.lemma_wf();
            self.background.lemma_wf();
        }
        self.canvas.clear_dirty();
        let ghost cleared = self.canvas;
        let width = self.canvas.width();
        let height = self.canvas.height();
        if self.first_render {
            let full = DirtyRegion::full(width, height);
            proof {
                lemma_region_index_bound(full, width as int, height as int);
            }
            let _ = self.canvas.copy_region_from(&self.background, full);
            proof {
                assert forall|px: int, py: int|
                    self.canvas.in_bounds(px, py) implies #[trigger] self.canvas.pixel_at(px, py)
                        == self.background.pixel_at(px, py) by {
                    assert(region_contains(full, px, py));
                }
            }
            let ghost copied = self.canvas;
            self.canvas.clear_dirty();
            proof {
                assert forall|px: int, py: int|
                    self.canvas.in_bounds(px, py) implies #[trigger] self.canvas.pixel_at(px, py)
                        == backdrop.pixel_at(px, py) by {
                    assert(copied.pixel_at(px, py) == backdrop.pixel_at(px, py));
                }
            }
        } else {
            proof {
                assert(dirty_grows_within(cleared, self.canvas, region_boxes(regions)));
            }
            let mut i: usize = 0;
            while i < self.previous_dynamic_dirty.len()
                invariant
                    i <= self.previous_dynamic_dirty@.len(),
                    regions == self.previous_dynamic_dirty@,
                    self.background == backdrop,
                    self.cat == cat,
                    !self.first_render,
                    self.canvas.wf(),
                    self.background.wf(),
                    self.canvas.spec_width() == width,
                    self.canvas.spec_height() == height,
                    self.background.spec_width() == width,
                    self.background.spec_height() == height,
                    cleared.spec_width() == width,
                    cleared.spec_height() == height,
                    !self.canvas.spec_full_frame_required(),
                    !cleared.spec_full_frame_required(),
                    forall|j: int|
                        0 <= j < regions.len() ==> region_in_bounds(#[trigger] regions[j], width as int, height as int),
                    tracks_changes(cleared, self.canvas),
                    dirty_grows_within(cleared, self.canvas, region_boxes(regions)),
                    forall|px: int, py: int|
                        self.canvas.in_bounds(px, py) ==> #[trigger] self.canvas.pixel_at(px, py) == if dirty_cover(
                            regions.take(i as int),
                            px,
                            py,
                        ) {
                            self.background.pixel_at(px, py)
                        } else {
                            cleared.pixel_at(px, py)
                        },
                decreases regions.len() - i,
            {
                let region = self.previous_dynamic_dirty[i];
                let ghost current = self.canvas;
                proof {
                    assert(region == regions[i as int]);
                    self.background.lemma_wf();
                    lemma_region_index_bound(region, width as int, height as int);
                }
                let _ = self.canvas.copy_region_from(&self.background, region);
                proof {
                    lemma_tracks_changes_transitive(cleared, current, self.canvas);
                    assert(region_boxes(regions)[i as int] == region_box(region));
                    lemma_grows_by_region(cleared, current, self.canvas, region, region_boxes(regions), i as int);
                    assert forall|px: int, py: int|
                        self.canvas.in_bounds(px, py) implies #[trigger] self.canvas.pixel_at(px, py) == if dirty_cover(
                            regions.take(i as int + 1),
                            px,
                            py,
                        ) {
                            self.background.pixel_at(px, py)
                        } else {
                            cleared.pixel_at(px, py)
                        } by {
                        assert(current.pixel_at(px, py) == if dirty_cover(regions.take(i as int), px, py) {
                            self.background.pixel_at(px, py)
                        } else {
                            cleared.pixel_at(px, py)
                        });
                        if region_contains(region, px, py) {
                            assert(regions.take(i as int + 1)[i as int] == region);
                            assert(dirty_cover(regions.take(i as int + 1), px, py));
                        } else {
                            if dirty_cover(regions.take(i as int), px, py) {
                                let j = choose|j: int|
                                    0 <= j < regions.take(i as int).len() && region_contains(
                                        #[trigger] regions.take(i as int)[j],
                                        px,
                                        py,
                                    );
                                assert(regions.take(i as int + 1)[j] == regions.take(i as int)[j]);
                            }
                            if dirty_cover(regions.take(i as int + 1), px, py) {
                                let j = choose|j: int|
                                    0 <= j < regions.take(i as int + 1).len() && region_contains(
                                        #[trigger] regions.take(i as int + 1)[j],
                                        px,
                                        py,
                                    );
                                assert(j != i);
                                assert(regions.take(i as int)[j] == regions.take(i as int + 1)[j]);
                            }
                        }
                    }
                }
                i = i + 1;
            }
            proof {
                assert(regions.take(regions.len() as int) == regions);
                assert forall|px: int, py: int|
                    self.canvas.in_bounds(px, py) implies #[trigger] self.canvas.pixel_at(px, py)
                        == self.background.pixel_at(px, py) by {
                    assert(start.pixel_at(px, py) == cleared.pixel_at(px, py));
                }
            }
        }
        let ghost restored = self.canvas;
        proof {
            assert(dirty_grows_within(cleared, restored, region_boxes(regions)));
            assert(forall|px: int, py: int|
                restored.in_bounds(px, py) ==> #[trigger] restored.pixel_at(px, py) == backdrop.pixel_at(px, py));
        }
        let mut rects = rain_rects(width, height, tick, activity.rain_streaks, activity.rain_speed);
        let mut more = counter_activity_rects(width, height, tick, activity);
        rects.append(&mut more);
        proof {
            assert(rects@ == spec_dynamic_rects(width, height, tick, *activity));
        }
        fill_rects(&mut self.canvas, &rects);
        let ghost layered = self.canvas;
        self.cat.render(&mut self.canvas, tick, activity.cat);
        proof {
            lemma_tracks_changes_transitive(restored, layered, self.canvas);
            lemma_reported_regions_in_bounds(self.canvas);
        }
        self.previous_dynamic_dirty = self.canvas.dirty_regions();
        proof {
            assert forall|px: int, py: int|
                self.canvas.in_bounds(px, py) implies #[trigger] self.canvas.pixel_at(px, py) == spec_frame_pixel(
                    self.cat,
                    width,
                    height,
                    tick,
                    *activity,
                    self.background.pixel_at(px, py),
                    px,
                    py,
                ) by {
                lemma_painted_color(rects@, restored, px, py);
                assert(layered.pixel_at(px, py) == painted(rects@, restored, px, py));
                assert(restored.pixel_at(px, py) == self.background.pixel_at(px, py));
            }
            assert forall|px: int, py: int|
                self.canvas.in_bounds(px, py) && !dirty_cover(self.previous_dynamic_dirty@, px, py)
                    implies #[trigger] self.canvas.pixel_at(px, py) == self.background.pixel_at(px, py) by {
                assert(restored.pixel_at(px, py) == self.background.pixel_at(px, py));
                if self.canvas.pixel_at(px, py) != restored.pixel_at(px, py) {
                    lemma_changes_reported(restored, self.canvas, px, py);
                    let j = choose|j: int|
                        0 <= j < self.canvas.spec_dirty_tile_regions().len() && region_contains(
                            #[trigger] self.canvas.spec_dirty_tile_regions()[j],
                            px,
                            py,
                        );
                    assert(region_contains(self.previous_dynamic_dirty@[j], px, py));
                }
            }
        }
        if self.first_render {
            self.canvas.mark_full_frame_required();
            self.first_render = false;
        } else {
            proof {
                assert forall|outer: (int, int, int, int)|
                    boxes_within(region_boxes(regions), outer) && boxes_within(rect_boxes(rects@), outer)
                        && box_holds(outer, spec_cat_box(self.cat, width, height, tick, activity.cat.energetic))
                        implies #[trigger] dirty_in_box(self.canvas, outer) by {
                    assert(dirty_in_box(cleared, outer));
                    assert(dirty_in_box(restored, outer));
                    assert(dirty_in_box(layered, outer));
                    assert(boxes_within(
                        seq![spec_cat_box(self.cat, width, height, tick, activity.cat.energetic)],
                        outer,
                    ));
                }
                lemma_tracks_changes_transitive(cleared, restored, self.canvas);
                assert forall|px: int, py: int|
                    self.canvas.in_bounds(px, py) && #[trigger] self.canvas.pixel_at(px, py) != start.pixel_at(px, py)
                        implies change_recorded(self.canvas, px, py) by {
                    assert(start.pixel_at(px, py) == cleared.pixel_at(px, py));
                }
            }
        }
        &self.canvas
    }

    /// The canvas holding the last frame drawn.
    pub fn canvas(&self) -> (canvas: &Canvas)
        ensures
            *canvas == self.spec_canvas(),
    {
        &self.canvas
    }

    /// The names of the scene's layers, bottom to top.
    pub fn layer_names(&self) -> (names: [&'static str; 5])
        ensures
            names[0]@ == "cafe_background"@,
            names[1]@ == "main_cat_sprite"@,
            names[2]@ == "window_rain"@,
            names[3]@ == "warm_light"@,
            names[4]@ == "counter_activity"@,
    {
        ["cafe_background", "main_cat_sprite", "window_rain", "warm_light", "counter_activity"]
    }
}

} // verus!
