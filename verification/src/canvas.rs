use vstd::prelude::*;

use vstd::arithmetic::div_mod::lemma_fundamental_div_mod_converse;

use crate::text::{append_decimal, append_str, chars_of, decimal};

verus! {

/// One RGBA pixel with straight (non-premultiplied) 8-bit channels.
#[derive(Clone, Copy, Debug, PartialEq, Eq, Structural)]
pub struct Rgba {
    pub r: u8,
    pub g: u8,
    pub b: u8,
    pub a: u8,
}

/// Source-over compositing of one colour channel, rounded to nearest.
pub open spec fn spec_blend_channel(foreground: u8, background: u8, alpha: u8) -> int {
    (foreground * alpha + background * (255 - alpha) + 127) / 255
}

/// Source-over compositing of the alpha channel, rounded down.
pub open spec fn spec_blend_alpha(foreground: u8, background: u8) -> int {
    foreground + (background * (255 - foreground)) / 255
}

pub open spec fn spec_blend_over(source: Rgba, background: Rgba) -> Rgba {
    Rgba {
        r: spec_blend_channel(source.r, background.r, source.a) as u8,
        g: spec_blend_channel(source.g, background.g, source.a) as u8,
        b: spec_blend_channel(source.b, background.b, source.a) as u8,
        a: spec_blend_alpha(source.a, background.a) as u8,
    }
}

impl Rgba {
    /// The fully transparent black pixel.
    pub fn transparent() -> (pixel: Rgba)
        ensures
            pixel == (Rgba { r: 0, g: 0, b: 0, a: 0 }),
    {
        Rgba::new(0, 0, 0, 0)
    }

    pub fn rgb(r: u8, g: u8, b: u8) -> (pixel: Rgba)
        ensures
            pixel == (Rgba { r, g, b, a: 255 }),
    {
        Rgba::new(r, g, b, 255)
    }

    pub fn new(r: u8, g: u8, b: u8, a: u8) -> (pixel: Rgba)
        ensures
            pixel == (Rgba { r, g, b, a }),
    {
        Rgba { r, g, b, a }
    }

    /// Composites `self` over `background` with the source-over operator.
    pub fn blend_over(self, background: Rgba) -> (pixel: Rgba)
        ensures
            pixel == spec_blend_over(self, background),
            0 <= spec_blend_channel(self.r, background.r, self.a) <= 255,
            0 <= spec_blend_channel(self.g, background.g, self.a) <= 255,
            0 <= spec_blend_channel(self.b, background.b, self.a) <= 255,
            0 <= spec_blend_alpha(self.a, background.a) <= 255,
    {
        let alpha = self.a as u16;
        let inverse_alpha = 255 - alpha;
        Rgba {
            r: blend_channel(self.r, background.r, alpha, inverse_alpha),
            g: blend_channel(self.g, background.g, alpha, inverse_alpha),
            b: blend_channel(self.b, background.b, alpha, inverse_alpha),
            a: blend_alpha(self.a, background.a),
        }
    }
}

fn blend_channel(foreground: u8, background: u8, alpha: u16, inverse_alpha: u16) -> (value: u8)
    requires
        alpha <= 255,
        inverse_alpha == 255 - alpha,
    ensures
        value == spec_blend_channel(foreground, background, alpha as u8),
        0 <= spec_blend_channel(foreground, background, alpha as u8) <= 255,
{
    let f = foreground as u16;
    let b = background as u16;
    assert(f * alpha <= 255 * 255) by (nonlinear_arith)
        requires f <= 255, alpha <= 255;
    assert(b * inverse_alpha <= 255 * (255 - alpha)) by (nonlinear_arith)
        requires b <= 255, inverse_alpha == 255 - alpha, alpha <= 255;
    assert(f * alpha + b * inverse_alpha <= 255 * 255) by (nonlinear_arith)
        requires f <= 255, b <= 255, alpha <= 255, inverse_alpha == 255 - alpha;
    let value = f * alpha + b * inverse_alpha;
    let result = (value + 127) / 255;
    assert(result <= 255);
    result as u8
}

fn blend_alpha(foreground: u8, background: u8) -> (value: u8)
    ensures
        value == spec_blend_alpha(foreground, background),
        0 <= spec_blend_alpha(foreground, background) <= 255,
{
    let f = foreground as u16;
    let b = background as u16;
    assert(b * (255 - f) <= 255 * (255 - f)) by (nonlinear_arith)
        requires b <= 255, f <= 255;
    let scaled = b * (255 - f);
    assert(scaled / 255 <= 255 - f) by (nonlinear_arith)
        requires scaled <= 255 * (255 - f), f <= 255;
    (f + scaled / 255) as u8
}


/// An axis-aligned rectangle of pixels, used to report which part of a canvas changed.
#[derive(Clone, Copy, Debug, PartialEq, Eq, Structural)]
pub struct DirtyRegion {
    pub x: u16,
    pub y: u16,
    pub width: u16,
    pub height: u16,
}

pub open spec fn spec_min(a: int, b: int) -> int {
    if a <= b { a } else { b }
}

pub open spec fn spec_max(a: int, b: int) -> int {
    if a >= b { a } else { b }
}

/// `(x, y)` lies inside `region`.
pub open spec fn region_contains(region: DirtyRegion, x: int, y: int) -> bool {
    region.x <= x < region.x + region.width && region.y <= y < region.y + region.height
}

/// `region` is non-empty and lies inside a `width` x `height` surface.
pub open spec fn region_in_bounds(region: DirtyRegion, width: int, height: int) -> bool {
    &&& region.width >= 1
    &&& region.height >= 1
    &&& region.x + region.width <= width
    &&& region.y + region.height <= height
}

/// Every point of `inner` lies inside `outer`.
pub open spec fn region_within(inner: DirtyRegion, outer: DirtyRegion) -> bool {
    &&& outer.x <= inner.x
    &&& outer.y <= inner.y
    &&& inner.x + inner.width <= outer.x + outer.width
    &&& inner.y + inner.height <= outer.y + outer.height
}

/// The smallest rectangle holding `region` and the point `(x, y)`.
pub open spec fn spec_extend(region: DirtyRegion, x: int, y: int) -> DirtyRegion {
    let min_x = spec_min(region.x as int, x);
    let min_y = spec_min(region.y as int, y);
    let max_x = spec_max(region.x + region.width - 1, x);
    let max_y = spec_max(region.y + region.height - 1, y);
    DirtyRegion {
        x: min_x as u16,
        y: min_y as u16,
        width: (max_x - min_x + 1) as u16,
        height: (max_y - min_y + 1) as u16,
    }
}

/// The smallest rectangle holding both non-empty regions.
pub open spec fn spec_union(region: DirtyRegion, other: DirtyRegion) -> DirtyRegion {
    spec_extend(
        spec_extend(region, other.x as int, other.y as int),
        other.x + other.width - 1,
        other.y + other.height - 1,
    )
}

pub open spec fn spec_full_region(width: u16, height: u16) -> DirtyRegion {
    DirtyRegion { x: 0, y: 0, width, height }
}

/// The part of `region` that lies on a `width` x `height` canvas, if it starts on it.
pub open spec fn spec_clip_region(region: DirtyRegion, width: int, height: int) -> Option<DirtyRegion> {
    if region.x >= width || region.y >= height {
        None
    } else {
        Some(
            DirtyRegion {
                x: region.x,
                y: region.y,
                width: (spec_min(region.x + region.width, width) - region.x) as u16,
                height: (spec_min(region.y + region.height, height) - region.y) as u16,
            },
        )
    }
}

/// The dirty region after a region was marked on top of `current`.
pub open spec fn spec_merge_region(current: Option<DirtyRegion>, region: DirtyRegion) -> Option<
    DirtyRegion,
> {
    match current {
        Some(existing) => Some(spec_union(existing, region)),
        None => Some(region),
    }
}

/// The dirty region after the pixel `(x, y)` changed.
pub open spec fn spec_merge_pixel(current: Option<DirtyRegion>, x: int, y: int) -> Option<
    DirtyRegion,
> {
    match current {
        Some(existing) => Some(spec_extend(existing, x, y)),
        None => Some(DirtyRegion { x: x as u16, y: y as u16, width: 1, height: 1 }),
    }
}

/// The hull of two in-bounds regions is in bounds and holds both of them.
pub proof fn lemma_union_bounds(region: DirtyRegion, other: DirtyRegion, width: int, height: int)
    requires
        region_in_bounds(region, width, height),
        region_in_bounds(other, width, height),
        width <= u16::MAX,
        height <= u16::MAX,
    ensures
        region_in_bounds(spec_union(region, other), width, height),
        region_within(region, spec_union(region, other)),
        region_within(other, spec_union(region, other)),
{
}

/// Adding an in-bounds point to an in-bounds region keeps it in bounds.
pub proof fn lemma_extend_bounds(region: DirtyRegion, x: int, y: int, width: int, height: int)
    requires
        region_in_bounds(region, width, height),
        0 <= x < width,
        0 <= y < height,
        width <= u16::MAX,
        height <= u16::MAX,
    ensures
        region_in_bounds(spec_extend(region, x, y), width, height),
        region_within(region, spec_extend(region, x, y)),
        region_contains(spec_extend(region, x, y), x, y),
{
}

impl DirtyRegion {
    /// The region covering a whole `width` x `height` surface.
    pub fn full(width: u16, height: u16) -> (region: DirtyRegion)
        ensures
            region == spec_full_region(width, height),
    {
        DirtyRegion { x: 0, y: 0, width, height }
    }

    fn single_pixel(x: u16, y: u16) -> (region: DirtyRegion)
        ensures
            region == (DirtyRegion { x, y, width: 1, height: 1 }),
    {
        DirtyRegion { x, y, width: 1, height: 1 }
    }

    fn extend_to(self, x: u16, y: u16) -> (region: DirtyRegion)
        requires
            self.width >= 1,
            self.height >= 1,
            self.x + self.width <= u16::MAX,
            self.y + self.height <= u16::MAX,
            x < u16::MAX,
            y < u16::MAX,
        ensures
            region == spec_extend(self, x as int, y as int),
    {
        let min_x = if self.x <= x { self.x } else { x };
        let min_y = if self.y <= y { self.y } else { y };
        let right = self.x + self.width - 1;
        let bottom = self.y + self.height - 1;
        let max_x = if right >= x { right } else { x };
        let max_y = if bottom >= y { bottom } else { y };
        DirtyRegion { x: min_x, y: min_y, width: max_x - min_x + 1, height: max_y - min_y + 1 }
    }

    fn extend_to_region(self, region: DirtyRegion) -> (merged: DirtyRegion)
        requires
            self.width >= 1,
            self.height >= 1,
            region.width >= 1,
            region.height >= 1,
            self.x + self.width <= u16::MAX,
            self.y + self.height <= u16::MAX,
            region.x + region.width <= u16::MAX,
            region.y + region.height <= u16::MAX,
        ensures
            merged == spec_union(self, region),
    {
        let max_x = region.x + (region.width - 1);
        let max_y = region.y + (region.height - 1);
        let first = self.extend_to(region.x, region.y);
        first.extend_to(max_x, max_y)
    }

    /// The region starts at the origin and is at least `width` x `height` large.
    pub fn covers(self, width: u16, height: u16) -> (covered: bool)
        ensures
            covered == (self.x == 0 && self.y == 0 && self.width >= width && self.height
                >= height),
    {
        self.x == 0 && self.y == 0 && self.width >= width && self.height >= height
    }
}


/// Side length, in pixels, of the square tiles used for fine-grained dirty tracking.
pub const DIRTY_TILE_SIZE: u16 = 16;

/// Number of tiles needed to cover `extent` pixels.
pub open spec fn tile_count(extent: int) -> int {
    (extent + 15) / 16
}

/// The canvas rectangle covered by tile `(tile_x, tile_y)`, clipped to the canvas.
pub open spec fn tile_region(tile_x: int, tile_y: int, width: int, height: int) -> DirtyRegion {
    DirtyRegion {
        x: (tile_x * 16) as u16,
        y: (tile_y * 16) as u16,
        width: spec_min(16, width - tile_x * 16) as u16,
        height: spec_min(16, height - tile_y * 16) as u16,
    }
}

/// `index == y * width + x` for a point inside a grid `width` columns wide.
pub proof fn lemma_grid_index(width: int, x: int, y: int, other_x: int, other_y: int)
    requires
        0 <= x < width,
        0 <= other_x < width,
        0 <= y,
        0 <= other_y,
    ensures
        (y * width + x == other_y * width + other_x) <==> (x == other_x && y == other_y),
{
    if y < other_y {
        assert(y * width + width <= other_y * width) by (nonlinear_arith)
            requires y < other_y, 0 < width;
    } else if other_y < y {
        assert(other_y * width + width <= y * width) by (nonlinear_arith)
            requires other_y < y, 0 < width;
    }
}

/// The product of two 16-bit quantities fits in 32 bits.
pub proof fn lemma_u16_product(a: int, b: int)
    requires
        0 <= a <= u16::MAX,
        0 <= b <= u16::MAX,
    ensures
        0 <= a * b <= u16::MAX * u16::MAX,
{
    assert(0 <= a * b <= 65535 * 65535) by (nonlinear_arith)
        requires 0 <= a <= 65535, 0 <= b <= 65535;
}

/// A point inside a `width` x `height` grid has a row-major index below `width * height`.
pub proof fn lemma_grid_bound(width: int, height: int, x: int, y: int)
    requires
        0 <= x < width,
        0 <= y < height,
    ensures
        0 <= y * width + x < width * height,
        y * width + x < (y + 1) * width,
{
    assert(0 <= y * width) by (nonlinear_arith)
        requires 0 <= y, 0 <= width;
    assert((y + 1) * width <= height * width) by (nonlinear_arith)
        requires y + 1 <= height, 0 <= width;
    assert((y + 1) * width == y * width + width) by (nonlinear_arith);
    assert(height * width == width * height) by (nonlinear_arith);
}

/// Every index below `width * height` names exactly one grid point.
pub proof fn lemma_grid_decompose(width: int, height: int, index: int)
    requires
        0 < width,
        0 <= index < width * height,
    ensures
        0 <= index % width < width,
        0 <= index / width < height,
        index == (index / width) * width + index % width,
{
    assert(index == width * (index / width) + index % width) by (nonlinear_arith)
        requires 0 < width;
    assert(0 <= index % width < width) by (nonlinear_arith)
        requires 0 < width;
    assert(index / width < height) by (nonlinear_arith)
        requires 0 < width, 0 <= index < width * height;
    assert(0 <= index / width) by (nonlinear_arith)
        requires 0 < width, 0 <= index;
    assert(width * (index / width) == (index / width) * width) by (nonlinear_arith);
}

#[derive(Clone, Debug, PartialEq, Eq)]
struct DirtyTiles {
    columns: u16,
    rows: u16,
    dirty: Vec<bool>,
}

impl DirtyTiles {
    spec fn wf_for(&self, width: int, height: int) -> bool {
        &&& 0 < width <= u16::MAX
        &&& 0 < height <= u16::MAX
        &&& self.columns == tile_count(width)
        &&& self.rows == tile_count(height)
        &&& self.dirty@.len() == self.columns * self.rows
    }

    spec fn is_dirty(&self, tile_x: int, tile_y: int) -> bool {
        self.dirty@[tile_y * self.columns + tile_x]
    }

    spec fn all_dirty(&self) -> bool {
        forall|tile_x: int, tile_y: int|
            0 <= tile_x < self.columns && 0 <= tile_y < self.rows ==> #[trigger] self.is_dirty(
                tile_x,
                tile_y,
            )
    }

    proof fn lemma_entries_all_dirty(&self)
        requires
            self.dirty@.len() == self.columns * self.rows,
            forall|i: int| 0 <= i < self.dirty@.len() ==> self.dirty@[i],
        ensures
            self.all_dirty(),
    {
        assert forall|tile_x: int, tile_y: int|
            0 <= tile_x < self.columns && 0 <= tile_y < self.rows implies #[trigger] self.is_dirty(
                tile_x,
                tile_y,
            ) by {
            lemma_grid_bound(self.columns as int, self.rows as int, tile_x, tile_y);
        }
    }

    proof fn lemma_marked_keeps_all_dirty(
        &self,
        before: DirtyTiles,
        first_x: int,
        last_x: int,
        first_y: int,
        last_y: int,
    )
        requires
            before.all_dirty(),
            self.columns == before.columns,
            self.rows == before.rows,
            self.marked_from(before.dirty@, first_x, last_x, first_y, last_y),
        ensures
            self.all_dirty(),
    {
        assert forall|tile_x: int, tile_y: int|
            0 <= tile_x < self.columns && 0 <= tile_y < self.rows implies #[trigger] self.is_dirty(
                tile_x,
                tile_y,
            ) by {
            assert(before.is_dirty(tile_x, tile_y));
        }
    }

    fn new(width: u16, height: u16) -> (tiles: DirtyTiles)
        requires
            width > 0,
            height > 0,
        ensures
            tiles.wf_for(width as int, height as int),
            forall|i: int| 0 <= i < tiles.dirty@.len() ==> !tiles.dirty@[i],
    {
        let columns = width / DIRTY_TILE_SIZE + if width % DIRTY_TILE_SIZE != 0 { 1 } else { 0 };
        let rows = height / DIRTY_TILE_SIZE + if height % DIRTY_TILE_SIZE != 0 { 1 } else { 0 };
        assert(columns as int * rows as int <= 4096 * 4096) by (nonlinear_arith)
            requires columns <= 4096, rows <= 4096;
        let count = columns as usize * rows as usize;
        DirtyTiles { columns, rows, dirty: vec![false; count] }
    }

    fn clear(&mut self)
        ensures
            final(self).columns == old(self).columns,
            final(self).rows == old(self).rows,
            final(self).dirty@.len() == old(self).dirty@.len(),
            forall|i: int| 0 <= i < final(self).dirty@.len() ==> !final(self).dirty@[i],
    {
        let len = self.dirty.len();
        let mut i: usize = 0;
        while i < len
            invariant
                self.columns == old(self).columns,
                self.rows == old(self).rows,
                len == self.dirty@.len(),
                len == old(self).dirty@.len(),
                i <= len,
                forall|j: int| 0 <= j < i ==> !self.dirty@[j],
            decreases len - i,
        {
            self.dirty.set(i, false);
            i = i + 1;
        }
    }

    fn mark_all(&mut self)
        ensures
            final(self).columns == old(self).columns,
            final(self).rows == old(self).rows,
            final(self).dirty@.len() == old(self).dirty@.len(),
            forall|i: int| 0 <= i < final(self).dirty@.len() ==> final(self).dirty@[i],
    {
        let len = self.dirty.len();
        let mut i: usize = 0;
        while i < len
            invariant
                self.columns == old(self).columns,
                self.rows == old(self).rows,
                len == self.dirty@.len(),
                len == old(self).dirty@.len(),
                i <= len,
                forall|j: int| 0 <= j < i ==> self.dirty@[j],
            decreases len - i,
        {
            self.dirty.set(i, true);
            i = i + 1;
        }
    }

    /// Tile `(tile_x, tile_y)` of this grid is dirty exactly when it was dirty in `before`
    /// or it lies in the tile rectangle `[first_x, last_x] x [first_y, last_y]`.
    spec fn marked_from(
        &self,
        before: Seq<bool>,
        first_x: int,
        last_x: int,
        first_y: int,
        last_y: int,
    ) -> bool {
        forall|tile_x: int, tile_y: int|
            0 <= tile_x < self.columns && 0 <= tile_y < self.rows ==> #[trigger] self.is_dirty(
                tile_x,
                tile_y,
            ) == (before[tile_y * self.columns + tile_x] || (first_x <= tile_x <= last_x
                && first_y <= tile_y <= last_y))
    }

    fn mark_pixel(&mut self, x: u16, y: u16, Ghost(width): Ghost<int>, Ghost(height): Ghost<int>)
        requires
            old(self).wf_for(width, height),
            x < width,
            y < height,
        ensures
            final(self).wf_for(width, height),
            final(self).marked_from(
                old(self).dirty@,
                (x / 16) as int,
                (x / 16) as int,
                (y / 16) as int,
                (y / 16) as int,
            ),
    {
        let tile_x = x / DIRTY_TILE_SIZE;
        let tile_y = y / DIRTY_TILE_SIZE;
        self.mark_tile(tile_x, tile_y);
    }

    fn mark_region(
        &mut self,
        region: DirtyRegion,
        Ghost(width): Ghost<int>,
        Ghost(height): Ghost<int>,
    )
        requires
            old(self).wf_for(width, height),
            region_in_bounds(region, width, height),
        ensures
            final(self).wf_for(width, height),
            final(self).marked_from(
                old(self).dirty@,
                (region.x / 16) as int,
                (region.x + region.width - 1) / 16,
                (region.y / 16) as int,
                (region.y + region.height - 1) / 16,
            ),
    {
        let first_tile_x = region.x / DIRTY_TILE_SIZE;
        let first_tile_y = region.y / DIRTY_TILE_SIZE;
        let last_tile_x = (region.x + region.width - 1) / DIRTY_TILE_SIZE;
        let last_tile_y = (region.y + region.height - 1) / DIRTY_TILE_SIZE;
        let ghost before = self.dirty@;
        let mut tile_y = first_tile_y;
        while tile_y <= last_tile_y
            invariant
                self.wf_for(width, height),
                before.len() == self.dirty@.len(),
                first_tile_y <= tile_y <= last_tile_y + 1,
                last_tile_x < self.columns,
                last_tile_y < self.rows,
                first_tile_x <= last_tile_x,
                self.marked_from(
                    before,
                    first_tile_x as int,
                    last_tile_x as int,
                    first_tile_y as int,
                    tile_y - 1,
                ),
            decreases last_tile_y + 1 - tile_y,
        {
            let mut tile_x = first_tile_x;
            while tile_x <= last_tile_x
                invariant
                    self.wf_for(width, height),
                    before.len() == self.dirty@.len(),
                    first_tile_y <= tile_y <= last_tile_y,
                    first_tile_x <= tile_x <= last_tile_x + 1,
                    last_tile_x < self.columns,
                    last_tile_y < self.rows,
                    forall|tx: int, ty: int|
                        0 <= tx < self.columns && 0 <= ty < self.rows ==> #[trigger] self.is_dirty(
                            tx,
                            ty,
                        ) == (before[ty * self.columns + tx] || (first_tile_x <= tx
                            <= last_tile_x && first_tile_y <= ty < tile_y) || (ty == tile_y
                            && first_tile_x <= tx < tile_x)),
                decreases last_tile_x + 1 - tile_x,
            {
                self.mark_tile(tile_x, tile_y);
                tile_x = tile_x + 1;
            }
            tile_y = tile_y + 1;
        }
    }

    /// The clipped canvas rectangles of all dirty tiles, in row-major tile order.
    fn regions(&self, canvas_width: u16, canvas_height: u16) -> (regions: Vec<DirtyRegion>)
        requires
            self.wf_for(canvas_width as int, canvas_height as int),
        ensures
            regions@ == dirty_tile_regions(
                self.dirty@,
                self.columns as int,
                self.columns * self.rows,
                canvas_width as int,
                canvas_height as int,
            ),
    {
        let mut regions: Vec<DirtyRegion> = Vec::new();
        let ghost width = canvas_width as int;
        let ghost height = canvas_height as int;
        let len = self.dirty.len();
        let mut tile_y: u16 = 0;
        while tile_y < self.rows
            invariant
                self.wf_for(width, height),
                width == canvas_width,
                height == canvas_height,
                len == self.dirty@.len(),
                tile_y <= self.rows,
                regions@ == dirty_tile_regions(
                    self.dirty@,
                    self.columns as int,
                    tile_y * self.columns,
                    width,
                    height,
                ),
            decreases self.rows - tile_y,
        {
            let mut tile_x: u16 = 0;
            while tile_x < self.columns
                invariant
                    self.wf_for(width, height),
                    width == canvas_width,
                    height == canvas_height,
                    len == self.dirty@.len(),
                    tile_y < self.rows,
                    tile_x <= self.columns,
                    regions@ == dirty_tile_regions(
                        self.dirty@,
                        self.columns as int,
                        tile_y * self.columns + tile_x,
                        width,
                        height,
                    ),
                decreases self.columns - tile_x,
            {
                proof {
                    lemma_grid_bound(self.columns as int, self.rows as int, tile_x as int, tile_y as int);
                    lemma_fundamental_div_mod_converse(
                        tile_y * self.columns + tile_x,
                        self.columns as int,
                        tile_y as int,
                        tile_x as int,
                    );
                }
                let index = tile_y as usize * self.columns as usize + tile_x as usize;
                if self.dirty[index] {
                    let x = tile_x * DIRTY_TILE_SIZE;
                    let y = tile_y * DIRTY_TILE_SIZE;
                    let remaining_x = canvas_width - x;
                    let remaining_y = canvas_height - y;
                    let region = DirtyRegion {
                        x,
                        y,
                        width: if DIRTY_TILE_SIZE <= remaining_x {
                            DIRTY_TILE_SIZE
                        } else {
                            remaining_x
                        },
                        height: if DIRTY_TILE_SIZE <= remaining_y {
                            DIRTY_TILE_SIZE
                        } else {
                            remaining_y
                        },
                    };
                    regions.push(region);
                }
                tile_x = tile_x + 1;
            }
            assert((tile_y + 1) * self.columns == tile_y * self.columns + self.columns)
                by (nonlinear_arith);
            tile_y = tile_y + 1;
        }
        assert(self.rows * self.columns == self.columns * self.rows) by (nonlinear_arith);
        regions
    }

    fn mark_tile(&mut self, tile_x: u16, tile_y: u16)
        requires
            old(self).columns <= 4096,
            tile_x < old(self).columns,
            tile_y < old(self).rows,
            old(self).dirty@.len() == old(self).columns * old(self).rows,
        ensures
            final(self).columns == old(self).columns,
            final(self).rows == old(self).rows,
            final(self).dirty@.len() == old(self).dirty@.len(),
            forall|tx: int, ty: int|
                0 <= tx < final(self).columns && 0 <= ty < final(self).rows ==> #[trigger] final(self).is_dirty(tx, ty) == (old(self).is_dirty(tx, ty) || (tx == tile_x && ty
                    == tile_y)),
    {
        let len = self.dirty.len();
        proof {
            lemma_grid_bound(self.columns as int, self.rows as int, tile_x as int, tile_y as int);
        }
        let index = tile_y as usize * self.columns as usize + tile_x as usize;
        let ghost before = *self;
        if index < len {
            self.dirty.set(index, true);
        }
        proof {
            assert forall|tx: int, ty: int|
                0 <= tx < self.columns && 0 <= ty < self.rows implies #[trigger] self.is_dirty(
                    tx,
                    ty,
                ) == (before.is_dirty(tx, ty) || (tx == tile_x && ty == tile_y)) by {
                lemma_grid_index(self.columns as int, tx, ty, tile_x as int, tile_y as int);
                lemma_grid_bound(self.columns as int, self.rows as int, tx, ty);
            }
        }
    }
}

/// The clipped regions of the dirty tiles among the first `count` tiles of a grid
/// `columns` wide, in row-major order.
pub open spec fn dirty_tile_regions(
    dirty: Seq<bool>,
    columns: int,
    count: int,
    width: int,
    height: int,
) -> Seq<DirtyRegion>
    decreases count,
{
    if count <= 0 {
        Seq::empty()
    } else {
        let earlier = dirty_tile_regions(dirty, columns, count - 1, width, height);
        let index = count - 1;
        if dirty[index] {
            earlier.push(tile_region(index % columns, index / columns, width, height))
        } else {
            earlier
        }
    }
}


/// Ways a canvas operation can be refused.
#[derive(Clone, Copy, Debug, PartialEq, Eq, Structural)]
pub enum CanvasError {
    InvalidSize { width: u16, height: u16 },
    InvalidRegion { region: DirtyRegion },
    OutOfBounds { x: u16, y: u16 },
}

impl CanvasError {
    pub open spec fn spec_message(&self) -> Seq<char> {
        match self {
            CanvasError::InvalidSize { width, height } => "canvas size must be non-zero, got "@
                + chars_of(decimal(*width as nat)) + "x"@ + chars_of(decimal(*height as nat)),
            CanvasError::InvalidRegion { region } => "canvas dirty region out of bounds: "@
                + chars_of(decimal(region.x as nat)) + ","@ + chars_of(decimal(region.y as nat))
                + " "@ + chars_of(decimal(region.width as nat)) + "x"@ + chars_of(
                decimal(region.height as nat),
            ),
            CanvasError::OutOfBounds { x, y } => "canvas coordinate out of bounds: ("@ + chars_of(
                decimal(*x as nat),
            ) + ", "@ + chars_of(decimal(*y as nat)) + ")"@,
        }
    }

    /// The user-facing description of the error.
    pub fn message(&self) -> (message: String)
        ensures
            message@ == self.spec_message(),
    {
        let mut text = String::new();
        match self {
            CanvasError::InvalidSize { width, height } => {
                append_str(&mut text, "canvas size must be non-zero, got ");
                append_decimal(&mut text, *width as u64);
                append_str(&mut text, "x");
                append_decimal(&mut text, *height as u64);
            },
            CanvasError::InvalidRegion { region } => {
                append_str(&mut text, "canvas dirty region out of bounds: ");
                append_decimal(&mut text, region.x as u64);
                append_str(&mut text, ",");
                append_decimal(&mut text, region.y as u64);
                append_str(&mut text, " ");
                append_decimal(&mut text, region.width as u64);
                append_str(&mut text, "x");
                append_decimal(&mut text, region.height as u64);
            },
            CanvasError::OutOfBounds { x, y } => {
                append_str(&mut text, "canvas coordinate out of bounds: (");
                append_decimal(&mut text, *x as u64);
                append_str(&mut text, ", ");
                append_decimal(&mut text, *y as u64);
                append_str(&mut text, ")");
            },
        }
        proof {
            assert(text@ =~= self.spec_message());
        }
        text
    }
}

/// An RGBA pixel surface that records which of its pixels changed since the dirty
/// state was last cleared, both as one bounding region and as 16x16 tiles.
#[derive(Clone, Debug, PartialEq, Eq)]
pub struct Canvas {
    width: u16,
    height: u16,
    pixels: Vec<Rgba>,
    dirty_region: Option<DirtyRegion>,
    dirty_tiles: DirtyTiles,
    full_frame_required: bool,
}

/// Tile `(tile_x, tile_y)` lies in a `width` x `height` canvas.
pub open spec fn tile_in_grid(tile_x: int, tile_y: int, width: int, height: int) -> bool {
    0 <= tile_x < tile_count(width) && 0 <= tile_y < tile_count(height)
}

/// The dirty tiles of `after` are those of `before` plus the tile rectangle
/// `[first_x, last_x] x [first_y, last_y]`.
pub open spec fn tiles_marked(
    before: Canvas,
    after: Canvas,
    first_x: int,
    last_x: int,
    first_y: int,
    last_y: int,
) -> bool {
    forall|tile_x: int, tile_y: int|
        tile_in_grid(tile_x, tile_y, after.spec_width(), after.spec_height()) ==> #[trigger] after.spec_tile_dirty(
            tile_x,
            tile_y,
        ) == (before.spec_tile_dirty(tile_x, tile_y) || (first_x <= tile_x <= last_x && first_y
            <= tile_y <= last_y))
}

/// What `set_pixel(x, y, pixel)` does to the dirty region: it is extended by `(x, y)` when
/// the write is in bounds and changes the stored value, and kept otherwise.
pub open spec fn pixel_write_dirty(before: Canvas, after: Canvas, x: int, y: int, pixel: Rgba) -> bool {
    &&& after.spec_width() == before.spec_width()
    &&& after.spec_height() == before.spec_height()
    &&& after.spec_full_frame_required() == before.spec_full_frame_required()
    &&& after.spec_dirty_region() == if before.in_bounds(x, y) && before.pixel_at(x, y) != pixel {
        spec_merge_pixel(before.spec_dirty_region(), x, y)
    } else {
        before.spec_dirty_region()
    }
}

/// The dirty region grown from `start` by the points of `points`, in order.
pub open spec fn merged_pixels(start: Option<DirtyRegion>, points: Seq<(int, int)>) -> Option<
    DirtyRegion,
>
    decreases points.len(),
{
    if points.len() == 0 {
        start
    } else {
        spec_merge_pixel(merged_pixels(start, points.drop_last()), points.last().0, points.last().1)
    }
}

/// The coordinates of the writes among the first `count` of `writes` that changed the
/// stored value, where `run[i]` is the canvas that write `i` was applied to.
pub open spec fn changing_writes(run: Seq<Canvas>, writes: Seq<(int, int, Rgba)>, count: int) -> Seq<
    (int, int),
>
    decreases count,
{
    if count <= 0 {
        Seq::empty()
    } else {
        let (x, y, pixel) = writes[count - 1];
        let earlier = changing_writes(run, writes, count - 1);
        if run[count - 1].in_bounds(x, y) && run[count - 1].pixel_at(x, y) != pixel {
            earlier.push((x, y))
        } else {
            earlier
        }
    }
}

/// After any run of `set_pixel` calls, the dirty region is the one the run started with
/// grown by exactly the coordinates whose write changed the stored value, in order; from a
/// clean canvas that is their bounding box. The size and the full-frame flag are kept.
pub proof fn lemma_pixel_writes_dirty_region(run: Seq<Canvas>, writes: Seq<(int, int, Rgba)>)
    requires
        run.len() == writes.len() + 1,
        forall|i: int|
            0 <= i < writes.len() ==> pixel_write_dirty(
                #[trigger] run[i],
                run[i + 1],
                writes[i].0,
                writes[i].1,
                writes[i].2,
            ),
    ensures
        run.last().spec_dirty_region() == merged_pixels(
            run[0].spec_dirty_region(),
            changing_writes(run, writes, writes.len() as int),
        ),
        run.last().spec_width() == run[0].spec_width(),
        run.last().spec_height() == run[0].spec_height(),
        run.last().spec_full_frame_required() == run[0].spec_full_frame_required(),
    decreases writes.len(),
{
    if writes.len() > 0 {
        let n = writes.len() - 1;
        let earlier = run.drop_last();
        let earlier_writes = writes.drop_last();
        assert forall|i: int| 0 <= i < earlier_writes.len() implies pixel_write_dirty(
            #[trigger] earlier[i],
            earlier[i + 1],
            earlier_writes[i].0,
            earlier_writes[i].1,
            earlier_writes[i].2,
        ) by {
            assert(pixel_write_dirty(run[i], run[i + 1], writes[i].0, writes[i].1, writes[i].2));
        }
        lemma_pixel_writes_dirty_region(earlier, earlier_writes);
        lemma_changing_writes_prefix(run, writes, n);
        assert(earlier.last() == run[n]);
        assert(pixel_write_dirty(run[n], run[n + 1], writes[n].0, writes[n].1, writes[n].2));
        let points = changing_writes(run, writes, n + 1);
        if points.len() > changing_writes(run, writes, n).len() {
            assert(points.drop_last() == changing_writes(run, writes, n));
        }
    }
}

proof fn lemma_changing_writes_prefix(run: Seq<Canvas>, writes: Seq<(int, int, Rgba)>, count: int)
    requires
        0 <= count < writes.len(),
        run.len() == writes.len() + 1,
    ensures
        changing_writes(run.drop_last(), writes.drop_last(), count) == changing_writes(
            run,
            writes,
            count,
        ),
    decreases count,
{
    if count > 0 {
        lemma_changing_writes_prefix(run, writes, count - 1);
        assert(run.drop_last()[count - 1] == run[count - 1]);
        assert(writes.drop_last()[count - 1] == writes[count - 1]);
    }
}

/// `before` and `after` hold the same pixels and the same dirty state.
pub open spec fn same_canvas(before: Canvas, after: Canvas) -> bool {
    &&& after.spec_width() == before.spec_width()
    &&& after.spec_height() == before.spec_height()
    &&& after.spec_pixels() == before.spec_pixels()
    &&& after.spec_dirty_region() == before.spec_dirty_region()
    &&& tiles_unchanged(before, after)
    &&& after.spec_full_frame_required() == before.spec_full_frame_required()
}

/// `after` has exactly the dirty tiles of `before`.
pub open spec fn tiles_unchanged(before: Canvas, after: Canvas) -> bool {
    forall|tile_x: int, tile_y: int|
        tile_in_grid(tile_x, tile_y, after.spec_width(), after.spec_height()) ==> #[trigger] after.spec_tile_dirty(
            tile_x,
            tile_y,
        ) == before.spec_tile_dirty(tile_x, tile_y)
}

/// Every tile of `canvas` has the dirty flag `dirty`.
pub open spec fn tiles_all(canvas: Canvas, dirty: bool) -> bool {
    forall|tile_x: int, tile_y: int|
        tile_in_grid(tile_x, tile_y, canvas.spec_width(), canvas.spec_height()) ==> #[trigger] canvas.spec_tile_dirty(
            tile_x,
            tile_y,
        ) == dirty
}

/// The pixel `(x, y)` is inside both the dirty region and a dirty tile of `canvas`.
pub open spec fn change_recorded(canvas: Canvas, x: int, y: int) -> bool {
    &&& canvas.spec_dirty_region() is Some
    &&& region_contains(canvas.spec_dirty_region()->0, x, y)
    &&& canvas.spec_tile_dirty(x / 16, y / 16)
}

/// Going from `before` to `after` lost no dirty information: the size is kept, every pixel
/// that differs is recorded as dirty in `after`, and nothing dirty in `before` became clean.
pub open spec fn tracks_changes(before: Canvas, after: Canvas) -> bool {
    &&& after.spec_width() == before.spec_width()
    &&& after.spec_height() == before.spec_height()
    &&& forall|x: int, y: int|
        0 <= x < after.spec_width() && 0 <= y < after.spec_height() && #[trigger] after.pixel_at(
            x,
            y,
        ) != before.pixel_at(x, y) ==> change_recorded(after, x, y)
    &&& before.spec_dirty_region() is Some ==> after.spec_dirty_region() is Some && region_within(
        before.spec_dirty_region()->0,
        after.spec_dirty_region()->0,
    )
    &&& forall|tile_x: int, tile_y: int|
        tile_in_grid(tile_x, tile_y, after.spec_width(), after.spec_height())
            && before.spec_tile_dirty(tile_x, tile_y) ==> #[trigger] after.spec_tile_dirty(
            tile_x,
            tile_y,
        )
    &&& before.spec_full_frame_required() ==> after.spec_full_frame_required()
}

impl Canvas {
    pub closed spec fn spec_width(&self) -> int {
        self.width as int
    }

    pub closed spec fn spec_height(&self) -> int {
        self.height as int
    }

    pub closed spec fn spec_pixels(&self) -> Seq<Rgba> {
        self.pixels@
    }

    pub closed spec fn spec_dirty_region(&self) -> Option<DirtyRegion> {
        self.dirty_region
    }

    pub closed spec fn spec_full_frame_required(&self) -> bool {
        self.full_frame_required
    }

    pub closed spec fn spec_tile_dirty(&self, tile_x: int, tile_y: int) -> bool {
        self.dirty_tiles.is_dirty(tile_x, tile_y)
    }

    /// The clipped regions of all dirty tiles in row-major tile order.
    pub closed spec fn spec_dirty_tile_regions(&self) -> Seq<DirtyRegion> {
        dirty_tile_regions(
            self.dirty_tiles.dirty@,
            self.dirty_tiles.columns as int,
            self.dirty_tiles.columns * self.dirty_tiles.rows,
            self.width as int,
            self.height as int,
        )
    }

    /// The canvas invariant: non-zero size, one pixel per coordinate, a tile grid that
    /// covers the canvas, a dirty region that lies inside the canvas, and, while a full
    /// frame is required, the whole canvas dirty.
    pub closed spec fn wf(&self) -> bool {
        &&& self.width > 0
        &&& self.height > 0
        &&& self.pixels@.len() == self.width * self.height
        &&& self.dirty_tiles.wf_for(self.width as int, self.height as int)
        &&& self.dirty_region matches Some(region) ==> region_in_bounds(
            region,
            self.width as int,
            self.height as int,
        )
        &&& self.full_frame_required ==> self.dirty_region == Some(
            spec_full_region(self.width, self.height),
        )
        &&& self.full_frame_required ==> self.dirty_tiles.all_dirty()
    }

    /// While a full frame is required the whole canvas is dirty: the dirty region is the
    /// full canvas and every tile is dirty and reported.
    pub proof fn lemma_full_frame_state(&self)
        requires
            self.wf(),
            self.spec_full_frame_required(),
        ensures
            self.spec_dirty_region() == Some(
                spec_full_region(self.spec_width() as u16, self.spec_height() as u16),
            ),
            tiles_all(*self, true),
            self.spec_dirty_tile_regions().len() == tile_count(self.spec_width()) * tile_count(
                self.spec_height(),
            ),
    {
        assert forall|tile_x: int, tile_y: int|
            tile_in_grid(tile_x, tile_y, self.spec_width(), self.spec_height()) implies #[trigger] self.spec_tile_dirty(
                tile_x,
                tile_y,
            ) by {
            assert(self.dirty_tiles.is_dirty(tile_x, tile_y));
        }
        lemma_every_tile_reported(*self);
    }

    pub open spec fn in_bounds(&self, x: int, y: int) -> bool {
        0 <= x < self.spec_width() && 0 <= y < self.spec_height()
    }

    /// The pixel at column `x`, row `y`.
    pub open spec fn pixel_at(&self, x: int, y: int) -> Rgba {
        self.spec_pixels()[y * self.spec_width() + x]
    }

    pub proof fn lemma_wf(&self)
        requires
            self.wf(),
        ensures
            0 < self.spec_width() <= u16::MAX,
            0 < self.spec_height() <= u16::MAX,
            self.spec_pixels().len() == self.spec_width() * self.spec_height(),
            self.spec_dirty_region() matches Some(region) ==> region_in_bounds(
                region,
                self.spec_width(),
                self.spec_height(),
            ),
    {
    }

    /// Creates a `width` x `height` canvas filled with `fill`, with nothing dirty.
    pub fn new(width: u16, height: u16, fill: Rgba) -> (result: Result<Canvas, CanvasError>)
        ensures
            result is Err <==> (width == 0 || height == 0),
            result is Err ==> result == Err::<Canvas, CanvasError>(
                CanvasError::InvalidSize { width, height },
            ),
            result matches Ok(canvas) ==> {
                &&& canvas.wf()
                &&& canvas.spec_width() == width
                &&& canvas.spec_height() == height
                &&& forall|i: int| 0 <= i < canvas.spec_pixels().len() ==> canvas.spec_pixels()[i] == fill
                &&& canvas.spec_dirty_region() is None
                &&& tiles_all(canvas, false)
                &&& !canvas.spec_full_frame_required()
            },
    {
        if width == 0 || height == 0 {
            return Err(CanvasError::InvalidSize { width, height });
        }
        assert(width as int * height as int <= 65535 * 65535) by (nonlinear_arith)
            requires width <= 65535, height <= 65535;
        let len = width as usize * height as usize;
        let canvas = Canvas {
            width,
            height,
            pixels: vec![fill; len],
            dirty_region: None,
            dirty_tiles: DirtyTiles::new(width, height),
            full_frame_required: false,
        };
        proof {
            assert forall|tile_x: int, tile_y: int|
                tile_in_grid(tile_x, tile_y, canvas.spec_width(), canvas.spec_height()) implies !#[trigger] canvas.spec_tile_dirty(
                    tile_x,
                    tile_y,
                ) by {
                lemma_grid_bound(
                    canvas.dirty_tiles.columns as int,
                    canvas.dirty_tiles.rows as int,
                    tile_x,
                    tile_y,
                );
            }
        }
        Ok(canvas)
    }

    pub fn width(&self) -> (width: u16)
        ensures
            width == self.spec_width(),
    {
        self.width
    }

    pub fn height(&self) -> (height: u16)
        ensures
            height == self.spec_height(),
    {
        self.height
    }

    /// All pixels in row-major order.
    pub fn pixels(&self) -> (pixels: &[Rgba])
        ensures
            pixels@ == self.spec_pixels(),
    {
        self.pixels.as_slice()
    }

    fn index(&self, x: u16, y: u16) -> (index: Option<usize>)
        requires
            self.wf(),
        ensures
            index is Some <==> self.in_bounds(x as int, y as int),
            index matches Some(i) ==> i == y * self.spec_width() + x && i < self.spec_pixels().len(),
    {
        if x >= self.width || y >= self.height {
            return None;
        }
        proof {
            lemma_grid_bound(self.width as int, self.height as int, x as int, y as int);
            lemma_u16_product(y as int, self.width as int);
        }
        Some(y as usize * self.width as usize + x as usize)
    }

    /// The pixel at `(x, y)`, or `None` outside the canvas.
    pub fn pixel(&self, x: u16, y: u16) -> (pixel: Option<Rgba>)
        requires
            self.wf(),
        ensures
            pixel is Some <==> self.in_bounds(x as int, y as int),
            pixel matches Some(p) ==> p == self.pixel_at(x as int, y as int),
    {
        match self.index(x, y) {
            Some(index) => Some(self.pixels[index]),
            None => None,
        }
    }

    /// The bounding region of all changes since the dirty state was last cleared.
    pub fn dirty_region(&self) -> (region: Option<DirtyRegion>)
        ensures
            region == self.spec_dirty_region(),
    {
        self.dirty_region
    }

    /// The clipped regions of all dirty 16x16 tiles, in row-major tile order: every dirty
    /// tile's region appears (see `lemma_dirty_tile_regions`), each reported region is a
    /// dirty tile's, and they come in strictly increasing tile order, so none twice.
    pub fn dirty_regions(&self) -> (regions: Vec<DirtyRegion>)
        requires
            self.wf(),
        ensures
            regions@ == self.spec_dirty_tile_regions(),
            forall|tile_x: int, tile_y: int|
                tile_in_grid(tile_x, tile_y, self.spec_width(), self.spec_height())
                    && #[trigger] self.spec_tile_dirty(tile_x, tile_y) ==> exists|j: int|
                    0 <= j < regions@.len() && regions@[j] == tile_region(
                        tile_x,
                        tile_y,
                        self.spec_width(),
                        self.spec_height(),
                    ),
            forall|j: int| 0 <= j < regions@.len() ==> #[trigger] reported_tile_is_dirty(*self, j),
            forall|i: int, j: int|
                0 <= i < j < regions@.len() ==> tile_order(#[trigger] regions@[i], tile_count(self.spec_width()))
                    < tile_order(#[trigger] regions@[j], tile_count(self.spec_width())),
    {
        proof {
            lemma_dirty_tile_regions(*self);
            lemma_dirty_tile_regions_sorted(*self);
        }
        self.dirty_tiles.regions(self.width, self.height)
    }

    pub fn full_frame_required(&self) -> (required: bool)
        ensures
            required == self.spec_full_frame_required(),
    {
        self.full_frame_required
    }


    fn mark_dirty(&mut self, x: u16, y: u16)
        requires
            old(self).wf(),
            old(self).in_bounds(x as int, y as int),
        ensures
            final(self).wf(),
            final(self).spec_width() == old(self).spec_width(),
            final(self).spec_height() == old(self).spec_height(),
            final(self).spec_pixels() == old(self).spec_pixels(),
            final(self).spec_dirty_region() == spec_merge_pixel(
                old(self).spec_dirty_region(),
                x as int,
                y as int,
            ),
            tiles_marked(
                *old(self),
                *final(self),
                (x / 16) as int,
                (x / 16) as int,
                (y / 16) as int,
                (y / 16) as int,
            ),
            final(self).spec_full_frame_required() == old(self).spec_full_frame_required(),
    {
        let merged = match self.dirty_region {
            Some(region) => {
                proof {
                    lemma_extend_bounds(
                        region,
                        x as int,
                        y as int,
                        self.width as int,
                        self.height as int,
                    );
                }
                region.extend_to(x, y)
            },
            None => DirtyRegion::single_pixel(x, y),
        };
        let ghost tiles_before = self.dirty_tiles;
        self.dirty_region = Some(merged);
        self.dirty_tiles.mark_pixel(x, y, Ghost(self.width as int), Ghost(self.height as int));
        proof {
            if self.full_frame_required {
                assert(merged == spec_full_region(self.width, self.height));
                self.dirty_tiles.lemma_marked_keeps_all_dirty(
                    tiles_before,
                    (x / 16) as int,
                    (x / 16) as int,
                    (y / 16) as int,
                    (y / 16) as int,
                );
            }
        }
    }

    /// Writes one pixel. A pixel that actually changes is added to the dirty region and
    /// marks its tile dirty; writing the value already there records nothing.
    pub fn set_pixel(&mut self, x: u16, y: u16, pixel: Rgba) -> (result: Result<(), CanvasError>)
        requires
            old(self).wf(),
        ensures
            final(self).wf(),
            result is Ok <==> old(self).in_bounds(x as int, y as int),
            result is Err ==> result == Err::<(), CanvasError>(CanvasError::OutOfBounds { x, y })
                && same_canvas(*old(self), *final(self)),
            result is Ok ==> final(self).spec_pixels() == old(self).spec_pixels().update(
                y * old(self).spec_width() + x,
                pixel,
            ),
            result is Ok && old(self).pixel_at(x as int, y as int) != pixel ==> {
                &&& final(self).spec_dirty_region() == spec_merge_pixel(
                    old(self).spec_dirty_region(),
                    x as int,
                    y as int,
                )
                &&& tiles_marked(
                    *old(self),
                    *final(self),
                    (x / 16) as int,
                    (x / 16) as int,
                    (y / 16) as int,
                    (y / 16) as int,
                )
            },
            result is Ok && old(self).pixel_at(x as int, y as int) == pixel ==> *final(self)
                == *old(self),
            final(self).spec_full_frame_required() == old(self).spec_full_frame_required(),
            tracks_changes(*old(self), *final(self)),
            final(self).pixel_at(x as int, y as int) == pixel || result is Err,
            pixel_write_dirty(*old(self), *final(self), x as int, y as int, pixel),
    {
        let index = match self.index(x, y) {
            Some(index) => index,
            None => {
                return Err(CanvasError::OutOfBounds { x, y });
            },
        };
        if self.pixels[index] != pixel {
            let ghost before = *self;
            self.pixels.set(index, pixel);
            self.mark_dirty(x, y);
            proof {
                lemma_extend_bounds_or_single(before, x as int, y as int);
                assert forall|px: int, py: int|
                    0 <= px < self.spec_width() && 0 <= py < self.spec_height()
                        && #[trigger] self.pixel_at(px, py) != before.pixel_at(
                        px,
                        py,
                    ) implies change_recorded(*self, px, py) by {
                    lemma_grid_index(self.width as int, px, py, x as int, y as int);
                    lemma_grid_bound(self.width as int, self.height as int, px, py);
                }
            }
        } else {
            proof {
                assert(self.pixels@.update(index as int, pixel) =~= self.pixels@);
            }
        }
        Ok(())
    }

    /// Adds the part of `region` that lies on the canvas to the dirty region and marks every
    /// tile it touches; a region that starts past the right or bottom edge marks nothing.
    pub fn mark_dirty_region(&mut self, region: DirtyRegion)
        requires
            old(self).wf(),
            region.width >= 1,
            region.height >= 1,
            region.x + region.width <= u16::MAX,
            region.y + region.height <= u16::MAX,
        ensures
            final(self).wf(),
            final(self).spec_width() == old(self).spec_width(),
            final(self).spec_height() == old(self).spec_height(),
            final(self).spec_pixels() == old(self).spec_pixels(),
            final(self).spec_full_frame_required() == old(self).spec_full_frame_required(),
            tracks_changes(*old(self), *final(self)),
            region_in_bounds(region, old(self).spec_width(), old(self).spec_height()) ==> spec_clip_region(
                region,
                old(self).spec_width(),
                old(self).spec_height(),
            ) == Some(region),
            spec_clip_region(region, old(self).spec_width(), old(self).spec_height()) matches Some(
                clipped,
            ) ==> {
                &&& region_in_bounds(clipped, old(self).spec_width(), old(self).spec_height())
                &&& final(self).spec_dirty_region() == spec_merge_region(
                    old(self).spec_dirty_region(),
                    clipped,
                )
                &&& tiles_marked(
                    *old(self),
                    *final(self),
                    (clipped.x / 16) as int,
                    (clipped.x + clipped.width - 1) / 16,
                    (clipped.y / 16) as int,
                    (clipped.y + clipped.height - 1) / 16,
                )
            },
            spec_clip_region(region, old(self).spec_width(), old(self).spec_height()) is None
                ==> same_canvas(*old(self), *final(self)),
    {
        if region.x >= self.width || region.y >= self.height {
            return;
        }
        let right: u16 = if region.x + region.width < self.width {
            region.x + region.width
        } else {
            self.width
        };
        let bottom: u16 = if region.y + region.height < self.height {
            region.y + region.height
        } else {
            self.height
        };
        let clipped = DirtyRegion {
            x: region.x,
            y: region.y,
            width: right - region.x,
            height: bottom - region.y,
        };
        self.mark_region_in_bounds(clipped);
    }

    /// Adds `region`, which lies on the canvas, to the dirty region and marks every tile it
    /// touches.
    fn mark_region_in_bounds(&mut self, region: DirtyRegion)
        requires
            old(self).wf(),
            region_in_bounds(region, old(self).spec_width(), old(self).spec_height()),
        ensures
            final(self).wf(),
            final(self).spec_width() == old(self).spec_width(),
            final(self).spec_height() == old(self).spec_height(),
            final(self).spec_pixels() == old(self).spec_pixels(),
            final(self).spec_dirty_region() == spec_merge_region(
                old(self).spec_dirty_region(),
                region,
            ),
            tiles_marked(
                *old(self),
                *final(self),
                (region.x / 16) as int,
                (region.x + region.width - 1) / 16,
                (region.y / 16) as int,
                (region.y + region.height - 1) / 16,
            ),
            final(self).spec_full_frame_required() == old(self).spec_full_frame_required(),
            tracks_changes(*old(self), *final(self)),
    {
        let merged = match self.dirty_region {
            Some(current) => {
                proof {
                    lemma_union_bounds(current, region, self.width as int, self.height as int);
                }
                current.extend_to_region(region)
            },
            None => region,
        };
        let ghost tiles_before = self.dirty_tiles;
        self.dirty_region = Some(merged);
        self.dirty_tiles.mark_region(region, Ghost(self.width as int), Ghost(self.height as int));
        proof {
            if self.full_frame_required {
                assert(merged == spec_full_region(self.width, self.height));
                self.dirty_tiles.lemma_marked_keeps_all_dirty(
                    tiles_before,
                    (region.x / 16) as int,
                    (region.x + region.width - 1) / 16,
                    (region.y / 16) as int,
                    (region.y + region.height - 1) / 16,
                );
            }
        }
    }

    /// Marks the whole canvas dirty and asks for a full-frame update.
    pub fn mark_full_frame_required(&mut self)
        requires
            old(self).wf(),
        ensures
            final(self).wf(),
            final(self).spec_width() == old(self).spec_width(),
            final(self).spec_height() == old(self).spec_height(),
            final(self).spec_pixels() == old(self).spec_pixels(),
            final(self).spec_dirty_region() == Some(
                spec_full_region(old(self).spec_width() as u16, old(self).spec_height() as u16),
            ),
            tiles_all(*final(self), true),
            final(self).spec_dirty_tile_regions().len() == tile_count(old(self).spec_width())
                * tile_count(old(self).spec_height()),
            final(self).spec_full_frame_required(),
            tracks_changes(*old(self), *final(self)),
    {
        self.dirty_region = Some(DirtyRegion::full(self.width, self.height));
        self.dirty_tiles.mark_all();
        self.full_frame_required = true;
        proof {
            self.dirty_tiles.lemma_entries_all_dirty();
            self.lemma_all_tiles_dirty();
            lemma_every_tile_reported(*self);
        }
    }

    /// Every entry of the tile grid is set; see `lemma_every_tile_dirty`.
    pub closed spec fn every_tile_dirty(&self) -> bool {
        forall|i: int| 0 <= i < self.dirty_tiles.dirty@.len() ==> self.dirty_tiles.dirty@[i]
    }

    pub proof fn lemma_every_tile_dirty(&self)
        requires
            self.wf(),
            self.every_tile_dirty(),
        ensures
            tiles_all(*self, true),
    {
        self.lemma_all_tiles_dirty();
    }

    proof fn lemma_all_tiles_dirty(&self)
        requires
            self.dirty_tiles.wf_for(self.width as int, self.height as int),
            forall|i: int| 0 <= i < self.dirty_tiles.dirty@.len() ==> self.dirty_tiles.dirty@[i],
        ensures
            tiles_all(*self, true),
    {
        assert forall|tile_x: int, tile_y: int|
            tile_in_grid(tile_x, tile_y, self.spec_width(), self.spec_height()) implies #[trigger] self.spec_tile_dirty(
                tile_x,
                tile_y,
            ) by {
            lemma_grid_bound(
                self.dirty_tiles.columns as int,
                self.dirty_tiles.rows as int,
                tile_x,
                tile_y,
            );
        }
    }


    fn validate_region(&self, region: DirtyRegion) -> (result: Result<(), CanvasError>)
        requires
            self.wf(),
        ensures
            result is Ok <==> region_in_bounds(region, self.spec_width(), self.spec_height()),
            result is Err ==> result == Err::<(), CanvasError>(CanvasError::InvalidRegion { region }),
    {
        if region.width == 0 || region.height == 0 {
            return Err(CanvasError::InvalidRegion { region });
        }
        let right = region.x as u32 + region.width as u32;
        let bottom = region.y as u32 + region.height as u32;
        if region.x >= self.width || region.y >= self.height || right > self.width as u32 || bottom
            > self.height as u32 {
            return Err(CanvasError::InvalidRegion { region });
        }
        Ok(())
    }

    /// Sets every pixel to `pixel`. When something changes, the whole canvas becomes dirty
    /// and a full-frame update is requested; a canvas already filled with `pixel` is left
    /// untouched.
    pub fn fill(&mut self, pixel: Rgba)
        requires
            old(self).wf(),
        ensures
            final(self).wf(),
            final(self).spec_width() == old(self).spec_width(),
            final(self).spec_height() == old(self).spec_height(),
            (forall|i: int| 0 <= i < old(self).spec_pixels().len() ==> old(self).spec_pixels()[i] == pixel)
                ==> same_canvas(*old(self), *final(self)),
            !(forall|i: int| 0 <= i < old(self).spec_pixels().len() ==> old(self).spec_pixels()[i] == pixel)
                ==> {
                &&& final(self).spec_dirty_region() == Some(
                    spec_full_region(old(self).spec_width() as u16, old(self).spec_height() as u16),
                )
                &&& tiles_all(*final(self), true)
                &&& final(self).spec_full_frame_required()
            },
            final(self).spec_pixels().len() == old(self).spec_pixels().len(),
            forall|i: int| 0 <= i < final(self).spec_pixels().len() ==> final(self).spec_pixels()[i] == pixel,
            tracks_changes(*old(self), *final(self)),
    {
        let len = self.pixels.len();
        let mut i: usize = 0;
        let mut uniform = true;
        while i < len
            invariant
                *self == *old(self),
                len == self.pixels@.len(),
                i <= len,
                uniform == (forall|j: int| 0 <= j < i ==> self.pixels@[j] == pixel),
            decreases len - i,
        {
            if self.pixels[i] != pixel {
                uniform = false;
            }
            i = i + 1;
        }
        if uniform {
            return;
        }
        proof {
            let j = choose|j: int| 0 <= j < len && self.pixels@[j] != pixel;
            assert(old(self).spec_pixels()[j] != pixel);
        }
        let mut k: usize = 0;
        while k < len
            invariant
                self.wf(),
                self.width == old(self).width,
                self.height == old(self).height,
                self.dirty_region == old(self).dirty_region,
                self.dirty_tiles == old(self).dirty_tiles,
                self.full_frame_required == old(self).full_frame_required,
                len == self.pixels@.len(),
                k <= len,
                forall|j: int| 0 <= j < k ==> self.pixels@[j] == pixel,
                forall|j: int| k <= j < len ==> self.pixels@[j] == old(self).pixels@[j],
            decreases len - k,
        {
            self.pixels.set(k, pixel);
            k = k + 1;
        }
        self.dirty_region = Some(DirtyRegion::full(self.width, self.height));
        self.dirty_tiles.mark_all();
        self.full_frame_required = true;
        proof {
            self.dirty_tiles.lemma_entries_all_dirty();
            self.lemma_all_tiles_dirty();
            assert forall|px: int, py: int|
                0 <= px < self.spec_width() && 0 <= py < self.spec_height()
                    && #[trigger] self.pixel_at(px, py) != old(self).pixel_at(px, py) implies change_recorded(
                    *self,
                    px,
                    py,
                ) by {
                assert(tile_in_grid(px / 16, py / 16, self.spec_width(), self.spec_height()));
            }
        }
    }

    /// Copies `region` from `source` (addressed with this canvas's row length) into this
    /// canvas. Both canvases must contain the region. When any copied pixel differs, the
    /// region is marked dirty.
    pub fn copy_region_from(&mut self, source: &Canvas, region: DirtyRegion) -> (result: Result<
        (),
        CanvasError,
    >)
        requires
            old(self).wf(),
            source.wf(),
            region_in_bounds(region, old(self).spec_width(), old(self).spec_height())
                && region_in_bounds(region, source.spec_width(), source.spec_height()) ==> (
            region.y + region.height - 1) * old(self).spec_width() + region.x + region.width
                <= source.spec_pixels().len(),
        ensures
            final(self).wf(),
            result is Ok <==> (region_in_bounds(
                region,
                old(self).spec_width(),
                old(self).spec_height(),
            ) && region_in_bounds(region, source.spec_width(), source.spec_height())),
            result is Err ==> result == Err::<(), CanvasError>(CanvasError::InvalidRegion { region })
                && same_canvas(*old(self), *final(self)),
            result is Ok ==> {
                &&& final(self).spec_pixels().len() == old(self).spec_pixels().len()
                &&& forall|px: int, py: int|
                    #![trigger final(self).pixel_at(px, py)]
                    old(self).in_bounds(px, py) ==> final(self).pixel_at(px, py) == if region_contains(
                        region,
                        px,
                        py,
                    ) {
                        source.spec_pixels()[py * old(self).spec_width() + px]
                    } else {
                        old(self).pixel_at(px, py)
                    }
            },
            result is Ok && region_differs(*old(self), *source, region) ==> {
                &&& final(self).spec_dirty_region() == spec_merge_region(
                    old(self).spec_dirty_region(),
                    region,
                )
                &&& tiles_marked(
                    *old(self),
                    *final(self),
                    (region.x / 16) as int,
                    (region.x + region.width - 1) / 16,
                    (region.y / 16) as int,
                    (region.y + region.height - 1) / 16,
                )
            },
            result is Ok && !region_differs(*old(self), *source, region) ==> same_canvas(*old(self), *final(self)),
            final(self).spec_full_frame_required() == old(self).spec_full_frame_required(),
            tracks_changes(*old(self), *final(self)),
    {
        self.validate_region(region)?;
        source.validate_region(region)?;
        let ghost before = *self;
        let ghost w = self.width as int;
        let width = self.width as usize;
        let mut changed = false;
        let mut y = region.y;
        let end_y = region.y + region.height;
        let end_x = region.x + region.width;
        while y < end_y
            invariant
                self.wf(),
                self.width == before.width,
                self.height == before.height,
                self.dirty_region == before.dirty_region,
                self.dirty_tiles == before.dirty_tiles,
                self.full_frame_required == before.full_frame_required,
                w == self.width,
                width == self.width,
                region_in_bounds(region, self.width as int, self.height as int),
                region_in_bounds(region, source.spec_width(), source.spec_height()),
                (region.y + region.height - 1) * w + region.x + region.width <= source.spec_pixels().len(),
                end_y == region.y + region.height,
                end_x == region.x + region.width,
                region.y <= y <= end_y,
                forall|px: int, py: int|
                    #![trigger self.pixel_at(px, py)]
                    before.in_bounds(px, py) ==> self.pixel_at(px, py) == if region_contains(
                        region,
                        px,
                        py,
                    ) && py < y {
                        source.spec_pixels()[py * w + px]
                    } else {
                        before.pixel_at(px, py)
                    },
                changed == exists|px: int, py: int|
                    region_contains(region, px, py) && py < y && #[trigger] before.pixel_at(px, py)
                        != source.spec_pixels()[py * w + px],
            decreases end_y - y,
        {
            let mut x = region.x;
            while x < end_x
                invariant
                    self.wf(),
                    self.width == before.width,
                    self.height == before.height,
                    self.dirty_region == before.dirty_region,
                    self.dirty_tiles == before.dirty_tiles,
                    self.full_frame_required == before.full_frame_required,
                    w == self.width,
                    width == self.width,
                    region_in_bounds(region, self.width as int, self.height as int),
                    region_in_bounds(region, source.spec_width(), source.spec_height()),
                    (region.y + region.height - 1) * w + region.x + region.width
                        <= source.spec_pixels().len(),
                    end_y == region.y + region.height,
                    end_x == region.x + region.width,
                    region.y <= y < end_y,
                    region.x <= x <= end_x,
                    forall|px: int, py: int|
                        #![trigger self.pixel_at(px, py)]
                        before.in_bounds(px, py) ==> self.pixel_at(px, py) == if region_contains(
                            region,
                            px,
                            py,
                        ) && (py < y || (py == y && px < x)) {
                            source.spec_pixels()[py * w + px]
                        } else {
                            before.pixel_at(px, py)
                        },
                    changed == exists|px: int, py: int|
                        region_contains(region, px, py) && (py < y || (py == y && px < x))
                            && #[trigger] before.pixel_at(px, py) != source.spec_pixels()[py * w
                            + px],
                decreases end_x - x,
            {
                proof {
                    lemma_grid_bound(w, self.height as int, x as int, y as int);
                    lemma_u16_product(y as int, w);
                    assert(y * w + x < (region.y + region.height - 1) * w + region.x + region.width)
                        by (nonlinear_arith)
                        requires
                            y <= region.y + region.height - 1,
                            x < region.x + region.width,
                            0 <= w,
                    ;
                }
                let index = y as usize * width + x as usize;
                let value = source.pixels[index];
                let ghost previous = *self;
                if self.pixels[index] != value {
                    self.pixels.set(index, value);
                    changed = true;
                } else {
                    assert(self.pixels@.update(index as int, value) =~= self.pixels@);
                }
                proof {
                    assert forall|px: int, py: int| before.in_bounds(px, py) implies #[trigger] self.pixel_at(
                        px,
                        py,
                    ) == if region_contains(region, px, py) && (py < y || (py == y && px < x
                        + 1)) {
                        source.spec_pixels()[py * w + px]
                    } else {
                        before.pixel_at(px, py)
                    } by {
                        lemma_grid_index(w, px, py, x as int, y as int);
                        lemma_grid_bound(w, self.height as int, px, py);
                        assert(self.pixels@ == previous.pixels@.update(index as int, value));
                        if px == x && py == y {
                            assert(self.pixels@[py * w + px] == value);
                        } else {
                            assert(py * w + px != index);
                            assert(self.pixels@[py * w + px] == previous.pixels@[py * w + px]);
                            assert(self.pixel_at(px, py) == previous.pixel_at(px, py));
                        }
                    }
                    if before.pixel_at(x as int, y as int) != source.spec_pixels()[y * w + x] {
                        assert(region_contains(region, x as int, y as int));
                    }
                    assert(before.pixel_at(x as int, y as int) == previous.pixel_at(x as int, y as int));
                }
                x = x + 1;
            }
            y = y + 1;
        }
        let ghost copied = *self;
        if changed {
            self.mark_region_in_bounds(region);
        }
        proof {
            assert forall|px: int, py: int| before.in_bounds(px, py) implies #[trigger] self.pixel_at(
                px,
                py,
            ) == if region_contains(region, px, py) {
                source.spec_pixels()[py * w + px]
            } else {
                before.pixel_at(px, py)
            } by {
                assert(self.pixel_at(px, py) == copied.pixel_at(px, py));
            }
            assert(region_differs(before, *source, region) == changed);
            if !changed {
                assert(self.pixels@ =~= before.pixels@) by {
                    assert forall|i: int| 0 <= i < self.pixels@.len() implies self.pixels@[i]
                        == before.pixels@[i] by {
                        lemma_grid_decompose(w, self.height as int, i);
                        let px = i % w;
                        let py = i / w;
                        assert(copied.pixel_at(px, py) == before.pixel_at(px, py)) by {
                            if region_contains(region, px, py) {
                                if copied.pixel_at(px, py) != before.pixel_at(px, py) {
                                    assert(before.pixel_at(px, py) != source.spec_pixels()[py * w + px]);
                                }
                            }
                        }
                        assert(self.pixel_at(px, py) == before.pixel_at(px, py));
                    }
                }
            }
            assert forall|px: int, py: int|
                0 <= px < self.spec_width() && 0 <= py < self.spec_height()
                    && #[trigger] self.pixel_at(px, py) != before.pixel_at(px, py) implies change_recorded(
                    *self,
                    px,
                    py,
                ) by {
                assert(copied.pixel_at(px, py) == self.pixel_at(px, py));
                assert(region_contains(region, px, py));
                lemma_union_bounds_or_region(before, region);
            }
        }
        Ok(())
    }


    /// Hands out all pixels for bulk writing. Because any pixel may change through the
    /// returned slice, the whole canvas is marked dirty and a full frame is requested.
    pub fn pixels_mut(&mut self) -> (pixels: &mut [Rgba])
        requires
            old(self).wf(),
        ensures
            pixels@ == old(self).spec_pixels(),
            final(self).spec_pixels() == final(pixels)@,
            final(self).spec_width() == old(self).spec_width(),
            final(self).spec_height() == old(self).spec_height(),
            final(self).spec_dirty_region() == Some(
                spec_full_region(old(self).spec_width() as u16, old(self).spec_height() as u16),
            ),
            final(self).every_tile_dirty(),
            final(self).spec_full_frame_required(),
            final(pixels)@.len() == pixels@.len() ==> final(self).wf(),
    {
        self.dirty_region = Some(DirtyRegion::full(self.width, self.height));
        self.dirty_tiles.mark_all();
        self.full_frame_required = true;
        proof {
            self.dirty_tiles.lemma_entries_all_dirty();
            self.lemma_all_tiles_dirty();
        }
        self.pixels.as_mut_slice()
    }

    /// Forgets all dirty information; the pixels are kept.
    pub fn clear_dirty(&mut self)
        requires
            old(self).wf(),
        ensures
            final(self).wf(),
            final(self).spec_width() == old(self).spec_width(),
            final(self).spec_height() == old(self).spec_height(),
            final(self).spec_pixels() == old(self).spec_pixels(),
            final(self).spec_dirty_region() is None,
            tiles_all(*final(self), false),
            !final(self).spec_full_frame_required(),
    {
        self.dirty_region = None;
        self.dirty_tiles.clear();
        self.full_frame_required = false;
        proof {
            assert forall|tile_x: int, tile_y: int|
                tile_in_grid(tile_x, tile_y, self.spec_width(), self.spec_height()) implies !#[trigger] self.spec_tile_dirty(
                    tile_x,
                    tile_y,
                ) by {
                lemma_grid_bound(
                    self.dirty_tiles.columns as int,
                    self.dirty_tiles.rows as int,
                    tile_x,
                    tile_y,
                );
            }
        }
    }
}


/// Recording the pixel `(x, y)` in the dirty region of `canvas` keeps it in bounds,
/// holds the earlier region and holds the pixel.
pub proof fn lemma_extend_bounds_or_single(canvas: Canvas, x: int, y: int)
    requires
        canvas.wf(),
        canvas.in_bounds(x, y),
    ensures
        region_in_bounds(
            spec_merge_pixel(canvas.spec_dirty_region(), x, y)->0,
            canvas.spec_width(),
            canvas.spec_height(),
        ),
        region_contains(spec_merge_pixel(canvas.spec_dirty_region(), x, y)->0, x, y),
        canvas.spec_dirty_region() is Some ==> region_within(
            canvas.spec_dirty_region()->0,
            spec_merge_pixel(canvas.spec_dirty_region(), x, y)->0,
        ),
{
    canvas.lemma_wf();
    if let Some(region) = canvas.spec_dirty_region() {
        lemma_extend_bounds(region, x, y, canvas.spec_width(), canvas.spec_height());
    }
}


/// Some pixel of `region` differs between `canvas` and `source`, with both addressed by
/// the row length of `canvas`.
pub open spec fn region_differs(canvas: Canvas, source: Canvas, region: DirtyRegion) -> bool {
    exists|px: int, py: int|
        region_contains(region, px, py) && #[trigger] canvas.pixel_at(px, py)
            != source.spec_pixels()[py * canvas.spec_width() + px]
}

/// Marking an in-bounds `region` keeps the dirty region in bounds and makes it hold
/// both the earlier region and `region`.
pub proof fn lemma_union_bounds_or_region(canvas: Canvas, region: DirtyRegion)
    requires
        canvas.wf(),
        region_in_bounds(region, canvas.spec_width(), canvas.spec_height()),
    ensures
        region_in_bounds(
            spec_merge_region(canvas.spec_dirty_region(), region)->0,
            canvas.spec_width(),
            canvas.spec_height(),
        ),
        region_within(region, spec_merge_region(canvas.spec_dirty_region(), region)->0),
        canvas.spec_dirty_region() is Some ==> region_within(
            canvas.spec_dirty_region()->0,
            spec_merge_region(canvas.spec_dirty_region(), region)->0,
        ),
{
    canvas.lemma_wf();
    if let Some(current) = canvas.spec_dirty_region() {
        lemma_union_bounds(current, region, canvas.spec_width(), canvas.spec_height());
    }
}


proof fn lemma_dirty_tile_regions_complete(
    dirty: Seq<bool>,
    columns: int,
    count: int,
    width: int,
    height: int,
    index: int,
)
    requires
        0 <= index < count,
        dirty[index],
    ensures
        exists|j: int|
            0 <= j < dirty_tile_regions(dirty, columns, count, width, height).len()
                && dirty_tile_regions(dirty, columns, count, width, height)[j] == tile_region(
                index % columns,
                index / columns,
                width,
                height,
            ),
    decreases count,
{
    let earlier = dirty_tile_regions(dirty, columns, count - 1, width, height);
    if index == count - 1 {
        assert(dirty_tile_regions(dirty, columns, count, width, height)[earlier.len() as int]
            == tile_region(index % columns, index / columns, width, height));
    } else {
        lemma_dirty_tile_regions_complete(dirty, columns, count - 1, width, height, index);
        let j = choose|j: int|
            0 <= j < earlier.len() && earlier[j] == tile_region(
                index % columns,
                index / columns,
                width,
                height,
            );
        assert(dirty_tile_regions(dirty, columns, count, width, height)[j] == earlier[j]);
    }
}

proof fn lemma_dirty_tile_regions_sound(
    dirty: Seq<bool>,
    columns: int,
    count: int,
    width: int,
    height: int,
    j: int,
)
    requires
        0 <= j < dirty_tile_regions(dirty, columns, count, width, height).len(),
    ensures
        exists|index: int|
            0 <= index < count && dirty[index] && dirty_tile_regions(
                dirty,
                columns,
                count,
                width,
                height,
            )[j] == tile_region(index % columns, index / columns, width, height),
    decreases count,
{
    let earlier = dirty_tile_regions(dirty, columns, count - 1, width, height);
    if j < earlier.len() {
        lemma_dirty_tile_regions_sound(dirty, columns, count - 1, width, height, j);
        let index = choose|index: int|
            0 <= index < count - 1 && dirty[index] && earlier[j] == tile_region(
                index % columns,
                index / columns,
                width,
                height,
            );
        assert(dirty_tile_regions(dirty, columns, count, width, height)[j] == earlier[j]);
    } else {
        assert(dirty[count - 1]);
    }
}

/// The tile holding pixel `(x, y)` covers it, and every tile region lies in the canvas.
pub proof fn lemma_tile_region_contains(x: int, y: int, width: int, height: int)
    requires
        0 <= x < width <= u16::MAX,
        0 <= y < height <= u16::MAX,
    ensures
        region_contains(tile_region(x / 16, y / 16, width, height), x, y),
        region_in_bounds(tile_region(x / 16, y / 16, width, height), width, height),
        tile_in_grid(x / 16, y / 16, width, height),
{
}

/// Entry `j` of the tile regions of `canvas` is the clipped region of a dirty tile.
pub open spec fn reported_tile_is_dirty(canvas: Canvas, j: int) -> bool {
    exists|tile_x: int, tile_y: int|
        #![trigger canvas.spec_tile_dirty(tile_x, tile_y)]
        tile_in_grid(tile_x, tile_y, canvas.spec_width(), canvas.spec_height())
            && canvas.spec_tile_dirty(tile_x, tile_y) && canvas.spec_dirty_tile_regions()[j]
            == tile_region(tile_x, tile_y, canvas.spec_width(), canvas.spec_height())
}

/// The tile regions reported by a canvas are exactly the regions of its dirty tiles.
/// Every dirty tile appears among `spec_dirty_tile_regions`, and every reported region is
/// the clipped region of some dirty tile.
pub proof fn lemma_dirty_tile_regions(canvas: Canvas)
    requires
        canvas.wf(),
    ensures
        forall|tile_x: int, tile_y: int|
            tile_in_grid(tile_x, tile_y, canvas.spec_width(), canvas.spec_height())
                && #[trigger] canvas.spec_tile_dirty(tile_x, tile_y) ==> exists|j: int|
                0 <= j < canvas.spec_dirty_tile_regions().len()
                    && canvas.spec_dirty_tile_regions()[j] == tile_region(
                    tile_x,
                    tile_y,
                    canvas.spec_width(),
                    canvas.spec_height(),
                ),
        forall|j: int|
            0 <= j < canvas.spec_dirty_tile_regions().len() ==> #[trigger] reported_tile_is_dirty(
                canvas,
                j,
            ),
{
    let tiles = canvas.dirty_tiles;
    let columns = tiles.columns as int;
    let rows = tiles.rows as int;
    let count = columns * rows;
    let width = canvas.spec_width();
    let height = canvas.spec_height();
    assert forall|tile_x: int, tile_y: int|
        tile_in_grid(tile_x, tile_y, width, height)
            && #[trigger] canvas.spec_tile_dirty(tile_x, tile_y) implies exists|j: int|
            0 <= j < canvas.spec_dirty_tile_regions().len()
                && canvas.spec_dirty_tile_regions()[j] == tile_region(
                tile_x,
                tile_y,
                width,
                height,
            ) by {
        lemma_grid_bound(columns, rows, tile_x, tile_y);
        let index = tile_y * columns + tile_x;
        lemma_fundamental_div_mod_converse(index, columns, tile_y, tile_x);
        lemma_dirty_tile_regions_complete(tiles.dirty@, columns, count, width, height, index);
        let j = choose|j: int|
            0 <= j < dirty_tile_regions(tiles.dirty@, columns, count, width, height).len()
                && dirty_tile_regions(tiles.dirty@, columns, count, width, height)[j]
                == tile_region(index % columns, index / columns, width, height);
        assert(canvas.spec_dirty_tile_regions()[j] == tile_region(tile_x, tile_y, width, height));
    }
    assert forall|j: int|
        0 <= j < canvas.spec_dirty_tile_regions().len() implies #[trigger] reported_tile_is_dirty(
            canvas,
            j,
        ) by {
        lemma_reported_region_is_dirty_tile(canvas, j);
    }
}

proof fn lemma_reported_region_is_dirty_tile(canvas: Canvas, j: int)
    requires
        canvas.wf(),
        0 <= j < canvas.spec_dirty_tile_regions().len(),
    ensures
        reported_tile_is_dirty(canvas, j),
{
    let tiles = canvas.dirty_tiles;
    let columns = tiles.columns as int;
    let rows = tiles.rows as int;
    let count = columns * rows;
    let width = canvas.spec_width();
    let height = canvas.spec_height();
    lemma_dirty_tile_regions_sound(tiles.dirty@, columns, count, width, height, j);
    let index = choose|index: int|
        0 <= index < count && tiles.dirty@[index] && canvas.spec_dirty_tile_regions()[j]
            == tile_region(index % columns, index / columns, width, height);
    lemma_grid_decompose(columns, rows, index);
    let tile_x = index % columns;
    let tile_y = index / columns;
    assert(canvas.spec_tile_dirty(tile_x, tile_y));
    assert(tile_in_grid(tile_x, tile_y, width, height));
}

/// The row-major position of the tile whose clipped region is `region`, in a grid of
/// `columns` tiles per row.
pub open spec fn tile_order(region: DirtyRegion, columns: int) -> int {
    (region.y / 16) * columns + region.x / 16
}

proof fn lemma_tile_region_order(index: int, columns: int, rows: int, width: int, height: int)
    requires
        0 < width <= u16::MAX,
        0 < height <= u16::MAX,
        columns == tile_count(width),
        rows == tile_count(height),
        0 <= index < columns * rows,
    ensures
        tile_order(tile_region(index % columns, index / columns, width, height), columns) == index,
{
    lemma_grid_decompose(columns, rows, index);
    let tx = index % columns;
    let ty = index / columns;
    assert(tx * 16 <= u16::MAX && ty * 16 <= u16::MAX);
    assert((tx * 16) / 16 == tx);
    assert((ty * 16) / 16 == ty);
    vstd::arithmetic::div_mod::lemma_fundamental_div_mod(index, columns);
}

proof fn lemma_dirty_tile_regions_ordered(
    dirty: Seq<bool>,
    columns: int,
    rows: int,
    count: int,
    width: int,
    height: int,
)
    requires
        0 < width <= u16::MAX,
        0 < height <= u16::MAX,
        columns == tile_count(width),
        rows == tile_count(height),
        0 <= count <= columns * rows,
    ensures
        forall|j: int|
            0 <= j < dirty_tile_regions(dirty, columns, count, width, height).len() ==> tile_order(
                #[trigger] dirty_tile_regions(dirty, columns, count, width, height)[j],
                columns,
            ) < count,
        forall|i: int, j: int|
            0 <= i < j < dirty_tile_regions(dirty, columns, count, width, height).len() ==> tile_order(
                #[trigger] dirty_tile_regions(dirty, columns, count, width, height)[i],
                columns,
            ) < tile_order(#[trigger] dirty_tile_regions(dirty, columns, count, width, height)[j], columns),
    decreases count,
{
    if count > 0 {
        lemma_dirty_tile_regions_ordered(dirty, columns, rows, count - 1, width, height);
        lemma_tile_region_order(count - 1, columns, rows, width, height);
        let earlier = dirty_tile_regions(dirty, columns, count - 1, width, height);
        let current = dirty_tile_regions(dirty, columns, count, width, height);
        let last = tile_region((count - 1) % columns, (count - 1) / columns, width, height);
        if dirty[count - 1] {
            assert(current == earlier.push(last));
            assert forall|j: int| 0 <= j < earlier.len() implies #[trigger] current[j] == earlier[j] by {}
            assert(current[earlier.len() as int] == last);
        } else {
            assert(current == earlier);
        }
        assert forall|j: int| 0 <= j < current.len() implies tile_order(#[trigger] current[j], columns)
            < count by {
            if j < earlier.len() {
                assert(current[j] == earlier[j]);
            }
        }
        assert forall|i: int, j: int| 0 <= i < j < current.len() implies tile_order(
            #[trigger] current[i],
            columns,
        ) < tile_order(#[trigger] current[j], columns) by {
            assert(current[i] == earlier[i]);
            if j < earlier.len() {
                assert(current[j] == earlier[j]);
            }
        }
    }
}

/// The tile regions a canvas reports come in strictly increasing row-major tile order, so
/// each dirty tile appears once; with `lemma_dirty_tile_regions` this fixes the list: the
/// clipped regions of exactly the dirty tiles, in row-major order.
pub proof fn lemma_dirty_tile_regions_sorted(canvas: Canvas)
    requires
        canvas.wf(),
    ensures
        forall|i: int, j: int|
            0 <= i < j < canvas.spec_dirty_tile_regions().len() ==> tile_order(
                #[trigger] canvas.spec_dirty_tile_regions()[i],
                tile_count(canvas.spec_width()),
            ) < tile_order(#[trigger] canvas.spec_dirty_tile_regions()[j], tile_count(canvas.spec_width())),
{
    let tiles = canvas.dirty_tiles;
    lemma_dirty_tile_regions_ordered(
        tiles.dirty@,
        tiles.columns as int,
        tiles.rows as int,
        tiles.columns * tiles.rows,
        canvas.spec_width(),
        canvas.spec_height(),
    );
}

proof fn lemma_all_dirty_tile_count(dirty: Seq<bool>, columns: int, count: int, width: int, height: int)
    requires
        0 <= count <= dirty.len(),
        forall|i: int| 0 <= i < count ==> #[trigger] dirty[i],
    ensures
        dirty_tile_regions(dirty, columns, count, width, height).len() == count,
    decreases count,
{
    if count > 0 {
        lemma_all_dirty_tile_count(dirty, columns, count - 1, width, height);
    }
}

/// When every tile of a canvas is dirty, it reports one region per tile:
/// `tile_count(width) * tile_count(height)` of them.
pub proof fn lemma_every_tile_reported(canvas: Canvas)
    requires
        canvas.wf(),
        tiles_all(canvas, true),
    ensures
        canvas.spec_dirty_tile_regions().len() == tile_count(canvas.spec_width()) * tile_count(
            canvas.spec_height(),
        ),
{
    let tiles = canvas.dirty_tiles;
    let columns = tiles.columns as int;
    let rows = tiles.rows as int;
    assert forall|i: int| 0 <= i < columns * rows implies #[trigger] tiles.dirty@[i] by {
        lemma_grid_decompose(columns, rows, i);
        assert(canvas.spec_tile_dirty(i % columns, i / columns));
    }
    lemma_all_dirty_tile_count(tiles.dirty@, columns, columns * rows, canvas.spec_width(), canvas.spec_height());
}

/// Dirty tracking composes. If no dirty information is lost from `a` to `b` and from
/// `b` to `c`, none is lost from `a` to `c`; so after any run of canvas operations that
/// does not clear the dirty state, every changed pixel is still recorded as dirty.
pub proof fn lemma_tracks_changes_transitive(a: Canvas, b: Canvas, c: Canvas)
    requires
        tracks_changes(a, b),
        tracks_changes(b, c),
        c.wf(),
    ensures
        tracks_changes(a, c),
{
    c.lemma_wf();
    assert forall|x: int, y: int|
        0 <= x < c.spec_width() && 0 <= y < c.spec_height() && #[trigger] c.pixel_at(x, y)
            != a.pixel_at(x, y) implies change_recorded(c, x, y) by {
        if b.pixel_at(x, y) != a.pixel_at(x, y) {
            assert(change_recorded(b, x, y));
            assert(tile_in_grid(x / 16, y / 16, c.spec_width(), c.spec_height()));
        }
    }
}

/// Across any run of canvas operations that keep dirty information, as `set_pixel`, `fill`,
/// `copy_region_from`, `mark_dirty_region` and `mark_full_frame_required` each do (whether
/// they succeed or not), the canvas keeps its size and
/// validity and every pixel that differs from the first canvas is recorded as dirty in the
/// last one.
pub proof fn lemma_tracks_changes_across_run(run: Seq<Canvas>)
    requires
        run.len() >= 1,
        forall|i: int| 0 <= i < run.len() ==> (#[trigger] run[i]).wf(),
        forall|i: int| 0 <= i < run.len() - 1 ==> tracks_changes(#[trigger] run[i], run[i + 1]),
    ensures
        tracks_changes(run[0], run.last()),
        run.last().spec_width() == run[0].spec_width(),
        run.last().spec_height() == run[0].spec_height(),
        run.last().wf(),
    decreases run.len(),
{
    if run.len() == 1 {
        run[0].lemma_wf();
    } else {
        let prefix = run.drop_last();
        assert(prefix[prefix.len() - 1] == run[run.len() - 2]);
        assert forall|i: int| 0 <= i < prefix.len() - 1 implies tracks_changes(
            #[trigger] prefix[i],
            prefix[i + 1],
        ) by {
            assert(tracks_changes(run[i], run[i + 1]));
        }
        assert forall|i: int| 0 <= i < prefix.len() implies (#[trigger] prefix[i]).wf() by {
            assert(run[i].wf());
        }
        lemma_tracks_changes_across_run(prefix);
        assert(tracks_changes(run[run.len() - 2], run[run.len() - 1]));
        lemma_tracks_changes_transitive(run[0], run[run.len() - 2], run.last());
    }
}

/// A canvas call that keeps the size and validity, as every mutating method of `Canvas`
/// does (for `pixels_mut`, when the slice keeps its length).
pub open spec fn keeps_size(before: Canvas, after: Canvas) -> bool {
    &&& after.spec_width() == before.spec_width()
    &&& after.spec_height() == before.spec_height()
    &&& after.wf()
}

/// Through any run of canvas calls, whether they succeed or not, the canvas keeps the size
/// it was made with and holds one pixel per coordinate.
pub proof fn lemma_size_kept_across_run(run: Seq<Canvas>)
    requires
        run.len() >= 1,
        run[0].wf(),
        forall|i: int| 0 <= i < run.len() - 1 ==> keeps_size(#[trigger] run[i], run[i + 1]),
    ensures
        run.last().wf(),
        run.last().spec_width() == run[0].spec_width(),
        run.last().spec_height() == run[0].spec_height(),
        run.last().spec_pixels().len() == run[0].spec_width() * run[0].spec_height(),
    decreases run.len(),
{
    if run.len() > 1 {
        let earlier = run.drop_last();
        assert forall|i: int| 0 <= i < earlier.len() - 1 implies keeps_size(
            #[trigger] earlier[i],
            earlier[i + 1],
        ) by {
            assert(keeps_size(run[i], run[i + 1]));
        }
        lemma_size_kept_across_run(earlier);
        assert(keeps_size(run[run.len() - 2], run[run.len() - 1]));
    }
    run.last().lemma_wf();
}

/// What a canvas call does to the full-frame flag: it is raised when `raised` holds, and
/// kept otherwise. `pixels_mut`, `mark_full_frame_required` and a `fill` that changes a
/// pixel raise it; `set_pixel`, `copy_region_from`, `mark_dirty_region` and a `fill` that
/// changes nothing keep it.
pub open spec fn flag_step(before: Canvas, after: Canvas, raised: bool) -> bool {
    after.spec_full_frame_required() == (before.spec_full_frame_required() || raised)
}

/// From a canvas with the flag clear (a new one, or one just after `clear_dirty`), after
/// any run of calls other than `clear_dirty`, a full frame is required exactly when one of
/// the calls raised the flag; and then the whole canvas is dirty, every tile reported.
pub proof fn lemma_full_frame_flag_across_run(run: Seq<Canvas>, raised: Seq<bool>)
    requires
        run.len() == raised.len() + 1,
        !run[0].spec_full_frame_required(),
        run.last().wf(),
        forall|i: int| 0 <= i < raised.len() ==> flag_step(#[trigger] run[i], run[i + 1], raised[i]),
    ensures
        run.last().spec_full_frame_required() <==> exists|i: int| 0 <= i < raised.len() && #[trigger] raised[i],
        run.last().spec_full_frame_required() ==> {
            &&& run.last().spec_dirty_region() == Some(
                spec_full_region(run.last().spec_width() as u16, run.last().spec_height() as u16),
            )
            &&& tiles_all(run.last(), true)
            &&& run.last().spec_dirty_tile_regions().len() == tile_count(run.last().spec_width())
                * tile_count(run.last().spec_height())
        },
{
    lemma_flag_raised(run, raised, raised.len() as int);
    if run.last().spec_full_frame_required() {
        run.last().lemma_full_frame_state();
    }
}

proof fn lemma_flag_raised(run: Seq<Canvas>, raised: Seq<bool>, count: int)
    requires
        run.len() == raised.len() + 1,
        0 <= count <= raised.len(),
        !run[0].spec_full_frame_required(),
        forall|i: int| 0 <= i < raised.len() ==> flag_step(#[trigger] run[i], run[i + 1], raised[i]),
    ensures
        run[count].spec_full_frame_required() <==> exists|i: int| 0 <= i < count && #[trigger] raised[i],
    decreases count,
{
    if count > 0 {
        lemma_flag_raised(run, raised, count - 1);
        assert(flag_step(run[count - 1], run[count], raised[count - 1]));
        if run[count].spec_full_frame_required() && !raised[count - 1] {
            let i = choose|i: int| 0 <= i < count - 1 && #[trigger] raised[i];
            assert(0 <= i < count && raised[i]);
        }
        if exists|i: int| 0 <= i < count && #[trigger] raised[i] {
            let i = choose|i: int| 0 <= i < count && #[trigger] raised[i];
            if i < count - 1 {
                assert(exists|j: int| 0 <= j < count - 1 && #[trigger] raised[j]);
            }
        }
    }
}

/// `inner` lies in `outer`; a box is `(first column, first row, end column, end row)`, the
/// ends exclusive.
pub open spec fn box_holds(outer: (int, int, int, int), inner: (int, int, int, int)) -> bool {
    &&& outer.0 <= inner.0
    &&& outer.1 <= inner.1
    &&& inner.2 <= outer.2
    &&& inner.3 <= outer.3
}

/// Every box of `areas` lies in `outer`.
pub open spec fn boxes_within(areas: Seq<(int, int, int, int)>, outer: (int, int, int, int)) -> bool {
    forall|i: int| 0 <= i < areas.len() ==> box_holds(outer, #[trigger] areas[i])
}

/// The box a region covers.
pub open spec fn region_box(region: DirtyRegion) -> (int, int, int, int) {
    (region.x as int, region.y as int, region.x + region.width, region.y + region.height)
}

/// The boxes the regions cover.
pub open spec fn region_boxes(regions: Seq<DirtyRegion>) -> Seq<(int, int, int, int)> {
    regions.map_values(|region: DirtyRegion| region_box(region))
}

/// `canvas` has nothing dirty, or its dirty region lies in `outer`.
pub open spec fn dirty_in_box(canvas: Canvas, outer: (int, int, int, int)) -> bool {
    match canvas.spec_dirty_region() {
        None => true,
        Some(region) => box_holds(outer, region_box(region)),
    }
}

/// From `before` to `after` the dirty region grew only inside `areas`: any box that holds
/// all of `areas` and the dirty region of `before` also holds that of `after`. So the dirty
/// region of `after` lies in the bounding box of `areas` and of the dirty region of `before`.
pub open spec fn dirty_grows_within(before: Canvas, after: Canvas, areas: Seq<(int, int, int, int)>) -> bool {
    forall|outer: (int, int, int, int)|
        boxes_within(areas, outer) && dirty_in_box(before, outer) ==> #[trigger] dirty_in_box(
            after,
            outer,
        )
}

proof fn lemma_extend_in_box(region: DirtyRegion, x: int, y: int, width: int, height: int, outer: (int, int, int, int))
    requires
        region_in_bounds(region, width, height),
        0 <= x < width,
        0 <= y < height,
        width <= u16::MAX,
        height <= u16::MAX,
        box_holds(outer, region_box(region)),
        outer.0 <= x < outer.2,
        outer.1 <= y < outer.3,
    ensures
        box_holds(outer, region_box(spec_extend(region, x, y))),
        region_in_bounds(spec_extend(region, x, y), width, height),
{
    lemma_extend_bounds(region, x, y, width, height);
}

/// A dirty-region growth within `areas` followed by one pixel write inside one of `areas`
/// is still a growth within `areas`.
pub proof fn lemma_grows_by_pixel_write(
    start: Canvas,
    current: Canvas,
    after: Canvas,
    x: int,
    y: int,
    pixel: Rgba,
    areas: Seq<(int, int, int, int)>,
    i: int,
)
    requires
        current.wf(),
        dirty_grows_within(start, current, areas),
        pixel_write_dirty(current, after, x, y, pixel),
        0 <= i < areas.len(),
        areas[i].0 <= x < areas[i].2,
        areas[i].1 <= y < areas[i].3,
    ensures
        dirty_grows_within(start, after, areas),
{
    current.lemma_wf();
    assert forall|outer: (int, int, int, int)|
        boxes_within(areas, outer) && dirty_in_box(start, outer) implies #[trigger] dirty_in_box(
            after,
            outer,
        ) by {
        assert(box_holds(outer, areas[i]));
        assert(dirty_in_box(current, outer));
        if current.in_bounds(x, y) && current.pixel_at(x, y) != pixel {
            if let Some(region) = current.spec_dirty_region() {
                lemma_extend_in_box(region, x, y, current.spec_width(), current.spec_height(), outer);
            }
        }
    }
}

/// A dirty-region growth within `areas` followed by marking `region`, which lies in one of
/// `areas`, or by leaving the dirty region as it is, is still a growth within `areas`.
pub proof fn lemma_grows_by_region(
    start: Canvas,
    current: Canvas,
    after: Canvas,
    region: DirtyRegion,
    areas: Seq<(int, int, int, int)>,
    i: int,
)
    requires
        current.wf(),
        region_in_bounds(region, current.spec_width(), current.spec_height()),
        dirty_grows_within(start, current, areas),
        after.spec_dirty_region() == current.spec_dirty_region() || after.spec_dirty_region()
            == spec_merge_region(current.spec_dirty_region(), region),
        0 <= i < areas.len(),
        box_holds(areas[i], region_box(region)),
    ensures
        dirty_grows_within(start, after, areas),
{
    current.lemma_wf();
    let w = current.spec_width();
    let h = current.spec_height();
    assert forall|outer: (int, int, int, int)|
        boxes_within(areas, outer) && dirty_in_box(start, outer) implies #[trigger] dirty_in_box(
            after,
            outer,
        ) by {
        assert(box_holds(outer, areas[i]));
        assert(dirty_in_box(current, outer));
        if let Some(existing) = current.spec_dirty_region() {
            let first = spec_extend(existing, region.x as int, region.y as int);
            lemma_extend_in_box(existing, region.x as int, region.y as int, w, h, outer);
            lemma_extend_in_box(
                first,
                region.x + region.width - 1,
                region.y + region.height - 1,
                w,
                h,
                outer,
            );
        }
    }
}

/// Growths within `areas` compose.
pub proof fn lemma_grows_transitive(a: Canvas, b: Canvas, c: Canvas, areas: Seq<(int, int, int, int)>)
    requires
        dirty_grows_within(a, b, areas),
        dirty_grows_within(b, c, areas),
    ensures
        dirty_grows_within(a, c, areas),
{
    assert forall|outer: (int, int, int, int)|
        boxes_within(areas, outer) && dirty_in_box(a, outer) implies #[trigger] dirty_in_box(c, outer) by {
        assert(dirty_in_box(b, outer));
    }
}

/// A growth within one box is a growth within any list that holds that box.
pub proof fn lemma_grows_within_one_of(
    before: Canvas,
    after: Canvas,
    area: (int, int, int, int),
    areas: Seq<(int, int, int, int)>,
    i: int,
)
    requires
        dirty_grows_within(before, after, seq![area]),
        0 <= i < areas.len(),
        areas[i] == area,
    ensures
        dirty_grows_within(before, after, areas),
{
    assert forall|outer: (int, int, int, int)|
        boxes_within(areas, outer) && dirty_in_box(before, outer) implies #[trigger] dirty_in_box(
            after,
            outer,
        ) by {
        assert(box_holds(outer, areas[i]));
        assert(boxes_within(seq![area], outer));
    }
}

/// Every pixel that changed between `before` and `after` lies in the dirty region of
/// `after` and in one of the tile regions that `after` reports.
pub proof fn lemma_changes_reported(before: Canvas, after: Canvas, x: int, y: int)
    requires
        after.wf(),
        tracks_changes(before, after),
        after.in_bounds(x, y),
        after.pixel_at(x, y) != before.pixel_at(x, y),
    ensures
        after.spec_dirty_region() is Some,
        region_contains(after.spec_dirty_region()->0, x, y),
        exists|j: int|
            0 <= j < after.spec_dirty_tile_regions().len() && region_contains(
                #[trigger] after.spec_dirty_tile_regions()[j],
                x,
                y,
            ),
{
    after.lemma_wf();
    lemma_tile_region_contains(x, y, after.spec_width(), after.spec_height());
    lemma_dirty_tile_regions(after);
    assert(after.spec_tile_dirty(x / 16, y / 16));
    let j = choose|j: int|
        0 <= j < after.spec_dirty_tile_regions().len() && after.spec_dirty_tile_regions()[j]
            == tile_region(x / 16, y / 16, after.spec_width(), after.spec_height());
    assert(region_contains(after.spec_dirty_tile_regions()[j], x, y));
}

} // verus!
