use vstd::prelude::*;

use crate::canvas::{Canvas, DirtyRegion, region_in_bounds};
use crate::kitty::{
    lemma_base64_len, lemma_command_literal_lens, lemma_decimal_len_bounds, lemma_delete_command_len,
    lemma_frame_prefix_len, lemma_kitty_chunks_len, lemma_region_rgba_bytes_len, lemma_rgba_bytes_len,
    lemma_transmit_prefix_len, base64_encode, delete_command, frame_prefix, kitty_chunks, region_rgba_bytes, rgba_bytes,
    transmit_prefix, KittyEncodeScratch, KittyGraphicsEncoder, KittyImageId, KittyPlacement,
    DEFAULT_CHUNK_SIZE,
};
use crate::layout::{centered_image_placement, spec_centered_image_placement, ImagePlacement};
use crate::terminal::{move_cursor_to, spec_move_cursor_to, TerminalSize};

verus! {

/// The two image ids the renderer alternates between, and the viewport it asks for.
#[derive(Clone, Copy, Debug, PartialEq, Eq)]
pub struct KittyRendererConfig {
    pub image_ids: [KittyImageId; 2],
    pub image_columns: u16,
    pub image_rows: u16,
}

/// The bytes of one rendered frame and what they did.
#[derive(Clone, Debug, PartialEq, Eq)]
pub struct RenderedKittyFrame {
    pub bytes: Vec<u8>,
    pub placement: ImagePlacement,
    pub image_id: KittyImageId,
    pub deleted_image_id: Option<KittyImageId>,
    pub partial_update: bool,
}

/// Running totals of the protocol traffic a renderer produced.
#[derive(Clone, Copy, Debug, PartialEq, Eq)]
pub struct KittyRendererStats {
    frames_rendered: u64,
    frame_bytes: u64,
    full_frame_bytes: u64,
    partial_frame_bytes: u64,
    resets: u64,
    cleanup_bytes: u64,
    latest_image_id: Option<KittyImageId>,
    latest_deleted_image_id: Option<KittyImageId>,
    latest_placement: Option<ImagePlacement>,
}

impl KittyRendererStats {
    pub closed spec fn spec_frames_rendered(self) -> u64 {
        self.frames_rendered
    }

    pub closed spec fn spec_frame_bytes(self) -> u64 {
        self.frame_bytes
    }

    pub closed spec fn spec_full_frame_bytes(self) -> u64 {
        self.full_frame_bytes
    }

    pub closed spec fn spec_partial_frame_bytes(self) -> u64 {
        self.partial_frame_bytes
    }

    pub closed spec fn spec_resets(self) -> u64 {
        self.resets
    }

    pub closed spec fn spec_cleanup_bytes(self) -> u64 {
        self.cleanup_bytes
    }

    pub closed spec fn spec_latest_image_id(self) -> Option<KittyImageId> {
        self.latest_image_id
    }

    pub closed spec fn spec_latest_deleted_image_id(self) -> Option<KittyImageId> {
        self.latest_deleted_image_id
    }

    pub closed spec fn spec_latest_placement(self) -> Option<ImagePlacement> {
        self.latest_placement
    }

    /// Every frame byte is counted either as part of a full frame or of a partial one.
    pub open spec fn wf(self) -> bool {
        self.spec_frame_bytes() == self.spec_full_frame_bytes() + self.spec_partial_frame_bytes()
    }

    fn new() -> (stats: KittyRendererStats)
        ensures
            stats.wf(),
            stats.spec_frames_rendered() == 0,
            stats.spec_frame_bytes() == 0,
            stats.spec_full_frame_bytes() == 0,
            stats.spec_partial_frame_bytes() == 0,
            stats.spec_resets() == 0,
            stats.spec_cleanup_bytes() == 0,
            stats.spec_latest_image_id() is None,
            stats.spec_latest_deleted_image_id() is None,
            stats.spec_latest_placement() is None,
    {
        KittyRendererStats {
            frames_rendered: 0,
            frame_bytes: 0,
            full_frame_bytes: 0,
            partial_frame_bytes: 0,
            resets: 0,
            cleanup_bytes: 0,
            latest_image_id: None,
            latest_deleted_image_id: None,
            latest_placement: None,
        }
    }

    /// The totals after one more frame of `bytes` bytes.
    pub open spec fn spec_after_frame(
        self,
        bytes: int,
        full_update: bool,
        image_id: KittyImageId,
        deleted_image_id: Option<KittyImageId>,
        placement: ImagePlacement,
        after: KittyRendererStats,
    ) -> bool {
        &&& after.spec_frames_rendered() == self.spec_frames_rendered() + 1
        &&& after.spec_frame_bytes() == self.spec_frame_bytes() + bytes
        &&& after.spec_full_frame_bytes() == self.spec_full_frame_bytes() + if full_update {
            bytes
        } else {
            0
        }
        &&& after.spec_partial_frame_bytes() == self.spec_partial_frame_bytes() + if full_update {
            0
        } else {
            bytes
        }
        &&& after.spec_resets() == self.spec_resets()
        &&& after.spec_cleanup_bytes() == self.spec_cleanup_bytes()
        &&& after.spec_latest_image_id() == Some(image_id)
        &&& after.spec_latest_deleted_image_id() == deleted_image_id
        &&& after.spec_latest_placement() == Some(placement)
    }

    /// The totals after one more reset that sent `bytes` bytes of cleanup.
    pub open spec fn spec_after_reset(self, bytes: int, after: KittyRendererStats) -> bool {
        &&& after.spec_frames_rendered() == self.spec_frames_rendered()
        &&& after.spec_frame_bytes() == self.spec_frame_bytes()
        &&& after.spec_full_frame_bytes() == self.spec_full_frame_bytes()
        &&& after.spec_partial_frame_bytes() == self.spec_partial_frame_bytes()
        &&& after.spec_resets() == self.spec_resets() + 1
        &&& after.spec_cleanup_bytes() == self.spec_cleanup_bytes() + bytes
        &&& after.spec_latest_image_id() is None
        &&& after.spec_latest_deleted_image_id() is None
        &&& after.spec_latest_placement() is None
    }

    fn record_frame(
        &mut self,
        bytes: usize,
        full_update: bool,
        image_id: KittyImageId,
        deleted_image_id: Option<KittyImageId>,
        placement: ImagePlacement,
    )
        requires
            old(self).wf(),
            old(self).spec_frames_rendered() < u64::MAX,
            old(self).spec_frame_bytes() + bytes <= u64::MAX,
        ensures
            final(self).wf(),
            old(self).spec_after_frame(
                bytes as int,
                full_update,
                image_id,
                deleted_image_id,
                placement,
                *final(self),
            ),
    {
        let bytes = bytes as u64;
        self.frames_rendered = self.frames_rendered + 1;
        self.frame_bytes = self.frame_bytes + bytes;
        if full_update {
            self.full_frame_bytes = self.full_frame_bytes + bytes;
        } else {
            self.partial_frame_bytes = self.partial_frame_bytes + bytes;
        }
        self.latest_image_id = Some(image_id);
        self.latest_deleted_image_id = deleted_image_id;
        self.latest_placement = Some(placement);
    }

    fn record_reset(&mut self, bytes: usize)
        requires
            old(self).spec_resets() < u64::MAX,
            old(self).spec_cleanup_bytes() + bytes <= u64::MAX,
        ensures
            final(self).wf() == old(self).wf(),
            old(self).spec_after_reset(bytes as int, *final(self)),
    {
        self.resets = self.resets + 1;
        self.cleanup_bytes = self.cleanup_bytes + bytes as u64;
        self.latest_image_id = None;
        self.latest_deleted_image_id = None;
        self.latest_placement = None;
    }

    pub fn frames_rendered(self) -> (count: u64)
        ensures
            count == self.spec_frames_rendered(),
    {
        self.frames_rendered
    }

    pub fn frame_bytes(self) -> (bytes: u64)
        ensures
            bytes == self.spec_frame_bytes(),
    {
        self.frame_bytes
    }

    pub fn full_frame_bytes(self) -> (bytes: u64)
        ensures
            bytes == self.spec_full_frame_bytes(),
    {
        self.full_frame_bytes
    }

    pub fn partial_frame_bytes(self) -> (bytes: u64)
        ensures
            bytes == self.spec_partial_frame_bytes(),
    {
        self.partial_frame_bytes
    }

    /// Frame bytes per rendered frame, rounded down; zero before the first frame.
    pub fn average_frame_bytes(self) -> (bytes: u64)
        ensures
            bytes == (if self.spec_frames_rendered() == 0 {
                0
            } else {
                self.spec_frame_bytes() / self.spec_frames_rendered()
            }),
    {
        average(self.frame_bytes, self.frames_rendered)
    }

    pub fn resets(self) -> (count: u64)
        ensures
            count == self.spec_resets(),
    {
        self.resets
    }

    pub fn cleanup_bytes(self) -> (bytes: u64)
        ensures
            bytes == self.spec_cleanup_bytes(),
    {
        self.cleanup_bytes
    }

    /// Frame and cleanup bytes together.
    pub fn total_protocol_bytes(self) -> (bytes: u64)
        requires
            self.spec_frame_bytes() + self.spec_cleanup_bytes() <= u64::MAX,
        ensures
            bytes == self.spec_frame_bytes() + self.spec_cleanup_bytes(),
    {
        self.frame_bytes + self.cleanup_bytes
    }

    pub fn latest_image_id(self) -> (id: Option<KittyImageId>)
        ensures
            id == self.spec_latest_image_id(),
    {
        self.latest_image_id
    }

    pub fn latest_deleted_image_id(self) -> (id: Option<KittyImageId>)
        ensures
            id == self.spec_latest_deleted_image_id(),
    {
        self.latest_deleted_image_id
    }

    pub fn latest_placement(self) -> (placement: Option<ImagePlacement>)
        ensures
            placement == self.spec_latest_placement(),
    {
        self.latest_placement
    }
}

fn average(total: u64, count: u64) -> (mean: u64)
    ensures
        mean == (if count == 0 {
            0
        } else {
            total / count
        }),
{
    if count == 0 {
        0
    } else {
        total / count
    }
}

/// What one renderer call does to the frame counters: `Some((bytes, partial_update))` is a
/// rendered frame of `bytes` bytes, counted as partial or full; `None` is a reset, which
/// leaves the frame counters as they are.
pub open spec fn stats_step(
    before: KittyRendererStats,
    call: Option<(int, bool)>,
    after: KittyRendererStats,
) -> bool {
    match call {
        Some((bytes, partial)) => {
            &&& bytes >= 0
            &&& after.spec_frames_rendered() == before.spec_frames_rendered() + 1
            &&& after.spec_frame_bytes() == before.spec_frame_bytes() + bytes
            &&& after.spec_full_frame_bytes() == before.spec_full_frame_bytes() + if partial {
                0
            } else {
                bytes
            }
            &&& after.spec_partial_frame_bytes() == before.spec_partial_frame_bytes() + if partial {
                bytes
            } else {
                0
            }
        },
        None => {
            &&& after.spec_frames_rendered() == before.spec_frames_rendered()
            &&& after.spec_frame_bytes() == before.spec_frame_bytes()
            &&& after.spec_full_frame_bytes() == before.spec_full_frame_bytes()
            &&& after.spec_partial_frame_bytes() == before.spec_partial_frame_bytes()
        },
    }
}

/// The bytes of the frames among `calls` whose partial flag is `partial`.
pub open spec fn counted_frame_bytes(calls: Seq<Option<(int, bool)>>, partial: bool) -> int
    decreases calls.len(),
{
    if calls.len() == 0 {
        0
    } else {
        counted_frame_bytes(calls.drop_last(), partial) + match calls.last() {
            Some((bytes, p)) => if p == partial {
                bytes
            } else {
                0
            },
            None => 0,
        }
    }
}

/// The number of rendered frames among `calls`.
pub open spec fn counted_frames(calls: Seq<Option<(int, bool)>>) -> int
    decreases calls.len(),
{
    if calls.len() == 0 {
        0
    } else {
        counted_frames(calls.drop_last()) + if calls.last() is Some {
            1int
        } else {
            0
        }
    }
}

/// Through any run of `render_frame` and `reset` calls the full and partial frame bytes add
/// up to the frame bytes; the full bytes grow by exactly the bytes of the full frames, the
/// partial bytes by those of the partial frames, the frame count by the number of frames,
/// and a reset takes nothing away.
pub proof fn lemma_stats_across_run(run: Seq<KittyRendererStats>, calls: Seq<Option<(int, bool)>>)
    requires
        run.len() == calls.len() + 1,
        run[0].wf(),
        forall|i: int| 0 <= i < calls.len() ==> stats_step(#[trigger] run[i], calls[i], run[i + 1]),
    ensures
        run.last().wf(),
        run.last().spec_full_frame_bytes() == run[0].spec_full_frame_bytes() + counted_frame_bytes(
            calls,
            false,
        ),
        run.last().spec_partial_frame_bytes() == run[0].spec_partial_frame_bytes()
            + counted_frame_bytes(calls, true),
        run.last().spec_frames_rendered() == run[0].spec_frames_rendered() + counted_frames(calls),
        counted_frame_bytes(calls, false) >= 0,
        counted_frame_bytes(calls, true) >= 0,
    decreases calls.len(),
{
    if calls.len() > 0 {
        let earlier = run.drop_last();
        let earlier_calls = calls.drop_last();
        assert forall|i: int| 0 <= i < earlier_calls.len() implies stats_step(
            #[trigger] earlier[i],
            earlier_calls[i],
            earlier[i + 1],
        ) by {
            assert(stats_step(run[i], calls[i], run[i + 1]));
        }
        lemma_stats_across_run(earlier, earlier_calls);
        let last = calls.len() - 1;
        assert(earlier.last() == run[last]);
        assert(stats_step(run[last], calls[last], run[last + 1]));
    }
}

/// The command that transmits `canvas` whole as image `id`, scaled into `placement`, with
/// terminal responses suppressed.
pub open spec fn spec_transmit_bytes(id: KittyImageId, placement: ImagePlacement, canvas: Canvas) -> Seq<u8> {
    kitty_chunks(
        transmit_prefix(
            id.spec_value(),
            canvas.spec_width() as u16,
            canvas.spec_height() as u16,
            Some(KittyPlacement { columns: placement.columns, rows: placement.rows }),
            true,
        ),
        base64_encode(rgba_bytes(canvas.spec_pixels())),
        DEFAULT_CHUNK_SIZE as int,
        true,
    )
}

/// The command that overwrites `region` of the shown image `id` with the same region of
/// `canvas`, with terminal responses suppressed.
pub open spec fn spec_region_update_bytes(id: KittyImageId, canvas: Canvas, region: DirtyRegion) -> Seq<u8> {
    kitty_chunks(
        frame_prefix(id.spec_value(), region),
        base64_encode(
            region_rgba_bytes(canvas.spec_pixels(), canvas.spec_width(), region, region.height as int),
        ),
        DEFAULT_CHUNK_SIZE as int,
        true,
    )
}

proof fn lemma_transmit_bytes_len(id: KittyImageId, placement: ImagePlacement, canvas: Canvas)
    requires
        canvas.wf(),
    ensures
        spec_transmit_bytes(id, placement, canvas).len() <= 80 * canvas.spec_width()
            * canvas.spec_height() + 104,
{
    canvas.lemma_wf();
    let w = canvas.spec_width();
    let h = canvas.spec_height();
    let pixels = canvas.spec_pixels();
    let prefix = transmit_prefix(
        id.spec_value(),
        w as u16,
        h as u16,
        Some(KittyPlacement { columns: placement.columns, rows: placement.rows }),
        true,
    );
    lemma_transmit_prefix_len(id.spec_value(), w as u16, h as u16, placement.columns, placement.rows);
    assert(prefix.len() <= 64);
    let data = rgba_bytes(pixels);
    lemma_rgba_bytes_len(pixels);
    lemma_base64_len(data);
    lemma_kitty_chunks_len(prefix, base64_encode(data), DEFAULT_CHUNK_SIZE as int, true);
    assert(spec_transmit_bytes(id, placement, canvas) == kitty_chunks(
        prefix,
        base64_encode(data),
        DEFAULT_CHUNK_SIZE as int,
        true,
    ));
    assert(10 * (2 * (4 * (w * h)) + 4) == 80 * w * h + 40) by (nonlinear_arith);
}

proof fn lemma_cursor_and_delete_len(placement: ImagePlacement, deleted: Option<KittyImageId>)
    ensures
        spec_move_cursor_to(placement.cursor_column, placement.cursor_row).len() <= 14,
        deleted matches Some(old_id) ==> delete_command(old_id.spec_value(), true).len() <= 30,
{
    lemma_command_literal_lens();
    lemma_decimal_len_bounds(placement.cursor_column as nat);
    lemma_decimal_len_bounds(placement.cursor_row as nat);
    if let Some(old_id) = deleted {
        lemma_delete_command_len(old_id.spec_value());
    }
}

proof fn lemma_region_update_bytes_len(id: KittyImageId, canvas: Canvas, region: DirtyRegion)
    requires
        canvas.wf(),
        canvas.spec_dirty_region() == Some(region),
    ensures
        spec_region_update_bytes(id, canvas, region).len() <= 80 * canvas.spec_width()
            * canvas.spec_height() + 108,
{
    canvas.lemma_wf();
    let w = canvas.spec_width();
    let h = canvas.spec_height();
    let pixels = canvas.spec_pixels();
    assert((region.y + region.height) * w <= pixels.len()) by (nonlinear_arith)
        requires
            region.y + region.height <= h,
            pixels.len() == w * h,
            w > 0,
    ;
    lemma_region_rgba_bytes_len(pixels, w, region, region.height as int);
    assert(4 * region.width * region.height <= 4 * w * h) by (nonlinear_arith)
        requires
            0 <= region.width <= w,
            0 <= region.height <= h,
    ;
    let data = region_rgba_bytes(pixels, w, region, region.height as int);
    lemma_base64_len(data);
    let prefix = frame_prefix(id.spec_value(), region);
    lemma_frame_prefix_len(id.spec_value(), region);
    lemma_kitty_chunks_len(prefix, base64_encode(data), DEFAULT_CHUNK_SIZE as int, true);
    assert(spec_region_update_bytes(id, canvas, region) == kitty_chunks(
        prefix,
        base64_encode(data),
        DEFAULT_CHUNK_SIZE as int,
        true,
    ));
    assert(10 * (2 * (4 * w * h) + 4) == 80 * w * h + 40) by (nonlinear_arith);
}

/// The image id a full frame is drawn into: the configured id that is not on screen.
pub open spec fn spec_back_buffer(config: KittyRendererConfig, visible: Option<KittyImageId>) -> KittyImageId {
    if visible == Some(config.image_ids[0]) {
        config.image_ids[1]
    } else {
        config.image_ids[0]
    }
}

/// The image a full frame replaces, deleted once the new one is drawn.
pub open spec fn spec_retired_image(visible: Option<KittyImageId>, drawn: KittyImageId) -> Option<KittyImageId> {
    match visible {
        Some(previous) => if previous != drawn {
            Some(previous)
        } else {
            None
        },
        None => None,
    }
}

/// Uses the two configured image ids as a double buffer: a full frame is drawn into the
/// image that is not shown and then the shown one is deleted; a frame whose only change is
/// a dirty region, at the same placement, edits the shown image in place.
#[derive(Debug)]
pub struct KittyRenderer {
    config: KittyRendererConfig,
    visible_image_id: Option<KittyImageId>,
    visible_placement: Option<ImagePlacement>,
    stats: KittyRendererStats,
    encode_scratch: KittyEncodeScratch,
}

impl KittyRenderer {
    pub closed spec fn spec_config(&self) -> KittyRendererConfig {
        self.config
    }

    pub closed spec fn spec_visible_image_id(&self) -> Option<KittyImageId> {
        self.visible_image_id
    }

    pub closed spec fn spec_visible_placement(&self) -> Option<ImagePlacement> {
        self.visible_placement
    }

    pub closed spec fn spec_stats(&self) -> KittyRendererStats {
        self.stats
    }

    /// The renderer invariant: the statistics are consistent and an image is shown exactly
    /// when a placement is recorded for it.
    pub closed spec fn wf(&self) -> bool {
        &&& self.stats.wf()
        &&& (self.visible_image_id is Some <==> self.visible_placement is Some)
    }

    /// Where a frame for a terminal of this size is placed.
    pub open spec fn spec_placement(&self, terminal: TerminalSize) -> ImagePlacement {
        spec_centered_image_placement(
            terminal,
            self.spec_config().image_columns,
            self.spec_config().image_rows,
        )
    }

    /// Whether the next frame must transmit the whole canvas.
    pub open spec fn spec_full_update_required(&self, terminal: TerminalSize, canvas: Canvas) -> bool {
        ||| self.spec_visible_image_id() is None
        ||| self.spec_visible_placement() != Some(self.spec_placement(terminal))
        ||| canvas.spec_full_frame_required()
        ||| canvas.spec_dirty_region() is None
    }

    /// The image the next frame shows.
    pub open spec fn spec_frame_image_id(&self, terminal: TerminalSize, canvas: Canvas) -> KittyImageId {
        if self.spec_full_update_required(terminal, canvas) {
            spec_back_buffer(self.spec_config(), self.spec_visible_image_id())
        } else {
            self.spec_visible_image_id().unwrap()
        }
    }

    /// The image the next frame deletes, if any.
    pub open spec fn spec_frame_deleted_image_id(&self, terminal: TerminalSize, canvas: Canvas) -> Option<
        KittyImageId,
    > {
        if self.spec_full_update_required(terminal, canvas) {
            spec_retired_image(
                self.spec_visible_image_id(),
                self.spec_frame_image_id(terminal, canvas),
            )
        } else {
            None
        }
    }

    /// The bytes of the next frame: for a full frame, the cursor move to the placement, the
    /// transmission of the canvas and then the deletion of the retired image; otherwise the
    /// region update of the shown image.
    pub open spec fn spec_frame_bytes(&self, terminal: TerminalSize, canvas: Canvas) -> Seq<u8> {
        let placement = self.spec_placement(terminal);
        let id = self.spec_frame_image_id(terminal, canvas);
        if self.spec_full_update_required(terminal, canvas) {
            spec_move_cursor_to(placement.cursor_column, placement.cursor_row)
                + spec_transmit_bytes(id, placement, canvas) + match self.spec_frame_deleted_image_id(
                terminal,
                canvas,
            ) {
                Some(old_id) => delete_command(old_id.spec_value(), true),
                None => Seq::empty(),
            }
        } else {
            spec_region_update_bytes(id, canvas, canvas.spec_dirty_region().unwrap())
        }
    }

    /// A frame is at most 80 bytes per canvas pixel plus 256: base64 turns the four bytes of
    /// a pixel into at most eight, the chunk framing adds at most nine bytes per chunk of at
    /// least one payload byte, and the cursor movement, the command headers and the deletion
    /// are bounded.
    pub proof fn lemma_frame_bytes_len(&self, terminal: TerminalSize, canvas: Canvas)
        requires
            canvas.wf(),
        ensures
            self.spec_frame_bytes(terminal, canvas).len() <= 80 * canvas.spec_width()
                * canvas.spec_height() + 256,
    {
        let id = self.spec_frame_image_id(terminal, canvas);
        if self.spec_full_update_required(terminal, canvas) {
            let placement = self.spec_placement(terminal);
            lemma_transmit_bytes_len(id, placement, canvas);
            lemma_cursor_and_delete_len(placement, self.spec_frame_deleted_image_id(terminal, canvas));
        } else {
            lemma_region_update_bytes_len(id, canvas, canvas.spec_dirty_region().unwrap());
        }
    }

    /// The bytes a reset sends: the deletion of both configured images.
    pub open spec fn spec_reset_bytes(&self) -> Seq<u8> {
        delete_command(self.spec_config().image_ids[0].spec_value(), true) + delete_command(
            self.spec_config().image_ids[1].spec_value(),
            true,
        )
    }

    /// A renderer that shows nothing yet and has counted nothing.
    pub fn new(config: KittyRendererConfig) -> (renderer: KittyRenderer)
        ensures
            renderer.wf(),
            renderer.spec_config() == config,
            renderer.spec_visible_image_id() is None,
            renderer.spec_visible_placement() is None,
            renderer.spec_stats().spec_frames_rendered() == 0,
            renderer.spec_stats().spec_frame_bytes() == 0,
            renderer.spec_stats().spec_full_frame_bytes() == 0,
            renderer.spec_stats().spec_partial_frame_bytes() == 0,
            renderer.spec_stats().spec_resets() == 0,
            renderer.spec_stats().spec_cleanup_bytes() == 0,
            renderer.spec_stats().spec_latest_image_id() is None,
            renderer.spec_stats().spec_latest_deleted_image_id() is None,
            renderer.spec_stats().spec_latest_placement() is None,
    {
        KittyRenderer {
            config,
            visible_image_id: None,
            visible_placement: None,
            stats: KittyRendererStats::new(),
            encode_scratch: KittyEncodeScratch::new(),
        }
    }

    /// Renders `canvas` for a terminal of the given size; see `spec_frame_bytes` for the
    /// bytes and the type's documentation for the buffering.
    pub fn render_frame(&mut self, terminal_size: TerminalSize, canvas: &Canvas) -> (frame:
        RenderedKittyFrame)
        requires
            old(self).wf(),
            canvas.wf(),
            terminal_size.width >= 1,
            terminal_size.height >= 1,
            old(self).spec_stats().spec_frames_rendered() < u64::MAX,
            old(self).spec_stats().spec_frame_bytes() + old(self).spec_frame_bytes(
                terminal_size,
                *canvas,
            ).len() <= u64::MAX,
        ensures
            final(self).wf(),
            final(self).spec_config() == old(self).spec_config(),
            frame.bytes@ == old(self).spec_frame_bytes(terminal_size, *canvas),
            frame.placement == old(self).spec_placement(terminal_size),
            frame.image_id == old(self).spec_frame_image_id(terminal_size, *canvas),
            frame.deleted_image_id == old(self).spec_frame_deleted_image_id(terminal_size, *canvas),
            frame.partial_update == !old(self).spec_full_update_required(terminal_size, *canvas),
            final(self).spec_visible_image_id() == Some(frame.image_id),
            final(self).spec_visible_placement() == Some(frame.placement),
            old(self).spec_stats().spec_after_frame(
                frame.bytes@.len() as int,
                !frame.partial_update,
                frame.image_id,
                frame.deleted_image_id,
                frame.placement,
                final(self).spec_stats(),
            ),
    {
        let placement = centered_image_placement(
            terminal_size,
            self.config.image_columns,
            self.config.image_rows,
        );
        let dirty_region = canvas.dirty_region();
        let same_placement = match self.visible_placement {
            Some(shown) => shown == placement,
            None => false,
        };
        let full_update_required = self.visible_image_id.is_none() || !same_placement
            || canvas.full_frame_required() || dirty_region.is_none();
        proof {
            canvas.lemma_wf();
        }
        let ghost frame_spec = self.spec_frame_bytes(terminal_size, *canvas);
        let mut bytes: Vec<u8>;
        let image_id: KittyImageId;
        let mut deleted_image_id: Option<KittyImageId> = None;
        if full_update_required {
            image_id = match self.visible_image_id {
                Some(shown) => if shown == self.config.image_ids[0] {
                    self.config.image_ids[1]
                } else {
                    self.config.image_ids[0]
                },
                None => self.config.image_ids[0],
            };
            bytes = move_cursor_to(placement.cursor_column, placement.cursor_row);
            let encoder = KittyGraphicsEncoder::new(image_id).with_placement(
                KittyPlacement::new(placement.columns, placement.rows),
            ).with_quiet_responses();
            encoder.append_canvas_with_scratch(canvas, &mut bytes, &mut self.encode_scratch);
            match self.visible_image_id {
                Some(previous) => {
                    if previous != image_id {
                        KittyGraphicsEncoder::new(previous).with_quiet_responses().append_delete(
                            &mut bytes,
                        );
                        deleted_image_id = Some(previous);
                    }
                },
                None => {},
            }
        } else {
            let region = match dirty_region {
                Some(region) => region,
                None => DirtyRegion::full(canvas.width(), canvas.height()),
            };
            image_id = match self.visible_image_id {
                Some(shown) => shown,
                None => self.config.image_ids[0],
            };
            bytes = Vec::new();
            KittyGraphicsEncoder::new(image_id).with_quiet_responses().append_frame_region_with_scratch(
                canvas,
                region,
                &mut bytes,
                &mut self.encode_scratch,
            );
        }
        proof {
            assert(bytes@ =~= frame_spec);
        }
        self.visible_image_id = Some(image_id);
        self.visible_placement = Some(placement);
        self.stats.record_frame(
            bytes.len(),
            full_update_required,
            image_id,
            deleted_image_id,
            placement,
        );
        RenderedKittyFrame {
            bytes,
            placement,
            image_id,
            deleted_image_id,
            partial_update: !full_update_required,
        }
    }

    /// Deletes both configured images and forgets what was shown.
    pub fn reset(&mut self) -> (bytes: Vec<u8>)
        requires
            old(self).wf(),
            old(self).spec_stats().spec_resets() < u64::MAX,
            old(self).spec_stats().spec_cleanup_bytes() + old(self).spec_reset_bytes().len()
                <= u64::MAX,
        ensures
            final(self).wf(),
            final(self).spec_config() == old(self).spec_config(),
            bytes@ == old(self).spec_reset_bytes(),
            final(self).spec_visible_image_id() is None,
            final(self).spec_visible_placement() is None,
            old(self).spec_stats().spec_after_reset(bytes@.len() as int, final(self).spec_stats()),
    {
        self.visible_image_id = None;
        self.visible_placement = None;
        let mut bytes: Vec<u8> = Vec::new();
        KittyGraphicsEncoder::new(self.config.image_ids[0]).with_quiet_responses().append_delete(
            &mut bytes,
        );
        KittyGraphicsEncoder::new(self.config.image_ids[1]).with_quiet_responses().append_delete(
            &mut bytes,
        );
        proof {
            assert(bytes@ =~= self.spec_reset_bytes());
        }
        self.stats.record_reset(bytes.len());
        bytes
    }

    pub fn stats(&self) -> (stats: KittyRendererStats)
        requires
            self.wf(),
        ensures
            stats == self.spec_stats(),
            stats.wf(),
    {
        self.stats
    }
}

/// With two distinct image ids, a full frame never draws into the image on screen: it
/// draws into the other one and deletes the one it replaces.
pub proof fn lemma_full_frame_swaps_buffers(
    renderer: KittyRenderer,
    terminal: TerminalSize,
    canvas: Canvas,
)
    requires
        renderer.spec_config().image_ids[0] != renderer.spec_config().image_ids[1],
        renderer.spec_full_update_required(terminal, canvas),
        renderer.spec_visible_image_id() is Some,
    ensures
        renderer.spec_frame_image_id(terminal, canvas) != renderer.spec_visible_image_id().unwrap(),
        renderer.spec_frame_deleted_image_id(terminal, canvas) == renderer.spec_visible_image_id(),
{
}

/// After a reset, the next frame is a full frame into the first image id that deletes
/// nothing.
pub proof fn lemma_frame_after_reset(renderer: KittyRenderer, terminal: TerminalSize, canvas: Canvas)
    requires
        renderer.spec_visible_image_id() is None,
    ensures
        renderer.spec_full_update_required(terminal, canvas),
        renderer.spec_frame_image_id(terminal, canvas) == renderer.spec_config().image_ids[0],
        renderer.spec_frame_deleted_image_id(terminal, canvas) is None,
{
}

} // verus!
