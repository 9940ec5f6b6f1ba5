use ecosystem::canvas::{Canvas, Rgba};
use ecosystem::kitty::KittyImageId;
use ecosystem::renderer::{KittyRenderer, KittyRendererConfig};
use ecosystem::terminal::TerminalSize;

fn config() -> KittyRendererConfig {
    KittyRendererConfig {
        image_ids: [KittyImageId::new(100), KittyImageId::new(101)],
        image_columns: 30,
        image_rows: 10,
    }
}

#[test]
fn kitty_renderer_places_first_frame_without_deleting_any_image() {
    let canvas = Canvas::new(2, 1, Rgba::rgb(255, 0, 0)).expect("valid canvas");
    let mut renderer = KittyRenderer::new(config());

    let frame = renderer.render_frame(TerminalSize::new(120, 40), &canvas);
    let command = String::from_utf8(frame.bytes).expect("renderer output is utf8");

    assert_eq!(frame.image_id, KittyImageId::new(100));
    assert_eq!(frame.deleted_image_id, None);
    assert_eq!(frame.placement.cursor_column, 46);
    assert!(command.starts_with("\u{1b}[16;46H\u{1b}_Ga=T,q=2,f=32,i=100"));
    assert!(!command.contains("a=d"));
}

#[test]
fn kitty_renderer_draws_next_buffer_before_deleting_previous_buffer() {
    let canvas = Canvas::new(2, 1, Rgba::rgb(255, 0, 0)).expect("valid canvas");
    let mut renderer = KittyRenderer::new(config());

    renderer.render_frame(TerminalSize::new(120, 40), &canvas);
    let frame = renderer.render_frame(TerminalSize::new(120, 40), &canvas);
    let command = String::from_utf8(frame.bytes).expect("renderer output is utf8");
    let draw_index = command.find("i=101").expect("new image is drawn");
    let delete_index = command.find("a=d").expect("previous image is deleted");

    assert_eq!(frame.image_id, KittyImageId::new(101));
    assert_eq!(frame.deleted_image_id, Some(KittyImageId::new(100)));
    assert!(draw_index < delete_index);
}

#[test]
fn kitty_renderer_cleanup_deletes_all_managed_buffers_and_resets_state() {
    let canvas = Canvas::new(2, 1, Rgba::rgb(255, 0, 0)).expect("valid canvas");
    let mut renderer = KittyRenderer::new(config());

    renderer.render_frame(TerminalSize::new(120, 40), &canvas);
    let cleanup = String::from_utf8(renderer.reset()).expect("cleanup output is utf8");
    let frame = renderer.render_frame(TerminalSize::new(120, 40), &canvas);

    assert!(cleanup.contains("a=d,q=2,d=i,i=100"));
    assert!(cleanup.contains("a=d,q=2,d=i,i=101"));
    assert_eq!(frame.image_id, KittyImageId::new(100));
    assert_eq!(frame.deleted_image_id, None);
}

#[test]
fn kitty_renderer_tracks_frame_and_cleanup_protocol_stats() {
    let canvas = Canvas::new(2, 1, Rgba::rgb(255, 0, 0)).expect("valid canvas");
    let mut renderer = KittyRenderer::new(config());

    let first = renderer.render_frame(TerminalSize::new(120, 40), &canvas);
    let second = renderer.render_frame(TerminalSize::new(120, 40), &canvas);
    let frame_bytes = first.bytes.len() + second.bytes.len();
    let stats = renderer.stats();

    assert_eq!(stats.frames_rendered(), 2);
    assert_eq!(stats.frame_bytes(), frame_bytes as u64);
    assert_eq!(stats.average_frame_bytes(), (frame_bytes / 2) as u64);
    assert_eq!(stats.latest_image_id(), Some(KittyImageId::new(101)));
    assert_eq!(
        stats.latest_deleted_image_id(),
        Some(KittyImageId::new(100))
    );
    assert_eq!(stats.latest_placement(), Some(second.placement));

    let cleanup_bytes = renderer.reset().len();
    let stats = renderer.stats();

    assert_eq!(stats.resets(), 1);
    assert_eq!(stats.cleanup_bytes(), cleanup_bytes as u64);
    assert_eq!(
        stats.total_protocol_bytes(),
        (frame_bytes + cleanup_bytes) as u64
    );
    assert_eq!(stats.latest_image_id(), None);
    assert_eq!(stats.latest_deleted_image_id(), None);
    assert_eq!(stats.latest_placement(), None);
}

#[test]
fn kitty_renderer_sends_only_the_dirty_region_of_an_unchanged_layout() {
    let mut canvas = Canvas::new(4, 4, Rgba::rgb(0, 0, 0)).expect("valid canvas");
    let mut renderer = KittyRenderer::new(config());

    let first = renderer.render_frame(TerminalSize::new(120, 40), &canvas);
    assert!(!first.partial_update);

    canvas.clear_dirty();
    canvas
        .set_pixel(2, 3, Rgba::rgb(9, 9, 9))
        .expect("pixel in bounds");
    let second = renderer.render_frame(TerminalSize::new(120, 40), &canvas);
    let command = String::from_utf8(second.bytes.clone()).expect("renderer output is utf8");

    assert!(second.partial_update);
    assert_eq!(second.image_id, KittyImageId::new(100));
    assert_eq!(second.deleted_image_id, None);
    assert!(command.starts_with("\u{1b}_Ga=f,q=2,f=32,i=100,r=1,x=2,y=3,s=1,v=1,X=1"));

    let stats = renderer.stats();
    assert_eq!(stats.partial_frame_bytes(), second.bytes.len() as u64);
    assert_eq!(stats.full_frame_bytes(), first.bytes.len() as u64);
    assert_eq!(
        stats.frame_bytes(),
        stats.full_frame_bytes() + stats.partial_frame_bytes()
    );
}

#[test]
fn kitty_renderer_redraws_whole_frame_after_the_placement_moves() {
    let mut canvas = Canvas::new(2, 2, Rgba::rgb(0, 0, 0)).expect("valid canvas");
    let mut renderer = KittyRenderer::new(config());

    renderer.render_frame(TerminalSize::new(120, 40), &canvas);
    canvas.clear_dirty();
    canvas
        .set_pixel(0, 0, Rgba::rgb(1, 1, 1))
        .expect("pixel in bounds");
    let frame = renderer.render_frame(TerminalSize::new(100, 40), &canvas);

    assert!(!frame.partial_update);
    assert_eq!(frame.image_id, KittyImageId::new(101));
    assert_eq!(frame.deleted_image_id, Some(KittyImageId::new(100)));
    assert_eq!(frame.placement.cursor_column, 36);
}

#[test]
fn average_frame_bytes_is_zero_before_any_frame() {
    let renderer = KittyRenderer::new(config());

    assert_eq!(renderer.stats().average_frame_bytes(), 0);
    assert_eq!(renderer.stats().total_protocol_bytes(), 0);
}

#[test]
fn kitty_renderer_counts_full_and_partial_bytes_across_frames_and_resets() {
    let mut canvas = Canvas::new(20, 18, Rgba::rgb(0, 0, 0)).expect("valid canvas");
    let mut renderer = KittyRenderer::new(config());
    let size = TerminalSize::new(120, 40);
    let mut full = 0u64;
    let mut partial = 0u64;
    let mut frames = 0u64;

    for step in 0..6u16 {
        if step == 3 {
            renderer.reset();
        }
        canvas.clear_dirty();
        canvas
            .set_pixel(step, step, Rgba::rgb(9, 9, 9))
            .expect("pixel in bounds");
        let frame = renderer.render_frame(size, &canvas);
        let length = frame.bytes.len() as u64;
        // A frame never exceeds 80 bytes per pixel plus 256.
        assert!(length <= 80 * 20 * 18 + 256);
        if frame.partial_update {
            partial += length;
        } else {
            full += length;
        }
        frames += 1;
    }

    let stats = renderer.stats();
    assert!(partial > 0 && full > 0);
    assert_eq!(stats.frames_rendered(), frames);
    assert_eq!(stats.full_frame_bytes(), full);
    assert_eq!(stats.partial_frame_bytes(), partial);
    assert_eq!(stats.frame_bytes(), full + partial);
}
