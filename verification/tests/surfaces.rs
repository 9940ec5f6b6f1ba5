use ecosystem::canvas::{Canvas, CanvasError, DirtyRegion, Rgba};
use ecosystem::framebuffer::{Cell, Color, Framebuffer, FramebufferError};
use ecosystem::terminal::AnsiDiffEncoder;

#[test]
fn writing_the_value_already_there_records_nothing() {
    let mut canvas = Canvas::new(3, 3, Rgba::rgb(1, 1, 1)).expect("valid canvas");

    canvas.set_pixel(1, 1, Rgba::rgb(1, 1, 1)).expect("in bounds");

    assert_eq!(canvas.dirty_region(), None);
    assert!(canvas.dirty_regions().is_empty());
}

#[test]
fn out_of_bounds_writes_are_refused_and_change_nothing() {
    let mut canvas = Canvas::new(3, 3, Rgba::rgb(1, 1, 1)).expect("valid canvas");

    let error = canvas.set_pixel(3, 0, Rgba::rgb(2, 2, 2)).expect_err("outside");

    assert_eq!(error, CanvasError::OutOfBounds { x: 3, y: 0 });
    assert_eq!(error.message(), "canvas coordinate out of bounds: (3, 0)");
    assert_eq!(canvas.dirty_region(), None);
    assert_eq!(canvas.pixel(3, 0), None);
}

#[test]
fn dirty_tiles_report_each_changed_sixteen_pixel_tile() {
    let mut canvas = Canvas::new(40, 20, Rgba::rgb(0, 0, 0)).expect("valid canvas");

    canvas.set_pixel(1, 1, Rgba::rgb(9, 9, 9)).expect("in bounds");
    canvas.set_pixel(35, 18, Rgba::rgb(9, 9, 9)).expect("in bounds");

    assert_eq!(
        canvas.dirty_regions(),
        vec![
            DirtyRegion {
                x: 0,
                y: 0,
                width: 16,
                height: 16
            },
            DirtyRegion {
                x: 32,
                y: 16,
                width: 8,
                height: 4
            },
        ]
    );
    assert_eq!(
        canvas.dirty_region(),
        Some(DirtyRegion {
            x: 1,
            y: 1,
            width: 35,
            height: 18
        })
    );
}

#[test]
fn copy_region_restores_pixels_from_a_background() {
    let background = Canvas::new(4, 4, Rgba::rgb(7, 7, 7)).expect("valid canvas");
    let mut canvas = Canvas::new(4, 4, Rgba::rgb(0, 0, 0)).expect("valid canvas");
    let region = DirtyRegion {
        x: 1,
        y: 1,
        width: 2,
        height: 2,
    };

    canvas.copy_region_from(&background, region).expect("region fits");

    assert_eq!(canvas.pixel(1, 1), Some(Rgba::rgb(7, 7, 7)));
    assert_eq!(canvas.pixel(2, 2), Some(Rgba::rgb(7, 7, 7)));
    assert_eq!(canvas.pixel(0, 0), Some(Rgba::rgb(0, 0, 0)));
    assert_eq!(canvas.dirty_region(), Some(region));

    let error = canvas
        .copy_region_from(
            &background,
            DirtyRegion {
                x: 3,
                y: 3,
                width: 2,
                height: 1,
            },
        )
        .expect_err("region too large");
    assert_eq!(
        error.message(),
        "canvas dirty region out of bounds: 3,3 2x1"
    );
}

#[test]
fn full_frame_request_survives_until_cleared() {
    let mut canvas = Canvas::new(2, 2, Rgba::rgb(0, 0, 0)).expect("valid canvas");

    canvas.mark_full_frame_required();
    canvas.set_pixel(0, 0, Rgba::rgb(1, 2, 3)).expect("in bounds");
    assert!(canvas.full_frame_required());

    canvas.clear_dirty();
    assert!(!canvas.full_frame_required());
    assert_eq!(canvas.dirty_region(), None);
}

#[test]
fn dirty_region_helpers_cover_and_mark() {
    let full = DirtyRegion::full(5, 4);

    assert!(full.covers(5, 4));
    assert!(!DirtyRegion {
        x: 1,
        y: 0,
        width: 4,
        height: 4
    }
    .covers(5, 4));

    let mut canvas = Canvas::new(5, 4, Rgba::rgb(0, 0, 0)).expect("valid canvas");
    canvas.mark_dirty_region(DirtyRegion {
        x: 2,
        y: 1,
        width: 1,
        height: 2,
    });
    assert_eq!(
        canvas.dirty_region(),
        Some(DirtyRegion {
            x: 2,
            y: 1,
            width: 1,
            height: 2
        })
    );
}

#[test]
fn framebuffer_reads_back_what_was_written() {
    let mut frame = Framebuffer::new(3, 2, Cell::blank()).expect("valid framebuffer");
    let written = Cell::new('x', Color::rgb(1, 2, 3), Color::rgb(4, 5, 6));

    frame.set(2, 1, written).expect("in bounds");

    assert_eq!(frame.get(2, 1), Some(&written));
    assert_eq!(frame.get(1, 1), Some(&Cell::blank()));
    assert_eq!(
        frame.set(3, 0, written),
        Err(FramebufferError::OutOfBounds { x: 3, y: 0 })
    );
}

#[test]
fn ansi_diff_prints_only_changed_cells() {
    let previous = Framebuffer::new(2, 1, Cell::blank()).expect("valid framebuffer");
    let mut current = previous.clone();
    current
        .set(1, 0, Cell::new('a', Color::rgb(1, 2, 3), Color::rgb(4, 5, 6)))
        .expect("in bounds");

    let output = AnsiDiffEncoder::new()
        .encode_diff(&previous, &current)
        .expect("same size");

    assert_eq!(output.changed_cells, 1);
    assert_eq!(
        String::from_utf8(output.bytes).expect("ansi is utf8"),
        "\u{1b}[1;2H\u{1b}[38;2;1;2;3m\u{1b}[48;2;4;5;6ma\u{1b}[0m"
    );
}

#[test]
fn ansi_diff_refuses_framebuffers_of_different_sizes() {
    let previous = Framebuffer::new(2, 1, Cell::blank()).expect("valid framebuffer");
    let current = Framebuffer::new(1, 2, Cell::blank()).expect("valid framebuffer");

    let error = AnsiDiffEncoder::new()
        .encode_diff(&previous, &current)
        .expect_err("sizes differ");

    assert_eq!(
        error.message(),
        "framebuffer sizes differ: previous 2x1, current 1x2"
    );
}
