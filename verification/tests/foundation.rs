use ecosystem::app::{prepare_startup, AppError, StartupEnvironment};
use ecosystem::canvas::{Canvas, CanvasError, DirtyRegion, Rgba};
use ecosystem::diagnostics::{GraphicsFrameTrace, TraceCollector, TraceEvent};
use ecosystem::input::{key_event_to_action, EngineAction, KeyInput};
use ecosystem::kitty::KittyImageId;
use ecosystem::layout::{CellSize, ImagePlacement};
use ecosystem::runtime::{
    advance_frame_deadline, resize_decision, target_frame_duration, ResizeDebouncer,
    ResizeDecision, RuntimeConfig, TimePoint, TimeSpan,
};
use ecosystem::terminal::{
    detect_color_capability, summarize_graphics_environment, validate_terminal_environment,
    ColorCapability, TerminalColorEnvironment, TerminalGraphicsEnvironment, TerminalSize,
    TerminalValidationError,
};

#[test]
fn canvas_rejects_zero_sized_surfaces() {
    let error = Canvas::new(0, 12, Rgba::transparent())
        .expect_err("zero-width canvases cannot be rendered");

    assert_eq!(
        error,
        CanvasError::InvalidSize {
            width: 0,
            height: 12
        }
    );
}

#[test]
fn canvas_stores_pixels_and_tracks_dirty_region() {
    let mut canvas = Canvas::new(4, 3, Rgba::rgb(1, 2, 3)).expect("valid canvas");
    let hot = Rgba::new(200, 80, 40, 220);

    canvas.set_pixel(1, 1, hot).expect("pixel in bounds");
    canvas
        .set_pixel(3, 2, Rgba::rgb(9, 8, 7))
        .expect("pixel in bounds");

    assert_eq!(canvas.width(), 4);
    assert_eq!(canvas.height(), 3);
    assert_eq!(canvas.pixel(1, 1), Some(hot));
    assert_eq!(
        canvas.dirty_region(),
        Some(DirtyRegion {
            x: 1,
            y: 1,
            width: 3,
            height: 2
        })
    );
}

#[test]
fn canvas_fill_marks_entire_surface_dirty_and_can_clear_dirty_state() {
    let mut canvas = Canvas::new(3, 2, Rgba::transparent()).expect("valid canvas");
    let fill = Rgba::rgb(10, 20, 30);

    canvas.fill(fill);

    assert!(canvas.pixels().iter().all(|pixel| *pixel == fill));
    assert_eq!(
        canvas.dirty_region(),
        Some(DirtyRegion {
            x: 0,
            y: 0,
            width: 3,
            height: 2
        })
    );

    canvas.clear_dirty();
    assert_eq!(canvas.dirty_region(), None);
}

#[test]
fn canvas_reports_one_clipped_region_per_dirty_tile_in_row_major_order() {
    let mut canvas = Canvas::new(40, 20, Rgba::rgb(0, 0, 0)).expect("valid canvas");

    canvas.set_pixel(39, 19, Rgba::rgb(1, 1, 1)).expect("in bounds");
    canvas.set_pixel(17, 3, Rgba::rgb(1, 1, 1)).expect("in bounds");

    assert_eq!(
        canvas.dirty_regions(),
        vec![
            DirtyRegion {
                x: 16,
                y: 0,
                width: 16,
                height: 16
            },
            DirtyRegion {
                x: 32,
                y: 16,
                width: 8,
                height: 4
            },
        ]
    );
}

#[test]
fn canvas_full_frame_request_reports_every_tile_once_and_keeps_pixels() {
    let mut canvas = Canvas::new(40, 20, Rgba::rgb(0, 0, 0)).expect("valid canvas");
    canvas.set_pixel(5, 5, Rgba::rgb(9, 9, 9)).expect("in bounds");
    let before = canvas.pixels().to_vec();

    canvas.mark_full_frame_required();

    assert!(canvas.full_frame_required());
    assert_eq!(canvas.dirty_region(), Some(DirtyRegion::full(40, 20)));
    assert_eq!(canvas.pixels(), before.as_slice());
    let regions = canvas.dirty_regions();
    // ceil(40 / 16) * ceil(20 / 16) tiles.
    assert_eq!(regions.len(), 3 * 2);
    for (index, region) in regions.iter().enumerate() {
        assert_eq!(region.x, (index % 3) as u16 * 16);
        assert_eq!(region.y, (index / 3) as u16 * 16);
    }
}

#[test]
fn canvas_full_frame_request_keeps_the_whole_canvas_dirty_through_later_edits() {
    let mut canvas = Canvas::new(40, 20, Rgba::rgb(0, 0, 0)).expect("valid canvas");

    canvas.fill(Rgba::rgb(3, 3, 3));
    canvas.set_pixel(7, 7, Rgba::rgb(1, 2, 3)).expect("in bounds");
    canvas.mark_dirty_region(DirtyRegion {
        x: 1,
        y: 1,
        width: 2,
        height: 2,
    });

    assert!(canvas.full_frame_required());
    assert_eq!(canvas.dirty_region(), Some(DirtyRegion::full(40, 20)));
    assert_eq!(canvas.dirty_regions().len(), 6);
}

#[test]
fn canvas_run_of_edits_records_every_changed_pixel_and_keeps_its_size() {
    let mut canvas = Canvas::new(4, 3, Rgba::rgb(1, 2, 3)).expect("valid canvas");
    let before = canvas.clone();

    canvas.set_pixel(0, 0, Rgba::rgb(9, 9, 9)).expect("in bounds");
    assert!(canvas.set_pixel(4, 0, Rgba::rgb(9, 9, 9)).is_err());
    canvas.set_pixel(3, 2, Rgba::rgb(8, 8, 8)).expect("in bounds");

    assert_eq!((canvas.width(), canvas.height()), (4, 3));
    assert_eq!(canvas.pixels().len(), 12);
    let region = canvas.dirty_region().expect("edits recorded");
    for y in 0..3u16 {
        for x in 0..4u16 {
            if canvas.pixel(x, y) != before.pixel(x, y) {
                assert!(region.x <= x && x < region.x + region.width);
                assert!(region.y <= y && y < region.y + region.height);
            }
        }
    }
}

#[test]
fn rgba_blend_over_composites_source_alpha_over_opaque_background() {
    let source = Rgba::new(200, 100, 0, 128);
    let background = Rgba::rgb(20, 40, 80);

    assert_eq!(source.blend_over(background), Rgba::new(110, 70, 40, 255));
}

#[test]
fn trace_collector_records_critical_development_events_when_enabled() {
    let mut traces = TraceCollector::enabled();

    traces.record(TraceEvent::new("canvas", "allocated 120x80 RGBA surface"));
    traces.record(TraceEvent::new("terminal", "startup validation passed"));

    let snapshot = traces.snapshot();
    assert_eq!(snapshot.len(), 2);
    assert_eq!(snapshot[0].target, "canvas");
    assert!(snapshot[0].message.contains("RGBA"));
    assert_eq!(snapshot[1].target, "terminal");
}

#[test]
fn graphics_frame_trace_formats_measurement_snapshot_for_terminal_runs() {
    let trace = GraphicsFrameTrace {
        tick: 30,
        canvas_width: 240,
        canvas_height: 135,
        placement: ImagePlacement {
            cursor_column: 46,
            cursor_row: 16,
            columns: 30,
            rows: 10,
        },
        image_id: KittyImageId::new(2),
        deleted_image_id: Some(KittyImageId::new(1)),
        frame_bytes: 173_152,
        average_frame_bytes: 172_900,
        total_protocol_bytes: 5_187_000,
        skipped_deadlines: 2,
        interrupted: true,
        encode_time: TimeSpan::from_nanos(2_400_000),
        frame_time: TimeSpan::from_nanos(3_100_000),
        frames_in_window: 30,
        window_elapsed: TimeSpan::from_millis(1_000),
    };

    let event = trace.to_trace_event("30.0");

    assert_eq!(event.target, "graphics.frame");
    assert_eq!(
        event.message,
        "tick 30: 240x135 canvas, 30x10 cells at 46,16, 30.0 fps, image 2, deleted 1, 173152 bytes sent, avg 172900 bytes/frame, 5187000 protocol bytes total, skipped 2 deadlines, interrupted yes, encode 2400us, frame 3100us"
    );
}

#[test]
fn terminal_validation_rejects_non_tty_stdout() {
    let error = validate_terminal_environment(false, TerminalSize::new(120, 40))
        .expect_err("non-tty stdout must be rejected");

    assert_eq!(
        error.message(),
        "stdout is not a terminal; run ecosystem directly in an interactive terminal"
    );
}

#[test]
fn terminal_validation_rejects_small_terminal() {
    let error = validate_terminal_environment(true, TerminalSize::new(79, 24))
        .expect_err("terminal width below minimum must be rejected");

    assert_eq!(
        error.message(),
        "terminal is too small: got 79x24, minimum is 80x24"
    );
}

#[test]
fn terminal_validation_accepts_minimum_supported_size() {
    validate_terminal_environment(true, TerminalSize::new(80, 24))
        .expect("minimum terminal size is supported");
}

#[test]
fn terminal_size_converts_from_terminal_probe_tuple() {
    let size = TerminalSize::from((132, 43));

    assert_eq!(size.width, 132);
    assert_eq!(size.height, 43);
}

#[test]
fn terminal_color_detection_accepts_common_truecolor_markers() {
    let capability = detect_color_capability(&TerminalColorEnvironment::new(
        Some("truecolor"),
        Some("xterm-kitty"),
    ));

    assert_eq!(capability, ColorCapability::Truecolor);

    let capability = detect_color_capability(&TerminalColorEnvironment::new(
        Some("24bit"),
        Some("screen-256color"),
    ));

    assert_eq!(capability, ColorCapability::Truecolor);
}

#[test]
fn terminal_color_detection_treats_missing_truecolor_markers_as_limited() {
    let capability =
        detect_color_capability(&TerminalColorEnvironment::new(None, Some("xterm-256color")));

    assert_eq!(capability, ColorCapability::Limited);
}

#[test]
fn terminal_graphics_environment_summary_reports_kitty_hints_without_claiming_support() {
    let environment =
        TerminalGraphicsEnvironment::new(Some("xterm-kitty"), Some("truecolor"), true, true);

    let summary = summarize_graphics_environment(&environment);

    assert_eq!(
        summary,
        "target kitty protocol; TERM=xterm-kitty; COLORTERM=truecolor; kitty env hints yes; support still requires successful graphics frames"
    );
}

#[test]
fn terminal_graphics_environment_summary_sanitizes_control_characters() {
    let environment = TerminalGraphicsEnvironment::new(
        Some("xterm-kitty\u{1b}[31m"),
        Some("truecolor\n"),
        false,
        false,
    );

    let summary = summarize_graphics_environment(&environment);

    assert!(summary.contains("TERM=xterm-kitty?"));
    assert!(summary.contains("COLORTERM=truecolor?"));
}

#[test]
fn app_startup_returns_user_facing_startup_error_for_non_tty() {
    let mut traces = TraceCollector::enabled();
    let error = prepare_startup(
        StartupEnvironment::new(false, TerminalSize::new(120, 40)),
        &mut traces,
    )
    .expect_err("non-tty startup must fail before terminal mode");

    assert_eq!(
        error.message(),
        "stdout is not a terminal; run ecosystem directly in an interactive terminal"
    );
    assert_eq!(traces.snapshot()[0].target, "startup");
}

#[test]
fn app_startup_validates_environment_without_emitting_legacy_art_frame() {
    let mut traces = TraceCollector::enabled();
    let report = prepare_startup(
        StartupEnvironment::new(true, TerminalSize::new(80, 24)),
        &mut traces,
    )
    .expect("valid startup prepares the graphics runtime");

    assert_eq!(report.terminal_size, TerminalSize::new(80, 24));
    assert!(traces
        .snapshot()
        .iter()
        .any(|event| event.target == "startup" && event.message.contains("pixel canvas")));
}

#[test]
fn app_startup_records_limited_color_warning_without_failing() {
    let mut traces = TraceCollector::enabled();
    let report = prepare_startup(
        StartupEnvironment::new(true, TerminalSize::new(80, 24))
            .with_color_environment(TerminalColorEnvironment::new(None, Some("xterm-256color"))),
        &mut traces,
    )
    .expect("limited color does not block startup");

    assert_eq!(report.color_capability, ColorCapability::Limited);
    assert!(traces
        .snapshot()
        .iter()
        .any(|event| { event.target == "terminal.color" && event.message.contains("limited") }));
}

#[test]
fn app_startup_records_terminal_graphics_environment_hints() {
    let mut traces = TraceCollector::enabled();
    prepare_startup(
        StartupEnvironment::new(true, TerminalSize::new(80, 24)).with_graphics_environment(
            TerminalGraphicsEnvironment::new(Some("xterm-kitty"), Some("truecolor"), true, false),
        ),
        &mut traces,
    )
    .expect("valid startup records graphics environment");

    assert!(traces.snapshot().iter().any(|event| {
        event.target == "terminal.graphics"
            && event.message.contains("TERM=xterm-kitty")
            && event.message.contains("kitty env hints yes")
            && event
                .message
                .contains("support still requires successful graphics frames")
    }));
}

#[test]
fn input_maps_q_and_escape_to_quit() {
    assert_eq!(key_event_to_action(KeyInput::Char('q')), EngineAction::Quit);
    assert_eq!(key_event_to_action(KeyInput::Esc), EngineAction::Quit);
}

#[test]
fn input_ignores_non_quit_keys() {
    assert_eq!(
        key_event_to_action(KeyInput::Char('x')),
        EngineAction::Continue
    );
}

#[test]
fn runtime_default_targets_thirty_frames_per_second() {
    let config = RuntimeConfig::default();

    assert_eq!(config.target_fps, 30);
    assert_eq!(config.frame_duration(), target_frame_duration(30));
    assert_eq!(config.metrics_sample_interval.as_millis(), 500);
    assert_eq!(config.resize_debounce.as_millis(), 50);
    assert_eq!(config.image_columns, 42);
    assert_eq!(config.image_rows, 14);
    assert_eq!(config.cell_size, CellSize::new(8, 16));
}

#[test]
fn frame_deadline_advances_from_previous_deadline_instead_of_frame_finish_time() {
    let start = TimePoint::from_nanos(5_000_000_000);
    let frame_duration = TimeSpan::from_millis(33);
    let previous_deadline = start.after(frame_duration);
    let frame_finished_at = previous_deadline.after(TimeSpan::from_millis(20));

    let advance = advance_frame_deadline(previous_deadline, frame_duration, frame_finished_at);

    assert_eq!(advance.next_deadline, previous_deadline.after(frame_duration));
    assert_eq!(advance.skipped_deadlines, 0);
}

#[test]
fn frame_deadline_skips_missed_deadlines_after_large_overrun() {
    let start = TimePoint::from_nanos(5_000_000_000);
    let frame_duration = TimeSpan::from_millis(33);
    let previous_deadline = start.after(frame_duration);
    let frame_finished_at = previous_deadline.after(TimeSpan::from_millis(90));

    let advance = advance_frame_deadline(previous_deadline, frame_duration, frame_finished_at);

    assert_eq!(
        advance.next_deadline,
        previous_deadline.after(TimeSpan::from_millis(99))
    );
    assert_eq!(advance.skipped_deadlines, 2);
}

#[test]
fn resize_decision_redraws_when_new_size_is_supported() {
    let decision = resize_decision(TerminalSize::new(120, 40));

    assert_eq!(
        decision,
        ResizeDecision::Redraw {
            size: TerminalSize::new(120, 40)
        }
    );
}

#[test]
fn resize_decision_suspends_when_new_size_is_too_small() {
    let decision = resize_decision(TerminalSize::new(60, 20));

    assert_eq!(
        decision,
        ResizeDecision::Suspend {
            actual: TerminalSize::new(60, 20),
            minimum: TerminalSize::new(80, 24)
        }
    );
}

#[test]
fn resize_debouncer_coalesces_rapid_events_to_latest_size() {
    let mut debouncer = ResizeDebouncer::new(TimeSpan::from_millis(50));
    let start = TimePoint::from_nanos(1_000_000_000);

    debouncer.observe(TerminalSize::new(100, 30), start);
    debouncer.observe(
        TerminalSize::new(120, 40),
        start.after(TimeSpan::from_millis(10)),
    );

    assert_eq!(
        debouncer.take_due(start.after(TimeSpan::from_millis(40))),
        None
    );
    assert_eq!(
        debouncer.take_due(start.after(TimeSpan::from_millis(60))),
        Some(ResizeDecision::Redraw {
            size: TerminalSize::new(120, 40)
        })
    );
    assert_eq!(
        debouncer.take_due(start.after(TimeSpan::from_millis(80))),
        None
    );
}

#[test]
fn app_error_wraps_terminal_rejection() {
    let error = AppError::from(TerminalValidationError::TooSmall {
        actual: TerminalSize::new(10, 5),
        minimum: TerminalSize::new(80, 24),
    });

    assert_eq!(
        error.message(),
        "terminal is too small: got 10x5, minimum is 80x24"
    );
}

#[test]
fn disabled_trace_collector_drops_events() {
    let mut traces = TraceCollector::disabled();

    traces.record(TraceEvent::new("canvas", "dropped"));

    assert!(traces.snapshot().is_empty());
}

#[test]
fn trace_collector_stamps_events_recorded_at_a_given_time() {
    let mut traces = TraceCollector::enabled();

    traces.record_at(TraceEvent::new("frame", "first"), TimeSpan::from_millis(7));

    let snapshot = traces.snapshot();
    assert_eq!(snapshot[0].elapsed.as_millis(), 7);
    assert_eq!(snapshot[0].message, "first");
}

#[test]
fn resize_debouncer_reports_when_the_pending_size_is_due() {
    let mut debouncer = ResizeDebouncer::new(TimeSpan::from_millis(50));
    assert_eq!(debouncer.ready_at(), None);

    debouncer.observe(TerminalSize::new(60, 20), TimePoint::from_nanos(0));

    assert_eq!(debouncer.ready_at(), Some(TimePoint::from_nanos(50_000_000)));
    assert_eq!(
        debouncer.take_due(TimePoint::from_nanos(50_000_000)),
        Some(ResizeDecision::Suspend {
            actual: TerminalSize::new(60, 20),
            minimum: TerminalSize::new(80, 24)
        })
    );
    assert_eq!(debouncer.ready_at(), None);
}

#[test]
fn frame_deadline_with_zero_duration_is_now() {
    let advance = advance_frame_deadline(
        TimePoint::from_nanos(10),
        TimeSpan::zero(),
        TimePoint::from_nanos(99),
    );

    assert_eq!(advance.next_deadline, TimePoint::from_nanos(99));
    assert_eq!(advance.skipped_deadlines, 0);
}

#[test]
fn target_frame_duration_treats_zero_fps_as_one() {
    assert_eq!(target_frame_duration(0).as_nanos(), 1_000_000_000);
    assert_eq!(target_frame_duration(30).as_nanos(), 33_333_333);
}

#[test]
fn disabled_trace_collector_stays_empty_through_a_run_of_records() {
    let mut traces = TraceCollector::disabled();

    for index in 0..5u64 {
        traces.record(TraceEvent::new("frame", "dropped"));
        traces.record_at(TraceEvent::new("frame", "dropped"), TimeSpan::from_millis(index));
    }

    assert!(traces.snapshot().is_empty());
}

#[test]
fn canvas_dirty_region_is_the_bounding_box_of_the_writes_that_changed_a_pixel() {
    let mut canvas = Canvas::new(10, 8, Rgba::rgb(0, 0, 0)).expect("valid canvas");

    canvas.set_pixel(5, 1, Rgba::rgb(1, 1, 1)).expect("in bounds");
    // Writing the value already stored records nothing.
    canvas.set_pixel(9, 7, Rgba::rgb(0, 0, 0)).expect("in bounds");
    canvas.set_pixel(2, 4, Rgba::rgb(2, 2, 2)).expect("in bounds");
    assert!(canvas.set_pixel(10, 0, Rgba::rgb(3, 3, 3)).is_err());

    assert_eq!(
        canvas.dirty_region(),
        Some(DirtyRegion {
            x: 2,
            y: 1,
            width: 4,
            height: 4
        })
    );
    assert!(!canvas.full_frame_required());
}

#[test]
fn canvas_marks_only_the_part_of_a_region_that_lies_on_it() {
    let mut canvas = Canvas::new(10, 8, Rgba::rgb(0, 0, 0)).expect("valid canvas");

    canvas.mark_dirty_region(DirtyRegion {
        x: 10,
        y: 0,
        width: 3,
        height: 3,
    });
    assert_eq!(canvas.dirty_region(), None);

    canvas.mark_dirty_region(DirtyRegion {
        x: 8,
        y: 6,
        width: 5,
        height: 5,
    });
    assert_eq!(
        canvas.dirty_region(),
        Some(DirtyRegion {
            x: 8,
            y: 6,
            width: 2,
            height: 2
        })
    );
    assert_eq!(canvas.dirty_regions().len(), 1);
}
