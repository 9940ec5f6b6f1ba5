use ecosystem::layout::{
    canvas_size_changed, centered_image_placement, graphics_layout, CellSize, GraphicsLayout, ImagePlacement,
};
use ecosystem::terminal::{clear_screen, move_cursor_to, TerminalSize};

#[test]
fn centered_image_placement_uses_one_based_cursor_coordinates() {
    let layout = graphics_layout(TerminalSize::new(120, 40), 30, 10, CellSize::new(8, 16));

    assert_eq!(
        layout,
        GraphicsLayout {
            placement: ImagePlacement {
                cursor_column: 46,
                cursor_row: 16,
                columns: 30,
                rows: 10
            },
            canvas_width: 240,
            canvas_height: 160
        }
    );
}

#[test]
fn centered_image_placement_clamps_to_small_terminals() {
    let layout = graphics_layout(TerminalSize::new(20, 8), 30, 10, CellSize::new(8, 16));

    assert_eq!(
        layout,
        GraphicsLayout {
            placement: ImagePlacement {
                cursor_column: 1,
                cursor_row: 1,
                columns: 20,
                rows: 8
            },
            canvas_width: 160,
            canvas_height: 128
        }
    );
}

#[test]
fn cursor_movement_uses_ansi_row_then_column_order() {
    let command = String::from_utf8(move_cursor_to(6, 4)).expect("cursor command is utf8");

    assert_eq!(command, "\u{1b}[4;6H");
}

#[test]
fn zero_requests_and_zero_cell_sizes_count_as_one() {
    let layout = graphics_layout(TerminalSize::new(10, 5), 0, 0, CellSize::new(0, 0));

    assert_eq!(layout.placement.columns, 1);
    assert_eq!(layout.placement.rows, 1);
    assert_eq!(layout.placement.cursor_column, 5);
    assert_eq!(layout.placement.cursor_row, 3);
    assert_eq!(layout.canvas_width, 1);
    assert_eq!(layout.canvas_height, 1);
}

#[test]
fn canvas_size_saturates_at_the_largest_u16() {
    let layout = graphics_layout(TerminalSize::new(1000, 1000), 1000, 1000, CellSize::new(100, 100));

    assert_eq!(layout.canvas_width, u16::MAX);
    assert_eq!(layout.canvas_height, u16::MAX);
}

#[test]
fn centering_leaves_the_odd_cell_on_the_right() {
    let placement = centered_image_placement(TerminalSize::new(11, 4), 4, 4);

    assert_eq!(placement.cursor_column, 4);
    assert_eq!(placement.cursor_row, 1);
}

#[test]
fn clear_screen_erases_and_homes_the_cursor() {
    assert_eq!(clear_screen(), b"\x1b[2J\x1b[H".to_vec());
}

#[test]
fn the_scene_is_rebuilt_only_when_the_canvas_size_changes() {
    let small = graphics_layout(TerminalSize::new(120, 40), 30, 10, CellSize::new(8, 16));
    let same = graphics_layout(TerminalSize::new(130, 40), 30, 10, CellSize::new(8, 16));
    let larger = graphics_layout(TerminalSize::new(120, 40), 40, 12, CellSize::new(8, 16));

    assert!(!canvas_size_changed(&small, &small));
    assert_eq!(
        canvas_size_changed(&small, &same),
        small.canvas_width != same.canvas_width || small.canvas_height != same.canvas_height
    );
    assert!(canvas_size_changed(&small, &larger));
}
