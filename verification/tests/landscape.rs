use ecosystem::canvas::{Canvas, DirtyRegion, Rgba};
use ecosystem::framebuffer::{Cell, Color, Framebuffer, FramebufferError};
use ecosystem::render::{
    build_landscape_frame, build_landscape_frame_with_activity, build_static_landscape_frame,
    CreatureMood, CreatureState, LandscapeActivity, VegetationDensity, VisualTheme, WaterFlow,
    WeatherKind,
};
use ecosystem::visual::{
    cafe_counter_top, draw_rect, window_geometry, CafeCanvasConfig, SceneCanvasConfig,
};

fn cell(frame: &Framebuffer, x: u16, y: u16) -> Cell {
    *frame.get(x, y).expect("cell in bounds")
}

#[test]
fn landscape_bottom_rows_are_ground_and_water() {
    let theme = VisualTheme::default();
    let frame = build_landscape_frame(10, 6, 1).expect("valid frame");

    for x in 0..10 {
        assert_eq!(cell(&frame, x, 5).glyph, '▄');
        assert_eq!(cell(&frame, x, 5).bg, theme.ground_background);
        assert_eq!(cell(&frame, x, 4).fg, theme.water_color);
    }
    assert_eq!(cell(&frame, 3, 4).glyph, '›');
    assert_eq!(cell(&frame, 4, 4).glyph, '≈');
}

#[test]
fn quiet_landscape_places_one_calm_creature_in_the_middle() {
    let frame = build_landscape_frame(10, 6, 2).expect("valid frame");

    assert_eq!(cell(&frame, 5, 3).glyph, '◦');
    assert_eq!(cell(&frame, 4, 3).glyph, ' ');

    let odd = build_landscape_frame(10, 6, 3).expect("valid frame");
    assert_eq!(cell(&odd, 5, 3).glyph, '●');
}

#[test]
fn tiny_landscape_is_sky_only() {
    let frame = build_static_landscape_frame(4, 2).expect("valid frame");

    assert!(frame
        .cells()
        .iter()
        .all(|cell| cell.glyph == ' ' && cell.bg == Color::rgb(8, 18, 34)));
}

#[test]
fn empty_landscape_is_rejected() {
    let error = build_static_landscape_frame(0, 5).expect_err("zero width");

    assert_eq!(
        error,
        FramebufferError::InvalidSize {
            width: 0,
            height: 5
        }
    );
    assert_eq!(
        error.message(),
        "framebuffer size must be non-zero, got 0x5"
    );
}

#[test]
fn busy_landscape_draws_weather_vegetation_and_busy_creatures() {
    let theme = VisualTheme::default();
    let activity = LandscapeActivity {
        water: WaterFlow::Both,
        weather_particles: 2,
        weather: WeatherKind::Mixed,
        plants: 1,
        vegetation: VegetationDensity::High,
        creatures: vec![
            CreatureState {
                drifts: true,
                mood: CreatureMood::Busy,
            },
            CreatureState {
                drifts: false,
                mood: CreatureMood::Calm,
            },
        ],
    };

    let frame = build_landscape_frame_with_activity(12, 8, 1, &activity, &theme)
        .expect("valid frame");

    assert_eq!(cell(&frame, 4, 2).glyph, '✶');
    assert_eq!(cell(&frame, 8, 2).glyph, '✶');
    assert_eq!(cell(&frame, 6, 5).glyph, '♣');
    assert_eq!(cell(&frame, 5, 4).glyph, '◆');
    assert_eq!(cell(&frame, 5, 4).fg, theme.creature_busy_color);
    assert_eq!(cell(&frame, 8, 4).glyph, '●');
    assert_eq!(cell(&frame, 0, 6).glyph, '≈');
    assert_eq!(cell(&frame, 1, 6).glyph, '≋');
}

#[test]
fn draw_rect_fills_the_clipped_rectangle_and_marks_it_dirty() {
    let mut canvas = Canvas::new(4, 3, Rgba::rgb(0, 0, 0)).expect("valid canvas");

    draw_rect(&mut canvas, 2, 1, 10, 10, Rgba::rgb(5, 5, 5));

    assert_eq!(canvas.pixel(1, 1), Some(Rgba::rgb(0, 0, 0)));
    assert_eq!(canvas.pixel(2, 1), Some(Rgba::rgb(5, 5, 5)));
    assert_eq!(canvas.pixel(3, 2), Some(Rgba::rgb(5, 5, 5)));
    assert_eq!(
        canvas.dirty_region(),
        Some(DirtyRegion {
            x: 2,
            y: 1,
            width: 2,
            height: 2
        })
    );
}

#[test]
fn cafe_geometry_places_counter_and_window() {
    assert_eq!(cafe_counter_top(264), 176);

    let window = window_geometry(560, 264);
    assert_eq!(window.width, 186);
    assert_eq!(window.height, 132);
    assert_eq!(window.x, 328);
    assert_eq!(window.y, 33);
}

#[test]
fn canvas_configs_keep_their_size() {
    assert_eq!(CafeCanvasConfig::new(560, 264).width, 560);
    assert_eq!(SceneCanvasConfig::new(120, 80).height, 80);
}
