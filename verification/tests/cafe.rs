use ecosystem::assets::Sprite;
use ecosystem::cafe::{
    background_rects, counter_activity_rects, draw_cafe_background, rain_rects, CafeActivity,
    CafeScene, CafeSceneError, ColoredRect,
};
use ecosystem::canvas::{Canvas, CanvasError, Rgba};
use ecosystem::cat::{
    cat_fits_canvas, load_cat_frames, main_cat_size, next_presence, CatAnimator, CatLoadSignals,
    CatPresence,
};
use ecosystem::visual::CafeCanvasConfig;

const CAFE_WIDTH: u16 = 512;
const CAFE_HEIGHT: u16 = 240;
const CAT_COLOR: Rgba = Rgba {
    r: 240,
    g: 200,
    b: 160,
    a: 255,
};

fn solid_sprite(width: u16, height: u16, color: Rgba) -> Sprite {
    Sprite::from_rgba_pixels(width, height, vec![color; usize::from(width) * usize::from(height)])
        .expect("valid sprite")
}

fn cats() -> CatAnimator {
    let sheet = solid_sprite(96, 32, CAT_COLOR);
    CatAnimator::from_sheets(&sheet, &sheet, &sheet).expect("sheets cut into frames")
}

fn quiet_signals() -> CatLoadSignals {
    CatLoadSignals {
        busy: false,
        lively: false,
        drowsy: true,
        quiet: true,
        still: true,
        energetic: false,
    }
}

fn busy_signals() -> CatLoadSignals {
    CatLoadSignals {
        busy: true,
        lively: true,
        drowsy: false,
        quiet: false,
        still: false,
        energetic: true,
    }
}

fn quiet_activity() -> CafeActivity {
    CafeActivity {
        rain_streaks: 5,
        rain_speed: 2,
        counter_active: false,
        steam_puffs: 2,
        steam_drift: 0,
        bubbles: 0,
        clutter: 0,
        cat: quiet_signals(),
    }
}

fn gradient(rows: u16, color: Rgba) -> Vec<Rgba> {
    vec![color; usize::from(rows)]
}

fn scene() -> CafeScene {
    CafeScene::new(
        CafeCanvasConfig::new(CAFE_WIDTH, CAFE_HEIGHT),
        &gradient(CAFE_HEIGHT, Rgba::rgb(30, 20, 28)),
        &gradient(CAFE_HEIGHT / 2, Rgba::rgb(10, 50, 100)),
        cats(),
    )
    .expect("valid cafe scene")
}

#[test]
fn cafe_scene_names_its_layers_bottom_to_top() {
    let scene = scene();

    assert_eq!(
        scene.layer_names().as_slice(),
        [
            "cafe_background",
            "main_cat_sprite",
            "window_rain",
            "warm_light",
            "counter_activity"
        ]
    );
}

#[test]
fn cafe_scene_first_frame_is_full_and_shows_the_cat_on_the_counter() {
    let mut scene = scene();

    scene.render(0, &quiet_activity());
    let canvas = scene.canvas();

    assert_eq!(canvas.width(), CAFE_WIDTH);
    assert_eq!(canvas.height(), CAFE_HEIGHT);
    assert!(canvas.full_frame_required());
    // The cat is 42 pixels on this canvas, centred, standing on the counter at row 160.
    let size = main_cat_size(CAFE_WIDTH, CAFE_HEIGHT);
    assert_eq!(size, 42);
    let cat_pixels = canvas.pixels().iter().filter(|pixel| **pixel == CAT_COLOR).count();
    assert!(cat_pixels >= usize::from(size) * usize::from(size));
    assert_eq!(canvas.pixel(235, 140), Some(CAT_COLOR));
}

#[test]
fn cafe_scene_quiet_frames_only_dirty_what_moved() {
    let mut scene = scene();

    scene.render(0, &quiet_activity());
    scene.render(1, &quiet_activity());
    let canvas = scene.canvas();

    assert!(!canvas.full_frame_required());
    let dirty = canvas.dirty_region().expect("rain moved");
    let dirty_area = u32::from(dirty.width) * u32::from(dirty.height);
    let canvas_area = u32::from(canvas.width()) * u32::from(canvas.height());
    assert!(dirty_area * 4 < canvas_area);
    // The lamp, far from every moving layer, stays as the backdrop drew it.
    assert_eq!(canvas.pixel(115, 50), Some(Rgba::rgb(219, 149, 68)));
}

#[test]
fn cafe_scene_frames_do_not_depend_on_earlier_frames() {
    let mut fresh = scene();
    let mut warmed = scene();
    let busy = CafeActivity {
        rain_streaks: 10,
        rain_speed: 6,
        counter_active: true,
        steam_puffs: 6,
        steam_drift: 16,
        bubbles: 5,
        clutter: 3,
        cat: quiet_signals(),
    };

    warmed.render(0, &busy);
    warmed.render(7, &busy);
    warmed.render(12, &quiet_activity());
    fresh.render(12, &quiet_activity());

    assert_eq!(warmed.canvas().pixels(), fresh.canvas().pixels());
}

#[test]
fn cafe_scene_rejects_an_empty_canvas() {
    let result = CafeScene::new(CafeCanvasConfig::new(0, CAFE_HEIGHT), &Vec::new(), &Vec::new(), cats());

    let error = result.err().expect("empty canvas");
    assert!(matches!(
        error,
        CafeSceneError::Canvas(CanvasError::InvalidSize {
            width: 0,
            height: 240
        })
    ));
    assert_eq!(error.message(), "cafe canvas failed: canvas size must be non-zero, got 0x240");
}

#[test]
fn cafe_scene_wakes_the_cat_with_processor_load() {
    assert_eq!(next_presence(CatPresence::Idle, busy_signals()), CatPresence::Walking);
    assert_eq!(next_presence(CatPresence::Walking, quiet_signals()), CatPresence::Asleep);

    let mut cat = cats();
    let mut canvas = Canvas::new(CAFE_WIDTH, CAFE_HEIGHT, Rgba::rgb(0, 0, 0)).expect("valid canvas");
    assert_eq!(cat.presence(), CatPresence::Idle);
    cat.render(&mut canvas, 30, busy_signals());
    assert_eq!(cat.presence(), CatPresence::Walking);
}

#[test]
fn cat_sheets_are_cut_into_square_frames() {
    let frames = load_cat_frames(&solid_sprite(100, 40, CAT_COLOR)).expect("frames");
    assert_eq!(frames.len(), 3);
    assert!(frames.iter().all(|frame| frame.width() == 32 && frame.height() == 32));

    let narrow = load_cat_frames(&solid_sprite(20, 10, CAT_COLOR)).expect("one frame");
    assert_eq!(narrow.len(), 1);
    assert_eq!((narrow[0].width(), narrow[0].height()), (20, 10));
}

#[test]
fn cafe_canvas_must_leave_room_for_the_pacing_cat() {
    assert!(cat_fits_canvas(CAFE_WIDTH, CAFE_HEIGHT));
    assert!(cat_fits_canvas(101, 51));
    assert!(!cat_fits_canvas(100, 51));
    assert!(!cat_fits_canvas(101, 50));
}

#[test]
fn rain_draws_seven_slanted_pixels_per_streak() {
    let rects = rain_rects(CAFE_WIDTH, CAFE_HEIGHT, 0, 12, 2);

    assert_eq!(rects.len(), 70);
    // The first streak starts 10 pixels into the window at (300, 30) and 6 rows down.
    assert_eq!(
        rects[0],
        ColoredRect {
            x: 310,
            y: 36,
            width: 1,
            height: 1,
            color: Rgba::rgb(96, 151, 190)
        }
    );
    assert_eq!((rects[6].x, rects[6].y), (312, 42));
}

#[test]
fn counter_activity_is_clustered_and_capped() {
    let calm = counter_activity_rects(CAFE_WIDTH, CAFE_HEIGHT, 18, &quiet_activity());
    assert!(calm.is_empty());

    let busy = CafeActivity {
        rain_streaks: 5,
        rain_speed: 2,
        counter_active: true,
        steam_puffs: 9,
        steam_drift: 11,
        bubbles: 7,
        clutter: 4,
        cat: quiet_signals(),
    };
    let rects = counter_activity_rects(CAFE_WIDTH, CAFE_HEIGHT, 18, &busy);
    assert_eq!(rects.len(), 6 + 5 + 3);
    // The cup sits at (298, 172); the first puff is 7 left plus half the drift, rounded
    // toward zero, and rises 10 + ((18 / 4) % 14) rows.
    assert_eq!((rects[0].x, rects[0].y), (296, 158));
    assert_eq!((rects[6].x, rects[6].y), (314, 160));
    assert_eq!((rects[11].x, rects[11].y), (274, 177));

    let left = CafeActivity {
        steam_drift: -11,
        ..busy
    };
    let rects = counter_activity_rects(CAFE_WIDTH, CAFE_HEIGHT, 18, &left);
    assert_eq!(rects[0].x, 286);
}

#[test]
fn cafe_backdrop_has_window_counter_and_lamp_regions() {
    let mut canvas = Canvas::new(CAFE_WIDTH, CAFE_HEIGHT, Rgba::rgb(10, 8, 16)).expect("valid canvas");
    let wall = gradient(CAFE_HEIGHT, Rgba::rgb(30, 20, 28));
    let sky = gradient(CAFE_HEIGHT / 2, Rgba::rgb(10, 50, 100));

    draw_cafe_background(&mut canvas, &wall, &sky);

    let window = canvas.pixel(335, 70).expect("window pixel");
    let counter = canvas.pixel(256, 190).expect("counter pixel");
    let lamp = canvas.pixel(115, 50).expect("lamp pixel");
    let wall_pixel = canvas.pixel(52, 132).expect("wall pixel");
    assert!(window.b > window.r * 2);
    assert_eq!(counter, Rgba::rgb(85, 43, 30));
    assert_eq!(lamp, Rgba::rgb(219, 149, 68));
    assert_ne!(wall_pixel, window);
    assert_ne!(wall_pixel, counter);
    assert_eq!(
        background_rects(CAFE_WIDTH, CAFE_HEIGHT, &wall, &sky).len(),
        240 + 4 + 6 + 3 + 1 + 120 + 5 + 21 + 19
    );
}

/// The smoothed activity signals of the program, each in `[0, 1]`.
#[derive(Clone, Copy, Default)]
struct Signals {
    core_load: f32,
    memory_pressure: f32,
    network_download: f32,
    network_upload: f32,
    disk_read: f32,
    disk_write: f32,
}

/// The whole steps the program hands the scene for `signals`.
fn activity_for(signals: Signals) -> CafeActivity {
    let intensity = signals
        .memory_pressure
        .max(signals.network_download)
        .max(signals.network_upload)
        .max(signals.disk_read)
        .max(signals.disk_write);
    let network = signals.network_download.max(signals.network_upload);
    let load = signals.core_load;
    CafeActivity {
        rain_streaks: 5 + (network * 5.0).round() as u16,
        rain_speed: 2 + (network * 4.0).round() as u16,
        counter_active: intensity > 0.05,
        steam_puffs: 2 + (intensity * 4.0).round() as u16,
        steam_drift: ((signals.network_download + signals.network_upload) * 8.0).round() as i16,
        bubbles: (signals.disk_read.max(signals.disk_write) * 5.0).round() as u16,
        clutter: (signals.memory_pressure * 3.0).round() as u16,
        cat: CatLoadSignals {
            busy: load >= 0.72,
            lively: load >= 0.45,
            drowsy: load <= 0.25,
            quiet: load <= 0.12,
            still: load <= 0.08,
            energetic: load > 0.55,
        },
    }
}

fn load(core_load: f32) -> CafeActivity {
    activity_for(Signals {
        core_load,
        ..Signals::default()
    })
}

/// The rows of the program's vertical gradients.
fn gradient_rows(y: u16, height: u16, canvas_height: u16, top: Rgba, bottom: Rgba) -> Vec<Rgba> {
    let max_y = y.saturating_add(height).min(canvas_height);
    (y..max_y)
        .map(|py| {
            let t = (f32::from(py - y) / f32::from(height.max(1))).clamp(0.0, 1.0);
            let channel = |start: u8, end: u8| {
                (f32::from(start) + (f32::from(end) - f32::from(start)) * t).round() as u8
            };
            Rgba::rgb(
                channel(top.r, bottom.r),
                channel(top.g, bottom.g),
                channel(top.b, bottom.b),
            )
        })
        .collect()
}

/// Cats whose three animations are drawn in different colours, so that a change of mood
/// shows.
fn coloured_cats() -> CatAnimator {
    let asleep = solid_sprite(96, 32, Rgba::rgb(240, 200, 160));
    let idle = solid_sprite(96, 32, Rgba::rgb(230, 190, 150));
    let walk = solid_sprite(96, 32, Rgba::rgb(250, 210, 170));
    CatAnimator::from_sheets(&asleep, &idle, &walk).expect("sheets cut into frames")
}

fn program_scene() -> CafeScene {
    let window_y = CAFE_HEIGHT / 8;
    CafeScene::new(
        CafeCanvasConfig::new(CAFE_WIDTH, CAFE_HEIGHT),
        &gradient_rows(0, CAFE_HEIGHT, CAFE_HEIGHT, Rgba::rgb(16, 12, 24), Rgba::rgb(54, 31, 31)),
        &gradient_rows(
            window_y,
            CAFE_HEIGHT / 2,
            CAFE_HEIGHT,
            Rgba::rgb(7, 22, 68),
            Rgba::rgb(13, 77, 128),
        ),
        coloured_cats(),
    )
    .expect("valid cafe scene")
}

#[test]
fn cafe_scene_renders_larger_macro_readable_canvas_with_cat_anchor() {
    let mut scene = program_scene();

    scene.render(0, &activity_for(Signals::default()));
    let canvas = scene.canvas();

    assert_eq!(canvas.width(), CAFE_WIDTH);
    assert_eq!(canvas.height(), CAFE_HEIGHT);
    assert!(canvas.full_frame_required());
    let cat_pixels = canvas
        .pixels()
        .iter()
        .filter(|pixel| pixel.a == 255 && pixel.r > 150 && pixel.g > 130 && pixel.b > 105)
        .count();
    assert!(cat_pixels > 800, "cat sprite should read as a large anchor");

    assert_eq!(
        scene.layer_names().as_slice(),
        [
            "cafe_background",
            "main_cat_sprite",
            "window_rain",
            "warm_light",
            "counter_activity"
        ]
    );
}

#[test]
fn cafe_scene_background_has_readable_window_counter_and_light_regions() {
    let mut scene = program_scene();
    scene.render(0, &activity_for(Signals::default()));
    let canvas = scene.canvas();

    let window = canvas.pixel(335, 70).expect("window pixel in bounds");
    let counter = canvas.pixel(256, 190).expect("counter pixel in bounds");
    let cat_stage = canvas.pixel(256, 174).expect("cat stage pixel in bounds");
    let lamp = canvas.pixel(100, 54).expect("lamp pixel in bounds");
    let wall = canvas.pixel(52, 132).expect("wall pixel in bounds");

    assert!(window.b > window.r * 2, "window should read as cool night");
    assert!(counter.r > counter.b * 2, "counter should read as warm wood");
    assert!(
        cat_stage.r < counter.r && cat_stage.b < 40,
        "counter should stage the cat with a darker resting area"
    );
    assert!(lamp.r > 180 && lamp.g > 120, "lamp should create warm focal color");
    assert_ne!(wall, window);
    assert_ne!(wall, counter);
}

#[test]
fn cafe_scene_keeps_walking_state_through_brief_cpu_dip() {
    let mut warmed_scene = program_scene();
    let mut fresh_scene = program_scene();

    warmed_scene.render(0, &load(1.0));
    warmed_scene.render(30, &load(1.0));
    warmed_scene.render(36, &load(0.60));
    let warmed_after_dip = warmed_scene.canvas().pixels().to_vec();

    fresh_scene.render(0, &load(0.60));
    fresh_scene.render(36, &load(0.60));
    let fresh_moderate = fresh_scene.canvas().pixels().to_vec();

    let changed_pixels = warmed_after_dip
        .iter()
        .zip(&fresh_moderate)
        .filter(|(warmed, fresh)| warmed != fresh)
        .count();

    assert!(
        changed_pixels > 100,
        "brief CPU dips should not immediately snap the cat out of walking"
    );
}

#[test]
fn cafe_scene_keeps_quiet_animation_dirty_region_spatially_bounded() {
    let mut scene = program_scene();

    scene.render(0, &activity_for(Signals::default()));
    let canvas = scene.render(1, &activity_for(Signals::default()));
    let dirty_region = canvas.dirty_region().expect("cat animation changed");
    let dirty_area = u32::from(dirty_region.width) * u32::from(dirty_region.height);
    let canvas_area = u32::from(canvas.width()) * u32::from(canvas.height());

    assert!(!canvas.full_frame_required());
    assert!(
        dirty_area * 4 < canvas_area,
        "quiet frame dirty bounds should stay under 25% of the canvas: {dirty_region:?}"
    );
}
