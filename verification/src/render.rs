use vstd::prelude::*;

use crate::canvas::{lemma_grid_bound, lemma_grid_index, lemma_u16_product};
use crate::framebuffer::{Cell, Color, Framebuffer, FramebufferError};

verus! {

/// The glyphs and colours of the text-mode landscape.
#[derive(Clone, Copy, Debug, PartialEq, Eq, Structural)]
pub struct VisualTheme {
    pub sky_text: Color,
    pub sky: Color,
    pub ground_text: Color,
    pub ground_background: Color,
    pub water_color: Color,
    pub creature_color: Color,
    pub creature_busy_color: Color,
    pub vegetation_color: Color,
    pub weather_color: Color,
    pub ground: char,
    pub water_idle: char,
    pub water_download: char,
    pub water_upload: char,
    pub water_bidirectional: char,
    pub weather_read: char,
    pub weather_write: char,
    pub weather_mixed: char,
    pub vegetation_low: char,
    pub vegetation_mid: char,
    pub vegetation_high: char,
    pub creature_idle: char,
    pub creature_active: char,
    pub creature_busy: char,
}

pub open spec fn spec_default_theme() -> VisualTheme {
    VisualTheme {
        sky_text: Color { r: 126, g: 164, b: 190 },
        sky: Color { r: 8, g: 18, b: 34 },
        ground_text: Color { r: 103, g: 160, b: 94 },
        ground_background: Color { r: 35, g: 50, b: 35 },
        water_color: Color { r: 35, g: 120, b: 210 },
        creature_color: Color { r: 255, g: 180, b: 80 },
        creature_busy_color: Color { r: 255, g: 95, b: 90 },
        vegetation_color: Color { r: 95, g: 190, b: 105 },
        weather_color: Color { r: 150, g: 190, b: 220 },
        ground: '▄',
        water_idle: '≈',
        water_download: '›',
        water_upload: '‹',
        water_bidirectional: '≋',
        weather_read: '∙',
        weather_write: '✦',
        weather_mixed: '✶',
        vegetation_low: '╷',
        vegetation_mid: '♧',
        vegetation_high: '♣',
        creature_idle: '◦',
        creature_active: '●',
        creature_busy: '◆',
    }
}

impl Default for VisualTheme {
    fn default() -> (theme: VisualTheme)
        ensures
            theme == spec_default_theme(),
    {
        VisualTheme {
            sky_text: Color::rgb(126, 164, 190),
            sky: Color::rgb(8, 18, 34),
            ground_text: Color::rgb(103, 160, 94),
            ground_background: Color::rgb(35, 50, 35),
            water_color: Color::rgb(35, 120, 210),
            creature_color: Color::rgb(255, 180, 80),
            creature_busy_color: Color::rgb(255, 95, 90),
            vegetation_color: Color::rgb(95, 190, 105),
            weather_color: Color::rgb(150, 190, 220),
            ground: '▄',
            water_idle: '≈',
            water_download: '›',
            water_upload: '‹',
            water_bidirectional: '≋',
            weather_read: '∙',
            weather_write: '✦',
            weather_mixed: '✶',
            vegetation_low: '╷',
            vegetation_mid: '♧',
            vegetation_high: '♣',
            creature_idle: '◦',
            creature_active: '●',
            creature_busy: '◆',
        }
    }
}

/// Which way network traffic flows strongly enough to show in the water.
#[derive(Clone, Copy, Debug, PartialEq, Eq, Structural)]
pub enum WaterFlow {
    Quiet,
    Download,
    Upload,
    Both,
}

/// Which disk traffic dominates the weather.
#[derive(Clone, Copy, Debug, PartialEq, Eq, Structural)]
pub enum WeatherKind {
    Read,
    Write,
    Mixed,
}

/// How dense the vegetation looks.
#[derive(Clone, Copy, Debug, PartialEq, Eq, Structural)]
pub enum VegetationDensity {
    Low,
    Mid,
    High,
}

/// How busy a core's creature looks.
#[derive(Clone, Copy, Debug, PartialEq, Eq, Structural)]
pub enum CreatureMood {
    Calm,
    Active,
    Busy,
}

/// One creature per core: whether it sways by a cell and how busy it looks.
#[derive(Clone, Copy, Debug, PartialEq, Eq, Structural)]
pub struct CreatureState {
    pub drifts: bool,
    pub mood: CreatureMood,
}

/// The landscape's reading of the system activity, already reduced to discrete choices and
/// counts.
#[derive(Clone, Debug, PartialEq, Eq)]
pub struct LandscapeActivity {
    pub water: WaterFlow,
    pub weather_particles: usize,
    pub weather: WeatherKind,
    pub plants: usize,
    pub vegetation: VegetationDensity,
    pub creatures: Vec<CreatureState>,
}

impl LandscapeActivity {
    /// No activity at all: still water, clear sky, bare ground and no core readings.
    pub fn quiet() -> (activity: LandscapeActivity)
        ensures
            activity.water == WaterFlow::Quiet,
            activity.weather_particles == 0,
            activity.weather == WeatherKind::Write,
            activity.plants == 0,
            activity.vegetation == VegetationDensity::Low,
            activity.creatures@.len() == 0,
    {
        LandscapeActivity {
            water: WaterFlow::Quiet,
            weather_particles: 0,
            weather: WeatherKind::Write,
            plants: 0,
            vegetation: VegetationDensity::Low,
            creatures: Vec::new(),
        }
    }
}

/// One cell write: column, row and the cell.
pub type CellWrite = (int, int, Cell);

/// The cells after applying `writes` in order, each to its row-major position.
pub open spec fn apply_writes(cells: Seq<Cell>, width: int, writes: Seq<CellWrite>) -> Seq<Cell>
    decreases writes.len(),
{
    if writes.len() == 0 {
        cells
    } else {
        let last = writes.last();
        apply_writes(cells, width, writes.drop_last()).update(last.1 * width + last.0, last.2)
    }
}

pub open spec fn water_glyph(x: int, tick: int, flow: WaterFlow, theme: VisualTheme) -> char {
    let ambient_phase = x + tick;
    let activity_phase = x + tick / 2;
    match flow {
        WaterFlow::Both => if activity_phase % 3 == 0 {
            theme.water_idle
        } else {
            theme.water_bidirectional
        },
        WaterFlow::Download => if activity_phase % 5 == 0 {
            theme.water_idle
        } else {
            theme.water_download
        },
        WaterFlow::Upload => if activity_phase % 5 == 0 {
            theme.water_idle
        } else {
            theme.water_upload
        },
        WaterFlow::Quiet => if ambient_phase % 4 == 0 {
            theme.water_download
        } else {
            theme.water_idle
        },
    }
}

/// The ground along the bottom row and the water just above it, column by column.
pub open spec fn base_writes(width: int, height: int, tick: int, activity: LandscapeActivity, theme: VisualTheme) -> Seq<CellWrite> {
    Seq::new(
        (2 * width) as nat,
        |i: int|
            if i % 2 == 0 {
                (i / 2, height - 1, Cell { glyph: theme.ground, fg: theme.ground_text, bg: theme.ground_background })
            } else {
                (
                    i / 2,
                    height - 2,
                    Cell {
                        glyph: water_glyph(i / 2, tick, activity.water, theme),
                        fg: theme.water_color,
                        bg: theme.sky,
                    },
                )
            },
    )
}

/// `count` markers spread evenly along one row.
pub open spec fn spread_x(index: int, count: int, width: int) -> int {
    let x = (index + 1) * width / (count + 1);
    if x < width - 1 {
        x
    } else {
        width - 1
    }
}

pub open spec fn weather_writes(width: int, height: int, activity: LandscapeActivity, theme: VisualTheme) -> Seq<CellWrite> {
    if height < 5 || width == 0 {
        Seq::empty()
    } else {
        let row = if height / 4 > 1 {
            height / 4
        } else {
            1
        };
        let glyph = match activity.weather {
            WeatherKind::Mixed => theme.weather_mixed,
            WeatherKind::Write => theme.weather_write,
            WeatherKind::Read => theme.weather_read,
        };
        Seq::new(
            activity.weather_particles as nat,
            |i: int|
                (
                    spread_x(i, activity.weather_particles as int, width),
                    row,
                    Cell { glyph, fg: theme.weather_color, bg: theme.sky },
                ),
        )
    }
}

pub open spec fn vegetation_writes(width: int, height: int, activity: LandscapeActivity, theme: VisualTheme) -> Seq<CellWrite> {
    if height < 4 || width == 0 {
        Seq::empty()
    } else {
        let glyph = match activity.vegetation {
            VegetationDensity::High => theme.vegetation_high,
            VegetationDensity::Mid => theme.vegetation_mid,
            VegetationDensity::Low => theme.vegetation_low,
        };
        Seq::new(
            activity.plants as nat,
            |i: int|
                (
                    spread_x(i, activity.plants as int, width),
                    height - 3,
                    Cell { glyph, fg: theme.vegetation_color, bg: theme.sky },
                ),
        )
    }
}

/// One creature per core reading, or a single calm one without readings, but never more
/// than there are columns after the first.
pub open spec fn creature_count(readings: int, width: int) -> int {
    if readings == 0 {
        1
    } else {
        let limit = if width - 1 > 1 {
            width - 1
        } else {
            1
        };
        if readings < limit {
            readings
        } else {
            limit
        }
    }
}

/// Up to three rows of creatures, more rows only for more creatures on taller scenes.
pub open spec fn lane_count(count: int, height: int) -> int {
    let max_lanes = if height >= 12 {
        3
    } else if height >= 8 {
        2
    } else {
        1
    };
    if count > 12 {
        max_lanes
    } else if count > 4 {
        if max_lanes < 2 {
            max_lanes
        } else {
            2
        }
    } else {
        1
    }
}

pub open spec fn ceil_div(a: int, b: int) -> int {
    (a + b - 1) / b
}

/// The state of creature `index`: its core's, or calm for the creature shown without
/// readings.
pub open spec fn creature_state(activity: LandscapeActivity, index: int) -> CreatureState {
    if index < activity.creatures@.len() {
        activity.creatures@[index]
    } else {
        CreatureState { drifts: false, mood: CreatureMood::Calm }
    }
}

/// A drifting creature sways one cell right on ticks 1 mod 4 and left on ticks 3 mod 4,
/// kept on the canvas.
pub open spec fn drifted_x(base: int, width: int, drifts: bool, tick: int) -> int {
    if !drifts {
        base
    } else {
        let offset = if tick % 4 == 1 {
            1
        } else if tick % 4 == 3 {
            -1
        } else {
            0
        };
        let max_x = if width > 0 {
            width - 1
        } else {
            0
        };
        let x = base + offset;
        if x < 0 {
            0
        } else if x > max_x {
            max_x
        } else {
            x
        }
    }
}

pub open spec fn creature_x(slot: int, lane_size: int, width: int, drifts: bool, tick: int) -> int {
    if lane_size == 1 {
        drifted_x(width / 2, width, drifts, tick)
    } else {
        drifted_x(spread_x(slot, lane_size, width), width, drifts, tick)
    }
}

pub open spec fn creature_cell(state: CreatureState, tick: int, theme: VisualTheme) -> Cell {
    let glyph = match state.mood {
        CreatureMood::Busy => theme.creature_busy,
        CreatureMood::Active => theme.creature_active,
        CreatureMood::Calm => if tick % 2 == 0 {
            theme.creature_idle
        } else {
            theme.creature_active
        },
    };
    let fg = match state.mood {
        CreatureMood::Busy => theme.creature_busy_color,
        _ => theme.creature_color,
    };
    Cell { glyph, fg, bg: theme.sky }
}

/// The creatures, lane by lane from the middle of the scene, spread along each lane.
pub open spec fn creature_writes(width: int, height: int, tick: int, activity: LandscapeActivity, theme: VisualTheme) -> Seq<CellWrite> {
    let count = creature_count(activity.creatures@.len() as int, width);
    let lanes = lane_count(count, height);
    let per_lane = ceil_div(count, lanes);
    let start_y = if height / 2 >= lanes / 2 {
        height / 2 - lanes / 2
    } else {
        0
    };
    let bottom = if height >= 3 {
        height - 3
    } else {
        0
    };
    Seq::new(
        count as nat,
        |i: int|
            {
                let lane = i / per_lane;
                let slot = i % per_lane;
                let remaining = if count - lane * per_lane > 0 {
                    count - lane * per_lane
                } else {
                    0
                };
                let lane_size = if remaining < per_lane {
                    remaining
                } else {
                    per_lane
                };
                let state = creature_state(activity, i);
                let y = if start_y + lane < bottom {
                    start_y + lane
                } else {
                    bottom
                };
                (creature_x(slot, lane_size, width, state.drifts, tick), y, creature_cell(state, tick, theme))
            },
    )
}

/// Every write of the landscape in order: ground and water, weather, vegetation, then
/// creatures; a scene under three rows is sky only.
pub open spec fn landscape_writes(width: int, height: int, tick: int, activity: LandscapeActivity, theme: VisualTheme) -> Seq<CellWrite> {
    if height < 3 {
        Seq::empty()
    } else {
        base_writes(width, height, tick, activity, theme) + weather_writes(width, height, activity, theme)
            + vegetation_writes(width, height, activity, theme) + creature_writes(width, height, tick, activity, theme)
    }
}

/// The sky cell every position starts as.
pub open spec fn sky_cell(theme: VisualTheme) -> Cell {
    Cell { glyph: ' ', fg: theme.sky_text, bg: theme.sky }
}

/// The cells of the finished landscape.
pub open spec fn spec_landscape_cells(width: int, height: int, tick: int, activity: LandscapeActivity, theme: VisualTheme) -> Seq<Cell> {
    apply_writes(
        Seq::new((width * height) as nat, |i: int| sky_cell(theme)),
        width,
        landscape_writes(width, height, tick, activity, theme),
    )
}


proof fn lemma_apply_step(cells: Seq<Cell>, width: int, writes: Seq<CellWrite>, k: int)
    requires
        0 <= k < writes.len(),
    ensures
        apply_writes(cells, width, writes.take(k + 1)) == apply_writes(cells, width, writes.take(k)).update(
            writes[k].1 * width + writes[k].0,
            writes[k].2,
        ),
{
    assert(writes.take(k + 1).drop_last() == writes.take(k));
    assert(writes.take(k + 1).last() == writes[k]);
}

/// The state of the frame while the landscape is drawn: the first `done` writes applied.
spec fn drawn(frame: Framebuffer, width: int, height: int, all: Seq<CellWrite>, done: int, theme: VisualTheme) -> bool {
    &&& frame.wf()
    &&& frame.spec_width() == width
    &&& frame.spec_height() == height
    &&& 0 <= done <= all.len()
    &&& frame.spec_cells() == apply_writes(
        Seq::new((width * height) as nat, |i: int| sky_cell(theme)),
        width,
        all.take(done),
    )
}

fn put(
    frame: &mut Framebuffer,
    x: u16,
    y: u16,
    cell: Cell,
    Ghost(all): Ghost<Seq<CellWrite>>,
    Ghost(done): Ghost<int>,
    Ghost(theme): Ghost<VisualTheme>,
)
    requires
        drawn(*old(frame), old(frame).spec_width(), old(frame).spec_height(), all, done, theme),
        done < all.len(),
        all[done] == (x as int, y as int, cell),
        x < old(frame).spec_width(),
        y < old(frame).spec_height(),
    ensures
        drawn(*final(frame), old(frame).spec_width(), old(frame).spec_height(), all, done + 1, theme),
{
    let ghost width = frame.spec_width();
    proof {
        lemma_apply_step(
            Seq::new((width * frame.spec_height()) as nat, |i: int| sky_cell(theme)),
            width,
            all,
            done,
        );
    }
    let result = frame.set(x, y, cell);
    proof {
        assert(result is Ok);
    }
}

fn water_glyph_at(x: u16, tick: u64, flow: WaterFlow, theme: &VisualTheme) -> (glyph: char)
    requires
        x + tick <= u64::MAX,
    ensures
        glyph == water_glyph(x as int, tick as int, flow, *theme),
{
    let ambient_phase = x as u64 + tick;
    let activity_phase = x as u64 + tick / 2;
    match flow {
        WaterFlow::Both => if activity_phase % 3 == 0 {
            theme.water_idle
        } else {
            theme.water_bidirectional
        },
        WaterFlow::Download => if activity_phase % 5 == 0 {
            theme.water_idle
        } else {
            theme.water_download
        },
        WaterFlow::Upload => if activity_phase % 5 == 0 {
            theme.water_idle
        } else {
            theme.water_upload
        },
        WaterFlow::Quiet => if ambient_phase % 4 == 0 {
            theme.water_download
        } else {
            theme.water_idle
        },
    }
}

fn spread(index: u64, count: u64, width: u16) -> (x: u16)
    requires
        index < count <= 65535,
        width > 0,
    ensures
        x == spread_x(index as int, count as int, width as int),
        x < width,
{
    assert((index + 1) * (width as u64) <= 65535 * 65535) by (nonlinear_arith)
        requires
            index + 1 <= 65535,
            width <= 65535,
    ;
    let scaled = ((index + 1) * width as u64) / (count + 1);
    if scaled < width as u64 - 1 {
        scaled as u16
    } else {
        width - 1
    }
}

fn drift(base: u16, width: u16, drifts: bool, tick: u64) -> (x: u16)
    requires
        width > 0,
        base < width,
    ensures
        x == drifted_x(base as int, width as int, drifts, tick as int),
        x < width,
{
    if !drifts {
        return base;
    }
    let offset: i32 = if tick % 4 == 1 {
        1
    } else if tick % 4 == 3 {
        -1
    } else {
        0
    };
    let max_x: i32 = width as i32 - 1;
    let moved: i32 = base as i32 + offset;
    if moved < 0 {
        0
    } else if moved > max_x {
        max_x as u16
    } else {
        moved as u16
    }
}

fn creature_cell_for(state: CreatureState, tick: u64, theme: &VisualTheme) -> (cell: Cell)
    ensures
        cell == creature_cell(state, tick as int, *theme),
{
    let glyph = match state.mood {
        CreatureMood::Busy => theme.creature_busy,
        CreatureMood::Active => theme.creature_active,
        CreatureMood::Calm => if tick % 2 == 0 {
            theme.creature_idle
        } else {
            theme.creature_active
        },
    };
    let fg = match state.mood {
        CreatureMood::Busy => theme.creature_busy_color,
        _ => theme.creature_color,
    };
    Cell::new(glyph, fg, theme.sky)
}

/// Creatures that sway need their columns to fit an `i16`.
pub open spec fn drifting_fits(width: u16, activity: LandscapeActivity) -> bool {
    width > 32768 ==> forall|i: int| 0 <= i < activity.creatures@.len() ==> !(#[trigger] activity.creatures@[i]).drifts
}

/// Draws the landscape: sky everywhere, then (from three rows up) ground along the bottom
/// row and water above it, a row of weather, a row of vegetation and the creatures.
pub fn build_landscape_frame_with_activity(
    width: u16,
    height: u16,
    tick: u64,
    activity: &LandscapeActivity,
    theme: &VisualTheme,
) -> (result: Result<Framebuffer, FramebufferError>)
    requires
        height >= 3 ==> tick + width <= u64::MAX + 1,
        activity.weather_particles <= 65535,
        activity.plants <= 65535,
        drifting_fits(width, *activity),
    ensures
        (width == 0 || height == 0) ==> result == Err::<Framebuffer, FramebufferError>(
            FramebufferError::InvalidSize { width, height },
        ),
        result is Ok <==> (width > 0 && height > 0),
        result matches Ok(frame) ==> {
            &&& frame.wf()
            &&& frame.spec_width() == width
            &&& frame.spec_height() == height
            &&& frame.spec_cells() == spec_landscape_cells(
                width as int,
                height as int,
                tick as int,
                *activity,
                *theme,
            )
        },
{
    let sky = Cell::new(' ', theme.sky_text, theme.sky);
    let mut frame = match Framebuffer::new(width, height, sky) {
        Ok(frame) => frame,
        Err(error) => {
            return Err(error);
        },
    };
    let ghost w = width as int;
    let ghost h = height as int;
    let ghost all = landscape_writes(w, h, tick as int, *activity, *theme);
    proof {
        frame.lemma_wf();
        assert(frame.spec_cells() =~= Seq::new((w * h) as nat, |i: int| sky_cell(*theme)));
        assert(all.take(0) =~= Seq::<CellWrite>::empty());
    }
    if height < 3 {
        proof {
            assert(all.take(0) == all);
        }
        return Ok(frame);
    }
    let ghost base = base_writes(w, h, tick as int, *activity, *theme);
    let ghost weather = weather_writes(w, h, *activity, *theme);
    let ghost vegetation = vegetation_writes(w, h, *activity, *theme);
    let ghost creatures = creature_writes(w, h, tick as int, *activity, *theme);
    let ground = Cell::new(theme.ground, theme.ground_text, theme.ground_background);
    let mut x: u16 = 0;
    while x < width
        invariant
            w == width,
            h == height,
            height >= 3,
            tick + width <= u64::MAX + 1,
            all == base + weather + vegetation + creatures,
            base == base_writes(w, h, tick as int, *activity, *theme),
            ground == (Cell { glyph: theme.ground, fg: theme.ground_text, bg: theme.ground_background }),
            x <= width,
            drawn(frame, w, h, all, 2 * x, *theme),
        decreases width - x,
    {
        put(&mut frame, x, height - 1, ground, Ghost(all), Ghost(2 * x as int), Ghost(*theme));
        let glyph = water_glyph_at(x, tick, activity.water, theme);
        let water = Cell::new(glyph, theme.water_color, theme.sky);
        proof {
            assert(all[2 * x + 1] == base[2 * x + 1]);
        }
        put(&mut frame, x, height - 2, water, Ghost(all), Ghost(2 * x + 1), Ghost(*theme));
        x = x + 1;
    }
    let ghost done = 2 * w;
    if height >= 5 {
        let row: u16 = if height / 4 > 1 {
            height / 4
        } else {
            1
        };
        let glyph = match activity.weather {
            WeatherKind::Mixed => theme.weather_mixed,
            WeatherKind::Write => theme.weather_write,
            WeatherKind::Read => theme.weather_read,
        };
        let cell = Cell::new(glyph, theme.weather_color, theme.sky);
        let count = activity.weather_particles as u64;
        let mut i: u64 = 0;
        while i < count
            invariant
                w == width,
                h == height,
                height >= 5,
                width > 0,
                count == activity.weather_particles,
                count <= 65535,
                all == base + weather + vegetation + creatures,
                base.len() == 2 * w,
                weather == weather_writes(w, h, *activity, *theme),
                row == (if h / 4 > 1 {
                    h / 4
                } else {
                    1
                }),
                cell == (Cell {
                    glyph: match activity.weather {
                        WeatherKind::Mixed => theme.weather_mixed,
                        WeatherKind::Write => theme.weather_write,
                        WeatherKind::Read => theme.weather_read,
                    },
                    fg: theme.weather_color,
                    bg: theme.sky,
                }),
                i <= count,
                drawn(frame, w, h, all, 2 * w + i, *theme),
            decreases count - i,
        {
            let px = spread(i, count, width);
            proof {
                assert(all[2 * w + i] == weather[i as int]);
            }
            put(&mut frame, px, row, cell, Ghost(all), Ghost(2 * w + i), Ghost(*theme));
            i = i + 1;
        }
    }
    proof {
        assert(weather.len() == if h >= 5 { activity.weather_particles as int } else { 0 });
    }
    let ghost after_weather = 2 * w + weather.len();
    if height >= 4 {
        let glyph = match activity.vegetation {
            VegetationDensity::High => theme.vegetation_high,
            VegetationDensity::Mid => theme.vegetation_mid,
            VegetationDensity::Low => theme.vegetation_low,
        };
        let cell = Cell::new(glyph, theme.vegetation_color, theme.sky);
        let count = activity.plants as u64;
        let mut i: u64 = 0;
        while i < count
            invariant
                w == width,
                h == height,
                height >= 4,
                width > 0,
                count == activity.plants,
                count <= 65535,
                all == base + weather + vegetation + creatures,
                after_weather == base.len() + weather.len(),
                vegetation == vegetation_writes(w, h, *activity, *theme),
                cell == (Cell {
                    glyph: match activity.vegetation {
                        VegetationDensity::High => theme.vegetation_high,
                        VegetationDensity::Mid => theme.vegetation_mid,
                        VegetationDensity::Low => theme.vegetation_low,
                    },
                    fg: theme.vegetation_color,
                    bg: theme.sky,
                }),
                i <= count,
                drawn(frame, w, h, all, after_weather + i, *theme),
            decreases count - i,
        {
            let px = spread(i, count, width);
            proof {
                assert(all[after_weather + i] == vegetation[i as int]);
            }
            put(&mut frame, px, height - 3, cell, Ghost(all), Ghost(after_weather + i), Ghost(*theme));
            i = i + 1;
        }
    }
    let ghost after_vegetation = after_weather + vegetation.len();
    let readings = activity.creatures.len();
    let count: u64 = if readings == 0 {
        1
    } else {
        let limit: u64 = if width as u64 - 1 > 1 {
            width as u64 - 1
        } else {
            1
        };
        if (readings as u64) < limit {
            readings as u64
        } else {
            limit
        }
    };
    let lanes: u64 = {
        let max_lanes: u64 = if height >= 12 {
            3
        } else if height >= 8 {
            2
        } else {
            1
        };
        if count > 12 {
            max_lanes
        } else if count > 4 {
            if max_lanes < 2 {
                max_lanes
            } else {
                2
            }
        } else {
            1
        }
    };
    let per_lane: u64 = (count + lanes - 1) / lanes;
    let start_y: u16 = if height / 2 >= lanes as u16 / 2 {
        height / 2 - lanes as u16 / 2
    } else {
        0
    };
    let bottom: u16 = height - 3;
    proof {
        assert(per_lane >= 1) by (nonlinear_arith)
            requires
                count >= 1,
                1 <= lanes <= 3,
                per_lane == (count + lanes - 1) as int / lanes as int,
        ;
    }
    let mut i: u64 = 0;
    while i < count
        invariant
            w == width,
            h == height,
            height >= 3,
            width > 0,
            tick + width <= u64::MAX + 1,
            drifting_fits(width, *activity),
            readings == activity.creatures@.len(),
            count == creature_count(readings as int, w),
            lanes == lane_count(count as int, h),
            per_lane == ceil_div(count as int, lanes as int),
            per_lane >= 1,
            start_y == (if h / 2 >= lanes / 2 {
                h / 2 - lanes / 2
            } else {
                0
            }),
            bottom == h - 3,
            all == base + weather + vegetation + creatures,
            after_vegetation == base.len() + weather.len() + vegetation.len(),
            creatures == creature_writes(w, h, tick as int, *activity, *theme),
            i <= count,
            drawn(frame, w, h, all, after_vegetation + i, *theme),
        decreases count - i,
    {
        let state = if (i as usize) < readings {
            activity.creatures[i as usize]
        } else {
            CreatureState { drifts: false, mood: CreatureMood::Calm }
        };
        let lane = i / per_lane;
        let slot = i % per_lane;
        proof {
            assert(lane * per_lane <= i) by (nonlinear_arith)
                requires
                    lane == i / per_lane,
                    per_lane >= 1,
                    i >= 0,
            ;
            assert(lane <= 2) by (nonlinear_arith)
                requires
                    lane == i / per_lane,
                    per_lane == ceil_div(count as int, lanes as int),
                    i < count,
                    1 <= lanes <= 3,
                    per_lane >= 1,
            ;
        }
        let remaining = count - lane * per_lane;
        let lane_size = if remaining < per_lane {
            remaining
        } else {
            per_lane
        };
        let base_x: u16 = if lane_size == 1 {
            width / 2
        } else {
            proof {
                assert(slot < lane_size) by (nonlinear_arith)
                    requires
                        slot == i % per_lane,
                        lane == i / per_lane,
                        remaining == count - lane * per_lane,
                        lane_size == (if remaining < per_lane { remaining } else { per_lane }),
                        i < count,
                        per_lane >= 1,
                ;
            }
            spread(slot, lane_size, width)
        };
        proof {
            if state.drifts && width > 32768 {
                assert(!activity.creatures@[i as int].drifts);
            }
        }
        let px = drift(base_x, width, state.drifts, tick);
        let py: u16 = if start_y + (lane as u16) < bottom {
            start_y + lane as u16
        } else {
            bottom
        };
        let cell = creature_cell_for(state, tick, theme);
        proof {
            assert(all[after_vegetation + i] == creatures[i as int]);
        }
        put(&mut frame, px, py, cell, Ghost(all), Ghost(after_vegetation + i), Ghost(*theme));
        i = i + 1;
    }
    proof {
        assert(all.take(all.len() as int) == all);
    }
    Ok(frame)
}

/// The landscape for a quiet system in the default theme at animation step `tick`.
pub fn build_landscape_frame(width: u16, height: u16, tick: u64) -> (result: Result<
    Framebuffer,
    FramebufferError,
>)
    requires
        height >= 3 ==> tick + width <= u64::MAX + 1,
    ensures
        (width == 0 || height == 0) ==> result == Err::<Framebuffer, FramebufferError>(
            FramebufferError::InvalidSize { width, height },
        ),
        result is Ok <==> (width > 0 && height > 0),
        result matches Ok(frame) ==> {
            &&& frame.wf()
            &&& frame.spec_width() == width
            &&& frame.spec_height() == height
            &&& exists|activity: LandscapeActivity|
                #![trigger spec_landscape_cells(width as int, height as int, tick as int, activity, spec_default_theme())]
                activity.water == WaterFlow::Quiet && activity.weather_particles == 0
                    && activity.plants == 0 && activity.creatures@.len() == 0
                    && frame.spec_cells() == spec_landscape_cells(
                    width as int,
                    height as int,
                    tick as int,
                    activity,
                    spec_default_theme(),
                )
        },
{
    let activity = LandscapeActivity::quiet();
    let theme = VisualTheme::default();
    let result = build_landscape_frame_with_activity(width, height, tick, &activity, &theme);
    proof {
        if let Ok(frame) = &result {
            assert(activity.water == WaterFlow::Quiet && activity.weather_particles == 0
                && activity.plants == 0 && activity.creatures@.len() == 0
                && frame.spec_cells() == spec_landscape_cells(
                width as int,
                height as int,
                tick as int,
                activity,
                spec_default_theme(),
            ));
        }
    }
    result
}

/// The first frame of the quiet landscape.
pub fn build_static_landscape_frame(width: u16, height: u16) -> (result: Result<
    Framebuffer,
    FramebufferError,
>)
    ensures
        (width == 0 || height == 0) ==> result == Err::<Framebuffer, FramebufferError>(
            FramebufferError::InvalidSize { width, height },
        ),
        result is Ok <==> (width > 0 && height > 0),
        result matches Ok(frame) ==> {
            &&& frame.wf()
            &&& frame.spec_width() == width
            &&& frame.spec_height() == height
            &&& exists|activity: LandscapeActivity|
                #![trigger spec_landscape_cells(width as int, height as int, 0, activity, spec_default_theme())]
                activity.water == WaterFlow::Quiet && activity.weather_particles == 0
                    && activity.plants == 0 && activity.creatures@.len() == 0
                    && frame.spec_cells() == spec_landscape_cells(
                    width as int,
                    height as int,
                    0,
                    activity,
                    spec_default_theme(),
                )
        },
{
    build_landscape_frame(width, height, 0)
}


/// No write in `writes` lands on position `j`.
pub open spec fn untouched(writes: Seq<CellWrite>, width: int, j: int) -> bool {
    forall|k: int| 0 <= k < writes.len() ==> #[trigger] writes[k].1 * width + writes[k].0 != j
}

/// Every write of `writes` lands inside a grid of `len` cells.
pub open spec fn writes_in_range(writes: Seq<CellWrite>, width: int, len: int) -> bool {
    forall|k: int| 0 <= k < writes.len() ==> 0 <= #[trigger] writes[k].1 * width + writes[k].0 < len
}

proof fn lemma_apply_untouched(cells: Seq<Cell>, width: int, writes: Seq<CellWrite>, j: int)
    requires
        untouched(writes, width, j),
        writes_in_range(writes, width, cells.len() as int),
        0 <= j < cells.len(),
    ensures
        apply_writes(cells, width, writes)[j] == cells[j],
        apply_writes(cells, width, writes).len() == cells.len(),
    decreases writes.len(),
{
    if writes.len() > 0 {
        let rest = writes.drop_last();
        assert forall|k: int| 0 <= k < rest.len() implies #[trigger] rest[k].1 * width + rest[k].0 != j by {
            assert(rest[k] == writes[k]);
        }
        assert forall|k: int| 0 <= k < rest.len() implies 0 <= #[trigger] rest[k].1 * width + rest[k].0 < cells.len() by {
            assert(rest[k] == writes[k]);
        }
        lemma_apply_untouched(cells, width, rest, j);
        assert(writes.last() == writes[writes.len() - 1]);
    }
}

proof fn lemma_apply_length(cells: Seq<Cell>, width: int, writes: Seq<CellWrite>)
    requires
        writes_in_range(writes, width, cells.len() as int),
    ensures
        apply_writes(cells, width, writes).len() == cells.len(),
    decreases writes.len(),
{
    if writes.len() > 0 {
        let rest = writes.drop_last();
        assert forall|k: int| 0 <= k < rest.len() implies 0 <= #[trigger] rest[k].1 * width + rest[k].0 < cells.len() by {
            assert(rest[k] == writes[k]);
        }
        lemma_apply_length(cells, width, rest);
        assert(writes.last() == writes[writes.len() - 1]);
    }
}

proof fn lemma_apply_concat(cells: Seq<Cell>, width: int, first: Seq<CellWrite>, second: Seq<CellWrite>)
    ensures
        apply_writes(cells, width, first + second) == apply_writes(
            apply_writes(cells, width, first),
            width,
            second,
        ),
    decreases second.len(),
{
    if second.len() == 0 {
        assert(first + second == first);
    } else {
        assert((first + second).drop_last() == first + second.drop_last());
        assert((first + second).last() == second.last());
        lemma_apply_concat(cells, width, first, second.drop_last());
    }
}

/// The last write to position `j` decides it.
proof fn lemma_apply_last_write(cells: Seq<Cell>, width: int, writes: Seq<CellWrite>, k: int, j: int)
    requires
        0 <= k < writes.len(),
        writes[k].1 * width + writes[k].0 == j,
        0 <= j < cells.len(),
        untouched(writes.subrange(k + 1, writes.len() as int), width, j),
        writes_in_range(writes, width, cells.len() as int),
    ensures
        apply_writes(cells, width, writes)[j] == writes[k].2,
{
    let head = writes.take(k + 1);
    let tail = writes.subrange(k + 1, writes.len() as int);
    assert(writes == head + tail);
    lemma_apply_concat(cells, width, head, tail);
    assert forall|n: int| 0 <= n < head.len() implies 0 <= #[trigger] head[n].1 * width + head[n].0 < cells.len() by {
        assert(head[n] == writes[n]);
    }
    assert forall|n: int| 0 <= n < tail.len() implies 0 <= #[trigger] tail[n].1 * width + tail[n].0 < cells.len() by {
        assert(tail[n] == writes[k + 1 + n]);
    }
    lemma_apply_length(cells, width, head.drop_last());
    lemma_apply_length(cells, width, head);
    assert(head.drop_last() == writes.take(k));
    assert(head.last() == writes[k]);
    lemma_apply_untouched(apply_writes(cells, width, head), width, tail, j);
}

proof fn lemma_spread_in_row(index: int, count: int, width: int)
    requires
        0 <= index,
        0 <= count,
        width > 0,
    ensures
        0 <= spread_x(index, count, width) < width,
{
    assert((index + 1) * width >= 0) by (nonlinear_arith)
        requires
            index >= 0,
            width > 0,
    ;
    vstd::arithmetic::div_mod::lemma_div_pos_is_pos((index + 1) * width, count + 1);
}

/// The rows the weather, vegetation and creatures are drawn in are all above the water.
proof fn lemma_upper_writes(width: int, height: int, tick: int, activity: LandscapeActivity, theme: VisualTheme)
    requires
        width > 0,
        height >= 3,
    ensures
        ({
            let rest = weather_writes(width, height, activity, theme) + vegetation_writes(
                width,
                height,
                activity,
                theme,
            ) + creature_writes(width, height, tick, activity, theme);
            forall|k: int|
                0 <= k < rest.len() ==> 0 <= #[trigger] rest[k].0 < width && 0 <= rest[k].1 < height - 2
        }),
{
    let weather = weather_writes(width, height, activity, theme);
    let vegetation = vegetation_writes(width, height, activity, theme);
    let creatures = creature_writes(width, height, tick, activity, theme);
    let rest = weather + vegetation + creatures;
    assert forall|k: int| 0 <= k < rest.len() implies 0 <= #[trigger] rest[k].0 < width && 0
        <= rest[k].1 < height - 2 by {
        if k < weather.len() {
            lemma_spread_in_row(k, activity.weather_particles as int, width);
        } else if k < weather.len() + vegetation.len() {
            lemma_spread_in_row(k - weather.len(), activity.plants as int, width);
        } else {
            let i = k - weather.len() - vegetation.len();
            let count = creature_count(activity.creatures@.len() as int, width);
            let lanes = lane_count(count, height);
            let per_lane = ceil_div(count, lanes);
            assert(per_lane >= 1) by (nonlinear_arith)
                requires
                    count >= 1,
                    1 <= lanes <= 3,
                    per_lane == (count + lanes - 1) / lanes,
            ;
            let lane = i / per_lane;
            let slot = i % per_lane;
            vstd::arithmetic::div_mod::lemma_div_pos_is_pos(i, per_lane);
            let remaining = if count - lane * per_lane > 0 {
                count - lane * per_lane
            } else {
                0
            };
            let lane_size = if remaining < per_lane {
                remaining
            } else {
                per_lane
            };
            lemma_spread_in_row(slot, lane_size, width);
            assert(0 <= width / 2 < width);
            assert(rest[k] == creatures[i]);
        }
    }
}

/// The bottom two rows of a landscape of at least three rows are never drawn over: the
/// bottom row is all ground and the row above it all water.
pub proof fn lemma_ground_and_water_rows(
    width: u16,
    height: u16,
    tick: int,
    activity: LandscapeActivity,
    theme: VisualTheme,
    x: int,
)
    requires
        width > 0,
        height >= 3,
        0 <= x < width,
    ensures
        spec_landscape_cells(width as int, height as int, tick, activity, theme)[(height - 1) * width
            + x] == (Cell { glyph: theme.ground, fg: theme.ground_text, bg: theme.ground_background }),
        spec_landscape_cells(width as int, height as int, tick, activity, theme)[(height - 2) * width
            + x] == (Cell {
            glyph: water_glyph(x, tick, activity.water, theme),
            fg: theme.water_color,
            bg: theme.sky,
        }),
{
    let w = width as int;
    let h = height as int;
    let sky = Seq::new((w * h) as nat, |i: int| sky_cell(theme));
    let base = base_writes(w, h, tick, activity, theme);
    let rest = weather_writes(w, h, activity, theme) + vegetation_writes(w, h, activity, theme)
        + creature_writes(w, h, tick, activity, theme);
    let all = landscape_writes(w, h, tick, activity, theme);
    assert(all == base + rest);
    lemma_apply_concat(sky, w, base, rest);
    lemma_upper_writes(w, h, tick, activity, theme);
    lemma_u16_product(w, h);
    lemma_grid_bound(w, h, x, h - 1);
    lemma_grid_bound(w, h, x, h - 2);
    let ground_index = (h - 1) * w + x;
    let water_index = (h - 2) * w + x;
    assert forall|k: int| 0 <= k < rest.len() implies #[trigger] rest[k].1 * w + rest[k].0
        != ground_index && rest[k].1 * w + rest[k].0 != water_index by {
        lemma_grid_index(w, rest[k].0, rest[k].1, x, h - 1);
        lemma_grid_index(w, rest[k].0, rest[k].1, x, h - 2);
    }
    assert forall|k: int| 0 <= k < rest.len() implies 0 <= #[trigger] rest[k].1 * w + rest[k].0 < sky.len() by {
        lemma_grid_bound(w, h, rest[k].0, rest[k].1);
    }
    assert forall|k: int| 0 <= k < base.len() implies 0 <= #[trigger] base[k].1 * w + base[k].0 < sky.len() by {
        lemma_grid_bound(w, h, k / 2, base[k].1);
    }
    let after_base = apply_writes(sky, w, base);
    lemma_apply_length(sky, w, base);
    lemma_apply_untouched(after_base, w, rest, ground_index);
    lemma_apply_untouched(after_base, w, rest, water_index);
    let tail_ground = base.subrange(2 * x + 1, base.len() as int);
    assert forall|k: int| 0 <= k < tail_ground.len() implies #[trigger] tail_ground[k].1 * w
        + tail_ground[k].0 != ground_index by {
        let n = 2 * x + 1 + k;
        assert(tail_ground[k] == base[n]);
        lemma_grid_index(w, n / 2, base[n].1, x, h - 1);
    }
    lemma_apply_last_write(sky, w, base, 2 * x, ground_index);
    let tail_water = base.subrange(2 * x + 2, base.len() as int);
    assert forall|k: int| 0 <= k < tail_water.len() implies #[trigger] tail_water[k].1 * w
        + tail_water[k].0 != water_index by {
        let n = 2 * x + 2 + k;
        assert(tail_water[k] == base[n]);
        lemma_grid_index(w, n / 2, base[n].1, x, h - 2);
    }
    lemma_apply_last_write(sky, w, base, 2 * x + 1, water_index);
}

} // verus!
