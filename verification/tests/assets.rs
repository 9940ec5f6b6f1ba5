use std::io::Cursor;

use ecosystem::assets::{PngBitDepth, PngColorType, PngFrameInfo, Sprite, SpriteBlit, SpriteError};
use ecosystem::canvas::{Canvas, DirtyRegion, Rgba};

fn tiny_rgba_png(width: u32, height: u32, rgba: &[u8]) -> Vec<u8> {
    let mut output = Vec::new();
    let mut encoder = png::Encoder::new(Cursor::new(&mut output), width, height);
    encoder.set_color(png::ColorType::Rgba);
    encoder.set_depth(png::BitDepth::Eight);
    let mut writer = encoder.write_header().expect("png header");
    writer.write_image_data(rgba).expect("png pixels");
    drop(writer);
    output
}

#[test]
fn sprite_decodes_rgba_png_bytes() {
    let png = tiny_rgba_png(2, 1, &[255, 0, 0, 255, 0, 80, 255, 128]);
    let sprite = Sprite::from_png_bytes(&png).expect("valid rgba png");

    assert_eq!(sprite.width(), 2);
    assert_eq!(sprite.height(), 1);
    assert_eq!(sprite.pixel(0, 0), Some(Rgba::new(255, 0, 0, 255)));
    assert_eq!(sprite.pixel(1, 0), Some(Rgba::new(0, 80, 255, 128)));
}

#[test]
fn sprite_blit_scales_with_nearest_neighbor_and_alpha_blends() {
    let sprite = Sprite::from_rgba_pixels(
        2,
        1,
        vec![Rgba::new(255, 0, 0, 255), Rgba::new(0, 0, 255, 128)],
    )
    .expect("valid sprite");
    let mut canvas = Canvas::new(6, 3, Rgba::rgb(10, 20, 30)).expect("valid canvas");

    sprite
        .blit_scaled(
            &mut canvas,
            SpriteBlit {
                x: 1,
                y: 1,
                scale: 2,
            },
        )
        .expect("sprite fits canvas");

    assert_eq!(canvas.pixel(1, 1), Some(Rgba::rgb(255, 0, 0)));
    assert_eq!(canvas.pixel(2, 1), Some(Rgba::rgb(255, 0, 0)));
    assert_eq!(canvas.pixel(3, 1), Some(Rgba::new(5, 10, 143, 255)));
    assert_eq!(
        canvas.dirty_region(),
        Some(DirtyRegion {
            x: 1,
            y: 1,
            width: 4,
            height: 2,
        })
    );
}

#[test]
fn sprite_blit_rejects_zero_scale() {
    let sprite = Sprite::from_rgba_pixels(1, 1, vec![Rgba::rgb(255, 0, 0)]).expect("valid sprite");
    let mut canvas = Canvas::new(2, 2, Rgba::rgb(0, 0, 0)).expect("valid canvas");

    let error = sprite
        .blit_scaled(
            &mut canvas,
            SpriteBlit {
                x: 0,
                y: 0,
                scale: 0,
            },
        )
        .expect_err("zero scale rejected");

    assert_eq!(error.message(), "sprite scale must be at least 1");
}

#[test]
fn sprite_rejects_empty_sizes_and_wrong_pixel_counts() {
    let error = Sprite::from_rgba_pixels(0, 3, Vec::new()).expect_err("empty sprite");
    assert!(matches!(error, SpriteError::InvalidSize { width: 0, height: 3 }));
    assert_eq!(error.message(), "sprite size must be non-zero, got 0x3");

    let error = Sprite::from_rgba_pixels(2, 2, vec![Rgba::transparent(); 3]).expect_err("short");
    assert!(matches!(
        error,
        SpriteError::PixelCountMismatch {
            expected: 4,
            actual: 3
        }
    ));
    assert_eq!(error.message(), "sprite expected 4 pixels, got 3");
}

#[test]
fn sprite_blit_rejects_placements_past_the_canvas() {
    let sprite = Sprite::from_rgba_pixels(2, 2, vec![Rgba::rgb(1, 1, 1); 4]).expect("valid sprite");
    let mut canvas = Canvas::new(4, 4, Rgba::rgb(0, 0, 0)).expect("valid canvas");

    let error = sprite
        .blit_scaled(&mut canvas, SpriteBlit { x: 1, y: 0, scale: 2 })
        .expect_err("too wide");

    assert_eq!(error.message(), "sprite blit out of canvas bounds: 1,0 4x4");
    assert_eq!(canvas.dirty_region(), None);
}

#[test]
fn sprite_blit_skips_fully_transparent_pixels() {
    let sprite = Sprite::from_rgba_pixels(2, 1, vec![Rgba::transparent(), Rgba::rgb(9, 9, 9)])
        .expect("valid sprite");
    let mut canvas = Canvas::new(2, 1, Rgba::rgb(4, 5, 6)).expect("valid canvas");

    sprite
        .blit_scaled(&mut canvas, SpriteBlit { x: 0, y: 0, scale: 1 })
        .expect("fits");

    assert_eq!(canvas.pixel(0, 0), Some(Rgba::rgb(4, 5, 6)));
    assert_eq!(canvas.pixel(1, 0), Some(Rgba::rgb(9, 9, 9)));
    assert_eq!(
        canvas.dirty_region(),
        Some(DirtyRegion {
            x: 1,
            y: 0,
            width: 1,
            height: 1
        })
    );
}

#[test]
fn decoded_frames_must_be_eight_bit_rgba() {
    let frame = PngFrameInfo {
        width: 1,
        height: 1,
        color_type: PngColorType::Rgb,
        bit_depth: PngBitDepth::Eight,
        line_size: 3,
    };

    let error = Sprite::from_rgba8_frame(frame, &[1, 2, 3]).expect_err("rgb rejected");

    assert_eq!(
        error.message(),
        "sprite png must be 8-bit RGBA, got Rgb Eight"
    );
}

#[test]
fn decoded_frames_must_fit_u16_sides() {
    let frame = PngFrameInfo {
        width: 70_000,
        height: 1,
        color_type: PngColorType::Rgba,
        bit_depth: PngBitDepth::Eight,
        line_size: 280_000,
    };

    let error = Sprite::from_rgba8_frame(frame, &[]).expect_err("too wide");

    assert_eq!(
        error.message(),
        "sprite image is too large for canvas coordinates: 70000x1"
    );
}

#[test]
fn png_bytes_that_are_not_an_image_are_a_decode_error() {
    let error = Sprite::from_png_bytes(b"not a png").expect_err("garbage");
    assert!(matches!(error, SpriteError::PngDecode(_)));
}

#[test]
fn png_frames_that_are_not_eight_bit_rgba_are_refused() {
    let mut output = Vec::new();
    let mut encoder = png::Encoder::new(Cursor::new(&mut output), 1, 1);
    encoder.set_color(png::ColorType::Rgb);
    encoder.set_depth(png::BitDepth::Eight);
    let mut writer = encoder.write_header().expect("png header");
    writer.write_image_data(&[1, 2, 3]).expect("png pixels");
    drop(writer);

    let error = Sprite::from_png_bytes(&output).expect_err("rgb png");
    assert!(matches!(
        error,
        SpriteError::UnsupportedFormat {
            color_type: PngColorType::Rgb,
            bit_depth: PngBitDepth::Eight
        }
    ));
}
