use spotify_player::palette::{
    derive_palette, dominant_color_of_pixels, extract_dominant_color, generate_color_palette, AlbumPalette,
};

fn uniform(width: u32, height: u32, c: [u8; 3]) -> image::DynamicImage {
    image::DynamicImage::ImageRgb8(image::ImageBuffer::from_pixel(width, height, image::Rgb(c)))
}

#[test]
fn default_palette_is_cyan_family() {
    let p = AlbumPalette::default();
    assert_eq!(p.colors, vec![(0, 255, 255), (0, 200, 255), (50, 150, 255), (100, 100, 255)]);
}

#[test]
fn gradient_of_base_color() {
    let p = generate_color_palette(100, 50, 200);
    assert_eq!(
        p.colors,
        vec![(100, 50, 200), (155, 205, 55), (90, 80, 180), (180, 90, 80), (160, 110, 255), (40, 0, 140)]
    );
}

#[test]
fn gradient_saturates_at_extremes() {
    let white = generate_color_palette(255, 255, 255);
    assert_eq!(white.colors[1], (0, 0, 0));
    assert_eq!(white.colors[4], (255, 255, 255));
    assert_eq!(white.colors[5], (195, 195, 195));
    let black = generate_color_palette(0, 0, 0);
    assert_eq!(black.colors[1], (255, 255, 255));
    assert_eq!(black.colors[4], (60, 60, 60));
    assert_eq!(black.colors[5], (0, 0, 0));
}

#[test]
fn uniform_gray_pixels_give_that_gray() {
    let raw = vec![127u8; 3 * 16 * 16];
    assert_eq!(dominant_color_of_pixels(16, 16, &raw), (127, 127, 127));
}

#[test]
fn black_pixels_give_fallback() {
    let raw = vec![0u8; 3 * 16 * 16];
    assert_eq!(dominant_color_of_pixels(16, 16, &raw), (0, 200, 255));
    let white = vec![255u8; 3 * 4 * 4];
    assert_eq!(dominant_color_of_pixels(4, 4, &white), (0, 200, 255));
}

#[test]
fn only_strided_pixels_are_sampled() {
    // 8 x 1: pixels 0 and 4 lie on the grid, the others do not.
    let mut raw = Vec::new();
    for i in 0..8 {
        let p: [u8; 3] = match i {
            0 => [100, 100, 100],
            4 => [200, 180, 160],
            _ => [250, 0, 0],
        };
        raw.extend_from_slice(&p);
    }
    assert_eq!(dominant_color_of_pixels(8, 1, &raw), (150, 140, 130));
    // A second row is skipped unless its index is a multiple of four.
    let mut two_rows = raw.clone();
    two_rows.extend_from_slice(&[10u8; 24]);
    assert_eq!(dominant_color_of_pixels(8, 2, &two_rows), (150, 140, 130));
}

#[test]
fn empty_or_short_buffers() {
    assert_eq!(dominant_color_of_pixels(0, 5, &vec![127u8; 30]), (0, 200, 255));
    assert_eq!(dominant_color_of_pixels(4, 4, &Vec::new()), (0, 200, 255));
    // Only the pixels the buffer holds are read.
    assert_eq!(dominant_color_of_pixels(4, 4, &vec![90u8, 60, 30]), (90, 60, 30));
}

#[test]
fn extracts_gray_from_image() {
    assert_eq!(extract_dominant_color(&uniform(8, 8, [127, 127, 127])), (127, 127, 127));
    assert_eq!(extract_dominant_color(&uniform(100, 40, [30, 90, 150])), (30, 90, 150));
}

#[test]
fn extracts_fallback_from_black_image() {
    assert_eq!(extract_dominant_color(&uniform(8, 8, [0, 0, 0])), (0, 200, 255));
}

#[test]
fn derived_palette_has_six_colors() {
    let p = derive_palette(&uniform(10, 10, [127, 127, 127]));
    assert_eq!(p.colors.len(), 6);
    assert_eq!(p.colors[0], (127, 127, 127));
    assert_eq!(p.colors[1], (128, 128, 128));
    let q = derive_palette(&uniform(3, 3, [0, 0, 0]));
    assert_eq!(q.colors.len(), 6);
    assert_eq!(q.colors[0], (0, 200, 255));
}
