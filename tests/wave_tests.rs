use spotify_player::color::ColorScheme;
use spotify_player::wave::{
    intensity_band, radial_intensity, render_linear_wave, render_radial_waves, wave_row_for, WaveCell,
};

fn sines_for(width: usize, beat: f64) -> Vec<i32> {
    (0..width)
        .map(|x| ((x as f64 * 0.2 + beat * 0.05).sin() * 1000.0).round() as i32)
        .collect()
}

#[test]
fn wave_rows() {
    assert_eq!(wave_row_for(0, 5), 3);
    assert_eq!(wave_row_for(1000, 5), 4);
    assert_eq!(wave_row_for(-1000, 5), 1);
    assert_eq!(wave_row_for(0, 10), 5);
    assert_eq!(wave_row_for(1000, 10), 7);
    assert_eq!(wave_row_for(-1000, 10), 3);
    assert_eq!(wave_row_for(-1000, 1), 0);
    assert_eq!(wave_row_for(1000, 1), 2);
}

#[test]
fn linear_wave_one_lit_cell_per_column() {
    for beat in [0.0, 0.25, 0.5, 0.99] {
        let sines = sines_for(10, beat);
        let frame = render_linear_wave(5, &sines, None);
        assert_eq!(frame.len(), 5);
        for row in &frame {
            assert_eq!(row.len(), 10);
        }
        let mut lit = 0;
        for x in 0..10 {
            let ys: Vec<usize> = (0..5).filter(|&y| frame[y][x].glyph != ' ').collect();
            assert_eq!(ys.len(), 1);
            assert!(ys[0] <= 4);
            lit += ys.len();
        }
        assert_eq!(lit, 10);
    }
}

#[test]
fn linear_wave_colors() {
    let frame = render_linear_wave(5, &vec![0, 1000, -1000], None);
    assert_eq!(frame[3][0], WaveCell { glyph: '█', color: Some((0, 255, 255)) });
    assert_eq!(frame[4][1], WaveCell { glyph: '█', color: Some((0, 255, 255)) });
    assert_eq!(frame[1][2], WaveCell { glyph: '█', color: Some((0, 255, 255)) });
    assert_eq!(frame[0][0], WaveCell { glyph: ' ', color: None });
    let tinted = render_linear_wave(5, &vec![0], Some((10, 20, 30)));
    assert_eq!(tinted[3][0].color, Some((10, 20, 30)));
}

#[test]
fn linear_wave_empty_area() {
    assert!(render_linear_wave(0, &vec![0, 0], None).is_empty());
    let frame = render_linear_wave(3, &Vec::new(), None);
    assert_eq!(frame.len(), 3);
    assert!(frame.iter().all(|r| r.is_empty()));
}

#[test]
fn ring_intensity_values() {
    assert_eq!(radial_intensity(5, 5, 10, 10, 0), 1000);
    assert_eq!(radial_intensity(6, 5, 10, 10, 0), 0);
    assert_eq!(radial_intensity(5, 5, 10, 10, 10), 0);
    assert_eq!(radial_intensity(5, 5, 10, 10, 320), 800);
    // One row is two units away from the center.
    assert_eq!(radial_intensity(5, 4, 10, 10, 0), 0);
    // Five cells out, the next ring begins.
    assert_eq!(radial_intensity(15, 5, 20, 10, 0), 1000);
    assert_eq!(radial_intensity(14, 5, 20, 10, 0), 0);
}

#[test]
fn intensity_bands() {
    assert_eq!(intensity_band(1000), Some(('●', 0)));
    assert_eq!(intensity_band(701), Some(('●', 0)));
    assert_eq!(intensity_band(700), Some(('◉', 1)));
    assert_eq!(intensity_band(501), Some(('◉', 1)));
    assert_eq!(intensity_band(500), Some(('○', 2)));
    assert_eq!(intensity_band(301), Some(('○', 2)));
    assert_eq!(intensity_band(300), Some(('·', 3)));
    assert_eq!(intensity_band(151), Some(('·', 3)));
    assert_eq!(intensity_band(150), None);
    assert_eq!(intensity_band(0), None);
}

#[test]
fn radial_center_cell() {
    let frame = render_radial_waves(10, 10, 320, ColorScheme::Cyan, None);
    assert_eq!(frame[5][5], WaveCell { glyph: '●', color: Some((0, 204, 204)) });
    let frame = render_radial_waves(10, 10, 0, ColorScheme::Custom, Some((100, 50, 200)));
    assert_eq!(frame[5][5], WaveCell { glyph: '●', color: Some((100, 50, 200)) });
}

#[test]
fn radial_symmetric_about_center_column() {
    for size in [6u16, 9, 10, 15] {
        let frame = render_radial_waves(size, size, 0, ColorScheme::Cyan, None);
        for y in 0..size {
            for x in 1..size {
                assert_eq!(radial_intensity(x, y, size, size, 0), radial_intensity(size - x, y, size, size, 0));
                assert_eq!(frame[y as usize][x as usize], frame[y as usize][(size - x) as usize]);
            }
        }
    }
}

#[test]
fn radial_render_is_deterministic() {
    let a = render_radial_waves(20, 10, 500, ColorScheme::Cyan, None);
    let b = render_radial_waves(20, 10, 500, ColorScheme::Cyan, None);
    assert_eq!(a.len(), 10);
    assert!(a.iter().all(|r| r.len() == 20));
    assert_eq!(a, b);
    let lit = a.iter().flatten().filter(|c| c.glyph != ' ').count();
    assert!(lit > 0);
    for row in &a {
        for c in row {
            assert_eq!(c.glyph == ' ', c.color.is_none());
        }
    }
}
