use spotify_player::color::{apply_intensity, get_color_for_scheme, scheme_base_color, ColorScheme, FULL_INTENSITY};

#[test]
fn cyan_full_intensity_level_zero() {
    assert_eq!(get_color_for_scheme(ColorScheme::Cyan, FULL_INTENSITY, 0, None), (0, 255, 255));
}

#[test]
fn custom_without_album_color_falls_back_to_cyan() {
    assert_eq!(
        get_color_for_scheme(ColorScheme::Custom, FULL_INTENSITY, 0, None),
        get_color_for_scheme(ColorScheme::Cyan, FULL_INTENSITY, 0, None)
    );
    for level in 0..5u8 {
        for intensity in [0u32, 150, 500, 999, 1000] {
            assert_eq!(
                get_color_for_scheme(ColorScheme::Custom, intensity, level, None),
                get_color_for_scheme(ColorScheme::Cyan, intensity, level, None)
            );
        }
    }
}

#[test]
fn custom_full_intensity_level_zero_is_album_color() {
    assert_eq!(
        get_color_for_scheme(ColorScheme::Custom, FULL_INTENSITY, 0, Some((100, 50, 200))),
        (100, 50, 200)
    );
}

#[test]
fn custom_tiers_scale_album_color() {
    let album = Some((100, 50, 200));
    assert_eq!(get_color_for_scheme(ColorScheme::Custom, FULL_INTENSITY, 1, album), (85, 42, 170));
    assert_eq!(get_color_for_scheme(ColorScheme::Custom, FULL_INTENSITY, 2, album), (70, 35, 140));
    assert_eq!(get_color_for_scheme(ColorScheme::Custom, FULL_INTENSITY, 3, album), (50, 25, 100));
    assert_eq!(get_color_for_scheme(ColorScheme::Custom, FULL_INTENSITY, 9, album), (50, 25, 100));
    assert_eq!(get_color_for_scheme(ColorScheme::Custom, 500, 0, album), (50, 25, 100));
}

#[test]
fn built_in_schemes_scale_by_intensity() {
    assert_eq!(get_color_for_scheme(ColorScheme::Warm, 500, 2, None), (100, 50, 0));
    assert_eq!(get_color_for_scheme(ColorScheme::Ocean, FULL_INTENSITY, 3, None), (5, 50, 120));
    assert_eq!(get_color_for_scheme(ColorScheme::Purple, 0, 0, None), (0, 0, 0));
    assert_eq!(get_color_for_scheme(ColorScheme::Cyan, 800, 0, None), (0, 204, 204));
    // A built-in scheme ignores the album color.
    assert_eq!(get_color_for_scheme(ColorScheme::Green, FULL_INTENSITY, 0, Some((1, 2, 3))), (50, 255, 150));
}

#[test]
fn scheme_tables() {
    assert_eq!(scheme_base_color(ColorScheme::Sunset, 0), (255, 100, 150));
    assert_eq!(scheme_base_color(ColorScheme::Sunset, 1), (255, 150, 100));
    assert_eq!(scheme_base_color(ColorScheme::Purple, 2), (150, 50, 200));
    assert_eq!(scheme_base_color(ColorScheme::Green, 7), (20, 120, 70));
    assert_eq!(scheme_base_color(ColorScheme::Custom, 1), (0, 200, 255));
}

#[test]
fn intensity_truncates_and_never_brightens() {
    assert_eq!(apply_intensity((200, 100, 50), 500), (100, 50, 25));
    assert_eq!(apply_intensity((255, 255, 255), 333), (84, 84, 84));
    assert_eq!(apply_intensity((7, 8, 9), FULL_INTENSITY), (7, 8, 9));
    for i in 0..=FULL_INTENSITY {
        let r = apply_intensity((255, 128, 1), i);
        assert!(r.0 <= 255 && r.1 <= 128 && r.2 <= 1);
    }
}
