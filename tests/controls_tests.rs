use spotify_player::color::ColorScheme;
use spotify_player::controls::App;
use spotify_player::effects::{EffectsState, ProgressBarEffect};

#[test]
fn new_app_starts_on_cyan() {
    let app = App::new();
    assert_eq!(app.current_color_scheme, 0);
    assert_eq!(app.simulated_bpm, 120);
    assert_eq!(app.color_scheme(), ColorScheme::Cyan);
    assert_eq!(app.color_scheme_name(), "Cyan (Default)");
}

#[test]
fn schemes_cycle_both_ways() {
    let mut app = App::new();
    let order = [
        ColorScheme::Warm,
        ColorScheme::Purple,
        ColorScheme::Green,
        ColorScheme::Sunset,
        ColorScheme::Ocean,
        ColorScheme::Cyan,
    ];
    for s in order {
        app.next_color();
        assert_eq!(app.color_scheme(), s);
    }
    app.prev_color();
    assert_eq!(app.color_scheme(), ColorScheme::Ocean);
    assert_eq!(app.color_scheme_name(), "Ocean (Deep Blue)");
    app.prev_color();
    assert_eq!(app.color_scheme_name(), "Sunset Gradient");
}

#[test]
fn bpm_is_clamped() {
    let mut app = App::new();
    for _ in 0..20 {
        app.increase_bpm();
    }
    assert_eq!(app.simulated_bpm, 200);
    app.decrease_bpm();
    assert_eq!(app.simulated_bpm, 190);
    for _ in 0..30 {
        app.decrease_bpm();
    }
    assert_eq!(app.simulated_bpm, 60);
}

#[test]
fn effects_placeholder() {
    let mut fx = EffectsState::new(1000);
    fx.update();
    fx.clear();
    assert_eq!(fx.last_update_ms, 1000);
    assert_eq!(fx.elapsed(1500), 500);
    assert_eq!(fx.elapsed(10), 0);
    assert_eq!(ProgressBarEffect::default(), ProgressBarEffect::NoEffect);
}
