//! Colors: the fixed scheme tables, intensity scaling, the tier resolver and
//! the gradient palette derived from one base color.

use vstd::prelude::*;

verus! {

/// An RGB triple, one byte per channel.
pub type Rgb = (u8, u8, u8);

/// Intensities are fixed-point numbers: `FULL_INTENSITY` stands for 1.0.
pub const FULL_INTENSITY: u32 = 1000;

/// Built-in color schemes, plus one driven by album art.
#[derive(Debug, Clone, Copy, PartialEq, Eq, Structural)]
pub enum ColorScheme {
    Cyan,
    Warm,
    Purple,
    Green,
    Sunset,
    Ocean,
    Custom,
}

/// `c * num / den`, truncated.
pub open spec fn scaled(c: u8, num: int, den: int) -> int {
    (c as int * num) / den
}

/// The four base colors of a built-in scheme, indexed by tier level
/// (0 brightest; every level from 3 up uses the dimmest). `Custom` has no
/// table of its own and reads as `Cyan`.
pub open spec fn scheme_base(scheme: ColorScheme, level: u8) -> Rgb {
    match scheme {
        ColorScheme::Warm => if level == 0 {
            (255, 100, 0)
        } else if level == 1 {
            (255, 150, 50)
        } else if level == 2 {
            (200, 100, 0)
        } else {
            (150, 70, 0)
        },
        ColorScheme::Purple => if level == 0 {
            (200, 50, 255)
        } else if level == 1 {
            (180, 80, 230)
        } else if level == 2 {
            (150, 50, 200)
        } else {
            (100, 30, 150)
        },
        ColorScheme::Green => if level == 0 {
            (50, 255, 150)
        } else if level == 1 {
            (50, 220, 120)
        } else if level == 2 {
            (30, 180, 100)
        } else {
            (20, 120, 70)
        },
        ColorScheme::Sunset => if level == 0 {
            (255, 100, 150)
        } else if level == 1 {
            (255, 150, 100)
        } else if level == 2 {
            (200, 100, 100)
        } else {
            (150, 70, 80)
        },
        ColorScheme::Ocean => if level == 0 {
            (0, 150, 255)
        } else if level == 1 {
            (20, 120, 220)
        } else if level == 2 {
            (10, 80, 180)
        } else {
            (5, 50, 120)
        },
        _ => if level == 0 {
            (0, 255, 255)
        } else if level == 1 {
            (0, 200, 255)
        } else if level == 2 {
            (0, 150, 200)
        } else {
            (0, 100, 150)
        },
    }
}

/// Percentage of the album color kept at each tier level.
pub open spec fn custom_tier_percent(level: u8) -> int {
    if level == 0 {
        100
    } else if level == 1 {
        85
    } else if level == 2 {
        70
    } else {
        50
    }
}

/// The base color of a tier derived from an album color.
pub open spec fn custom_base(album: Rgb, level: u8) -> Rgb {
    let p = custom_tier_percent(level);
    (
        scaled(album.0, p, 100) as u8,
        scaled(album.1, p, 100) as u8,
        scaled(album.2, p, 100) as u8,
    )
}

/// Each channel multiplied by `intensity / FULL_INTENSITY`, truncated.
pub open spec fn intensified(color: Rgb, intensity: u32) -> Rgb {
    (
        scaled(color.0, intensity as int, FULL_INTENSITY as int) as u8,
        scaled(color.1, intensity as int, FULL_INTENSITY as int) as u8,
        scaled(color.2, intensity as int, FULL_INTENSITY as int) as u8,
    )
}

/// The color that the resolver gives for a scheme, intensity, level and
/// optional album color.
pub open spec fn resolved_color(
    scheme: ColorScheme,
    intensity: u32,
    level: u8,
    album_color: Option<Rgb>,
) -> Rgb {
    match (scheme, album_color) {
        (ColorScheme::Custom, Some(album)) => intensified(custom_base(album, level), intensity),
        _ => intensified(scheme_base(scheme, level), intensity),
    }
}

proof fn lemma_scaled_bounded(c: u8, num: int, den: int)
    requires
        0 <= num <= den,
        0 < den,
    ensures
        0 <= scaled(c, num, den) <= c,
{
    assert(0 <= c as int * num <= c as int * den) by (nonlinear_arith)
        requires
            0 <= num <= den,
            0 <= c,
    ;
    assert((c as int * den) / den == c as int) by (nonlinear_arith)
        requires
            0 < den,
    ;
    assert((c as int * num) / den <= (c as int * den) / den) by (nonlinear_arith)
        requires
            0 <= c as int * num <= c as int * den,
            0 < den,
    ;
    assert(0 <= (c as int * num) / den) by (nonlinear_arith)
        requires
            0 <= c as int * num,
            0 < den,
    ;
}

/// One channel scaled by `num / den`, truncated; never more than `c`.
fn scale_channel(c: u8, num: u32, den: u32) -> (r: u8)
    requires
        num <= den,
        0 < den,
        den <= FULL_INTENSITY,
    ensures
        r as int == scaled(c, num as int, den as int),
        r <= c,
{
    proof {
        lemma_scaled_bounded(c, num as int, den as int);
        assert(c as u32 * num <= 255 * 1000) by (nonlinear_arith)
            requires
                num <= 1000,
                c <= 255,
        ;
    }
    ((c as u32 * num) / den) as u8
}

/// Scales every channel of `color` by `intensity / FULL_INTENSITY`,
/// truncating; no channel grows.
pub fn apply_intensity(color: Rgb, intensity: u32) -> (r: Rgb)
    requires
        intensity <= FULL_INTENSITY,
    ensures
        r == intensified(color, intensity),
        r.0 <= color.0 && r.1 <= color.1 && r.2 <= color.2,
{
    (
        scale_channel(color.0, intensity, FULL_INTENSITY),
        scale_channel(color.1, intensity, FULL_INTENSITY),
        scale_channel(color.2, intensity, FULL_INTENSITY),
    )
}

/// The base color of `scheme` at `level`.
pub fn scheme_base_color(scheme: ColorScheme, level: u8) -> (r: Rgb)
    ensures
        r == scheme_base(scheme, level),
{
    match scheme {
        ColorScheme::Warm => match level {
            0 => (255, 100, 0),
            1 => (255, 150, 50),
            2 => (200, 100, 0),
            _ => (150, 70, 0),
        },
        ColorScheme::Purple => match level {
            0 => (200, 50, 255),
            1 => (180, 80, 230),
            2 => (150, 50, 200),
            _ => (100, 30, 150),
        },
        ColorScheme::Green => match level {
            0 => (50, 255, 150),
            1 => (50, 220, 120),
            2 => (30, 180, 100),
            _ => (20, 120, 70),
        },
        ColorScheme::Sunset => match level {
            0 => (255, 100, 150),
            1 => (255, 150, 100),
            2 => (200, 100, 100),
            _ => (150, 70, 80),
        },
        ColorScheme::Ocean => match level {
            0 => (0, 150, 255),
            1 => (20, 120, 220),
            2 => (10, 80, 180),
            _ => (5, 50, 120),
        },
        _ => match level {
            0 => (0, 255, 255),
            1 => (0, 200, 255),
            2 => (0, 150, 200),
            _ => (0, 100, 150),
        },
    }
}

/// Resolves a scheme, intensity and tier level to a concrete color. `Custom`
/// derives its tiers from the album color, or falls back to `Cyan` when
/// there is none.
pub fn get_color_for_scheme(
    scheme: ColorScheme,
    intensity: u32,
    level: u8,
    album_color: Option<Rgb>,
) -> (r: Rgb)
    requires
        intensity <= FULL_INTENSITY,
    ensures
        r == resolved_color(scheme, intensity, level, album_color),
{
    let base = match (scheme, album_color) {
        (ColorScheme::Custom, Some(album)) => {
            let percent: u32 = match level {
                0 => 100,
                1 => 85,
                2 => 70,
                _ => 50,
            };
            (
                scale_channel(album.0, percent, 100),
                scale_channel(album.1, percent, 100),
                scale_channel(album.2, percent, 100),
            )
        },
        _ => scheme_base_color(scheme, level),
    };
    apply_intensity(base, intensity)
}

/// `Custom` without an album color resolves exactly as `Cyan` does.
pub proof fn lemma_custom_falls_back_to_cyan(intensity: u32, level: u8)
    ensures
        resolved_color(ColorScheme::Custom, intensity, level, None) == resolved_color(
            ColorScheme::Cyan,
            intensity,
            level,
            None,
        ),
{
}

/// At full intensity, tier level 0 of `Custom` is the album color itself.
pub proof fn lemma_custom_full_intensity_is_album_color(album: Rgb)
    ensures
        resolved_color(ColorScheme::Custom, FULL_INTENSITY, 0, Some(album)) == album,
{
    assert forall|c: u8| scaled(c, 100, 100) == c as int && scaled(c, 1000, 1000) == c as int by {
        assert((c as int * 100) / 100 == c as int) by (nonlinear_arith);
        assert((c as int * 1000) / 1000 == c as int) by (nonlinear_arith);
    }
}

/// Resolving at any valid intensity never brightens a channel beyond the
/// tier's base color.
pub proof fn lemma_resolved_within_base(scheme: ColorScheme, intensity: u32, level: u8)
    requires
        intensity <= FULL_INTENSITY,
    ensures
        ({
            let r = resolved_color(scheme, intensity, level, None);
            let b = scheme_base(scheme, level);
            r.0 <= b.0 && r.1 <= b.1 && r.2 <= b.2
        }),
{
    let b = scheme_base(scheme, level);
    lemma_scaled_bounded(b.0, intensity as int, 1000);
    lemma_scaled_bounded(b.1, intensity as int, 1000);
    lemma_scaled_bounded(b.2, intensity as int, 1000);
}

} // verus!
