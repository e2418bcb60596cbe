//! The wave-field renderers: a linear traveling wave and radial concentric
//! rings, each turning geometry and beat phase into a grid of cells.

use vstd::prelude::*;
use crate::color::{Rgb, ColorScheme, FULL_INTENSITY, resolved_color, get_color_for_scheme};

verus! {

/// One cell of a rendered frame: a glyph and, unless blank, its color.
#[derive(Debug, Clone, Copy, PartialEq, Eq)]
pub struct WaveCell {
    pub glyph: char,
    pub color: Option<Rgb>,
}

/// A frame as rows of cells, top to bottom.
pub open spec fn frame_view(frame: Seq<Vec<WaveCell>>) -> Seq<Seq<WaveCell>> {
    frame.map_values(|row: Vec<WaveCell>| row@)
}

/// The blank cell.
pub open spec fn blank_cell() -> WaveCell {
    WaveCell { glyph: ' ', color: None }
}

// ---------------------------------------------------------------------------
// Linear traveling wave
// ---------------------------------------------------------------------------

/// Sine values are given in thousandths, in `-SINE_SCALE..=SINE_SCALE`.
pub const SINE_SCALE: i32 = 1000;

/// Color of the line when there is no album color: bright cyan.
pub open spec fn line_fallback() -> Rgb {
    (0, 255, 255)
}

/// Wave amplitude in thousandths of a row: a fifth of the height, at least
/// one and a half rows.
pub open spec fn amplitude(height: int) -> int {
    if height * 200 > 1500 {
        height * 200
    } else {
        1500
    }
}

/// The row lit in a column whose sine is `sine` (thousandths):
/// `round(height / 2 + sine * amplitude)`, and row 0 where that is negative.
pub open spec fn wave_row(sine: int, height: int) -> int {
    let p = height * 500000 + sine * amplitude(height) + 500000;
    if p < 0 {
        0
    } else {
        p / 1000000
    }
}

/// The cell at row `y` of a column whose sine is `sine`.
pub open spec fn linear_cell(sine: int, height: int, y: int, album_color: Option<Rgb>) -> WaveCell {
    if y == wave_row(sine, height) {
        WaveCell {
            glyph: '█',
            color: Some(
                match album_color {
                    Some(c) => c,
                    None => line_fallback(),
                },
            ),
        }
    } else {
        blank_cell()
    }
}

/// `frame` is the line through the columns whose sines `sines` gives, over
/// `height` rows.
pub open spec fn is_linear_frame(
    frame: Seq<Seq<WaveCell>>,
    height: u16,
    sines: Seq<i32>,
    album_color: Option<Rgb>,
) -> bool {
    &&& frame.len() == height
    &&& forall|y: int| 0 <= y < height ==> #[trigger] frame[y].len() == sines.len()
    &&& forall|y: int, x: int|
        0 <= y < height && 0 <= x < sines.len() ==> #[trigger] frame[y][x] == linear_cell(
            sines[x] as int,
            height as int,
            y,
            album_color,
        )
}

/// The row that the wave crosses in a column whose sine is `sine`.
pub fn wave_row_for(sine: i32, height: u16) -> (r: u64)
    requires
        -SINE_SCALE <= sine <= SINE_SCALE,
    ensures
        r as int == wave_row(sine as int, height as int),
{
    let amp: i64 = if height as i64 * 200 > 1500 {
        height as i64 * 200
    } else {
        1500
    };
    assert(-1000 * amp <= sine * amp <= 1000 * amp) by (nonlinear_arith)
        requires
            -1000 <= sine <= 1000,
            0 < amp,
    ;
    let p: i64 = height as i64 * 500000 + sine as i64 * amp + 500000;
    if p < 0 {
        0
    } else {
        (p / 1000000) as u64
    }
}

/// Renders a flat single-color line: in each column the one cell on the
/// wave is lit, in the album color or else bright cyan; all other cells are
/// blank. `sines` holds one sine sample per column, in thousandths.
pub fn render_linear_wave(height: u16, sines: &Vec<i32>, album_color: Option<Rgb>) -> (frame: Vec<
    Vec<WaveCell>,
>)
    requires
        forall|i: int| 0 <= i < sines@.len() ==> -SINE_SCALE <= #[trigger] sines@[i] <= SINE_SCALE,
    ensures
        is_linear_frame(frame_view(frame@), height, sines@, album_color),
{
    let color: Rgb = match album_color {
        Some(c) => c,
        None => (0, 255, 255),
    };
    let width: usize = sines.len();
    let mut rows: Vec<u64> = Vec::new();
    let mut x: usize = 0;
    while x < width
        invariant
            x <= width,
            width == sines@.len(),
            forall|i: int| 0 <= i < sines@.len() ==> -SINE_SCALE <= #[trigger] sines@[i] <= SINE_SCALE,
            rows@.len() == x,
            forall|i: int| 0 <= i < x ==> #[trigger] rows@[i] as int == wave_row(sines@[i] as int, height as int),
        decreases width - x,
    {
        rows.push(wave_row_for(sines[x], height));
        x = x + 1;
    }
    let mut frame: Vec<Vec<WaveCell>> = Vec::new();
    let mut y: u16 = 0;
    while y < height
        invariant
            y <= height,
            width == sines@.len(),
            rows@.len() == width,
            forall|i: int| 0 <= i < width ==> #[trigger] rows@[i] as int == wave_row(sines@[i] as int, height as int),
            color == (match album_color {
                Some(c) => c,
                None => line_fallback(),
            }),
            frame@.len() == y,
            forall|j: int| 0 <= j < y ==> #[trigger] frame@[j]@.len() == width,
            forall|j: int, i: int|
                0 <= j < y && 0 <= i < width ==> #[trigger] frame@[j]@[i] == linear_cell(
                    sines@[i] as int,
                    height as int,
                    j,
                    album_color,
                ),
        decreases height - y,
    {
        let mut row: Vec<WaveCell> = Vec::new();
        let mut i: usize = 0;
        while i < width
            invariant
                i <= width,
                y < height,
                width == sines@.len(),
                rows@.len() == width,
                forall|k: int| 0 <= k < width ==> #[trigger] rows@[k] as int == wave_row(sines@[k] as int, height as int),
                color == (match album_color {
                    Some(c) => c,
                    None => line_fallback(),
                }),
                row@.len() == i,
                forall|k: int| 0 <= k < i ==> #[trigger] row@[k] == linear_cell(
                    sines@[k] as int,
                    height as int,
                    y as int,
                    album_color,
                ),
            decreases width - i,
        {
            let cell = if y as u64 == rows[i] {
                WaveCell { glyph: '█', color: Some(color) }
            } else {
                WaveCell { glyph: ' ', color: None }
            };
            row.push(cell);
            i = i + 1;
        }
        frame.push(row);
        y = y + 1;
    }
    assert(is_linear_frame(frame_view(frame@), height, sines@, album_color));
    frame
}

/// On an area at least five rows high, every column of the line has exactly
/// one lit cell, and it lies inside the area.
pub proof fn lemma_linear_one_lit_cell_per_column(sine: i32, height: u16, album_color: Option<Rgb>)
    requires
        height >= 5,
        -SINE_SCALE <= sine <= SINE_SCALE,
    ensures
        0 <= wave_row(sine as int, height as int) < height,
        forall|y: int|
            0 <= y < height ==> (#[trigger] linear_cell(sine as int, height as int, y, album_color).glyph
                != ' ' <==> y == wave_row(sine as int, height as int)),
{
    let h = height as int;
    let amp = amplitude(h);
    assert(sine * amp <= 1000 * amp) by (nonlinear_arith)
        requires
            sine <= 1000,
            0 < amp,
    ;
    let p = h * 500000 + sine * amp + 500000;
    assert(p < 1000000 * h);
    if p >= 0 {
        assert(p / 1000000 < h) by (nonlinear_arith)
            requires
                p < 1000000 * h,
                0 <= p,
        ;
    }
}

// ---------------------------------------------------------------------------
// Radial concentric rings
// ---------------------------------------------------------------------------

/// Distances are measured in thousandths of a cell.
pub const MILLI: u64 = 1000;

/// Rings repeat every five cells.
pub const RING_PERIOD: u64 = 5000;

/// A ring front moves fifteen cells per beat.
pub const RING_SPEED: u64 = 15;

/// `r` is the integer square root of `n`.
pub open spec fn is_floor_sqrt(r: nat, n: nat) -> bool {
    r * r <= n < (r + 1) * (r + 1)
}

pub open spec fn floor_sqrt(n: nat) -> nat {
    choose|r: nat| is_floor_sqrt(r, n)
}

proof fn lemma_floor_sqrt_unique(a: nat, b: nat, n: nat)
    requires
        is_floor_sqrt(a, n),
        is_floor_sqrt(b, n),
    ensures
        a == b,
{
    if a < b {
        assert((a + 1) * (a + 1) <= b * b) by (nonlinear_arith)
            requires
                a + 1 <= b,
        ;
    } else if b < a {
        assert((b + 1) * (b + 1) <= a * a) by (nonlinear_arith)
            requires
                b + 1 <= a,
        ;
    }
}

/// The integer square root, by bisection.
fn isqrt(n: u64) -> (r: u64)
    ensures
        r as nat == floor_sqrt(n as nat),
{
    let mut lo: u128 = 0;
    let mut hi: u128 = 0x1_0000_0000;
    assert(hi * hi > n as u128);
    while hi - lo > 1
        invariant
            lo < hi <= 0x1_0000_0000,
            lo * lo <= n as u128,
            n < hi * hi,
        decreases hi - lo,
    {
        let mid: u128 = lo + (hi - lo) / 2;
        assert(mid * mid <= 0x1_0000_0000 * 0x1_0000_0000) by (nonlinear_arith)
            requires
                mid <= 0x1_0000_0000,
        ;
        if mid * mid <= n as u128 {
            lo = mid;
        } else {
            hi = mid;
        }
    }
    proof {
        assert(hi == lo + 1);
        assert(is_floor_sqrt(lo as nat, n as nat));
        lemma_floor_sqrt_unique(lo as nat, floor_sqrt(n as nat), n as nat);
    }
    lo as u64
}

/// Squared distance from the area's center to cell `(x, y)`, rows counted
/// twice for the character aspect ratio, in squared half-cells.
pub open spec fn half_dist_sq(x: int, y: int, width: int, height: int) -> nat {
    let dx = 2 * x - width;
    let dy = 2 * (2 * y - height);
    (dx * dx + dy * dy) as nat
}

/// Distance from the area's center to cell `(x, y)`, in thousandths of a
/// cell, truncated.
pub open spec fn ring_distance(x: int, y: int, width: int, height: int) -> nat {
    floor_sqrt(half_dist_sq(x, y, width, height) * 250000)
}

/// Where in the ring period a cell lies: `(dist - beat * 15) mod 5`.
pub open spec fn ring_phase(x: int, y: int, width: int, height: int, beat: u32) -> int {
    (ring_distance(x, y, width, height) - beat as int * RING_SPEED as int) % (RING_PERIOD as int)
}

/// Brightness of a cell in the ring field: it falls from full at a ring
/// front to nothing one cell behind it.
pub open spec fn ring_intensity(x: int, y: int, width: int, height: int, beat: u32) -> int {
    let p = ring_phase(x, y, width, height, beat);
    if p < MILLI as int {
        MILLI as int - p
    } else {
        0
    }
}

/// The glyph and tier level of an intensity band; `None` for the blank band.
pub open spec fn band_of(intensity: int) -> Option<(char, u8)> {
    if intensity > 700 {
        Some(('●', 0u8))
    } else if intensity > 500 {
        Some(('◉', 1u8))
    } else if intensity > 300 {
        Some(('○', 2u8))
    } else if intensity > 150 {
        Some(('·', 3u8))
    } else {
        None
    }
}

/// The cell of the ring field at `(x, y)`.
pub open spec fn radial_cell(
    x: int,
    y: int,
    width: int,
    height: int,
    beat: u32,
    scheme: ColorScheme,
    album_color: Option<Rgb>,
) -> WaveCell {
    let i = ring_intensity(x, y, width, height, beat);
    match band_of(i) {
        Some((glyph, level)) => WaveCell {
            glyph,
            color: Some(resolved_color(scheme, i as u32, level, album_color)),
        },
        None => blank_cell(),
    }
}

/// `frame` is the ring field of a `width` x `height` area.
pub open spec fn is_radial_frame(
    frame: Seq<Seq<WaveCell>>,
    width: u16,
    height: u16,
    beat: u32,
    scheme: ColorScheme,
    album_color: Option<Rgb>,
) -> bool {
    &&& frame.len() == height
    &&& forall|y: int| 0 <= y < height ==> #[trigger] frame[y].len() == width
    &&& forall|y: int, x: int|
        0 <= y < height && 0 <= x < width ==> #[trigger] frame[y][x] == radial_cell(
            x,
            y,
            width as int,
            height as int,
            beat,
            scheme,
            album_color,
        )
}

/// The ring intensity at `(x, y)`, in thousandths.
pub fn radial_intensity(x: u16, y: u16, width: u16, height: u16, beat: u32) -> (r: u32)
    ensures
        r as int == ring_intensity(x as int, y as int, width as int, height as int, beat),
        r <= FULL_INTENSITY,
{
    let dx: i64 = 2 * x as i64 - width as i64;
    let dy: i64 = 2 * (2 * y as i64 - height as i64);
    assert(0 <= dx * dx <= 0x4_0000_0000) by (nonlinear_arith)
        requires
            -0x2_0000 <= dx <= 0x2_0000,
    ;
    assert(0 <= dy * dy <= 0x10_0000_0000) by (nonlinear_arith)
        requires
            -0x4_0000 <= dy <= 0x4_0000,
    ;
    let sq: u64 = (dx * dx + dy * dy) as u64;
    assert(sq as int == half_dist_sq(x as int, y as int, width as int, height as int));
    assert(sq * 250000 <= 0x14_0000_0000 * 250000) by (nonlinear_arith)
        requires
            sq <= 0x14_0000_0000,
    ;
    let dist: u64 = isqrt(sq * 250000);
    let offset: u64 = beat as u64 * RING_SPEED;
    let p: u64 = if dist >= offset {
        (dist - offset) % RING_PERIOD
    } else {
        let back: u64 = (offset - dist) % RING_PERIOD;
        if back == 0 {
            0
        } else {
            RING_PERIOD - back
        }
    };
    assert(p as int == ring_phase(x as int, y as int, width as int, height as int, beat));
    if p < MILLI {
        (MILLI - p) as u32
    } else {
        0
    }
}

/// The glyph and tier level for a ring intensity; `None` for the blank band.
pub fn intensity_band(intensity: u32) -> (r: Option<(char, u8)>)
    ensures
        r == band_of(intensity as int),
{
    if intensity > 700 {
        Some(('●', 0))
    } else if intensity > 500 {
        Some(('◉', 1))
    } else if intensity > 300 {
        Some(('○', 2))
    } else if intensity > 150 {
        Some(('·', 3))
    } else {
        None
    }
}

/// Renders expanding concentric rings over a `width` x `height` area at
/// beat phase `beat` (thousandths of a beat), colored by `scheme`.
pub fn render_radial_waves(
    width: u16,
    height: u16,
    beat: u32,
    scheme: ColorScheme,
    album_color: Option<Rgb>,
) -> (frame: Vec<Vec<WaveCell>>)
    ensures
        is_radial_frame(frame_view(frame@), width, height, beat, scheme, album_color),
{
    let mut frame: Vec<Vec<WaveCell>> = Vec::new();
    let mut y: u16 = 0;
    while y < height
        invariant
            y <= height,
            frame@.len() == y,
            forall|j: int| 0 <= j < y ==> #[trigger] frame@[j]@.len() == width,
            forall|j: int, x: int|
                0 <= j < y && 0 <= x < width ==> #[trigger] frame@[j]@[x] == radial_cell(
                    x,
                    j,
                    width as int,
                    height as int,
                    beat,
                    scheme,
                    album_color,
                ),
        decreases height - y,
    {
        let mut row: Vec<WaveCell> = Vec::new();
        let mut x: u16 = 0;
        while x < width
            invariant
                x <= width,
                y < height,
                row@.len() == x,
                forall|i: int| 0 <= i < x ==> #[trigger] row@[i] == radial_cell(
                    i,
                    y as int,
                    width as int,
                    height as int,
                    beat,
                    scheme,
                    album_color,
                ),
            decreases width - x,
        {
            let intensity = radial_intensity(x, y, width, height, beat);
            let cell = match intensity_band(intensity) {
                Some((glyph, level)) => WaveCell {
                    glyph,
                    color: Some(get_color_for_scheme(scheme, intensity, level, album_color)),
                },
                None => WaveCell { glyph: ' ', color: None },
            };
            row.push(cell);
            x = x + 1;
        }
        frame.push(row);
        y = y + 1;
    }
    assert(is_radial_frame(frame_view(frame@), width, height, beat, scheme, album_color));
    frame
}

/// The ring field is mirror-symmetric about the area's center column: the
/// cells at `x` and `width - x` have the same intensity, at any beat phase.
pub proof fn lemma_radial_mirror_symmetric(x: u16, y: u16, width: u16, height: u16, beat: u32)
    requires
        0 < x < width,
        y < height,
    ensures
        ring_intensity(x as int, y as int, width as int, height as int, beat) == ring_intensity(
            width - x,
            y as int,
            width as int,
            height as int,
            beat,
        ),
{
    let dx = 2 * x as int - width as int;
    let mx = 2 * (width - x) - width as int;
    assert(mx == -dx);
    assert(dx * dx == mx * mx) by (nonlinear_arith)
        requires
            mx == -dx,
    ;
    assert(half_dist_sq(x as int, y as int, width as int, height as int) == half_dist_sq(
        width - x,
        y as int,
        width as int,
        height as int,
    ));
}

/// Rendering is deterministic: two frames rendered from the same area, beat
/// phase, scheme and album color are identical, cell for cell.
pub proof fn lemma_radial_render_deterministic(
    a: Seq<Seq<WaveCell>>,
    b: Seq<Seq<WaveCell>>,
    width: u16,
    height: u16,
    beat: u32,
    scheme: ColorScheme,
    album_color: Option<Rgb>,
)
    requires
        is_radial_frame(a, width, height, beat, scheme, album_color),
        is_radial_frame(b, width, height, beat, scheme, album_color),
    ensures
        a == b,
{
    assert forall|y: int| 0 <= y < height implies a[y] == b[y] by {
        assert(a[y] =~= b[y]);
    }
    assert(a =~= b);
}

} // verus!
