//! The palette deriver: the dominant color of an image, and the gradient of
//! related colors expanded from one base color.

use vstd::prelude::*;
use crate::color::Rgb;

verus! {

#[verifier::external_type_specification]
#[verifier::external_body]
pub struct ExDynamicImage(image::DynamicImage);

/// An ordered set of related colors; never empty.
#[derive(Debug, Clone)]
pub struct AlbumPalette {
    pub colors: Vec<Rgb>,
}

impl AlbumPalette {
    /// A palette holds at least one color.
    pub open spec fn wf(&self) -> bool {
        self.colors@.len() > 0
    }

    /// The palette used when no album art is available: four cyan tones.
    pub fn default() -> (r: Self)
        ensures
            r.wf(),
            r.colors@ == seq![(0u8, 255u8, 255u8), (0, 200, 255), (50, 150, 255), (100, 100, 255)],
    {
        let colors: Vec<Rgb> = vec![(0, 255, 255), (0, 200, 255), (50, 150, 255), (100, 100, 255)];
        AlbumPalette { colors }
    }
}

/// `a * 0.8 + b * 0.2`, truncated.
pub open spec fn blend(a: u8, b: u8) -> u8 {
    ((4 * a as int + b as int) / 5) as u8
}

pub open spec fn complement(c: Rgb) -> Rgb {
    ((255 - c.0) as u8, (255 - c.1) as u8, (255 - c.2) as u8)
}

pub open spec fn lighten(c: Rgb) -> Rgb {
    (
        if c.0 + 60 > 255 { 255u8 } else { (c.0 + 60) as u8 },
        if c.1 + 60 > 255 { 255u8 } else { (c.1 + 60) as u8 },
        if c.2 + 60 > 255 { 255u8 } else { (c.2 + 60) as u8 },
    )
}

pub open spec fn darken(c: Rgb) -> Rgb {
    (
        if c.0 < 60 { 0u8 } else { (c.0 - 60) as u8 },
        if c.1 < 60 { 0u8 } else { (c.1 - 60) as u8 },
        if c.2 < 60 { 0u8 } else { (c.2 - 60) as u8 },
    )
}

/// The gradient expanded from one base color, in a fixed order: the base,
/// its complement, two analogous blends (each channel weighted 0.8 against
/// 0.2 of a rotated channel), a lightened and a darkened variant.
pub open spec fn gradient_of(c: Rgb) -> Seq<Rgb> {
    seq![
        c,
        complement(c),
        (blend(c.0, c.1), blend(c.1, c.2), blend(c.2, c.0)),
        (blend(c.2, c.0), blend(c.0, c.1), blend(c.1, c.2)),
        lighten(c),
        darken(c),
    ]
}

fn blend_channels(a: u8, b: u8) -> (r: u8)
    ensures
        r == blend(a, b),
{
    ((4 * a as u16 + b as u16) / 5) as u8
}

/// Expands one base color into a six-color gradient palette.
pub fn generate_color_palette(r: u8, g: u8, b: u8) -> (p: AlbumPalette)
    ensures
        p.wf(),
        p.colors@ == gradient_of((r, g, b)),
        p.colors@.len() == 6,
{
    let mut colors: Vec<Rgb> = Vec::new();
    colors.push((r, g, b));
    colors.push((255u8 - r, 255u8 - g, 255u8 - b));
    colors.push((blend_channels(r, g), blend_channels(g, b), blend_channels(b, r)));
    colors.push((blend_channels(b, r), blend_channels(r, g), blend_channels(g, b)));
    colors.push((r.saturating_add(60), g.saturating_add(60), b.saturating_add(60)));
    colors.push((r.saturating_sub(60), g.saturating_sub(60), b.saturating_sub(60)));
    assert(colors@ =~= gradient_of((r, g, b)));
    AlbumPalette { colors }
}

/// The color returned when no pixel of an image survives sampling.
pub open spec fn fallback_color() -> Rgb {
    (0, 200, 255)
}

/// Side length that an image is downsampled to before sampling.
pub const SAMPLE_SIZE: u32 = 64;

/// Only every `SAMPLE_STRIDE`-th column of every `SAMPLE_STRIDE`-th row is sampled.
pub const SAMPLE_STRIDE: u64 = 4;

/// Pixel `i` of a row-major RGB buffer, three bytes per pixel.
pub open spec fn pixel_at(raw: Seq<u8>, i: int) -> Rgb {
    (raw[3 * i], raw[3 * i + 1], raw[3 * i + 2])
}

pub open spec fn brightness(p: Rgb) -> int {
    (p.0 as int + p.1 as int + p.2 as int) / 3
}

/// Neither near-black nor near-white.
pub open spec fn in_brightness_band(p: Rgb) -> bool {
    20 < brightness(p) < 235
}

/// Pixel `i` lies on the sampling grid and passes the brightness band.
pub open spec fn is_sampled(raw: Seq<u8>, width: nat, i: int) -> bool {
    &&& (i % width as int) % SAMPLE_STRIDE as int == 0
    &&& (i / width as int) % SAMPLE_STRIDE as int == 0
    &&& in_brightness_band(pixel_at(raw, i))
}

/// How many of the first `n` pixels are sampled.
pub open spec fn sample_count(raw: Seq<u8>, width: nat, n: nat) -> nat
    decreases n,
{
    if n == 0 {
        0
    } else {
        sample_count(raw, width, (n - 1) as nat) + if is_sampled(raw, width, n - 1) {
            1nat
        } else {
            0nat
        }
    }
}

/// The sum of channel `k` over the sampled pixels among the first `n`.
pub open spec fn sample_sum(raw: Seq<u8>, width: nat, n: nat, k: int) -> nat
    decreases n,
{
    if n == 0 {
        0
    } else {
        sample_sum(raw, width, (n - 1) as nat, k) + if is_sampled(raw, width, n - 1) {
            raw[3 * (n - 1) + k] as nat
        } else {
            0nat
        }
    }
}

/// The number of pixels of a `width` x `height` image that `raw` holds.
pub open spec fn pixel_count(width: u32, height: u32, raw: Seq<u8>) -> nat {
    let full = width as nat * height as nat;
    let held = raw.len() / 3;
    if full <= held {
        full
    } else {
        held
    }
}

/// The channel-wise average of the sampled pixels, or the fallback color
/// when none is sampled.
pub open spec fn dominant_color(width: u32, height: u32, raw: Seq<u8>) -> Rgb {
    let n = pixel_count(width, height, raw);
    let c = sample_count(raw, width as nat, n);
    if c == 0 {
        fallback_color()
    } else {
        (
            (sample_sum(raw, width as nat, n, 0) / c) as u8,
            (sample_sum(raw, width as nat, n, 1) / c) as u8,
            (sample_sum(raw, width as nat, n, 2) / c) as u8,
        )
    }
}

proof fn lemma_sample_bounds(raw: Seq<u8>, width: nat, n: nat, k: int)
    requires
        0 <= k < 3,
        3 * n <= raw.len(),
    ensures
        sample_sum(raw, width, n, k) <= 255 * sample_count(raw, width, n),
        sample_count(raw, width, n) <= n,
    decreases n,
{
    if n > 0 {
        lemma_sample_bounds(raw, width, (n - 1) as nat, k);
    }
}

proof fn lemma_average_fits(sum: nat, count: nat)
    requires
        count > 0,
        sum <= 255 * count,
    ensures
        sum / count <= 255,
{
    assert(sum / count <= (255 * count) / count) by (nonlinear_arith)
        requires
            sum <= 255 * count,
            count > 0,
    ;
    assert((255 * count) / count == 255) by (nonlinear_arith)
        requires
            count > 0,
    ;
}

/// The channel-wise average of the sampled pixels of a row-major RGB buffer
/// for an image `width` pixels wide and `height` high: every fourth pixel of
/// every fourth row, skipping near-black and near-white ones. Falls back to
/// a fixed cyan when nothing is sampled.
pub fn dominant_color_of_pixels(width: u32, height: u32, raw: &Vec<u8>) -> (r: Rgb)
    ensures
        r == dominant_color(width, height, raw@),
{
    assert(width as u64 * height as u64 <= u32::MAX as u64 * u32::MAX as u64) by (nonlinear_arith);
    let full: u64 = width as u64 * height as u64;
    assert(width == 0 ==> full == 0) by (nonlinear_arith)
        requires
            full == width as u64 * height as u64,
    ;
    let len: usize = raw.len();
    let held: usize = len / 3;
    let n: usize = if full <= held as u64 {
        full as usize
    } else {
        held
    };
    let ghost w = width as nat;
    let mut r_sum: u128 = 0;
    let mut g_sum: u128 = 0;
    let mut b_sum: u128 = 0;
    let mut count: u64 = 0;
    let mut i: usize = 0;
    while i < n
        invariant
            n == pixel_count(width, height, raw@),
            3 * n <= raw@.len(),
            len == raw@.len(),
            w == width as nat,
            i <= n,
            n > 0 ==> width > 0,
            count == sample_count(raw@, w, i as nat),
            r_sum == sample_sum(raw@, w, i as nat, 0),
            g_sum == sample_sum(raw@, w, i as nat, 1),
            b_sum == sample_sum(raw@, w, i as nat, 2),
            count <= i,
            r_sum <= 255 * count,
            g_sum <= 255 * count,
            b_sum <= 255 * count,
        decreases n - i,
    {
        assert(3 * i + 2 < raw@.len());
        let x: u64 = i as u64 % width as u64;
        let y: u64 = i as u64 / width as u64;
        let pr = raw[3 * i];
        let pg = raw[3 * i + 1];
        let pb = raw[3 * i + 2];
        let light: u16 = (pr as u16 + pg as u16 + pb as u16) / 3;
        proof {
            lemma_sample_bounds(raw@, w, (i + 1) as nat, 0);
        }
        let sampled = x % SAMPLE_STRIDE == 0 && y % SAMPLE_STRIDE == 0 && light > 20
            && light < 235;
        assert(pixel_at(raw@, i as int) == (pr, pg, pb));
        assert(x as int == (i as int) % (w as int));
        assert(y as int == (i as int) / (w as int));
        assert(light as int == brightness(pixel_at(raw@, i as int)));
        assert(sampled == is_sampled(raw@, w, i as int));
        if sampled {
            r_sum = r_sum + pr as u128;
            g_sum = g_sum + pg as u128;
            b_sum = b_sum + pb as u128;
            count = count + 1;
        }
        i = i + 1;
    }
    if count == 0 {
        return (0, 200, 255);
    }
    proof {
        lemma_average_fits(r_sum as nat, count as nat);
        lemma_average_fits(g_sum as nat, count as nat);
        lemma_average_fits(b_sum as nat, count as nat);
    }
    ((r_sum / count as u128) as u8, (g_sum / count as u128) as u8, (b_sum / count as u128) as u8)
}

/// What image's nearest-neighbour `resize` to fit within `size` x `size`,
/// followed by `to_rgb8`, makes of an image: width, height and row-major RGB
/// bytes.
pub uninterp spec fn downsampled(img: image::DynamicImage, size: u32) -> (u32, u32, Seq<u8>);

/// Relies on image's `DynamicImage::resize` with nearest-neighbour filtering,
/// then `to_rgb8`: the image fitted within `size` x `size`, as width, height
/// and row-major RGB bytes. The result depends on the image and `size` alone.
#[verifier::external_body]
fn downsample_rgb(img: &image::DynamicImage, size: u32) -> (r: (u32, u32, Vec<u8>))
    ensures
        (r.0, r.1, r.2@) == downsampled(*img, size),
{
    let small = img.resize(size, size, image::imageops::FilterType::Nearest).to_rgb8();
    let (w, h) = small.dimensions();
    (w, h, small.into_raw())
}

/// Estimates the dominant color of an image: downsampled for speed, then
/// averaged as `dominant_color_of_pixels` does.
pub fn extract_dominant_color(img: &image::DynamicImage) -> (r: Rgb)
    ensures
        ({
            let d = downsampled(*img, SAMPLE_SIZE);
            r == dominant_color(d.0, d.1, d.2)
        }),
{
    let (w, h, raw) = downsample_rgb(img, SAMPLE_SIZE);
    dominant_color_of_pixels(w, h, &raw)
}

/// Derives a full palette from an image: its dominant color, expanded into
/// a gradient of six related colors.
pub fn derive_palette(img: &image::DynamicImage) -> (p: AlbumPalette)
    ensures
        p.wf(),
        p.colors@.len() == 6,
        ({
            let d = downsampled(*img, SAMPLE_SIZE);
            p.colors@ == gradient_of(dominant_color(d.0, d.1, d.2))
        }),
{
    let (r, g, b) = extract_dominant_color(img);
    generate_color_palette(r, g, b)
}

proof fn lemma_uniform_sums(raw: Seq<u8>, width: nat, n: nat, c: Rgb)
    requires
        3 * n <= raw.len(),
        forall|i: int| 0 <= i < n ==> #[trigger] pixel_at(raw, i) == c,
    ensures
        sample_sum(raw, width, n, 0) == c.0 as nat * sample_count(raw, width, n),
        sample_sum(raw, width, n, 1) == c.1 as nat * sample_count(raw, width, n),
        sample_sum(raw, width, n, 2) == c.2 as nat * sample_count(raw, width, n),
        n > 0 && width > 0 && in_brightness_band(c) ==> sample_count(raw, width, n) > 0,
        !in_brightness_band(c) ==> sample_count(raw, width, n) == 0,
    decreases n,
{
    if n > 0 {
        let m = (n - 1) as nat;
        lemma_uniform_sums(raw, width, m, c);
        assert(pixel_at(raw, m as int) == c);
        let k = sample_count(raw, width, m);
        assert(c.0 as nat * k + c.0 as nat == c.0 as nat * (k + 1)) by (nonlinear_arith);
        assert(c.1 as nat * k + c.1 as nat == c.1 as nat * (k + 1)) by (nonlinear_arith);
        assert(c.2 as nat * k + c.2 as nat == c.2 as nat * (k + 1)) by (nonlinear_arith);
        if m == 0 && width > 0 {
            assert((0int % width as int) == 0);
            assert((0int / width as int) == 0);
        }
    }
}

/// An image whose pixels all share one color inside the brightness band has
/// exactly that color as its dominant color; one whose common color lies
/// outside the band gets the fallback color.
pub proof fn lemma_uniform_image_color(width: u32, height: u32, raw: Seq<u8>, c: Rgb)
    requires
        pixel_count(width, height, raw) > 0,
        forall|i: int| 0 <= i < pixel_count(width, height, raw) ==> #[trigger] pixel_at(raw, i) == c,
    ensures
        in_brightness_band(c) ==> dominant_color(width, height, raw) == c,
        !in_brightness_band(c) ==> dominant_color(width, height, raw) == fallback_color(),
{
    let n = pixel_count(width, height, raw);
    assert(width > 0) by {
        if width == 0 {
            assert(width as nat * height as nat == 0) by (nonlinear_arith)
                requires
                    width == 0,
            ;
        }
    }
    lemma_uniform_sums(raw, width as nat, n, c);
    let k = sample_count(raw, width as nat, n);
    if in_brightness_band(c) {
        assert((c.0 as nat * k) / k == c.0 as nat) by (nonlinear_arith)
            requires
                k > 0,
        ;
        assert((c.1 as nat * k) / k == c.1 as nat) by (nonlinear_arith)
            requires
                k > 0,
        ;
        assert((c.2 as nat * k) / k == c.2 as nat) by (nonlinear_arith)
            requires
                k > 0,
        ;
    }
}

} // verus!
