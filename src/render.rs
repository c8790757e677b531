//! Quantizing a noise field into bands and painting each band with a palette color.
use vstd::prelude::*;
use crate::image::{grid_of, rows_of_width, Image};
use crate::pixel::{opaque, Color, Pixel};

verus! {

/// The band of `v` counting from threshold `i`: the index of the first threshold
/// at or after `i` that is strictly greater than `v`, or the last index where
/// there is none.
pub open spec fn band_from(v: int, thresholds: Seq<i64>, i: int) -> int
    decreases thresholds.len() - i,
{
    if i >= thresholds.len() {
        thresholds.len() - 1
    } else if v < thresholds[i] {
        i
    } else {
        band_from(v, thresholds, i + 1)
    }
}

/// The band of `v`: the index of the first threshold strictly greater than `v`,
/// or the last index where there is none.
pub open spec fn band_of(v: int, thresholds: Seq<i64>) -> int {
    band_from(v, thresholds, 0)
}

/// `img` has the shape of `noise` and shows at each place the opaque palette
/// color of the band of the noise value there.
pub open spec fn is_rendering_of(
    img: Seq<Seq<Pixel>>,
    noise: Seq<Seq<i64>>,
    thresholds: Seq<i64>,
    palette: Seq<Color>,
) -> bool {
    &&& img.len() == noise.len()
    &&& forall|y: int| 0 <= y < noise.len() ==> (#[trigger] img[y]).len() == noise[y].len()
    &&& forall|y: int, x: int|
        0 <= y < noise.len() && 0 <= x < noise[y].len() ==> #[trigger] img[y][x] == opaque(
            palette[band_of(noise[y][x] as int, thresholds)],
        )
}

/// The band of a noise value under an ascending list of thresholds.
pub fn band_index(value: i64, thresholds: &Vec<i64>) -> (band: usize)
    requires
        thresholds.len() >= 1,
    ensures
        band == band_of(value as int, thresholds@),
        band < thresholds.len(),
{
    let mut i: usize = 0;
    while i < thresholds.len()
        invariant
            i <= thresholds.len(),
            band_from(value as int, thresholds@, 0) == band_from(value as int, thresholds@, i as int),
        decreases thresholds.len() - i,
    {
        if value < thresholds[i] {
            return i;
        }
        i += 1;
    }
    thresholds.len() - 1
}

/// A band counted from `i` is never before `i`, nor past the last threshold.
proof fn lemma_band_from_bounds(v: int, thresholds: Seq<i64>, i: int)
    requires
        0 <= i < thresholds.len(),
    ensures
        i <= band_from(v, thresholds, i) < thresholds.len(),
    decreases thresholds.len() - i,
{
    if v >= thresholds[i] {
        if i + 1 < thresholds.len() {
            lemma_band_from_bounds(v, thresholds, i + 1);
        } else {
            assert(band_from(v, thresholds, i + 1) == thresholds.len() - 1);
        }
    }
}

/// Counting from the same threshold, a value no larger never lands in a later band.
proof fn lemma_band_from_monotone(a: int, b: int, thresholds: Seq<i64>, i: int)
    requires
        a <= b,
        0 <= i <= thresholds.len(),
    ensures
        band_from(a, thresholds, i) <= band_from(b, thresholds, i),
    decreases thresholds.len() - i,
{
    if i < thresholds.len() {
        if a < thresholds[i] {
            lemma_band_from_bounds(b, thresholds, i);
        } else {
            lemma_band_from_monotone(a, b, thresholds, i + 1);
        }
    }
}

/// Bands respect the order of noise values: a smaller value never lands in a
/// later band than a larger one.
pub proof fn lemma_band_monotone(a: int, b: int, thresholds: Seq<i64>)
    requires
        a < b,
    ensures
        band_of(a, thresholds) <= band_of(b, thresholds),
{
    lemma_band_from_monotone(a, b, thresholds, 0);
}

/// Relies on rand::random: a byte drawn from the thread-local generator.
#[verifier::external_body]
fn random_byte() -> u8 {
    rand::random::<u8>()
}

/// A palette of `n` colors: `background` first, then random colors, one per band.
pub fn random_palette(n: usize, background: Color) -> (palette: Vec<Color>)
    requires
        n >= 1,
    ensures
        palette.len() == n,
        palette@[0] == background,
{
    let mut palette: Vec<Color> = Vec::new();
    palette.push(background);
    while palette.len() < n
        invariant
            1 <= palette.len() <= n,
            palette@[0] == background,
        decreases n - palette.len(),
    {
        let r = random_byte();
        let g = random_byte();
        let b = random_byte();
        palette.push(Color { r, g, b });
    }
    palette
}

/// Paints a noise field: each value becomes the opaque palette color of its band.
pub fn render_bands(
    width: usize,
    noise: &Vec<Vec<i64>>,
    thresholds: &Vec<i64>,
    palette: &Vec<Color>,
) -> (img: Image)
    requires
        thresholds.len() >= 1,
        palette.len() == thresholds.len(),
        rows_of_width(grid_of(noise@), width as nat),
    ensures
        img.wf(),
        img.spec_width() == width,
        is_rendering_of(img@, grid_of(noise@), thresholds@, palette@),
{
    let height = noise.len();
    let mut rows: Vec<Vec<Pixel>> = Vec::new();
    let mut y: usize = 0;
    while y < height
        invariant
            height == noise.len(),
            thresholds.len() >= 1,
            palette.len() == thresholds.len(),
            rows_of_width(grid_of(noise@), width as nat),
            y <= height,
            rows.len() == y,
            forall|k: int| 0 <= k < y ==> (#[trigger] grid_of(rows@)[k]).len() == width,
            forall|k: int, x: int|
                0 <= k < y && 0 <= x < width ==> #[trigger] grid_of(rows@)[k][x] == opaque(
                    palette@[band_of(noise@[k]@[x] as int, thresholds@)],
                ),
        decreases height - y,
    {
        let src = &noise[y];
        assert(grid_of(noise@)[y as int] == src@);
        let mut row: Vec<Pixel> = Vec::new();
        let mut x: usize = 0;
        while x < width
            invariant
                src@.len() == width,
                thresholds.len() >= 1,
                palette.len() == thresholds.len(),
                x <= width,
                row.len() == x,
                forall|j: int|
                    0 <= j < x ==> #[trigger] row@[j] == opaque(
                        palette@[band_of(src@[j] as int, thresholds@)],
                    ),
            decreases width - x,
        {
            let band = band_index(src[x], thresholds);
            let c = palette[band];
            row.push(Pixel::from_color(c));
            x += 1;
        }
        let ghost old_rows = rows@;
        rows.push(row);
        assert(grid_of(rows@) == grid_of(old_rows).push(row@));
        y += 1;
    }
    Image::from_wf_rows(width, rows)
}

/// Generates an image from a noise field: draws one palette of random colors,
/// with `background` for the lowest band, and paints each value with the color
/// of its band. Whatever colors are drawn, pixels of one band share one color
/// and the lowest band shows `background`.
pub fn generate_perlin_image(
    width: usize,
    noise: &Vec<Vec<i64>>,
    thresholds: &Vec<i64>,
    background: Color,
) -> (img: Image)
    requires
        thresholds.len() >= 1,
        rows_of_width(grid_of(noise@), width as nat),
    ensures
        img.wf(),
        img.spec_width() == width,
        exists|palette: Seq<Color>|
            palette.len() == thresholds.len() && palette[0] == background && is_rendering_of(
                img@,
                grid_of(noise@),
                thresholds@,
                palette,
            ),
{
    let palette = random_palette(thresholds.len(), background);
    let img = render_bands(width, noise, thresholds, &palette);
    assert(is_rendering_of(img@, grid_of(noise@), thresholds@, palette@));
    img
}

} // verus!
