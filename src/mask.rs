//! Brightness images and the binary masks thresholded from them.
use vstd::prelude::*;
use crate::image::{grid_of, GrayImage, Image};
use crate::pixel::{luminance, pixel_luma, Pixel};

verus! {

/// `gray` has the shape of `img` and holds the luminance of each of its pixels.
pub open spec fn is_luminance_of(gray: Seq<Seq<u8>>, img: Seq<Seq<Pixel>>) -> bool {
    &&& gray.len() == img.len()
    &&& forall|y: int| 0 <= y < img.len() ==> (#[trigger] gray[y]).len() == img[y].len()
    &&& forall|y: int, x: int|
        0 <= y < img.len() && 0 <= x < img[y].len() ==> #[trigger] gray[y][x] as int == pixel_luma(
            img[y][x],
        )
}

/// The mask value of one brightness: 255 inside `low..=high`, 0 outside.
pub open spec fn mask_value(v: u8, low: u8, high: u8) -> u8 {
    if low <= v && v <= high {
        255
    } else {
        0
    }
}

/// `mask` has the shape of `gray` and holds the mask value of each of its entries.
pub open spec fn is_mask_of(mask: Seq<Seq<u8>>, gray: Seq<Seq<u8>>, low: u8, high: u8) -> bool {
    &&& mask.len() == gray.len()
    &&& forall|y: int| 0 <= y < gray.len() ==> (#[trigger] mask[y]).len() == gray[y].len()
    &&& forall|y: int, x: int|
        0 <= y < gray.len() && 0 <= x < gray[y].len() ==> #[trigger] mask[y][x] == mask_value(
            gray[y][x],
            low,
            high,
        )
}

/// Every entry of `mask` is 0 or 255.
pub open spec fn is_binary(mask: Seq<Seq<u8>>) -> bool {
    forall|y: int, x: int|
        0 <= y < mask.len() && 0 <= x < mask[y].len() ==> #[trigger] mask[y][x] == 0 || mask[y][x]
            == 255
}

/// The brightness image of `img`: each entry is the luminance of the pixel
/// at the same place.
pub fn convert_to_luminance(img: &Image) -> (gray: GrayImage)
    requires
        img.wf(),
    ensures
        gray.wf(),
        gray.spec_width() == img.spec_width(),
        gray.spec_height() == img.spec_height(),
        is_luminance_of(gray@, img@),
{
    let width = img.width();
    let height = img.height();
    let mut rows: Vec<Vec<u8>> = Vec::new();
    let mut y: usize = 0;
    while y < height
        invariant
            img.wf(),
            width == img.spec_width(),
            height == img.spec_height(),
            y <= height,
            rows.len() == y,
            forall|k: int| 0 <= k < y ==> (#[trigger] grid_of(rows@)[k]).len() == width,
            forall|k: int, x: int|
                0 <= k < y && 0 <= x < width ==> #[trigger] grid_of(rows@)[k][x] as int
                    == pixel_luma(img@[k][x]),
        decreases height - y,
    {
        let src = img.row(y);
        assert(src@.len() == width);
        let mut row: Vec<u8> = Vec::new();
        let mut x: usize = 0;
        while x < width
            invariant
                src@.len() == width,
                x <= width,
                row.len() == x,
                forall|j: int| 0 <= j < x ==> #[trigger] row@[j] as int == pixel_luma(src@[j]),
            decreases width - x,
        {
            row.push(luminance(src[x]));
            x += 1;
        }
        let ghost old_rows = rows@;
        rows.push(row);
        assert(grid_of(rows@) == grid_of(old_rows).push(row@));
        y += 1;
    }
    GrayImage::from_wf_rows(width, rows)
}

/// The mask of `img` over the brightness range `low..=high`: 255 where the
/// brightness lies in the range, 0 elsewhere.
pub fn create_luminance_mask(img: &GrayImage, low: u8, high: u8) -> (mask: GrayImage)
    requires
        img.wf(),
        low <= high,
    ensures
        mask.wf(),
        mask.spec_width() == img.spec_width(),
        mask.spec_height() == img.spec_height(),
        is_mask_of(mask@, img@, low, high),
        is_binary(mask@),
{
    let width = img.width();
    let height = img.height();
    let mut rows: Vec<Vec<u8>> = Vec::new();
    let mut y: usize = 0;
    while y < height
        invariant
            img.wf(),
            width == img.spec_width(),
            height == img.spec_height(),
            y <= height,
            rows.len() == y,
            forall|k: int| 0 <= k < y ==> (#[trigger] grid_of(rows@)[k]).len() == width,
            forall|k: int, x: int|
                0 <= k < y && 0 <= x < width ==> #[trigger] grid_of(rows@)[k][x] == mask_value(
                    img@[k][x],
                    low,
                    high,
                ),
        decreases height - y,
    {
        let src = img.row(y);
        assert(src@.len() == width);
        let mut row: Vec<u8> = Vec::new();
        let mut x: usize = 0;
        while x < width
            invariant
                src@.len() == width,
                x <= width,
                row.len() == x,
                forall|j: int| 0 <= j < x ==> #[trigger] row@[j] == mask_value(src@[j], low, high),
            decreases width - x,
        {
            let v = src[x];
            if low <= v && v <= high {
                row.push(255);
            } else {
                row.push(0);
            }
            x += 1;
        }
        let ghost old_rows = rows@;
        rows.push(row);
        assert(grid_of(rows@) == grid_of(old_rows).push(row@));
        y += 1;
    }
    GrayImage::from_wf_rows(width, rows)
}

/// Building the mask twice from the same brightness image and the same range
/// gives the same mask, entry for entry.
pub proof fn lemma_mask_idempotent(
    gray: Seq<Seq<u8>>,
    low: u8,
    high: u8,
    first: Seq<Seq<u8>>,
    second: Seq<Seq<u8>>,
)
    requires
        is_mask_of(first, gray, low, high),
        is_mask_of(second, gray, low, high),
    ensures
        first == second,
{
    assert forall|y: int| 0 <= y < first.len() implies #[trigger] first[y] == second[y] by {
        assert(first[y] =~= second[y]);
    }
    assert(first =~= second);
}

} // verus!
