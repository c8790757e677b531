//! Row-major images: RGBA pixels, and single-channel brightness.
use vstd::prelude::*;
use crate::pixel::Pixel;

verus! {

/// An image of `width` × `height` RGBA pixels, kept as its rows, top to bottom.
pub struct Image {
    width: usize,
    rows: Vec<Vec<Pixel>>,
}

/// An image of `width` × `height` brightness values, kept as its rows, top to bottom.
pub struct GrayImage {
    width: usize,
    rows: Vec<Vec<u8>>,
}

/// The contents of a sequence of rows.
pub open spec fn grid_of<T>(rows: Seq<Vec<T>>) -> Seq<Seq<T>> {
    rows.map_values(|r: Vec<T>| r@)
}

/// Every row of `grid` holds `width` entries.
pub open spec fn rows_of_width<T>(grid: Seq<Seq<T>>, width: nat) -> bool {
    forall|y: int| 0 <= y < grid.len() ==> (#[trigger] grid[y]).len() == width
}

impl View for Image {
    type V = Seq<Seq<Pixel>>;

    closed spec fn view(&self) -> Seq<Seq<Pixel>> {
        grid_of(self.rows@)
    }
}

impl View for GrayImage {
    type V = Seq<Seq<u8>>;

    closed spec fn view(&self) -> Seq<Seq<u8>> {
        grid_of(self.rows@)
    }
}

impl Image {
    pub closed spec fn spec_width(&self) -> nat {
        self.width as nat
    }

    pub open spec fn spec_height(&self) -> nat {
        self@.len()
    }

    /// Every row has the image's width.
    pub open spec fn wf(&self) -> bool {
        rows_of_width(self@, self.spec_width())
    }

    /// The image of the given rows, each of which must hold `width` pixels;
    /// `None` where one does not.
    pub fn from_rows(width: usize, rows: Vec<Vec<Pixel>>) -> (r: Option<Image>)
        ensures
            r is Some <==> rows_of_width(grid_of(rows@), width as nat),
            r matches Some(img) ==> img.wf() && img.spec_width() == width && img@ == grid_of(rows@),
    {
        let mut y: usize = 0;
        while y < rows.len()
            invariant
                0 <= y <= rows.len(),
                forall|k: int| 0 <= k < y ==> (#[trigger] grid_of(rows@)[k]).len() == width,
            decreases rows.len() - y,
        {
            if rows[y].len() != width {
                assert(grid_of(rows@)[y as int].len() != width);
                return None;
            }
            y += 1;
        }
        Some(Image { width, rows })
    }

    /// Builds an image from rows already known to have the given width.
    pub(crate) fn from_wf_rows(width: usize, rows: Vec<Vec<Pixel>>) -> (r: Image)
        requires
            rows_of_width(grid_of(rows@), width as nat),
        ensures
            r.wf(),
            r.spec_width() == width,
            r@ == grid_of(rows@),
    {
        Image { width, rows }
    }

    /// Number of pixels in each row.
    pub fn width(&self) -> (w: usize)
        ensures
            w == self.spec_width(),
    {
        self.width
    }

    /// Number of rows.
    pub fn height(&self) -> (h: usize)
        ensures
            h == self.spec_height(),
    {
        self.rows.len()
    }

    /// The pixels of row `y`, left to right.
    pub fn row(&self, y: usize) -> (r: &Vec<Pixel>)
        requires
            y < self.spec_height(),
        ensures
            r@ == self@[y as int],
    {
        &self.rows[y]
    }

    /// The pixel at column `x` of row `y`.
    pub fn get_pixel(&self, x: usize, y: usize) -> (p: Pixel)
        requires
            self.wf(),
            y < self.spec_height(),
            x < self.spec_width(),
        ensures
            p == self@[y as int][x as int],
    {
        assert(self.rows@[y as int]@ == self@[y as int]);
        self.rows[y][x]
    }
}

impl GrayImage {
    pub closed spec fn spec_width(&self) -> nat {
        self.width as nat
    }

    pub open spec fn spec_height(&self) -> nat {
        self@.len()
    }

    /// Every row has the image's width.
    pub open spec fn wf(&self) -> bool {
        rows_of_width(self@, self.spec_width())
    }

    /// The image of the given rows, each of which must hold `width` values;
    /// `None` where one does not.
    pub fn from_rows(width: usize, rows: Vec<Vec<u8>>) -> (r: Option<GrayImage>)
        ensures
            r is Some <==> rows_of_width(grid_of(rows@), width as nat),
            r matches Some(img) ==> img.wf() && img.spec_width() == width && img@ == grid_of(rows@),
    {
        let mut y: usize = 0;
        while y < rows.len()
            invariant
                0 <= y <= rows.len(),
                forall|k: int| 0 <= k < y ==> (#[trigger] grid_of(rows@)[k]).len() == width,
            decreases rows.len() - y,
        {
            if rows[y].len() != width {
                assert(grid_of(rows@)[y as int].len() != width);
                return None;
            }
            y += 1;
        }
        Some(GrayImage { width, rows })
    }

    /// Builds an image from rows already known to have the given width.
    pub(crate) fn from_wf_rows(width: usize, rows: Vec<Vec<u8>>) -> (r: GrayImage)
        requires
            rows_of_width(grid_of(rows@), width as nat),
        ensures
            r.wf(),
            r.spec_width() == width,
            r@ == grid_of(rows@),
    {
        GrayImage { width, rows }
    }

    /// Number of values in each row.
    pub fn width(&self) -> (w: usize)
        ensures
            w == self.spec_width(),
    {
        self.width
    }

    /// Number of rows.
    pub fn height(&self) -> (h: usize)
        ensures
            h == self.spec_height(),
    {
        self.rows.len()
    }

    /// The values of row `y`, left to right.
    pub fn row(&self, y: usize) -> (r: &Vec<u8>)
        requires
            y < self.spec_height(),
        ensures
            r@ == self@[y as int],
    {
        &self.rows[y]
    }

    /// The value at column `x` of row `y`.
    pub fn get_pixel(&self, x: usize, y: usize) -> (v: u8)
        requires
            self.wf(),
            y < self.spec_height(),
            x < self.spec_width(),
        ensures
            v == self@[y as int][x as int],
    {
        assert(self.rows@[y as int]@ == self@[y as int]);
        self.rows[y][x]
    }
}

} // verus!
