//! Sorting the runs of mask-selected pixels of each row by luminance.
use vstd::prelude::*;
use crate::image::{grid_of, GrayImage, Image};
use crate::pixel::{luminance, pixel_luma, Pixel};

verus! {

broadcast use vstd::seq_lib::group_to_multiset_ensures;

/// `perm` names each index below `n` exactly once.
pub open spec fn is_index_permutation(perm: Seq<int>, n: nat) -> bool {
    &&& perm.len() == n
    &&& forall|k: int| 0 <= k < n ==> 0 <= #[trigger] perm[k] < n
    &&& forall|k: int, l: int| 0 <= k < l < n ==> #[trigger] perm[k] != #[trigger] perm[l]
}

/// Luminance never decreases from left to right in `s`.
pub open spec fn luma_sorted(s: Seq<Pixel>) -> bool {
    forall|k: int, l: int|
        0 <= k < l < s.len() ==> pixel_luma(#[trigger] s[k]) <= pixel_luma(#[trigger] s[l])
}

/// `perm` takes each position of `out` to the position of `inp` that its pixel came
/// from, and two pixels of equal luminance come out in the order they went in.
pub open spec fn stable_matching(out: Seq<Pixel>, inp: Seq<Pixel>, perm: Seq<int>) -> bool {
    &&& out.len() == inp.len()
    &&& is_index_permutation(perm, inp.len())
    &&& forall|k: int| 0 <= k < out.len() ==> #[trigger] out[k] == inp[perm[k]]
    &&& forall|k: int, l: int|
        0 <= k < l < out.len() && pixel_luma(out[k]) == pixel_luma(out[l]) ==> #[trigger] perm[k]
            < #[trigger] perm[l]
}

/// `out` holds the pixels of `inp`, each as often, ordered by non-decreasing
/// luminance, with pixels of equal luminance in their original order.
pub open spec fn is_stable_luma_sort(out: Seq<Pixel>, inp: Seq<Pixel>) -> bool {
    &&& out.len() == inp.len()
    &&& out.to_multiset() == inp.to_multiset()
    &&& luma_sorted(out)
    &&& exists|perm: Seq<int>| stable_matching(out, inp, perm)
}

/// Sorts a run of pixels by ascending luminance; the sort is stable.
pub fn sort_run(run: &Vec<Pixel>) -> (out: Vec<Pixel>)
    ensures
        is_stable_luma_sort(out@, run@),
{
    let mut out: Vec<Pixel> = Vec::new();
    let ghost mut perm: Seq<int> = Seq::empty();
    let mut i: usize = 0;
    while i < run.len()
        invariant
            i <= run.len(),
            out.len() == i,
            perm.len() == i,
            forall|k: int| 0 <= k < i ==> 0 <= #[trigger] perm[k] < i,
            forall|k: int, l: int| 0 <= k < l < i ==> #[trigger] perm[k] != #[trigger] perm[l],
            forall|k: int| 0 <= k < i ==> #[trigger] out@[k] == run@[perm[k]],
            luma_sorted(out@),
            forall|k: int, l: int|
                0 <= k < l < i && pixel_luma(out@[k]) == pixel_luma(out@[l]) ==> #[trigger] perm[k]
                    < #[trigger] perm[l],
            out@.to_multiset() == run@.subrange(0, i as int).to_multiset(),
        decreases run.len() - i,
    {
        let p = run[i];
        let lp = luminance(p);
        let mut pos: usize = i;
        while pos > 0 && luminance(out[pos - 1]) > lp
            invariant
                pos <= i,
                out.len() == i,
                forall|k: int| pos <= k < i ==> pixel_luma(#[trigger] out@[k]) > lp,
            decreases pos,
        {
            pos -= 1;
        }
        let ghost old_out = out@;
        let ghost old_perm = perm;
        assert(forall|k: int| 0 <= k < pos ==> pixel_luma(#[trigger] old_out[k]) <= lp) by {
            if pos > 0 {
                assert(pixel_luma(old_out[pos - 1]) <= lp);
            }
        }
        out.insert(pos, p);
        proof {
            perm = perm.insert(pos as int, i as int);
            old_out.insert_ensures(pos as int, p);
            old_perm.insert_ensures(pos as int, i as int);
            assert(forall|k: int| pos < k <= i ==> #[trigger] out@[k] == old_out[k - 1]);
            assert(forall|k: int| pos < k <= i ==> #[trigger] perm[k] == old_perm[k - 1]);
            assert(run@.subrange(0, i + 1) == run@.subrange(0, i as int).push(p));
        }
        i += 1;
    }
    assert(run@.subrange(0, i as int) == run@);
    assert(stable_matching(out@, run@, perm));
    out
}

/// Positions `s..e` of `mask` form a run: all of them are 255, and the span reaches
/// a row edge or a value other than 255 on each side.
pub open spec fn is_run(mask: Seq<u8>, s: int, e: int) -> bool {
    &&& 0 <= s < e <= mask.len()
    &&& forall|k: int| s <= k < e ==> #[trigger] mask[k] == 255
    &&& (s == 0 || mask[s - 1] != 255)
    &&& (e == mask.len() || mask[e] != 255)
}

/// `out` is `row` with every run that `mask` selects sorted by luminance, and
/// every pixel outside the runs where it was.
pub open spec fn row_sorted_by_mask(out: Seq<Pixel>, row: Seq<Pixel>, mask: Seq<u8>) -> bool {
    &&& out.len() == row.len()
    &&& mask.len() == row.len()
    &&& forall|x: int| 0 <= x < row.len() && mask[x] != 255 ==> #[trigger] out[x] == row[x]
    &&& forall|s: int, e: int|
        #[trigger] is_run(mask, s, e) ==> is_stable_luma_sort(
            out.subrange(s, e),
            row.subrange(s, e),
        )
}

/// Sorts, within one row, each run of pixels whose mask value is 255; the
/// other pixels keep their places.
pub fn sort_row(row: &Vec<Pixel>, mask: &Vec<u8>) -> (out: Vec<Pixel>)
    requires
        row.len() == mask.len(),
    ensures
        row_sorted_by_mask(out@, row@, mask@),
{
    let n = row.len();
    let mut out: Vec<Pixel> = Vec::new();
    let mut x: usize = 0;
    while x < n
        invariant
            n == row.len(),
            n == mask.len(),
            x <= n,
            out.len() == x,
            x == 0 || x == n || mask@[x - 1] != 255 || mask@[x as int] != 255,
            forall|p: int| 0 <= p < x && mask@[p] != 255 ==> #[trigger] out@[p] == row@[p],
            forall|s: int, e: int|
                #[trigger] is_run(mask@, s, e) && e <= x ==> is_stable_luma_sort(
                    out@.subrange(s, e),
                    row@.subrange(s, e),
                ),
        decreases n - x,
    {
        if mask[x] != 255 {
            let ghost old_out = out@;
            out.push(row[x]);
            x += 1;
            assert forall|s: int, e: int| #[trigger]
                is_run(mask@, s, e) && e <= x implies is_stable_luma_sort(
                out@.subrange(s, e),
                row@.subrange(s, e),
            ) by {
                if e == x {
                    assert(mask@[e - 1] == 255);
                }
                assert(out@.subrange(s, e) == old_out.subrange(s, e));
            }
        } else {
            let start = x;
            let ghost old_out = out@;
            let mut run: Vec<Pixel> = Vec::new();
            while x < n && mask[x] == 255
                invariant
                    n == row.len(),
                    n == mask.len(),
                    start <= x <= n,
                    run@ == row@.subrange(start as int, x as int),
                    forall|k: int| start <= k < x ==> #[trigger] mask@[k] == 255,
                decreases n - x,
            {
                run.push(row[x]);
                x += 1;
            }
            let sorted = sort_run(&run);
            let mut k: usize = 0;
            while k < sorted.len()
                invariant
                    k <= sorted.len(),
                    out@ == old_out + sorted@.subrange(0, k as int),
                decreases sorted.len() - k,
            {
                out.push(sorted[k]);
                k += 1;
            }
            proof {
                assert(sorted@.subrange(0, k as int) == sorted@);
                assert(out@.subrange(0, start as int) == old_out);
                assert(out@.subrange(start as int, x as int) == sorted@);
                assert forall|s: int, e: int| #[trigger]
                    is_run(mask@, s, e) && e <= x implies is_stable_luma_sort(
                    out@.subrange(s, e),
                    row@.subrange(s, e),
                ) by {
                    if e <= start {
                        assert(out@.subrange(s, e) == old_out.subrange(s, e));
                    } else {
                        if s < start {
                            assert(mask@[start - 1] == 255);
                            assert(mask@[start as int] == 255);
                        }
                        if s > start {
                            assert(mask@[s - 1] == 255);
                        }
                        if e < x {
                            assert(mask@[e] == 255);
                        }
                        assert(s == start && e == x);
                    }
                }
            }
        }
    }
    out
}

/// Sorts each row of `img` as [`sort_row`] does, under the row of `mask` with the
/// same index. The inputs stay as they are; the result is a new image.
pub fn sort_image_using_mask(img: &Image, mask: &GrayImage) -> (out: Image)
    requires
        img.wf(),
        mask.wf(),
        mask.spec_width() == img.spec_width(),
        mask.spec_height() == img.spec_height(),
    ensures
        out.wf(),
        out.spec_width() == img.spec_width(),
        out.spec_height() == img.spec_height(),
        forall|y: int|
            0 <= y < img.spec_height() ==> row_sorted_by_mask(
                #[trigger] out@[y],
                img@[y],
                mask@[y],
            ),
        forall|y: int, x: int|
            0 <= y < img.spec_height() && 0 <= x < img.spec_width() && mask@[y][x] != 255
                ==> #[trigger] out@[y][x] == img@[y][x],
{
    let height = img.height();
    let width = img.width();
    let mut rows: Vec<Vec<Pixel>> = Vec::new();
    let mut y: usize = 0;
    while y < height
        invariant
            y <= height,
            height == img.spec_height(),
            width == img.spec_width(),
            img.wf(),
            mask.wf(),
            mask.spec_width() == img.spec_width(),
            mask.spec_height() == img.spec_height(),
            rows.len() == y,
            forall|k: int| 0 <= k < y ==> (#[trigger] grid_of(rows@)[k]).len() == width,
            forall|k: int|
                0 <= k < y ==> row_sorted_by_mask(
                    #[trigger] grid_of(rows@)[k],
                    img@[k],
                    mask@[k],
                ),
        decreases height - y,
    {
        let ghost old_rows = rows@;
        let sorted = sort_row(img.row(y), mask.row(y));
        proof {
            assert(img@[y as int].len() == width && mask@[y as int].len() == width);
        }
        rows.push(sorted);
        assert(grid_of(rows@) == grid_of(old_rows).push(sorted@));
        y += 1;
    }
    let out = Image::from_wf_rows(width, rows);
    assert forall|y: int, x: int|
        0 <= y < img.spec_height() && 0 <= x < img.spec_width() && mask@[y][x] != 255 implies
        #[trigger] out@[y][x] == img@[y][x] by {
        assert(row_sorted_by_mask(out@[y], img@[y], mask@[y]));
    }
    out
}

/// Sorting neither invents nor drops a pixel: over any run that the mask selects,
/// the output holds the pixels of the input, each as often.
pub proof fn lemma_run_is_permutation(
    out: Seq<Pixel>,
    row: Seq<Pixel>,
    mask: Seq<u8>,
    s: int,
    e: int,
)
    requires
        row_sorted_by_mask(out, row, mask),
        is_run(mask, s, e),
    ensures
        out.subrange(s, e).to_multiset() == row.subrange(s, e).to_multiset(),
{
}

/// Over any run that the mask selects, output luminance never decreases from
/// left to right.
pub proof fn lemma_run_is_sorted(out: Seq<Pixel>, row: Seq<Pixel>, mask: Seq<u8>, s: int, e: int)
    requires
        row_sorted_by_mask(out, row, mask),
        is_run(mask, s, e),
    ensures
        forall|k: int, l: int|
            s <= k < l < e ==> pixel_luma(#[trigger] out[k]) <= pixel_luma(#[trigger] out[l]),
{
    let sorted = out.subrange(s, e);
    assert forall|k: int, l: int| s <= k < l < e implies pixel_luma(#[trigger] out[k])
        <= pixel_luma(#[trigger] out[l]) by {
        assert(sorted[k - s] == out[k] && sorted[l - s] == out[l]);
    }
}

/// Over any run that the mask selects, pixels of equal luminance leave in the
/// order they came: there is a matching of output places to input places, one
/// to one, under which two output pixels of equal luminance come from input
/// places in the same left-to-right order.
pub proof fn lemma_run_is_stable(out: Seq<Pixel>, row: Seq<Pixel>, mask: Seq<u8>, s: int, e: int)
    requires
        row_sorted_by_mask(out, row, mask),
        is_run(mask, s, e),
    ensures
        exists|perm: Seq<int>|
            {
                &&& #[trigger] is_index_permutation(perm, (e - s) as nat)
                &&& forall|k: int| 0 <= k < e - s ==> #[trigger] out[s + k] == row[s + perm[k]]
                &&& forall|k: int, l: int|
                    0 <= k < l < e - s && pixel_luma(out[s + k]) == pixel_luma(out[s + l])
                        ==> #[trigger] perm[k] < #[trigger] perm[l]
            },
{
    let o = out.subrange(s, e);
    let r = row.subrange(s, e);
    assert(is_stable_luma_sort(o, r));
    let perm = choose|perm: Seq<int>| stable_matching(o, r, perm);
    assert(is_index_permutation(perm, (e - s) as nat));
    assert forall|k: int| 0 <= k < e - s implies #[trigger] out[s + k] == row[s + perm[k]] by {
        assert(o[k] == r[perm[k]]);
    }
    assert forall|k: int, l: int|
        0 <= k < l < e - s && pixel_luma(out[s + k]) == pixel_luma(out[s + l]) implies
        #[trigger] perm[k] < #[trigger] perm[l] by {
        assert(o[k] == out[s + k] && o[l] == out[s + l]);
    }
}

} // verus!
