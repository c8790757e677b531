use pixel_sort::{
    band_index, convert_to_luminance, create_luminance_mask, generate_perlin_image, luminance,
    random_palette, render_bands, sort_image_using_mask, sort_row, sort_run, Color, GrayImage,
    Image, Pixel,
};

fn gray_px(v: u8) -> Pixel {
    Pixel::new(v, v, v, 255)
}

fn lumas(row: &[Pixel]) -> Vec<u8> {
    row.iter().map(|p| luminance(*p)).collect()
}

fn single_row_image(row: Vec<Pixel>) -> Image {
    let width = row.len();
    Image::from_rows(width, vec![row]).unwrap()
}

fn single_row_mask(row: Vec<u8>) -> GrayImage {
    let width = row.len();
    GrayImage::from_rows(width, vec![row]).unwrap()
}

#[test]
fn luminance_uses_weighted_channels_and_truncates() {
    assert_eq!(luminance(Pixel::new(255, 255, 255, 255)), 255);
    assert_eq!(luminance(Pixel::new(0, 0, 0, 255)), 0);
    assert_eq!(luminance(Pixel::new(100, 0, 0, 255)), 29);
    assert_eq!(luminance(Pixel::new(0, 100, 0, 255)), 58);
    assert_eq!(luminance(Pixel::new(0, 0, 100, 255)), 11);
    assert_eq!(luminance(Pixel::new(10, 20, 30, 0)), 18);
}

#[test]
fn luminance_ignores_alpha() {
    assert_eq!(
        luminance(Pixel::new(40, 80, 120, 0)),
        luminance(Pixel::new(40, 80, 120, 255))
    );
}

#[test]
fn two_runs_sorted_independently() {
    let img = single_row_image(vec![gray_px(200), gray_px(50), gray_px(10), gray_px(90), gray_px(30)]);
    let mask = single_row_mask(vec![255, 255, 0, 255, 255]);
    let out = sort_image_using_mask(&img, &mask);
    assert_eq!(lumas(out.row(0)), vec![50, 200, 10, 30, 90]);
}

#[test]
fn zero_mask_leaves_image_unchanged() {
    let rows = vec![
        vec![gray_px(9), Pixel::new(1, 2, 3, 4), gray_px(3)],
        vec![gray_px(200), gray_px(0), Pixel::new(250, 10, 40, 255)],
    ];
    let img = Image::from_rows(3, rows.clone()).unwrap();
    let mask = GrayImage::from_rows(3, vec![vec![0; 3], vec![0; 3]]).unwrap();
    let out = sort_image_using_mask(&img, &mask);
    assert_eq!(out.height(), 2);
    assert_eq!(out.width(), 3);
    assert_eq!(out.row(0), &rows[0]);
    assert_eq!(out.row(1), &rows[1]);
}

#[test]
fn full_mask_sorts_whole_row() {
    let img = single_row_image(vec![gray_px(70), gray_px(5), gray_px(255), gray_px(5), gray_px(30)]);
    let mask = single_row_mask(vec![255; 5]);
    let out = sort_image_using_mask(&img, &mask);
    assert_eq!(lumas(out.row(0)), vec![5, 5, 30, 70, 255]);
}

#[test]
fn equal_luminance_keeps_order() {
    let red = Pixel::new(100, 0, 0, 255);
    let green = Pixel::new(0, 50, 0, 255);
    assert_eq!(luminance(red), luminance(green));
    let bright = gray_px(200);
    let out = sort_run(&vec![bright, red, green]);
    assert_eq!(out, vec![red, green, bright]);
    let out = sort_run(&vec![green, bright, red]);
    assert_eq!(out, vec![green, red, bright]);
}

#[test]
fn sort_run_keeps_every_pixel() {
    let run = vec![gray_px(3), Pixel::new(9, 200, 1, 7), gray_px(3), gray_px(0)];
    let mut out = sort_run(&run);
    let mut expected = run.clone();
    let key = |p: &Pixel| (p.r, p.g, p.b, p.a);
    out.sort_by_key(key);
    expected.sort_by_key(key);
    assert_eq!(out, expected);
}

#[test]
fn sort_run_of_nothing_is_empty() {
    assert_eq!(sort_run(&Vec::new()), Vec::<Pixel>::new());
}

#[test]
fn sort_row_leaves_unmasked_pixels() {
    let row = vec![gray_px(90), gray_px(80), gray_px(70), gray_px(60), gray_px(50), gray_px(40)];
    let out = sort_row(&row, &vec![0, 255, 255, 0, 255, 0]);
    assert_eq!(lumas(&out), vec![90, 70, 80, 60, 50, 40]);
}

#[test]
fn sort_row_non_255_values_do_not_sort() {
    let row = vec![gray_px(90), gray_px(80), gray_px(70)];
    let out = sort_row(&row, &vec![254, 1, 128]);
    assert_eq!(out, row);
}

#[test]
fn rows_are_sorted_independently() {
    let img = Image::from_rows(
        3,
        vec![
            vec![gray_px(3), gray_px(2), gray_px(1)],
            vec![gray_px(6), gray_px(5), gray_px(4)],
        ],
    )
    .unwrap();
    let mask = GrayImage::from_rows(3, vec![vec![255, 255, 255], vec![0, 255, 255]]).unwrap();
    let out = sort_image_using_mask(&img, &mask);
    assert_eq!(lumas(out.row(0)), vec![1, 2, 3]);
    assert_eq!(lumas(out.row(1)), vec![6, 4, 5]);
}

#[test]
fn mask_selects_inclusive_range() {
    let gray = GrayImage::from_rows(6, vec![vec![0, 49, 50, 150, 151, 255]]).unwrap();
    let mask = create_luminance_mask(&gray, 50, 150);
    assert_eq!(mask.row(0), &vec![0, 0, 255, 255, 0, 0]);
}

#[test]
fn mask_with_equal_bounds_selects_one_value() {
    let gray = GrayImage::from_rows(4, vec![vec![7, 8, 9, 8]]).unwrap();
    let mask = create_luminance_mask(&gray, 8, 8);
    assert_eq!(mask.row(0), &vec![0, 255, 0, 255]);
}

#[test]
fn mask_built_twice_is_identical() {
    let gray = GrayImage::from_rows(3, vec![vec![0, 120, 250], vec![221, 220, 1]]).unwrap();
    let first = create_luminance_mask(&gray, 0, 220);
    let second = create_luminance_mask(&gray, 0, 220);
    assert_eq!(first.height(), second.height());
    assert_eq!(first.row(0), second.row(0));
    assert_eq!(first.row(1), second.row(1));
    assert_eq!(first.row(1), &vec![0, 255, 255]);
}

#[test]
fn luminance_image_matches_pixels() {
    let img = Image::from_rows(
        2,
        vec![
            vec![Pixel::new(255, 255, 255, 255), Pixel::new(100, 0, 0, 255)],
            vec![Pixel::new(0, 100, 0, 0), Pixel::new(10, 20, 30, 255)],
        ],
    )
    .unwrap();
    let gray = convert_to_luminance(&img);
    assert_eq!(gray.width(), 2);
    assert_eq!(gray.height(), 2);
    assert_eq!(gray.row(0), &vec![255, 29]);
    assert_eq!(gray.row(1), &vec![58, 18]);
    assert_eq!(gray.get_pixel(1, 1), 18);
}

#[test]
fn empty_image_stays_empty() {
    let img = Image::from_rows(4, Vec::new()).unwrap();
    let gray = convert_to_luminance(&img);
    let mask = create_luminance_mask(&gray, 0, 255);
    let out = sort_image_using_mask(&img, &mask);
    assert_eq!(out.height(), 0);
    assert_eq!(out.width(), 4);
}

#[test]
fn ragged_rows_are_refused() {
    assert!(Image::from_rows(2, vec![vec![gray_px(1), gray_px(2)], vec![gray_px(3)]]).is_none());
    assert!(GrayImage::from_rows(1, vec![vec![1], vec![]]).is_none());
    assert!(GrayImage::from_rows(1, vec![vec![1], vec![2]]).is_some());
}

#[test]
fn band_is_first_threshold_above_value() {
    let thresholds = vec![0, 10, 20];
    assert_eq!(band_index(-5, &thresholds), 0);
    assert_eq!(band_index(0, &thresholds), 1);
    assert_eq!(band_index(9, &thresholds), 1);
    assert_eq!(band_index(10, &thresholds), 2);
    assert_eq!(band_index(25, &thresholds), 2);
    assert_eq!(band_index(i64::MAX, &thresholds), 2);
    assert_eq!(band_index(i64::MIN, &vec![i64::MIN]), 0);
}

#[test]
fn bands_follow_value_order() {
    let thresholds = vec![-100, -3, 0, 4, 50];
    let values = [-1000, -100, -99, -3, -1, 0, 3, 4, 49, 50, 1000];
    for pair in values.windows(2) {
        assert!(band_index(pair[0], &thresholds) <= band_index(pair[1], &thresholds));
    }
}

#[test]
fn palette_starts_with_background() {
    let background = Color::new(1, 2, 3);
    let palette = random_palette(5, background);
    assert_eq!(palette.len(), 5);
    assert_eq!(palette[0], background);
    assert_eq!(random_palette(1, background), vec![background]);
}

#[test]
fn render_paints_band_colors() {
    let palette = vec![Color::new(0, 0, 0), Color::new(10, 20, 30), Color::new(200, 100, 50)];
    let noise = vec![vec![-5, 5], vec![15, 0]];
    let img = render_bands(2, &noise, &vec![0, 10, 20], &palette);
    assert_eq!(img.height(), 2);
    assert_eq!(img.row(0), &vec![Pixel::new(0, 0, 0, 255), Pixel::new(10, 20, 30, 255)]);
    assert_eq!(img.row(1), &vec![Pixel::new(200, 100, 50, 255), Pixel::new(10, 20, 30, 255)]);
}

#[test]
fn generated_image_shares_band_colors() {
    let background = Color::new(7, 8, 9);
    let noise = vec![vec![-1, 15, 5], vec![16, -2, 6]];
    let img = generate_perlin_image(3, &noise, &vec![0, 10, 20], background);
    let bg = Pixel::new(7, 8, 9, 255);
    assert_eq!(img.get_pixel(0, 0), bg);
    assert_eq!(img.get_pixel(1, 1), bg);
    assert_eq!(img.get_pixel(1, 0), img.get_pixel(0, 1));
    assert_eq!(img.get_pixel(2, 0), img.get_pixel(2, 1));
    for y in 0..2 {
        for x in 0..3 {
            assert_eq!(img.get_pixel(x, y).a, 255);
        }
    }
}

#[test]
fn whole_pipeline_preserves_unmasked_pixels() {
    let img = Image::from_rows(
        4,
        vec![vec![gray_px(240), gray_px(100), gray_px(20), gray_px(230)]],
    )
    .unwrap();
    let gray = convert_to_luminance(&img);
    let mask = create_luminance_mask(&gray, 0, 220);
    assert_eq!(mask.row(0), &vec![0, 255, 255, 0]);
    let out = sort_image_using_mask(&img, &mask);
    assert_eq!(lumas(out.row(0)), vec![240, 20, 100, 230]);
}
