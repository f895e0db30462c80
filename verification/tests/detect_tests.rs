use monotabe::detect::{
    collapse_lines, count_bars_in_stave, detect_page, detect_tab_rows, detect_tab_rows_debug,
    detect_tab_systems, median_of, row_is_string_line, sorted_ascending, GrayImage, PageFraction,
    Stave, TabSystem,
};

const W: u32 = 200;
const H: u32 = 120;

/// A white page with one six-line tab stave (rows 60, 66, ..., 90, columns
/// 10 to 190) crossed by barlines at columns 10, 100 and 190.
fn tab_page() -> GrayImage {
    let mut px = vec![255u8; (W * H) as usize];
    for k in 0..6 {
        let y = 60 + 6 * k;
        for x in 10..=190 {
            px[(y * W + x) as usize] = 0;
        }
    }
    for &x in &[10u32, 100, 190] {
        for y in 60..=90 {
            px[(y * W + x) as usize] = 0;
        }
    }
    GrayImage::from_raw(W, H, px).unwrap()
}

fn png_of(img: &GrayImage) -> Vec<u8> {
    let buf = image::GrayImage::from_raw(img.width, img.height, img.pixels.clone()).unwrap();
    let mut out = std::io::Cursor::new(Vec::new());
    buf.write_to(&mut out, image::ImageFormat::Png).unwrap();
    out.into_inner()
}

fn expected_system() -> TabSystem {
    TabSystem {
        scroll_anchor: PageFraction { num: 12540, den: 600 * H as u64 },
        string_center: PageFraction { num: 302, den: 4 * H as u64 },
        bar_count: 2,
    }
}

#[test]
fn from_raw_checks_the_buffer_length() {
    assert!(GrayImage::from_raw(3, 2, vec![0; 6]).is_some());
    assert!(GrayImage::from_raw(3, 2, vec![0; 7]).is_some());
    assert!(GrayImage::from_raw(3, 2, vec![0; 5]).is_none());
}

#[test]
fn string_line_rows_need_coverage_and_small_gaps() {
    let img = tab_page();
    // A string line: fully dark over the middle 80%.
    assert!(row_is_string_line(&img, 60, 20, 180, 110, 160));
    // A row between lines: only the barline at column 100 is dark.
    assert!(!row_is_string_line(&img, 61, 20, 180, 110, 160));
    // A blank row.
    assert!(!row_is_string_line(&img, 5, 20, 180, 110, 160));
    // An empty column range never qualifies.
    assert!(!row_is_string_line(&img, 60, 20, 20, 110, 0));
}

#[test]
fn a_row_with_a_wide_gap_is_not_a_line() {
    // 100 columns, dark everywhere but a 26-sample gap in the middle.
    let mut px = vec![0u8; 100];
    for x in 40..66 {
        px[x] = 255;
    }
    let img = GrayImage::from_raw(100, 1, px.clone()).unwrap();
    assert!(!row_is_string_line(&img, 0, 0, 100, 110, 100));
    // A 25-sample gap is tolerated.
    px[65] = 0;
    let img = GrayImage::from_raw(100, 1, px).unwrap();
    assert!(row_is_string_line(&img, 0, 0, 100, 110, 100));
}

#[test]
fn coverage_threshold_is_thirty_percent() {
    // 30 dark samples of 100 in one block: exactly 30%.
    let mut px = vec![255u8; 100];
    for x in 0..30 {
        px[x] = 0;
    }
    let img = GrayImage::from_raw(100, 1, px.clone()).unwrap();
    assert!(row_is_string_line(&img, 0, 0, 100, 110, 100));
    px[29] = 255;
    let img = GrayImage::from_raw(100, 1, px).unwrap();
    assert!(!row_is_string_line(&img, 0, 0, 100, 110, 100));
}

#[test]
fn runs_of_rows_collapse_to_their_centers() {
    let rows = vec![false, true, true, false, true, false, false, true];
    // Runs [1,3), [4,5), [7,8): doubled centers 4, 9, 15.
    assert_eq!(collapse_lines(&rows), vec![4, 9, 15]);
    assert_eq!(collapse_lines(&vec![false, false]), Vec::<u64>::new());
    assert_eq!(collapse_lines(&vec![true, true, true]), vec![3]);
}

#[test]
fn median_takes_the_upper_middle() {
    assert_eq!(median_of(&vec![5, 1, 3]), 3);
    assert_eq!(median_of(&vec![4, 1, 3, 2]), 3);
    assert_eq!(median_of(&vec![7]), 7);
    assert_eq!(sorted_ascending(&vec![3, 1, 2, 1]), vec![1, 1, 2, 3]);
}

#[test]
fn bars_are_counted_between_barlines() {
    let img = tab_page();
    let stave = Stave { line_count: 6, top: 121, bottom: 181 };
    assert_eq!(count_bars_in_stave(&img, &stave), 2);
}

#[test]
fn a_single_tab_stave_is_detected() {
    let img = tab_page();
    let (systems, lines) = detect_page(&img, true).unwrap();
    assert_eq!(systems, vec![expected_system()]);
    let centers: Vec<u64> = lines.iter().map(|f| f.num).collect();
    assert_eq!(centers, vec![121, 133, 145, 157, 169, 181]);
    assert!(lines.iter().all(|f| f.den == 2 * H as u64));
    let (_, no_lines) = detect_page(&img, false).unwrap();
    assert!(no_lines.is_empty());
}

#[test]
fn an_empty_image_has_no_detection() {
    let img = GrayImage::from_raw(0, 10, vec![]).unwrap();
    assert!(detect_page(&img, true).is_none());
}

#[test]
fn fewer_than_four_lines_give_no_system() {
    let mut px = vec![255u8; (W * H) as usize];
    for k in 0..3 {
        let y = 60 + 6 * k;
        for x in 0..W {
            px[(y * W + x) as usize] = 0;
        }
    }
    let img = GrayImage::from_raw(W, H, px).unwrap();
    let (systems, lines) = detect_page(&img, true).unwrap();
    assert!(systems.is_empty());
    assert_eq!(lines.len(), 3);
}

#[test]
fn detection_runs_on_png_bytes() {
    let png = png_of(&tab_page());
    assert_eq!(detect_tab_systems(&png), vec![expected_system()]);
    assert_eq!(detect_tab_rows(&png), vec![expected_system().scroll_anchor]);
    let (anchors, lines) = detect_tab_rows_debug(&png);
    assert_eq!(anchors, vec![expected_system().scroll_anchor]);
    assert_eq!(anchors, detect_tab_rows(&png));
    assert_eq!(lines.len(), 6);
    for l in &lines {
        assert!(0 < l.num && l.num < l.den && l.den == 2 * H as u64);
    }
    assert!(lines.windows(2).all(|p| p[0].num < p[1].num));
    assert_eq!(lines[0].num, 121);
}

#[test]
fn undecodable_bytes_give_nothing() {
    assert!(detect_tab_systems(b"not an image").is_empty());
    let (a, l) = detect_tab_rows_debug(b"");
    assert!(a.is_empty() && l.is_empty());
}

#[test]
fn systems_lie_on_the_page_with_center_below_anchor() {
    let img = tab_page();
    let (systems, _) = detect_page(&img, false).unwrap();
    for s in &systems {
        assert!(s.scroll_anchor.num < s.scroll_anchor.den);
        assert!(s.string_center.num < s.string_center.den);
        assert!(
            (s.scroll_anchor.num as u128) * (s.string_center.den as u128)
                < (s.string_center.num as u128) * (s.scroll_anchor.den as u128)
        );
        assert!(s.bar_count >= 1);
    }
}

#[test]
fn a_notation_stave_above_sets_the_anchor() {
    // Five notation lines at rows 20..36 (spacing 4) and six tab lines at
    // rows 52..82 (spacing 6), 16 px below: the tab stave's anchor sits two
    // tab spacings above the notation stave's top.
    let (w, h) = (200u32, 100u32);
    let mut px = vec![255u8; (w * h) as usize];
    for k in 0..5 {
        let y = 20 + 4 * k;
        for x in 0..w {
            px[(y * w + x) as usize] = 0;
        }
    }
    for k in 0..6 {
        let y = 52 + 6 * k;
        for x in 0..w {
            px[(y * w + x) as usize] = 0;
        }
    }
    let img = GrayImage::from_raw(w, h, px).unwrap();
    let (systems, lines) = detect_page(&img, true).unwrap();
    assert_eq!(lines.len(), 11);
    assert_eq!(systems.len(), 1);
    // Notation top at 20.5 px, tab spacing 6 px: anchor 8.5 px = 5100 units.
    assert_eq!(systems[0].scroll_anchor, PageFraction { num: 5100, den: 600 * h as u64 });
    assert_eq!(systems[0].string_center, PageFraction { num: 105 + 165, den: 4 * h as u64 });
}

#[test]
fn anchors_move_down_the_page() {
    // Three six-line tab staves (spacing 6 px) whose first lines are at rows
    // 5, 105 and 205: systems 100 px apart, so each anchor sits 55 px above
    // its stave; the first is held at the top of the page.
    let (w, h) = (200u32, 300u32);
    let mut px = vec![255u8; (w * h) as usize];
    for top in [5u32, 105, 205] {
        for k in 0..6 {
            let y = top + 6 * k;
            for x in 0..w {
                px[(y * w + x) as usize] = 0;
            }
        }
    }
    let img = GrayImage::from_raw(w, h, px).unwrap();
    let (systems, _) = detect_page(&img, false).unwrap();
    let anchors: Vec<u64> = systems.iter().map(|s| s.scroll_anchor.num).collect();
    assert_eq!(anchors, vec![0, 30300, 90300]);
    assert!(systems.iter().all(|s| s.scroll_anchor.den == 600 * h as u64));
    assert!(anchors.windows(2).all(|p| p[0] <= p[1]));
    assert!(systems.iter().all(|s| s.bar_count == 1));
}
