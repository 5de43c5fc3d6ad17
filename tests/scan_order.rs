use raytracer::raster::ImageSize;

#[test]
fn pixel_count_of_wide_image() {
    let size = ImageSize { width: 1200, height: 675 };
    assert_eq!(size.pixel_count(), 810000);
}

#[test]
fn pixel_count_of_largest_image() {
    let size = ImageSize { width: u32::MAX, height: u32::MAX };
    assert_eq!(size.pixel_count(), (u32::MAX as u64) * (u32::MAX as u64));
    assert_eq!(size.pixel_at(size.pixel_count() - 1), (u32::MAX - 1, 0));
    assert_eq!(size.pixel_at(0), (0, u32::MAX - 1));
}

#[test]
fn pixel_count_of_empty_image() {
    assert_eq!(ImageSize { width: 0, height: 7 }.pixel_count(), 0);
    assert_eq!(ImageSize { width: 7, height: 0 }.pixel_count(), 0);
}

#[test]
fn first_pixel_is_top_left() {
    let size = ImageSize { width: 1200, height: 675 };
    assert_eq!(size.pixel_at(0), (0, 674));
    assert_eq!(size.pixel_at(1199), (1199, 674));
}

#[test]
fn second_row_follows_first() {
    let size = ImageSize { width: 1200, height: 675 };
    assert_eq!(size.pixel_at(1200), (0, 673));
    assert_eq!(size.pixel_at(1201), (1, 673));
}

#[test]
fn last_pixel_is_bottom_right() {
    let size = ImageSize { width: 1200, height: 675 };
    assert_eq!(size.pixel_at(809999), (1199, 0));
}

#[test]
fn single_pixel_image() {
    let size = ImageSize { width: 1, height: 1 };
    assert_eq!(size.pixel_count(), 1);
    assert_eq!(size.pixel_at(0), (0, 0));
}

#[test]
fn each_pixel_once_in_scan_order() {
    let size = ImageSize { width: 4, height: 3 };
    let n = size.pixel_count();
    let mut seen = vec![vec![false; 3]; 4];
    let mut previous: Option<(u32, u32)> = None;
    for k in 0..n {
        let (i, j) = size.pixel_at(k);
        assert!(i < 4 && j < 3);
        assert!(!seen[i as usize][j as usize]);
        seen[i as usize][j as usize] = true;
        assert_eq!(((2 - j) * 4 + i) as u64, k);
        if let Some((pi, pj)) = previous {
            assert!(pj > j || (pj == j && pi < i));
        }
        previous = Some((i, j));
    }
    assert!(seen.iter().all(|col| col.iter().all(|&b| b)));
}
