use pathtracer::raster::{ConfigError, Settings};

fn settings(width: u32, height: u32) -> Settings {
    Settings::new(width, height, 1, 50).unwrap()
}

#[test]
fn settings_keep_what_they_are_given() {
    let s = Settings::new(1800, 1200, 500, 50).unwrap();
    assert_eq!(s.width(), 1800);
    assert_eq!(s.height(), 1200);
    assert_eq!(s.samples_per_pixel(), 500);
    assert_eq!(s.max_depth(), 50);
    assert_eq!(s.pixel_count(), 2_160_000);
}

#[test]
fn zero_width_is_refused() {
    assert_eq!(Settings::new(0, 10, 1, 50).err(), Some(ConfigError::ZeroWidth));
}

#[test]
fn zero_height_is_refused() {
    assert_eq!(Settings::new(20, 0, 1, 50).err(), Some(ConfigError::ZeroHeight));
}

#[test]
fn zero_samples_are_refused() {
    assert_eq!(Settings::new(20, 10, 0, 50).err(), Some(ConfigError::ZeroSamples));
}

#[test]
fn width_is_reported_before_height_and_samples() {
    assert_eq!(Settings::new(0, 0, 0, 0).err(), Some(ConfigError::ZeroWidth));
    assert_eq!(Settings::new(5, 0, 0, 0).err(), Some(ConfigError::ZeroHeight));
}

#[test]
fn depth_zero_is_accepted() {
    assert_eq!(Settings::new(20, 10, 1, 0).map(|s| s.max_depth()).ok(), Some(0));
}

#[test]
fn largest_image_is_counted_without_overflow() {
    let s = settings(u32::MAX, u32::MAX);
    assert_eq!(s.pixel_count(), 18_446_744_065_119_617_025);
    assert_eq!(s.pixel_at(0), Some((0, u32::MAX - 1)));
    assert_eq!(s.pixel_at(s.pixel_count() - 1), Some((u32::MAX - 1, 0)));
    assert_eq!(s.pixel_at(s.pixel_count()), None);
    assert_eq!(s.place_of(u32::MAX - 1, 0), Some(s.pixel_count() - 1));
}

#[test]
fn first_pixel_is_top_left() {
    let s = settings(20, 10);
    assert_eq!(s.pixel_at(0), Some((0, 9)));
}

#[test]
fn last_pixel_is_bottom_right() {
    let s = settings(20, 10);
    assert_eq!(s.pixel_at(199), Some((19, 0)));
    assert_eq!(s.pixel_at(200), None);
    assert_eq!(s.pixel_at(u64::MAX), None);
}

#[test]
fn rows_run_left_to_right_and_top_down() {
    let s = settings(3, 2);
    let order: Vec<(u32, u32)> = (0..6).map(|k| s.pixel_at(k).unwrap()).collect();
    assert_eq!(order, vec![(0, 1), (1, 1), (2, 1), (0, 0), (1, 0), (2, 0)]);
}

#[test]
fn place_of_a_pixel() {
    let s = settings(20, 10);
    assert_eq!(s.place_of(0, 9), Some(0));
    assert_eq!(s.place_of(19, 9), Some(19));
    assert_eq!(s.place_of(0, 8), Some(20));
    assert_eq!(s.place_of(19, 0), Some(199));
}

#[test]
fn pixels_outside_the_image_have_no_place() {
    let s = settings(20, 10);
    assert_eq!(s.place_of(20, 0), None);
    assert_eq!(s.place_of(0, 10), None);
    assert_eq!(s.place_of(u32::MAX, u32::MAX), None);
}

#[test]
fn place_and_pixel_are_inverse() {
    let s = settings(7, 5);
    for k in 0..35 {
        let (col, row) = s.pixel_at(k).unwrap();
        assert_eq!(s.place_of(col, row), Some(k));
    }
    for col in 0..7 {
        for row in 0..5 {
            let k = s.place_of(col, row).unwrap();
            assert_eq!(s.pixel_at(k), Some((col, row)));
        }
    }
}

#[test]
fn single_pixel_image() {
    let s = settings(1, 1);
    assert_eq!(s.pixel_count(), 1);
    assert_eq!(s.pixel_at(0), Some((0, 0)));
    assert_eq!(s.place_of(0, 0), Some(0));
}
