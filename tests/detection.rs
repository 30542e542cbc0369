use orbrs::common::OrbError;
use orbrs::fast::{fast, moment_centroid, FastType};
use orbrs::raster::GrayscaleImage;

fn image_from(width: u32, height: u32, f: impl Fn(u32, u32) -> u8) -> GrayscaleImage {
    let mut pixels = Vec::new();
    for y in 0..height {
        for x in 0..width {
            pixels.push(f(x, y));
        }
    }
    GrayscaleImage::new(width, height, pixels).unwrap()
}

fn bright_block() -> GrayscaleImage {
    image_from(20, 20, |x, y| {
        if (9..=11).contains(&x) && (9..=11).contains(&y) {
            250
        } else {
            10
        }
    })
}

#[test]
fn image_new_checks_pixel_count() {
    assert!(GrayscaleImage::new(3, 2, vec![0; 6]).is_some());
    assert!(GrayscaleImage::new(3, 2, vec![0; 5]).is_none());
    assert!(GrayscaleImage::new(0, 0, vec![]).is_some());
}

#[test]
fn image_get_pixel_is_row_major() {
    let img = image_from(4, 3, |x, y| (x + 10 * y) as u8);
    assert_eq!(img.get_pixel(3, 0), 3);
    assert_eq!(img.get_pixel(1, 2), 21);
    assert_eq!(img.width(), 4);
    assert_eq!(img.height(), 3);
}

#[test]
fn context_tables() {
    let c16 = FastType::TYPE_9_16.get_context();
    assert_eq!(c16.offsets.len(), 16);
    assert_eq!(c16.idx[..4], [0, 8, 4, 12]);
    assert_eq!(c16.radius, 3);
    assert_eq!(c16.n, 12);
    let c12 = FastType::TYPE_7_12.get_context();
    assert_eq!(c12.offsets.len(), 12);
    assert_eq!(c12.idx[..4], [0, 6, 3, 9]);
    assert_eq!(c12.radius, 2);
    assert_eq!(c12.n, 9);
    for ctx in [&c16, &c12] {
        let r = ctx.radius as i32;
        assert!(ctx.offsets.iter().all(|&(dx, dy)| dx.abs() <= r && dy.abs() <= r));
        assert!(ctx.offsets.iter().any(|&(dx, dy)| dx.abs() == r || dy.abs() == r));
        let mut sorted = ctx.idx.clone();
        sorted.sort();
        assert_eq!(sorted, (0..ctx.offsets.len()).collect::<Vec<_>>());
    }
}

#[test]
fn bright_block_is_found_at_its_centre() {
    let img = bright_block();
    let kps = fast(&img, Some(FastType::TYPE_9_16), Some(30)).unwrap();
    let centre = kps.iter().find(|k| k.location == (10, 10)).expect("centre reported");
    assert_eq!(centre.score, 16 * 240);
    assert!(kps.iter().all(|k| k.score <= centre.score));
    // every pixel of the block passes the full-circle test, the background none
    assert_eq!(kps.len(), 9);
    assert!(kps.iter().all(|k| (9..=11).contains(&k.location.0) && (9..=11).contains(&k.location.1)));
    let corner = kps.iter().find(|k| k.location == (9, 9)).unwrap();
    assert_eq!(corner.score, 15 * 240);
    // row-major order
    let locs: Vec<_> = kps.iter().map(|k| (k.location.1, k.location.0)).collect();
    let mut sorted = locs.clone();
    sorted.sort();
    assert_eq!(locs, sorted);
}

#[test]
fn detected_keypoints_stay_inside_the_margin() {
    let img = image_from(24, 17, |x, y| ((x * 37 + y * 91 + x * y * 13) % 256) as u8);
    for ft in [FastType::TYPE_9_16, FastType::TYPE_7_12] {
        let r = ft.get_context().radius as i32;
        let kps = fast(&img, Some(ft), Some(20)).unwrap();
        assert!(!kps.is_empty());
        for k in &kps {
            assert!(r <= k.location.0 && k.location.0 < 24 - r);
            assert!(r <= k.location.1 && k.location.1 < 17 - r);
        }
    }
}

#[test]
fn uniform_image_has_no_corners() {
    let img = image_from(12, 12, |_, _| 77);
    assert!(fast(&img, None, None).unwrap().is_empty());
}

#[test]
fn too_small_image_is_a_size_error() {
    let img = image_from(5, 40, |_, _| 0);
    assert_eq!(fast(&img, Some(FastType::TYPE_9_16), None).unwrap_err(), OrbError::SizeError);
    assert!(fast(&img, Some(FastType::TYPE_7_12), None).is_ok());
    let img = image_from(6, 6, |_, _| 0);
    assert!(fast(&img, None, None).unwrap().is_empty());
}

#[test]
fn moment_of_uniform_patch_is_its_centre() {
    let img = image_from(20, 20, |_, _| 9);
    let m = moment_centroid(&img, &(10, 10), None);
    assert_eq!(m.moment, (10, 10));
    assert_eq!(m.centroid, (10, 10));
    assert_eq!(m.m00, 9 * 121);
    assert_eq!(m.m10, 9 * 121 * 10);
    assert_eq!(m.rotation, 0);
}

#[test]
fn moment_leans_towards_bright_side() {
    let img = image_from(20, 20, |x, _| if x >= 12 { 200 } else { 0 });
    let m = moment_centroid(&img, &(10, 10), Some(3));
    // columns 12 and 13 carry all the intensity: centroid x = 12.5 rounds up
    assert_eq!(m.moment, (13, 10));
    assert_eq!(m.m00, 200 * 2 * 7);
}

#[test]
fn moment_falls_back_at_the_border() {
    let img = image_from(20, 20, |x, y| (x + y) as u8);
    let m = moment_centroid(&img, &(3, 10), None);
    assert_eq!(m.moment, (3, 10));
    assert_eq!((m.m00, m.m10, m.m01, m.rotation), (0, 0, 0, 0));
    let m = moment_centroid(&img, &(15, 10), None);
    assert_eq!(m.moment, (15, 10));
    let m = moment_centroid(&img, &(14, 14), None);
    assert_ne!(m.m00, 0);
    let black = image_from(20, 20, |_, _| 0);
    let m = moment_centroid(&black, &(10, 10), None);
    assert_eq!(m.moment, (10, 10));
    assert_eq!(m.m00, 0);
}
