use orbrs::common::{adaptive_nonmax_suppression, match_indices, Matchable, OrbError};
use orbrs::fast::{FastKeypoint, Moment};
use orbrs::orb::{
    brief, create_sobel_image, match_brief, round_angle, sampling_pattern, sobel, Brief, ROTATION_SCALE,
};
use orbrs::raster::GrayscaleImage;

fn image_from(width: u32, height: u32, f: impl Fn(u32, u32) -> u8) -> GrayscaleImage {
    let mut pixels = Vec::new();
    for y in 0..height {
        for x in 0..width {
            pixels.push(f(x, y));
        }
    }
    GrayscaleImage::new(width, height, pixels).unwrap()
}

fn keypoint(x: i32, y: i32, score: i32, rotation: i32) -> FastKeypoint {
    FastKeypoint {
        location: (x, y),
        score,
        nms_dist: 0,
        moment: Moment { centroid: (x, y), moment: (x, y), m00: 0, m10: 0, m01: 0, rotation },
    }
}

fn bits(s: &str) -> Vec<bool> {
    s.chars().map(|c| c == '1').collect()
}

fn desc(s: &str) -> Brief {
    Brief::from_bits(0, 0, &bits(s))
}

fn rotation_table() -> Vec<(i32, i32)> {
    let mut t = vec![(0, ROTATION_SCALE); 30];
    t[0] = (ROTATION_SCALE, 0);
    t
}

fn descriptor_bits(b: &Brief) -> Vec<bool> {
    (0..b.len()).map(|i| b.bit(i)).collect()
}

#[test]
fn round_angle_to_nearest_step() {
    assert_eq!(round_angle(0, 12), 0);
    assert_eq!(round_angle(5, 12), 0);
    assert_eq!(round_angle(6, 12), 12);
    assert_eq!(round_angle(17, 12), 12);
    assert_eq!(round_angle(18, 12), 24);
    assert_eq!(round_angle(-5, 12), 0);
    assert_eq!(round_angle(-6, 12), 0);
    assert_eq!(round_angle(-7, 12), -12);
    assert_eq!(round_angle(359, 12), 360);
    assert_eq!(round_angle(-180, 12), -180);
}

#[test]
fn brief_bits_from_bits_round_trip() {
    let b = Brief::from_bits(4, -2, &bits("1011001"));
    assert_eq!((b.x, b.y), (4, -2));
    assert_eq!(b.len(), 7);
    assert_eq!(descriptor_bits(&b), bits("1011001"));
}

#[test]
fn hamming_is_symmetric_and_zero_on_itself() {
    let a = desc("1100110011");
    let b = desc("1010101010");
    assert_eq!(a.distance(&b), 5);
    assert_eq!(b.distance(&a), 5);
    assert_eq!(a.distance(&a), 0);
    assert_eq!(desc("").distance(&desc("")), 0);
    // unequal lengths compare the common prefix
    assert_eq!(desc("111").distance(&desc("000000")), 3);
}

#[test]
fn keypoint_distance_rounds_down() {
    assert_eq!(keypoint(0, 0, 0, 0).distance(&keypoint(3, 4, 0, 0)), 5);
    assert_eq!(keypoint(0, 0, 0, 0).distance(&keypoint(1, 1, 0, 0)), 1);
    assert_eq!(keypoint(2, 2, 0, 0).distance(&keypoint(2, 2, 0, 0)), 0);
    assert_eq!(keypoint(-5, 0, 0, 0).distance(&keypoint(5, 7, 0, 0)), 12);
}

#[test]
fn identity_rotation_gives_unsteered_bits() {
    let img = image_from(5, 5, |x, y| (x + 5 * y) as u8);
    let pattern = vec![((1, 0), (-1, 0)), ((0, -1), (0, 1)), ((3, 3), (-3, -3))];
    let d = brief(&img, &vec![keypoint(2, 2, 0, 0), keypoint(2, 2, 0, 4)], &pattern, &rotation_table());
    assert_eq!(descriptor_bits(&d[0]), vec![true, false, true]);
    // 4 degrees quantise to 0 as well
    assert_eq!(descriptor_bits(&d[1]), vec![true, false, true]);
}

#[test]
fn steered_bits_follow_the_quantised_angle() {
    let img = image_from(5, 5, |x, y| (x + 5 * y) as u8);
    let pattern = vec![((1, 0), (-1, 0)), ((0, -1), (0, 1)), ((3, 3), (-3, -3))];
    let mut table = rotation_table();
    table[8] = (0, ROTATION_SCALE);
    // 90 degrees lies halfway between 84 and 96 and rounds up to slot 8
    let d = brief(&img, &vec![keypoint(2, 2, 0, 90)], &pattern, &table);
    assert_eq!(descriptor_bits(&d[0]), vec![true, true, true]);
    // 450 degrees is the same orientation
    let e = brief(&img, &vec![keypoint(2, 2, 0, 450)], &pattern, &table);
    assert_eq!(descriptor_bits(&e[0]), vec![true, true, true]);
}

#[test]
fn descriptor_length_is_fixed_even_at_the_border() {
    let img = image_from(6, 4, |x, y| (x * 40 + y) as u8);
    let pattern: Vec<_> = (0..40).map(|i| ((i % 9 - 4, i % 7 - 3), (-(i % 5) * 3, i % 11 - 5))).collect();
    let kps = vec![keypoint(0, 0, 0, 0), keypoint(5, 3, 0, 33), keypoint(2, 1, 0, -170)];
    let d = brief(&img, &kps, &pattern, &rotation_table());
    assert_eq!(d.len(), 3);
    for (b, k) in d.iter().zip(&kps) {
        assert_eq!(b.len(), 40);
        assert_eq!((b.x, b.y), k.location);
    }
}

#[test]
fn matching_against_a_copy_pairs_each_with_itself() {
    let set: Vec<Brief> = ["1100", "0011", "1010", "0101", "1111"].iter().map(|s| desc(s)).collect();
    let copy: Vec<Brief> = ["1100", "0011", "1010", "0101", "1111"].iter().map(|s| desc(s)).collect();
    let m = match_indices(&set, &copy);
    assert_eq!(m, (0..5).map(|i| (i, i)).collect::<Vec<_>>());
}

#[test]
fn matching_five_by_five_uses_each_partner_once() {
    let a: Vec<Brief> = ["1111", "1110", "1100", "1000", "0000"].iter().map(|s| desc(s)).collect();
    let b: Vec<Brief> = ["1111", "1111", "0001", "0011", "0111"].iter().map(|s| desc(s)).collect();
    let m = match_brief(&a, &b).unwrap();
    assert_eq!(m.len(), 5);
    let mut second: Vec<usize> = m.iter().map(|p| p.1).collect();
    second.sort();
    second.dedup();
    assert_eq!(second.len(), 5);
    assert!(m.iter().enumerate().all(|(i, p)| p.0 == i));
}

#[test]
fn matching_is_greedy_in_order() {
    let a = vec![desc("1111"), desc("1110")];
    let b = vec![desc("1110"), desc("0000")];
    assert_eq!(match_indices(&a, &b), vec![(0, 0), (1, 1)]);
    // ties go to the first free partner
    let a = vec![desc("00")];
    let b = vec![desc("10"), desc("01")];
    assert_eq!(match_indices(&a, &b), vec![(0, 0)]);
    // only min(|a|, |b|) pairs
    let a = vec![desc("00"), desc("11"), desc("01")];
    let b = vec![desc("11")];
    assert_eq!(match_indices(&a, &b), vec![(0, 0)]);
    assert!(match_indices(&b, &Vec::new()).is_empty());
}

#[test]
fn matching_refuses_mixed_lengths() {
    let a = vec![desc("1010"), desc("1111")];
    let b = vec![desc("10101")];
    assert_eq!(match_brief(&a, &b), Err(OrbError::LengthMismatch));
    let c = vec![desc("1010"), desc("111")];
    assert_eq!(match_brief(&c, &a), Err(OrbError::LengthMismatch));
    assert_eq!(match_brief(&Vec::new(), &Vec::new()), Ok(vec![]));
}

#[test]
fn suppression_keeps_well_spread_keypoints() {
    let a = keypoint(0, 0, 100, 0);
    let b = keypoint(10, 0, 90, 0);
    let c = keypoint(1, 0, 80, 0);
    let d = keypoint(20, 0, 70, 0);
    let e = keypoint(5, 5, 60, 0);
    let mut v = vec![c, a, e, b, d];
    let kept = adaptive_nonmax_suppression(&mut v, 2).unwrap();
    assert_eq!(kept.iter().map(|k| k.location).collect::<Vec<_>>(), vec![(10, 0), (20, 0)]);
    assert_eq!(kept.iter().map(|k| k.nms_dist).collect::<Vec<_>>(), vec![10, 10]);
    // the input is left ranked by strength
    assert_eq!(v.iter().map(|k| k.score).collect::<Vec<_>>(), vec![100, 90, 80, 70, 60]);
    let all = adaptive_nonmax_suppression(&mut v, 3).unwrap();
    assert_eq!(all.iter().map(|k| (k.location, k.nms_dist)).collect::<Vec<_>>(), vec![((10, 0), 10), ((20, 0), 10), ((1, 0), 1)]);
    assert!(adaptive_nonmax_suppression(&mut v, 0).unwrap().is_empty());
}

#[test]
fn suppression_underflows_past_the_candidates() {
    let mut v = vec![keypoint(0, 0, 5, 0), keypoint(3, 0, 9, 0), keypoint(0, 4, 7, 0), keypoint(8, 8, 1, 0)];
    assert_eq!(adaptive_nonmax_suppression(&mut v, 3).unwrap_err(), OrbError::Underflow);
    // left as it was
    assert_eq!(v.iter().map(|k| k.score).collect::<Vec<_>>(), vec![5, 9, 7, 1]);
    assert_eq!(adaptive_nonmax_suppression(&mut v, 2).unwrap().len(), 2);
    let mut one = vec![keypoint(0, 0, 5, 0)];
    assert_eq!(adaptive_nonmax_suppression(&mut one, 0).unwrap_err(), OrbError::Underflow);
    let mut none = Vec::new();
    assert_eq!(adaptive_nonmax_suppression(&mut none, 0).unwrap_err(), OrbError::Underflow);
}

#[test]
fn sobel_responds_to_horizontal_edges() {
    let img = image_from(5, 5, |_, y| if y >= 2 { 100 } else { 0 });
    let ky = [[1, 2, 1], [0, 0, 0], [-1, -2, -1]];
    // |(0 + 0 + 0) - (100 + 200 + 100)| = 400, kept to its low eight bits
    assert_eq!(sobel(&img, &ky, 2, 1), (400 % 256) as u8);
    assert_eq!(sobel(&img, &ky, 2, 3), 0);
    let kx = [[-1, 0, 1], [-2, 0, 2], [-1, 0, 1]];
    assert_eq!(sobel(&img, &kx, 2, 2), 0);
    let g = create_sobel_image(&img);
    assert_eq!((g.width(), g.height()), (5, 5));
    assert_eq!(g.get_pixel(2, 1), 144);
    assert_eq!(g.get_pixel(1, 2), 144);
    assert_eq!(g.get_pixel(2, 3), 0);
    assert_eq!(g.get_pixel(0, 1), 0);
    assert_eq!(g.get_pixel(4, 2), 0);
}

#[test]
fn sampling_pattern_is_reproducible_and_bounded() {
    let p = sampling_pattern(256, 15, 42);
    assert_eq!(p.len(), 256);
    assert_eq!(p, sampling_pattern(256, 15, 42));
    assert_ne!(p, sampling_pattern(256, 15, 43));
    for &((a, b), (c, d)) in &p {
        for v in [a, b, c, d] {
            assert!((-15..=15).contains(&v));
        }
    }
    // the coordinates spread over the whole square
    assert!(p.iter().any(|q| q.0 .0 == 15) && p.iter().any(|q| q.0 .0 == -15));
    assert!(sampling_pattern(0, 15, 42).is_empty());
    assert!(sampling_pattern(8, 0, 7).iter().all(|&q| q == ((0, 0), (0, 0))));
    // first pair: four steps of the generator from the seed
    let mut s: u64 = 42;
    let mut draw = || {
        s = s.wrapping_mul(6364136223846793005).wrapping_add(1442695040888963407);
        ((s >> 33) % 31) as i32 - 15
    };
    let first = ((draw(), draw()), (draw(), draw()));
    assert_eq!(p[0], first);
}
