use vstd::prelude::*;

use bitvector::BitVector;

use crate::bitset::bits_of;
use crate::common::{
    is_best_partner, is_greedy_matching, match_indices, taken, IndexMatch, Matchable, OrbError, Point,
};
use crate::fast::FastKeypoint;
use crate::raster::GrayscaleImage;

verus! {

/// A binary descriptor of one keypoint: bit `i` compares the two sample
/// points of pair `i` of the sampling pattern.
#[derive(Debug)]
pub struct Brief {
    pub x: i32,
    pub y: i32,
    /// The set bits.
    pub b: BitVector,
    /// The number of bits.
    pub len: usize,
}

/// Number of differing positions among the first `k` of `a` and `b`.
pub open spec fn hamming_upto(a: Seq<bool>, b: Seq<bool>, k: int) -> nat
    decreases k,
{
    if k <= 0 {
        0
    } else {
        hamming_upto(a, b, k - 1) + if a[k - 1] != b[k - 1] {
            1nat
        } else {
            0nat
        }
    }
}

/// Hamming distance: the number of positions, up to the shorter length, at
/// which two bit sequences differ.
pub open spec fn hamming(a: Seq<bool>, b: Seq<bool>) -> nat {
    hamming_upto(a, b, if a.len() <= b.len() { a.len() as int } else { b.len() as int })
}

impl Brief {
    /// The descriptor's bits, in pattern order.
    pub open spec fn descriptor(&self) -> Seq<bool> {
        Seq::new(self.len as nat, |i: int| bits_of(self.b).contains(i as usize))
    }

    /// Builds a descriptor at `(x, y)` from its bits.
    pub fn from_bits(x: i32, y: i32, bits: &Vec<bool>) -> (r: Brief)
        requires
            bits@.len() <= usize::MAX - 63,
        ensures
            r.x == x,
            r.y == y,
            r.descriptor() == bits@,
    {
        let len = bits.len();
        let mut b = BitVector::new(len);
        let mut i: usize = 0;
        while i < len
            invariant
                len == bits@.len(),
                len <= usize::MAX - 63,
                i <= len,
                forall|j: usize| #[trigger] bits_of(b).contains(j) <==> (j < i && bits@[j as int]),
            decreases len - i,
        {
            if bits[i] {
                b.insert(i);
            }
            i = i + 1;
        }
        let r = Brief { x, y, b, len };
        assert(r.descriptor() =~= bits@);
        r
    }

    /// The number of bits.
    pub fn len(&self) -> (r: usize)
        ensures
            r == self.descriptor().len(),
    {
        self.len
    }

    /// Bit `i`.
    pub fn bit(&self, i: usize) -> (r: bool)
        requires
            i < self.descriptor().len(),
        ensures
            r == self.descriptor()[i as int],
    {
        self.b.contains(i)
    }
}

impl Matchable for Brief {
    open spec fn spec_distance(&self, other: &Self) -> nat {
        hamming(self.descriptor(), other.descriptor())
    }

    /// Hamming distance between the two descriptors.
    fn distance(&self, other: &Self) -> (d: usize) {
        let n = if self.len <= other.len {
            self.len
        } else {
            other.len
        };
        let ghost a = self.descriptor();
        let ghost b = other.descriptor();
        let mut d: usize = 0;
        let mut i: usize = 0;
        while i < n
            invariant
                n <= a.len(),
                n <= b.len(),
                n == if a.len() <= b.len() { a.len() } else { b.len() },
                a == self.descriptor(),
                b == other.descriptor(),
                i <= n,
                d == hamming_upto(a, b, i as int),
                d <= i,
            decreases n - i,
        {
            if self.b.contains(i) != other.b.contains(i) {
                d = d + 1;
            }
            i = i + 1;
        }
        d
    }
}

proof fn lemma_hamming_upto_symmetric(a: Seq<bool>, b: Seq<bool>, k: int)
    ensures
        hamming_upto(a, b, k) == hamming_upto(b, a, k),
        hamming_upto(a, a, k) == 0,
    decreases k,
{
    if k > 0 {
        lemma_hamming_upto_symmetric(a, b, k - 1);
    }
}

/// The Hamming distance is symmetric, and a descriptor is at distance 0
/// from itself.
pub proof fn lemma_hamming_symmetric(a: Seq<bool>, b: Seq<bool>)
    ensures
        hamming(a, b) == hamming(b, a),
        hamming(a, a) == 0,
{
    lemma_hamming_upto_symmetric(a, b, if a.len() <= b.len() { a.len() as int } else { b.len() as int });
    lemma_hamming_upto_symmetric(a, a, a.len() as int);
}

/// The same for the distance between two descriptors.
pub proof fn lemma_brief_distance_symmetric(a: Brief, b: Brief)
    ensures
        a.spec_distance(&b) == b.spec_distance(&a),
        a.spec_distance(&a) == 0,
{
    lemma_hamming_symmetric(a.descriptor(), b.descriptor());
}

/// Angles are quantised to whole multiples of this many degrees.
pub const ANGLE_STEP: i32 = 12;

/// The number of quantised angles in a full turn.
pub const ANGLE_STEPS: usize = 30;

/// The fixed-point scale of the cosines and sines in a rotation table.
pub const ROTATION_SCALE: i32 = 65536;

/// The multiple of `increment` nearest to `angle`, halves rounding upward.
pub open spec fn nearest_multiple(angle: int, increment: int) -> int {
    increment * ((2 * angle + increment) / (2 * increment))
}

/// The entry of a rotation table that steers a keypoint oriented at `deg`
/// degrees: its angle modulo a full turn, rounded to the nearest step.
pub open spec fn angle_slot(deg: int) -> int {
    (nearest_multiple(deg % 360, ANGLE_STEP as int) / ANGLE_STEP as int) % ANGLE_STEPS as int
}

/// `v / ROTATION_SCALE`, rounded to the nearest integer, halves upward.
pub open spec fn round_scaled(v: int) -> int {
    (v + ROTATION_SCALE / 2) / ROTATION_SCALE as int
}

/// The offset `o` rotated by the scaled cosine and sine `rot`, rounded to
/// whole pixels.
pub open spec fn rotate(o: Point, rot: (i32, i32)) -> (int, int) {
    (
        round_scaled(o.0 * rot.0 - o.1 * rot.1),
        round_scaled(o.0 * rot.1 + o.1 * rot.0),
    )
}

pub open spec fn clamp(v: int, lo: int, hi: int) -> int {
    if v < lo {
        lo
    } else if v > hi {
        hi
    } else {
        v
    }
}

/// Where a descriptor around `k` samples the offset `o`, steered by `rot`
/// and clamped into the image.
pub open spec fn sample_point(img: GrayscaleImage, k: Point, o: Point, rot: (i32, i32)) -> (int, int) {
    let d = rotate(o, rot);
    (clamp(k.0 + d.0, 0, img.spec_width() - 1), clamp(k.1 + d.1, 0, img.spec_height() - 1))
}

/// The bit of a sampling pair: whether its first point is brighter than its second.
pub open spec fn brief_bit(img: GrayscaleImage, k: Point, pair: (Point, Point), rot: (i32, i32)) -> bool {
    let p = sample_point(img, k, pair.0, rot);
    let q = sample_point(img, k, pair.1, rot);
    img.at(p.0, p.1) > img.at(q.0, q.1)
}

/// The descriptor of keypoint `k`: one bit per pair of `pattern`, steered by
/// the rotation that its quantised orientation selects.
pub open spec fn descriptor_of(
    img: GrayscaleImage,
    k: FastKeypoint,
    pattern: Seq<(Point, Point)>,
    rotations: Seq<(i32, i32)>,
) -> Seq<bool> {
    let rot = rotations[angle_slot(k.moment.rotation as int)];
    Seq::new(pattern.len(), |i: int| brief_bit(img, k.location, pattern[i], rot))
}

/// The descriptor of `k` with the pattern left unrotated.
pub open spec fn unsteered_descriptor(img: GrayscaleImage, k: Point, pattern: Seq<(Point, Point)>) -> Seq<
    bool,
> {
    Seq::new(
        pattern.len(),
        |i: int|
            {
                let p = (
                    clamp(k.0 + pattern[i].0.0, 0, img.spec_width() - 1),
                    clamp(k.1 + pattern[i].0.1, 0, img.spec_height() - 1),
                );
                let q = (
                    clamp(k.0 + pattern[i].1.0, 0, img.spec_width() - 1),
                    clamp(k.1 + pattern[i].1.1, 0, img.spec_height() - 1),
                );
                img.at(p.0, p.1) > img.at(q.0, q.1)
            },
    )
}

/// The multiple of `increment` nearest to `angle`, halves rounding upward.
pub fn round_angle(angle: i32, increment: i32) -> (r: i32)
    requires
        increment > 0,
        i32::MIN + increment <= angle <= i32::MAX - increment,
    ensures
        r == nearest_multiple(angle as int, increment as int),
        (r as int) % (increment as int) == 0,
{
    let n: i64 = 2 * angle as i64 + increment as i64;
    let d: i64 = 2 * increment as i64;
    let ghost (ni, di, a, inc) = (n as int, d as int, angle as int, increment as int);
    let ghost qi = ni / di;
    proof {
        vstd::arithmetic::div_mod::lemma_fundamental_div_mod(ni, di);
        vstd::arithmetic::div_mod::lemma_mod_bound(ni, di);
        assert(di * qi <= ni < di * qi + di);
        assert(qi * inc <= a + inc && a - inc <= qi * inc) by (nonlinear_arith)
            requires
                di * qi <= ni < di * qi + di,
                ni == 2 * a + inc,
                di == 2 * inc,
                inc > 0,
        ;
        assert(-0x1_0000_0000 <= qi <= 0x1_0000_0000) by (nonlinear_arith)
            requires
                qi * inc <= a + inc,
                a - inc <= qi * inc,
                inc > 0,
                -0x8000_0000 <= a <= 0x8000_0000,
                inc <= 0x8000_0000,
        ;
        vstd::arithmetic::div_mod::lemma_mod_multiples_basic(qi, inc);
        assert(inc * qi == qi * inc) by (nonlinear_arith);
    }
    let q = match n.checked_div_euclid(d) {
        Some(q) => q,
        None => 0,
    };
    assert(q == qi);
    (q * increment as i64) as i32
}

/// The rotation-table entry for a keypoint oriented at `rotation` degrees.
fn rotation_slot(rotation: i32) -> (r: usize)
    ensures
        r == angle_slot(rotation as int),
        r < ANGLE_STEPS,
{
    let a = match rotation.checked_rem_euclid(360) {
        Some(a) => a,
        None => 0,
    };
    let q = round_angle(a, ANGLE_STEP);
    proof {
        let qi = nearest_multiple(a as int, ANGLE_STEP as int);
        assert(0 <= qi) by (nonlinear_arith)
            requires
                qi == 12 * ((2 * a + 12) / 24),
                0 <= a,
        ;
    }
    ((q / ANGLE_STEP) % (ANGLE_STEPS as i32)) as usize
}

/// `v / ROTATION_SCALE`, rounded to the nearest integer, halves upward.
fn round_scaled_exec(v: i128) -> (r: i128)
    requires
        -0x1_0000_0000_0000_0000 <= v <= 0x1_0000_0000_0000_0000,
    ensures
        r == round_scaled(v as int),
{
    let n = v + (ROTATION_SCALE / 2) as i128;
    match n.checked_div_euclid(ROTATION_SCALE as i128) {
        Some(q) => q,
        None => 0,
    }
}

/// Clamps `v` into `0 ..= limit - 1`.
fn clamp_coord(v: i128, limit: u32) -> (r: u32)
    requires
        limit > 0,
    ensures
        r == clamp(v as int, 0, limit - 1),
{
    if v < 0 {
        0
    } else if v > (limit - 1) as i128 {
        limit - 1
    } else {
        v as u32
    }
}

/// Where a descriptor around `k` samples the offset `o` under the rotation `rot`.
fn steered_sample(img: &GrayscaleImage, k: Point, o: Point, rot: (i32, i32)) -> (r: (u32, u32))
    requires
        img.wf(),
        img.spec_width() > 0,
        img.spec_height() > 0,
    ensures
        r.0 == sample_point(*img, k, o, rot).0,
        r.1 == sample_point(*img, k, o, rot).1,
        r.0 < img.spec_width(),
        r.1 < img.spec_height(),
{
    let (c, s) = rot;
    let (ox, oy) = (o.0 as i128, o.1 as i128);
    proof {
        assert(-0x4000_0000_0000_0000 <= ox * c <= 0x4000_0000_0000_0000) by (nonlinear_arith)
            requires
                -0x8000_0000 <= ox <= 0x8000_0000,
                -0x8000_0000 <= c <= 0x8000_0000,
        ;
        assert(-0x4000_0000_0000_0000 <= oy * s <= 0x4000_0000_0000_0000) by (nonlinear_arith)
            requires
                -0x8000_0000 <= oy <= 0x8000_0000,
                -0x8000_0000 <= s <= 0x8000_0000,
        ;
        assert(-0x4000_0000_0000_0000 <= ox * s <= 0x4000_0000_0000_0000) by (nonlinear_arith)
            requires
                -0x8000_0000 <= ox <= 0x8000_0000,
                -0x8000_0000 <= s <= 0x8000_0000,
        ;
        assert(-0x4000_0000_0000_0000 <= oy * c <= 0x4000_0000_0000_0000) by (nonlinear_arith)
            requires
                -0x8000_0000 <= oy <= 0x8000_0000,
                -0x8000_0000 <= c <= 0x8000_0000,
        ;
    }
    let dx = round_scaled_exec(ox * c as i128 - oy * s as i128);
    let dy = round_scaled_exec(ox * s as i128 + oy * c as i128);
    proof {
        vstd::arithmetic::div_mod::lemma_div_is_ordered(
            -0x1_0000_0000_0000_0000int + 0x8000,
            (ox * c - oy * s) + 0x8000,
            0x10000,
        );
        vstd::arithmetic::div_mod::lemma_div_is_ordered(
            (ox * c - oy * s) + 0x8000,
            0x1_0000_0000_0000_0000int + 0x8000,
            0x10000,
        );
        vstd::arithmetic::div_mod::lemma_div_is_ordered(
            -0x1_0000_0000_0000_0000int + 0x8000,
            (ox * s + oy * c) + 0x8000,
            0x10000,
        );
        vstd::arithmetic::div_mod::lemma_div_is_ordered(
            (ox * s + oy * c) + 0x8000,
            0x1_0000_0000_0000_0000int + 0x8000,
            0x10000,
        );
    }
    let x = clamp_coord(k.0 as i128 + dx, img.width());
    let y = clamp_coord(k.1 as i128 + dy, img.height());
    (x, y)
}

/// The descriptor of one keypoint.
fn describe_keypoint(
    img: &GrayscaleImage,
    k: &FastKeypoint,
    pattern: &Vec<(Point, Point)>,
    rotations: &Vec<(i32, i32)>,
) -> (r: Brief)
    requires
        img.wf(),
        img.spec_width() > 0,
        img.spec_height() > 0,
        rotations@.len() == ANGLE_STEPS,
        pattern@.len() <= usize::MAX - 63,
    ensures
        r.x == k.location.0,
        r.y == k.location.1,
        r.descriptor() == descriptor_of(*img, *k, pattern@, rotations@),
{
    let rot = rotations[rotation_slot(k.moment.rotation)];
    let ghost g = *img;
    let len = pattern.len();
    let mut b = BitVector::new(len);
    let mut i: usize = 0;
    while i < len
        invariant
            img.wf(),
            g == *img,
            img.spec_width() > 0,
            img.spec_height() > 0,
            len == pattern@.len(),
            len <= usize::MAX - 63,
            rot == rotations@[angle_slot(k.moment.rotation as int)],
            i <= len,
            forall|j: usize|
                #[trigger] bits_of(b).contains(j) <==> (j < i && brief_bit(
                    g,
                    k.location,
                    pattern@[j as int],
                    rot,
                )),
        decreases len - i,
    {
        let (o1, o2) = pattern[i];
        let (x1, y1) = steered_sample(img, k.location, o1, rot);
        let (x2, y2) = steered_sample(img, k.location, o2, rot);
        if img.get_pixel(x1, y1) > img.get_pixel(x2, y2) {
            b.insert(i);
        }
        i = i + 1;
    }
    let r = Brief { x: k.location.0, y: k.location.1, b, len };
    assert(r.descriptor() =~= descriptor_of(g, *k, pattern@, rotations@));
    r
}

/// Describes each keypoint of `vec`, in order, on the smoothed image
/// `blurred_img`: bit `i` of a descriptor tells whether the first point of
/// pair `i` of `pattern` is brighter than the second, both rotated by the
/// entry of `rotations` that the keypoint's quantised orientation selects,
/// moved to the keypoint and clamped into the image.
pub fn brief(
    blurred_img: &GrayscaleImage,
    vec: &Vec<FastKeypoint>,
    pattern: &Vec<(Point, Point)>,
    rotations: &Vec<(i32, i32)>,
) -> (r: Vec<Brief>)
    requires
        blurred_img.wf(),
        blurred_img.spec_width() > 0,
        blurred_img.spec_height() > 0,
        rotations@.len() == ANGLE_STEPS,
        pattern@.len() <= usize::MAX - 63,
    ensures
        r@.len() == vec@.len(),
        forall|i: int|
            0 <= i < r@.len() ==> {
                &&& (#[trigger] r@[i]).x == vec@[i].location.0
                &&& r@[i].y == vec@[i].location.1
                &&& r@[i].descriptor().len() == pattern@.len()
                &&& r@[i].descriptor() == descriptor_of(*blurred_img, vec@[i], pattern@, rotations@)
            },
{
    let mut out: Vec<Brief> = Vec::new();
    let mut i: usize = 0;
    while i < vec.len()
        invariant
            blurred_img.wf(),
            blurred_img.spec_width() > 0,
            blurred_img.spec_height() > 0,
            rotations@.len() == ANGLE_STEPS,
            pattern@.len() <= usize::MAX - 63,
            i <= vec@.len(),
            out@.len() == i,
            forall|j: int|
                0 <= j < i ==> {
                    &&& (#[trigger] out@[j]).x == vec@[j].location.0
                    &&& out@[j].y == vec@[j].location.1
                    &&& out@[j].descriptor().len() == pattern@.len()
                    &&& out@[j].descriptor() == descriptor_of(*blurred_img, vec@[j], pattern@, rotations@)
                },
        decreases vec@.len() - i,
    {
        let d = describe_keypoint(blurred_img, &vec[i], pattern, rotations);
        out.push(d);
        i = i + 1;
    }
    out
}

/// Rotating by the identity entry, a cosine of one and a sine of zero,
/// leaves every offset where it is.
pub proof fn lemma_identity_rotation(o: Point)
    ensures
        rotate(o, (ROTATION_SCALE, 0)) == (o.0 as int, o.1 as int),
{
    let (x, y) = (o.0 as int, o.1 as int);
    assert(x * 65536 - y * 0 + 32768 == x * 65536 + 32768);
    vstd::arithmetic::div_mod::lemma_fundamental_div_mod_converse_div(x * 65536 + 32768, 65536, x, 32768);
    vstd::arithmetic::div_mod::lemma_fundamental_div_mod_converse_div(y * 65536 + 32768, 65536, y, 32768);
    assert(x * 0 + y * 65536 == y * 65536);
}

/// A keypoint whose quantised orientation selects the identity entry gets
/// the descriptor of the unrotated pattern, bit for bit.
pub proof fn lemma_zero_rotation_unsteered(
    img: GrayscaleImage,
    k: FastKeypoint,
    pattern: Seq<(Point, Point)>,
    rotations: Seq<(i32, i32)>,
)
    requires
        rotations.len() == ANGLE_STEPS,
        rotations[angle_slot(k.moment.rotation as int)] == (ROTATION_SCALE, 0i32),
    ensures
        descriptor_of(img, k, pattern, rotations) == unsteered_descriptor(img, k.location, pattern),
{
    assert forall|i: int| 0 <= i < pattern.len() implies #[trigger] descriptor_of(img, k, pattern, rotations)[i]
        == unsteered_descriptor(img, k.location, pattern)[i] by {
        lemma_identity_rotation(pattern[i].0);
        lemma_identity_rotation(pattern[i].1);
    }
    assert(descriptor_of(img, k, pattern, rotations) =~= unsteered_descriptor(img, k.location, pattern));
}

proof fn lemma_taken_diagonal(r: Seq<IndexMatch>, i: int)
    requires
        0 <= i <= r.len(),
        forall|k: int| 0 <= k < i ==> (#[trigger] r[k]).1 == k,
    ensures
        forall|j: usize| #[trigger] taken(r, i).contains(j) <==> j < i,
    decreases i,
{
    if i > 0 {
        lemma_taken_diagonal(r, i - 1);
        assert(r[i - 1].1 == i - 1);
        assert(taken(r, i) == taken(r, i - 1).insert(r[i - 1].1));
        assert forall|j: usize| #[trigger] taken(r, i).contains(j) <==> j < i by {
            assert(taken(r, i - 1).contains(j) <==> j < i - 1);
        }
    }
}

/// Matching a descriptor set against itself pairs every descriptor with
/// itself: distance 0 is always a descriptor's own best match.
pub proof fn lemma_self_match_is_identity(a: Seq<Brief>, r: Seq<IndexMatch>)
    requires
        is_greedy_matching(a, a, r),
    ensures
        r.len() == a.len(),
        forall|i: int| 0 <= i < r.len() ==> #[trigger] r[i] == (i as usize, i as usize),
{
    assert forall|i: int| 0 <= i < r.len() implies #[trigger] r[i] == (i as usize, i as usize) by {
        lemma_self_match_prefix(a, r, i);
    }
}

proof fn lemma_self_match_prefix(a: Seq<Brief>, r: Seq<IndexMatch>, i: int)
    requires
        is_greedy_matching(a, a, r),
        0 <= i < r.len(),
    ensures
        r[i] == (i as usize, i as usize),
    decreases i,
{
    assert forall|k: int| 0 <= k < i implies (#[trigger] r[k]).1 == k by {
        lemma_self_match_prefix(a, r, k);
    }
    lemma_taken_diagonal(r, i);
    let j = r[i].1 as int;
    assert(r[i].0 == i);
    assert(is_best_partner(a[i], a, taken(r, i), j));
    lemma_hamming_symmetric(a[i].descriptor(), a[i].descriptor());
    assert(!taken(r, i).contains(i as usize));
    assert(!taken(r, i).contains(j as usize));
    assert(j >= i);
    if j > i {
        assert(a[i].spec_distance(&a[j]) < a[i].spec_distance(&a[i]));
    }
}

/// Every descriptor of `s` has `len` bits.
pub open spec fn all_of_length(s: Seq<Brief>, len: int) -> bool {
    forall|i: int| 0 <= i < s.len() ==> (#[trigger] s[i]).descriptor().len() == len
}

/// All descriptors of `a` and `b` have the same number of bits.
pub open spec fn uniform_length(a: Seq<Brief>, b: Seq<Brief>) -> bool {
    if a.len() > 0 {
        all_of_length(a, a[0].descriptor().len() as int) && all_of_length(b, a[0].descriptor().len() as int)
    } else if b.len() > 0 {
        all_of_length(b, b[0].descriptor().len() as int)
    } else {
        true
    }
}

/// Matches two descriptor sets greedily by Hamming distance, after checking
/// that all their descriptors have the same length.
pub fn match_brief(a: &Vec<Brief>, b: &Vec<Brief>) -> (r: Result<Vec<IndexMatch>, OrbError>)
    requires
        b@.len() <= usize::MAX - 63,
    ensures
        r.is_err() <==> !uniform_length(a@, b@),
        r matches Err(e) ==> e == OrbError::LengthMismatch,
        r matches Ok(v) ==> is_greedy_matching(a@, b@, v@),
{
    let len = if a.len() > 0 {
        a[0].len
    } else if b.len() > 0 {
        b[0].len
    } else {
        0
    };
    let mut i: usize = 0;
    while i < a.len()
        invariant
            i <= a@.len(),
            a@.len() > 0 ==> len == a@[0].descriptor().len(),
            forall|j: int| 0 <= j < i ==> (#[trigger] a@[j]).descriptor().len() == len,
        decreases a@.len() - i,
    {
        if a[i].len != len {
            return Err(OrbError::LengthMismatch);
        }
        i = i + 1;
    }
    let mut i: usize = 0;
    while i < b.len()
        invariant
            i <= b@.len(),
            a@.len() > 0 ==> len == a@[0].descriptor().len(),
            a@.len() == 0 && b@.len() > 0 ==> len == b@[0].descriptor().len(),
            forall|j: int| 0 <= j < i ==> (#[trigger] b@[j]).descriptor().len() == len,
        decreases b@.len() - i,
    {
        if b[i].len != len {
            return Err(OrbError::LengthMismatch);
        }
        i = i + 1;
    }
    Ok(match_indices(a, b))
}

/// A 3x3 convolution kernel; row `i`, column `j` weighs the pixel at offset
/// `(j - 1, i - 1)`.
pub type SobelFilter = [[i32; 3]; 3];

/// The weighted sum of the 3x3 neighbourhood of `(x, y)` under `filter`.
pub open spec fn sobel_sum(img: GrayscaleImage, filter: SobelFilter, x: int, y: int) -> int {
    filter[0][0] * img.at(x - 1, y - 1) + filter[0][1] * img.at(x, y - 1) + filter[0][2] * img.at(
        x + 1,
        y - 1,
    ) + filter[1][0] * img.at(x - 1, y) + filter[1][1] * img.at(x, y) + filter[1][2] * img.at(x + 1, y)
        + filter[2][0] * img.at(x - 1, y + 1) + filter[2][1] * img.at(x, y + 1) + filter[2][2] * img.at(
        x + 1,
        y + 1,
    )
}

/// The vertical-gradient kernel.
pub open spec fn sobel_y_filter() -> SobelFilter {
    [[1i32, 2i32, 1i32], [0i32, 0i32, 0i32], [-1i32, -2i32, -1i32]]
}

/// The magnitude of the response, kept to its low eight bits as a `u8`
/// conversion keeps them.
pub open spec fn sobel_value(img: GrayscaleImage, filter: SobelFilter, x: int, y: int) -> int {
    crate::fast::abs(sobel_sum(img, filter, x, y)) % 256
}

/// The response of `filter` at the interior pixel `(x, y)`.
pub fn sobel(img: &GrayscaleImage, filter: &SobelFilter, x: u32, y: u32) -> (r: u8)
    requires
        img.wf(),
        1 <= x < img.spec_width() - 1,
        1 <= y < img.spec_height() - 1,
    ensures
        r == sobel_value(*img, *filter, x as int, y as int),
{
    let (xl, xr, yu, yd) = (x - 1, x + 1, y - 1, y + 1);
    let sum: i64 = weighted(filter[0][0], img.get_pixel(xl, yu)) + weighted(filter[0][1], img.get_pixel(x, yu))
        + weighted(filter[0][2], img.get_pixel(xr, yu)) + weighted(filter[1][0], img.get_pixel(xl, y))
        + weighted(filter[1][1], img.get_pixel(x, y)) + weighted(filter[1][2], img.get_pixel(xr, y))
        + weighted(filter[2][0], img.get_pixel(xl, yd)) + weighted(filter[2][1], img.get_pixel(x, yd))
        + weighted(filter[2][2], img.get_pixel(xr, yd));
    let magnitude = if sum < 0 {
        -sum
    } else {
        sum
    };
    (magnitude % 256) as u8
}

/// One term of a kernel sum.
fn weighted(k: i32, p: u8) -> (r: i64)
    ensures
        r == k * p,
        -0x80_0000_0000 <= r <= 0x80_0000_0000,
{
    assert(-0x80_0000_0000 <= k * p <= 0x80_0000_0000) by (nonlinear_arith)
        requires
            -0x8000_0000 <= k <= 0x8000_0000,
            0 <= p <= 255,
    ;
    k as i64 * p as i64
}

/// The pixel at `(x, y)` of the vertical-gradient image: the response of the
/// vertical kernel inside the image, 0 on its border.
pub open spec fn sobel_pixel(img: GrayscaleImage, x: int, y: int) -> int {
    if 1 <= x < img.spec_width() - 1 && 1 <= y < img.spec_height() - 1 {
        sobel_value(img, sobel_y_filter(), x, y)
    } else {
        0
    }
}

/// The vertical-gradient image of `img`, of the same size, with a border of zeros.
pub fn create_sobel_image(img: &GrayscaleImage) -> (r: GrayscaleImage)
    requires
        img.wf(),
    ensures
        r.wf(),
        r.spec_width() == img.spec_width(),
        r.spec_height() == img.spec_height(),
        forall|x: int, y: int|
            0 <= x < r.spec_width() && 0 <= y < r.spec_height() ==> #[trigger] r.at(x, y) == sobel_pixel(
                *img,
                x,
                y,
            ),
{
    let filter: SobelFilter = [[1i32, 2i32, 1i32], [0i32, 0i32, 0i32], [-1i32, -2i32, -1i32]];
    let (w, h) = (img.width(), img.height());
    let ghost g = *img;
    let mut pixels: Vec<u8> = Vec::new();
    let mut y: u32 = 0;
    while y < h
        invariant
            img.wf(),
            g == *img,
            filter == sobel_y_filter(),
            w == img.spec_width(),
            h == img.spec_height(),
            y <= h,
            pixels@.len() == y * w,
            forall|q: int| 0 <= q < pixels@.len() ==> #[trigger] pixels@[q] == sobel_pixel(g, q % w as int, q / w as int),
        decreases h - y,
    {
        let mut x: u32 = 0;
        while x < w
            invariant
                img.wf(),
                g == *img,
                filter == sobel_y_filter(),
                w == img.spec_width(),
                h == img.spec_height(),
                y < h,
                x <= w,
                pixels@.len() == y * w + x,
                forall|q: int| 0 <= q < pixels@.len() ==> #[trigger] pixels@[q] == sobel_pixel(g, q % w as int, q / w as int),
            decreases w - x,
        {
            let v = if x >= 1 && x + 1 < w && y >= 1 && y + 1 < h {
                sobel(img, &filter, x, y)
            } else {
                0
            };
            proof {
                vstd::arithmetic::div_mod::lemma_fundamental_div_mod_converse(
                    y * w + x,
                    w as int,
                    y as int,
                    x as int,
                );
            }
            pixels.push(v);
            x = x + 1;
        }
        assert(y * w + w == (y + 1) * w) by (nonlinear_arith);
        y = y + 1;
    }
    assert(h * w == w * h) by (nonlinear_arith);
    let r = GrayscaleImage { width: w, height: h, pixels };
    assert forall|x: int, y: int| 0 <= x < w && 0 <= y < h implies #[trigger] r.at(x, y) == sobel_pixel(g, x, y) by {
        crate::raster::lemma_index_in_grid(x, y, w as int, h as int);
        let q = y * (w as int) + x;
        assert(h * w == w * h) by (nonlinear_arith);
        assert(r.pixels@[q] == sobel_pixel(g, q % w as int, q / w as int));
        vstd::arithmetic::div_mod::lemma_fundamental_div_mod_converse(q, w as int, y, x);
    }
    r
}

/// Multiplier of the generator that lays out sampling patterns.
pub const PATTERN_LCG_MUL: u64 = 6364136223846793005;

/// Increment of the generator that lays out sampling patterns.
pub const PATTERN_LCG_INC: u64 = 1442695040888963407;

/// One step of the 64-bit linear congruential generator.
pub open spec fn lcg_next(s: u64) -> u64 {
    ((s as int * PATTERN_LCG_MUL as int + PATTERN_LCG_INC as int) % 0x1_0000_0000_0000_0000) as u64
}

/// The generator's state after `k` steps from `seed`.
pub open spec fn lcg_nth(seed: u64, k: nat) -> u64
    decreases k,
{
    if k == 0 {
        seed
    } else {
        lcg_next(lcg_nth(seed, (k - 1) as nat))
    }
}

/// An offset in `-half ..= half` drawn from the high bits of a state.
pub open spec fn draw_offset(s: u64, half: int) -> int {
    (s as int / 0x2_0000_0000) % (2 * half + 1) - half
}

/// Pair `i` of the pattern drawn from `seed`: its four coordinates come from
/// the next four states of the generator.
pub open spec fn pattern_pair(seed: u64, i: int, half: int) -> (Point, Point) {
    (
        (
            draw_offset(lcg_nth(seed, (4 * i + 1) as nat), half) as i32,
            draw_offset(lcg_nth(seed, (4 * i + 2) as nat), half) as i32,
        ),
        (
            draw_offset(lcg_nth(seed, (4 * i + 3) as nat), half) as i32,
            draw_offset(lcg_nth(seed, (4 * i + 4) as nat), half) as i32,
        ),
    )
}

fn lcg_step(s: u64) -> (r: u64)
    ensures
        r == lcg_next(s),
{
    let r = s.wrapping_mul(PATTERN_LCG_MUL).wrapping_add(PATTERN_LCG_INC);
    proof {
        let m = 0x1_0000_0000_0000_0000int;
        let prod = s as int * PATTERN_LCG_MUL as int;
        vstd::arithmetic::div_mod::lemma_add_mod_noop(prod, PATTERN_LCG_INC as int, m);
        vstd::arithmetic::div_mod::lemma_small_mod(PATTERN_LCG_INC as nat, m as nat);
        vstd::arithmetic::div_mod::lemma_mod_bound(prod, m);
        vstd::arithmetic::div_mod::lemma_mod_bound(prod + PATTERN_LCG_INC, m);
        let w = prod % m;
        if w + PATTERN_LCG_INC >= m {
            vstd::arithmetic::div_mod::lemma_fundamental_div_mod_converse(
                w + PATTERN_LCG_INC,
                m,
                1,
                w + PATTERN_LCG_INC - m,
            );
        } else {
            vstd::arithmetic::div_mod::lemma_small_mod((w + PATTERN_LCG_INC) as nat, m as nat);
        }
    }
    r
}

fn next_offset(state: &mut u64, half: i32) -> (r: i32)
    requires
        0 <= half <= 0x3fff_ffff,
    ensures
        *final(state) == lcg_next(*old(state)),
        r == draw_offset(*final(state), half as int),
        -half <= r <= half,
{
    *state = lcg_step(*state);
    let span = 2 * half as u64 + 1;
    let v = (*state / 0x2_0000_0000) % span;
    v as i32 - half
}

/// A sampling pattern of `length` pairs of offsets in `-half ..= half`,
/// drawn from `seed` by a linear congruential generator; the same arguments
/// always give the same pattern.
pub fn sampling_pattern(length: usize, half: i32, seed: u64) -> (r: Vec<(Point, Point)>)
    requires
        0 <= half <= 0x3fff_ffff,
    ensures
        r@.len() == length,
        forall|i: int| 0 <= i < length ==> #[trigger] r@[i] == pattern_pair(seed, i, half as int),
        forall|i: int|
            0 <= i < length ==> {
                &&& -half <= (#[trigger] r@[i]).0.0 <= half
                &&& -half <= r@[i].0.1 <= half
                &&& -half <= r@[i].1.0 <= half
                &&& -half <= r@[i].1.1 <= half
            },
{
    let mut out: Vec<(Point, Point)> = Vec::new();
    let mut state = seed;
    let mut i: usize = 0;
    while i < length
        invariant
            0 <= half <= 0x3fff_ffff,
            i <= length,
            out@.len() == i,
            state == lcg_nth(seed, (4 * i) as nat),
            forall|j: int| 0 <= j < i ==> #[trigger] out@[j] == pattern_pair(seed, j, half as int),
            forall|j: int|
                0 <= j < i ==> {
                    &&& -half <= (#[trigger] out@[j]).0.0 <= half
                    &&& -half <= out@[j].0.1 <= half
                    &&& -half <= out@[j].1.0 <= half
                    &&& -half <= out@[j].1.1 <= half
                },
        decreases length - i,
    {
        let x0 = next_offset(&mut state, half);
        let y0 = next_offset(&mut state, half);
        let x1 = next_offset(&mut state, half);
        let y1 = next_offset(&mut state, half);
        proof {
            let k = 4 * i as int;
            assert(lcg_nth(seed, (k + 1) as nat) == lcg_next(lcg_nth(seed, k as nat)));
            assert(lcg_nth(seed, (k + 2) as nat) == lcg_next(lcg_nth(seed, (k + 1) as nat)));
            assert(lcg_nth(seed, (k + 3) as nat) == lcg_next(lcg_nth(seed, (k + 2) as nat)));
            assert(lcg_nth(seed, (k + 4) as nat) == lcg_next(lcg_nth(seed, (k + 3) as nat)));
        }
        out.push(((x0, y0), (x1, y1)));
        i = i + 1;
    }
    out
}

} // verus!
