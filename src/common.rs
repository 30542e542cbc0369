use vstd::prelude::*;

use bitvector::BitVector;

use crate::bitset::bits_of;
use crate::fast::FastKeypoint;

verus! {

/// A pixel position `(x, y)`.
pub type Point = (i32, i32);

/// A pair of positions, one in each of two matched sets.
pub type IndexMatch = (usize, usize);

/// Why a stage of the pipeline refused its input.
#[derive(Debug, Clone, Copy, PartialEq, Eq, Structural)]
pub enum OrbError {
    /// The image is smaller than twice the sampling circle's radius.
    SizeError,
    /// More keypoints were asked for than the candidates can give.
    Underflow,
    /// Two descriptor sets whose descriptors differ in length.
    LengthMismatch,
}

/// Values with a distance between them, used to pair up two sets.
pub trait Matchable: Sized {
    /// The distance from `self` to `other`, as a natural number.
    spec fn spec_distance(&self, other: &Self) -> nat;

    fn distance(&self, other: &Self) -> (d: usize)
        ensures
            d == self.spec_distance(other),
    ;
}

/// The entries of `b` taken by the first `i` pairs of `r`.
pub open spec fn taken(r: Seq<IndexMatch>, i: int) -> Set<usize>
    decreases i,
{
    if i <= 0 {
        Set::empty()
    } else {
        taken(r, i - 1).insert(r[i - 1].1)
    }
}

/// `j` is the greedy partner of `a` in `b` once the entries in `used` are
/// gone: it is free, no free entry is nearer, and every free entry before
/// it is strictly farther.
pub open spec fn is_best_partner<T: Matchable>(a: T, b: Seq<T>, used: Set<usize>, j: int) -> bool {
    &&& 0 <= j < b.len()
    &&& !used.contains(j as usize)
    &&& forall|l: int|
        0 <= l < b.len() && !used.contains(l as usize) ==> a.spec_distance(&b[j]) <= a.spec_distance(
            &b[l],
        )
    &&& forall|l: int|
        0 <= l < j && !used.contains(l as usize) ==> a.spec_distance(&b[j]) < a.spec_distance(&b[l])
}

/// `r` pairs each of the first `min(|a|, |b|)` entries of `a`, in order,
/// with its greedy partner among the entries of `b` not taken before it.
pub open spec fn is_greedy_matching<T: Matchable>(a: Seq<T>, b: Seq<T>, r: Seq<IndexMatch>) -> bool {
    &&& r.len() == if a.len() <= b.len() { a.len() } else { b.len() }
    &&& forall|i: int|
        0 <= i < r.len() ==> (#[trigger] r[i]).0 == i && is_best_partner(a[i], b, taken(r, i), r[i].1 as int)
}

proof fn lemma_taken_prefix(r: Seq<IndexMatch>, s: Seq<IndexMatch>, i: int)
    requires
        0 <= i <= r.len(),
        i <= s.len(),
        r.subrange(0, i) == s.subrange(0, i),
    ensures
        taken(r, i) == taken(s, i),
    decreases i,
{
    if i > 0 {
        assert(r.subrange(0, i - 1) == s.subrange(0, i - 1)) by {
            assert(r.subrange(0, i - 1) =~= r.subrange(0, i).subrange(0, i - 1));
            assert(s.subrange(0, i - 1) =~= s.subrange(0, i).subrange(0, i - 1));
        }
        assert(r[i - 1] == r.subrange(0, i)[i - 1]);
        assert(s[i - 1] == s.subrange(0, i)[i - 1]);
        lemma_taken_prefix(r, s, i - 1);
    }
}

proof fn lemma_taken_finite(r: Seq<IndexMatch>, i: int)
    ensures
        taken(r, i).finite(),
        taken(r, i).len() <= if i < 0 { 0 } else { i },
        forall|k: int| 0 <= k < i ==> taken(r, i).contains(#[trigger] r[k].1),
    decreases i,
{
    if i > 0 {
        lemma_taken_finite(r, i - 1);
    }
}

/// The positions below `m`.
spec fn below(m: int) -> Set<usize> {
    Set::new(|j: usize| j < m)
}

proof fn lemma_below_len(m: int)
    requires
        0 <= m <= usize::MAX + 1,
    ensures
        below(m).finite(),
        below(m).len() == m,
    decreases m,
{
    if m == 0 {
        assert(below(m) =~= Set::empty());
    } else {
        lemma_below_len(m - 1);
        assert(below(m) =~= below(m - 1).insert((m - 1) as usize));
    }
}

/// Pairs each of the first `min(|vec1|, |vec2|)` entries of `vec1`, in
/// order, with the nearest entry of `vec2` that no earlier entry took; of
/// equally near entries the first wins.
pub fn match_indices<T: Matchable>(vec1: &Vec<T>, vec2: &Vec<T>) -> (r: Vec<IndexMatch>)
    requires
        vec2@.len() <= usize::MAX - 63,
    ensures
        is_greedy_matching(vec1@, vec2@, r@),
{
    let len2 = vec2.len();
    let n = if vec1.len() <= len2 {
        vec1.len()
    } else {
        len2
    };
    let mut index_vec: Vec<IndexMatch> = Vec::new();
    let mut matched_indices = BitVector::new(len2);
    let mut i: usize = 0;
    while i < n
        invariant
            len2 == vec2@.len(),
            len2 <= usize::MAX - 63,
            n == if vec1@.len() <= len2 { vec1@.len() } else { len2 as nat },
            i <= n,
            index_vec@.len() == i,
            bits_of(matched_indices) == taken(index_vec@, i as int),
            forall|k: int|
                0 <= k < i ==> (#[trigger] index_vec@[k]).0 == k && is_best_partner(
                    vec1@[k],
                    vec2@,
                    taken(index_vec@, k),
                    index_vec@[k].1 as int,
                ),
        decreases n - i,
    {
        let ghost used = taken(index_vec@, i as int);
        let mut best: usize = len2;
        let mut best_dist: usize = 0;
        let mut j: usize = 0;
        while j < len2
            invariant
                len2 == vec2@.len(),
                i < n,
                n <= vec1@.len(),
                j <= len2,
                bits_of(matched_indices) == used,
                best == len2 || (best < j && !used.contains(best) && best_dist == vec1@[i as int].spec_distance(&vec2@[best as int])),
                best == len2 ==> forall|l: usize| l < j ==> #[trigger] used.contains(l),
                best < len2 ==> forall|l: int|
                    0 <= l < j && !used.contains(l as usize) ==> best_dist <= vec1@[i as int].spec_distance(&vec2@[l]),
                best < len2 ==> forall|l: int|
                    0 <= l < best && !used.contains(l as usize) ==> best_dist < vec1@[i as int].spec_distance(&vec2@[l]),
            decreases len2 - j,
        {
            if !matched_indices.contains(j) {
                let dist = vec1[i].distance(&vec2[j]);
                if best == len2 || dist < best_dist {
                    best = j;
                    best_dist = dist;
                }
            }
            j = j + 1;
        }
        if best == len2 {
            proof {
                lemma_taken_finite(index_vec@, i as int);
                lemma_below_len(len2 as int);
                assert(below(len2 as int).subset_of(used));
                vstd::set_lib::lemma_len_subset(below(len2 as int), used);
            }
        }
        let ghost before = index_vec@;
        index_vec.push((i, best));
        matched_indices.insert(best);
        proof {
            assert(index_vec@.subrange(0, i as int) =~= before.subrange(0, i as int));
            lemma_taken_prefix(index_vec@, before, i as int);
            assert forall|k: int| 0 <= k < i implies taken(index_vec@, k) == taken(before, k) by {
                assert(index_vec@.subrange(0, k) =~= before.subrange(0, k));
                lemma_taken_prefix(index_vec@, before, k);
            }
        }
        i = i + 1;
    }
    index_vec
}

/// A greedy matching never uses an entry of the second set twice.
pub proof fn lemma_greedy_partners_distinct<T: Matchable>(a: Seq<T>, b: Seq<T>, r: Seq<IndexMatch>)
    requires
        is_greedy_matching(a, b, r),
    ensures
        forall|k: int, l: int| 0 <= k < l < r.len() ==> r[k].1 != r[l].1,
        forall|k: int| 0 <= k < r.len() ==> r[k].0 == k && r[k].1 < b.len(),
{
    assert forall|k: int, l: int| 0 <= k < l < r.len() implies r[k].1 != r[l].1 by {
        lemma_taken_finite(r, l);
        assert(taken(r, l).contains(r[k].1));
        assert(is_best_partner(a[l], b, taken(r, l), r[l].1 as int));
    }
    assert forall|k: int| 0 <= k < r.len() implies r[k].0 == k && r[k].1 < b.len() by {
        assert(is_best_partner(a[k], b, taken(r, k), r[k].1 as int));
    }
}

/// The key keypoints are ranked by: their corner strength, or their
/// suppression radius.
pub open spec fn rank_key(k: FastKeypoint, by_radius: bool) -> int {
    if by_radius {
        k.nms_dist as int
    } else {
        k.score as int
    }
}

/// Where a keypoint with key `key` enters a sequence ranked by descending
/// key: after every leading entry whose key is at least as large.
pub open spec fn insert_pos(s: Seq<FastKeypoint>, key: int, by_radius: bool) -> int
    decreases s.len(),
{
    if s.len() == 0 || rank_key(s[0], by_radius) < key {
        0
    } else {
        1 + insert_pos(s.subrange(1, s.len() as int), key, by_radius)
    }
}

/// `s` ranked by descending key, keypoints of equal key keeping their order.
pub open spec fn ranked(s: Seq<FastKeypoint>, by_radius: bool) -> Seq<FastKeypoint>
    decreases s.len(),
{
    if s.len() == 0 {
        s
    } else {
        let r = ranked(s.drop_last(), by_radius);
        r.insert(insert_pos(r, rank_key(s.last(), by_radius), by_radius), s.last())
    }
}

proof fn lemma_insert_pos_bounds(s: Seq<FastKeypoint>, key: int, by_radius: bool)
    ensures
        0 <= insert_pos(s, key, by_radius) <= s.len(),
    decreases s.len(),
{
    if s.len() > 0 {
        lemma_insert_pos_bounds(s.subrange(1, s.len() as int), key, by_radius);
    }
}

proof fn lemma_insert_pos_at(s: Seq<FastKeypoint>, key: int, by_radius: bool, p: int)
    requires
        0 <= p <= s.len(),
        forall|q: int| 0 <= q < p ==> rank_key(#[trigger] s[q], by_radius) >= key,
        p == s.len() || rank_key(s[p], by_radius) < key,
    ensures
        insert_pos(s, key, by_radius) == p,
    decreases p,
{
    if p > 0 {
        let t = s.subrange(1, s.len() as int);
        assert(rank_key(s[0], by_radius) >= key);
        assert forall|q: int| 0 <= q < p - 1 implies rank_key(#[trigger] t[q], by_radius) >= key by {
            assert(t[q] == s[q + 1]);
        }
        if p < s.len() {
            assert(t[p - 1] == s[p]);
        }
        lemma_insert_pos_at(t, key, by_radius, p - 1);
    }
}

proof fn lemma_ranked_len(s: Seq<FastKeypoint>, by_radius: bool)
    ensures
        ranked(s, by_radius).len() == s.len(),
    decreases s.len(),
{
    if s.len() > 0 {
        lemma_ranked_len(s.drop_last(), by_radius);
        let r = ranked(s.drop_last(), by_radius);
        lemma_insert_pos_bounds(r, rank_key(s.last(), by_radius), by_radius);
    }
}

fn rank_key_exec(k: &FastKeypoint, by_radius: bool) -> (r: i128)
    ensures
        r == rank_key(*k, by_radius),
{
    if by_radius {
        k.nms_dist as i128
    } else {
        k.score as i128
    }
}

/// Ranks keypoints by descending key, by insertion; keypoints of equal key
/// keep their order.
fn rank(v: &Vec<FastKeypoint>, by_radius: bool) -> (r: Vec<FastKeypoint>)
    ensures
        r@ == ranked(v@, by_radius),
{
    let mut out: Vec<FastKeypoint> = Vec::new();
    let mut i: usize = 0;
    while i < v.len()
        invariant
            i <= v@.len(),
            out@ == ranked(v@.subrange(0, i as int), by_radius),
        decreases v@.len() - i,
    {
        let x = v[i];
        let key = rank_key_exec(&x, by_radius);
        proof {
            lemma_ranked_len(v@.subrange(0, i as int), by_radius);
        }
        let mut p: usize = 0;
        while p < out.len() && rank_key_exec(&out[p], by_radius) >= key
            invariant
                p <= out@.len(),
                key == rank_key(x, by_radius),
                forall|q: int| 0 <= q < p ==> rank_key(#[trigger] out@[q], by_radius) >= key,
            decreases out@.len() - p,
        {
            p = p + 1;
        }
        proof {
            lemma_insert_pos_at(out@, key as int, by_radius, p as int);
            let t = v@.subrange(0, i as int + 1);
            assert(t.drop_last() =~= v@.subrange(0, i as int));
            assert(t.last() == x);
        }
        out.insert(p, x);
        i = i + 1;
    }
    assert(v@.subrange(0, v@.len() as int) =~= v@);
    out
}

/// Keys never increase along `s`.
pub open spec fn is_ranked(s: Seq<FastKeypoint>, by_radius: bool) -> bool {
    forall|i: int, j: int| 0 <= i < j < s.len() ==> rank_key(s[i], by_radius) >= rank_key(s[j], by_radius)
}

proof fn lemma_insert_pos_splits(s: Seq<FastKeypoint>, key: int, by_radius: bool)
    ensures
        forall|q: int| 0 <= q < insert_pos(s, key, by_radius) ==> rank_key(#[trigger] s[q], by_radius) >= key,
        insert_pos(s, key, by_radius) < s.len() ==> rank_key(s[insert_pos(s, key, by_radius)], by_radius) < key,
    decreases s.len(),
{
    lemma_insert_pos_bounds(s, key, by_radius);
    if s.len() > 0 && rank_key(s[0], by_radius) >= key {
        let t = s.subrange(1, s.len() as int);
        lemma_insert_pos_splits(t, key, by_radius);
        lemma_insert_pos_bounds(t, key, by_radius);
        assert forall|q: int| 0 <= q < insert_pos(s, key, by_radius) implies rank_key(#[trigger] s[q], by_radius)
            >= key by {
            if q > 0 {
                assert(s[q] == t[q - 1]);
            }
        }
    }
}

/// Ranking orders keypoints by non-increasing key and keeps exactly the
/// keypoints it was given.
pub proof fn lemma_ranked_is_sorted_permutation(s: Seq<FastKeypoint>, by_radius: bool)
    ensures
        is_ranked(ranked(s, by_radius), by_radius),
        ranked(s, by_radius).to_multiset() == s.to_multiset(),
    decreases s.len(),
{
    broadcast use vstd::seq_lib::group_to_multiset_ensures;

    if s.len() > 0 {
        let r = ranked(s.drop_last(), by_radius);
        let x = s.last();
        let k = rank_key(x, by_radius);
        let p = insert_pos(r, k, by_radius);
        lemma_ranked_is_sorted_permutation(s.drop_last(), by_radius);
        lemma_insert_pos_bounds(r, k, by_radius);
        lemma_insert_pos_splits(r, k, by_radius);
        let t = r.insert(p, x);
        assert forall|i: int, j: int| 0 <= i < j < t.len() implies rank_key(t[i], by_radius) >= rank_key(
            t[j],
            by_radius,
        ) by {
            if p < r.len() {
                assert(rank_key(r[p], by_radius) < k);
            }
            if i < p && j > p {
                assert(rank_key(r[i], by_radius) >= k);
            }
            if i == p && j > p {
                assert(rank_key(r[p], by_radius) >= rank_key(r[j - 1], by_radius));
            }
            if i < p && j == p {
                assert(rank_key(r[i], by_radius) >= k);
            }
        }
        assert(t.remove(p) =~= r);
        assert(s.drop_last().push(x) =~= s);
        assert(t.to_multiset() =~= r.to_multiset().insert(x)) by {
            assert(t.remove(p).to_multiset() =~= t.to_multiset().remove(x));
            assert(t.to_multiset().count(x) > 0) by {
                assert(t.contains(x)) by {
                    assert(t[p] == x);
                }
            }
        }
    }
}

pub open spec fn min_nat(a: nat, b: nat) -> nat {
    if a <= b {
        a
    } else {
        b
    }
}

/// The distance from keypoint `i` of `s` to the nearest of the first `m`
/// keypoints (`m >= 1`).
pub open spec fn nearest_among(s: Seq<FastKeypoint>, i: int, m: int) -> nat
    decreases m,
{
    if m <= 1 {
        s[0].spec_distance(&s[i])
    } else {
        min_nat(nearest_among(s, i, m - 1), s[m - 1].spec_distance(&s[i]))
    }
}

/// The keypoints of `s` but its first and last, each with its suppression
/// radius: the distance to the nearest keypoint before it.
pub open spec fn with_radii(s: Seq<FastKeypoint>) -> Seq<FastKeypoint> {
    Seq::new(
        (s.len() - 2) as nat,
        |k: int|
            FastKeypoint {
                location: s[k + 1].location,
                score: s[k + 1].score,
                nms_dist: nearest_among(s, k + 1, k + 1) as usize,
                moment: s[k + 1].moment,
            },
    )
}

/// The `n` keypoints that adaptive suppression keeps from `s`: rank `s` by
/// strength, give each keypoint but the first and last its suppression
/// radius, rank those by radius and keep the first `n`.
pub open spec fn suppressed(s: Seq<FastKeypoint>, n: int) -> Seq<FastKeypoint> {
    ranked(with_radii(ranked(s, false)), true).take(n)
}

/// Keeps `n` well spread keypoints: `vec` is ranked by descending strength
/// (left so), each keypoint but the first and last gets the distance to the
/// nearest stronger one as its suppression radius, and the `n` with the
/// largest radii come back, largest first. Fails with `Underflow`, leaving
/// `vec` as it was, where `n` exceeds `vec.len() - 2`.
pub fn adaptive_nonmax_suppression(vec: &mut Vec<FastKeypoint>, n: usize) -> (r: Result<
    Vec<FastKeypoint>,
    OrbError,
>)
    ensures
        r.is_err() <==> n + 2 > old(vec)@.len(),
        r matches Err(e) ==> e == OrbError::Underflow && final(vec)@ == old(vec)@,
        r matches Ok(v) ==> v@ == suppressed(old(vec)@, n as int) && final(vec)@ == ranked(
            old(vec)@,
            false,
        ),
        r matches Ok(v) ==> v@.len() == n && n <= old(vec)@.len() - 2,
{
    let len = vec.len();
    if len < 2 || n > len - 2 {
        return Err(OrbError::Underflow);
    }
    let ghost given = vec@;
    let sorted = rank(vec, false);
    proof {
        lemma_ranked_len(given, false);
    }
    let mut candidates: Vec<FastKeypoint> = Vec::new();
    let mut i: usize = 1;
    while i < len - 1
        invariant
            sorted@ == ranked(given, false),
            sorted@.len() == len,
            len >= 2,
            1 <= i <= len - 1,
            candidates@.len() == i - 1,
            forall|k: int| 0 <= k < i - 1 ==> #[trigger] candidates@[k] == with_radii(sorted@)[k],
        decreases len - 1 - i,
    {
        let d1 = &sorted[i];
        let mut min_dist: usize = sorted[0].distance(d1);
        let mut j: usize = 1;
        while j < i
            invariant
                sorted@.len() == len,
                1 <= j <= i < len,
                *d1 == sorted@[i as int],
                min_dist == nearest_among(sorted@, i as int, j as int),
            decreases i - j,
        {
            let dist = sorted[j].distance(d1);
            if dist < min_dist {
                min_dist = dist;
            }
            j = j + 1;
        }
        candidates.push(
            FastKeypoint { location: d1.location, score: d1.score, nms_dist: min_dist, moment: d1.moment },
        );
        i = i + 1;
    }
    assert(candidates@ =~= with_radii(sorted@));
    let order = rank(&candidates, true);
    proof {
        lemma_ranked_len(candidates@, true);
    }
    let mut maximal_keypoints: Vec<FastKeypoint> = Vec::new();
    let mut k: usize = 0;
    while k < n
        invariant
            k <= n <= order@.len(),
            maximal_keypoints@ == order@.take(k as int),
        decreases n - k,
    {
        maximal_keypoints.push(order[k]);
        assert(maximal_keypoints@ =~= order@.take(k as int + 1));
        k = k + 1;
    }
    *vec = sorted;
    Ok(maximal_keypoints)
}

} // verus!
