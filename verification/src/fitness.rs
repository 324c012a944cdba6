use vstd::prelude::*;

verus! {

/// Absolute difference of two samples, as a mathematical integer.
pub open spec fn abs_diff(a: u8, b: u8) -> int {
    if a < b {
        b - a
    } else {
        a - b
    }
}

/// L1 distance between two equal-length sample buffers: the sum of
/// per-sample absolute differences. Lower is better; 0 is a perfect match.
pub open spec fn l1_dist(a: Seq<u8>, b: Seq<u8>) -> int
    recommends
        a.len() == b.len(),
    decreases a.len(),
{
    if a.len() == 0 {
        0
    } else {
        l1_dist(a.drop_last(), b.drop_last()) + abs_diff(a.last(), b.last())
    }
}

/// Computes the fitness of a candidate against the target buffer:
/// the sum of absolute per-sample differences over every byte position.
pub fn fitness(candidate: &Vec<u8>, target: &Vec<u8>) -> (r: u64)
    requires
        candidate@.len() == target@.len(),
        255 * target@.len() <= u64::MAX,
    ensures
        r == l1_dist(candidate@, target@),
{
    let mut value: u64 = 0;
    let mut i: usize = 0;
    while i < target.len()
        invariant
            candidate@.len() == target@.len(),
            255 * target@.len() <= u64::MAX,
            i <= target@.len(),
            value == l1_dist(candidate@.take(i as int), target@.take(i as int)),
        decreases target@.len() - i,
    {
        proof {
            lemma_l1_dist_bound(candidate@.take(i as int), target@.take(i as int));
            assert(candidate@.take(i + 1).drop_last() =~= candidate@.take(i as int));
            assert(target@.take(i + 1).drop_last() =~= target@.take(i as int));
        }
        let d: u8 = if target[i] < candidate[i] {
            candidate[i] - target[i]
        } else {
            target[i] - candidate[i]
        };
        value = value + d as u64;
        i = i + 1;
    }
    proof {
        assert(candidate@.take(target@.len() as int) =~= candidate@);
        assert(target@.take(target@.len() as int) =~= target@);
    }
    value
}

/// The L1 distance never exceeds 255 per sample.
pub proof fn lemma_l1_dist_bound(a: Seq<u8>, b: Seq<u8>)
    requires
        a.len() == b.len(),
    ensures
        0 <= l1_dist(a, b) <= 255 * a.len(),
    decreases a.len(),
{
    if a.len() > 0 {
        lemma_l1_dist_bound(a.drop_last(), b.drop_last());
    }
}

/// Fitness is symmetric: swapping candidate and target leaves the
/// distance unchanged.
pub proof fn lemma_l1_dist_symmetric(a: Seq<u8>, b: Seq<u8>)
    requires
        a.len() == b.len(),
    ensures
        l1_dist(a, b) == l1_dist(b, a),
    decreases a.len(),
{
    if a.len() > 0 {
        lemma_l1_dist_symmetric(a.drop_last(), b.drop_last());
    }
}

/// Fitness is zero if and only if the two buffers are identical.
pub proof fn lemma_l1_dist_zero(a: Seq<u8>, b: Seq<u8>)
    requires
        a.len() == b.len(),
    ensures
        l1_dist(a, b) == 0 <==> a == b,
    decreases a.len(),
{
    if a.len() == 0 {
        assert(a =~= b);
    } else {
        lemma_l1_dist_bound(a.drop_last(), b.drop_last());
        lemma_l1_dist_zero(a.drop_last(), b.drop_last());
        if l1_dist(a, b) == 0 {
            assert(l1_dist(a.drop_last(), b.drop_last()) == 0);
            assert(a.drop_last() == b.drop_last());
            assert(a.last() == b.last());
            assert forall|i: int| 0 <= i < a.len() implies a[i] == b[i] by {
                if i < a.len() - 1 {
                    assert(a[i] == a.drop_last()[i]);
                    assert(b[i] == b.drop_last()[i]);
                }
            }
            assert(a =~= b);
        }
        if a == b {
            assert(a.drop_last() =~= b.drop_last());
        }
    }
}

} // verus!
