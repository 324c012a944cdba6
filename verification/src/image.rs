use vstd::prelude::*;
use crate::fitness::l1_dist;
use crate::scores::{sorted_by_fitness, stable_reorder, sort_scores, lemma_permutation_keeps_entries,
    lemma_sorted_first_is_min};
use vstd::pervasive::VecAdditionalExecFns;
use crate::rng::rand_range;
use vstd::arithmetic::div_mod::{lemma_fundamental_div_mod, lemma_fundamental_div_mod_converse};

verus! {

/// The mutation blend: an even 50/50 blend of a sample toward a gray value,
/// both operands halved (floor division) before summing, so the result is at
/// most 127 + 127 and never leaves the 8-bit range.
pub open spec fn blend(p: u8, color: u8) -> u8 {
    ((p / 2) + (color / 2)) as u8
}

/// The blend never produces a value outside the byte range: both halves are
/// at most 127, so the sum is at most 254 and the cast never truncates.
pub proof fn lemma_blend_in_range(p: u8, color: u8)
    ensures
        blend(p, color) == (p / 2) + (color / 2),
        blend(p, color) <= 254,
{
}

/// Whether the flat index `i` (row-major, rows of `width` samples) lies in the
/// mutation rectangle covering rows [end_y, end_y + span_y) and columns
/// [end_x, end_x + span_x).
pub open spec fn in_rect(
    i: int,
    width: int,
    end_x: int,
    end_y: int,
    span_x: int,
    span_y: int,
) -> bool {
    &&& end_y <= i / width < end_y + span_y
    &&& end_x <= i % width < end_x + span_x
}

/// The candidate after blending the mutation rectangle with `color`: samples
/// inside the rectangle are blended, all others are unchanged.
pub open spec fn blend_rect_spec(
    orig: Seq<u8>,
    width: int,
    end_x: int,
    end_y: int,
    span_x: int,
    span_y: int,
    color: u8,
) -> Seq<u8> {
    Seq::new(
        orig.len(),
        |i: int|
            if in_rect(i, width, end_x, end_y, span_x, span_y) {
                blend(orig[i], color)
            } else {
                orig[i]
            },
    )
}

/// Blends the rectangle rows [end_y, end_y + span_y) x columns
/// [end_x, end_x + span_x) of a row-major candidate toward `color`:
/// every sample in the rectangle becomes (sample / 2) + (color / 2), every
/// other sample is untouched.
pub fn blend_rect(
    candidate: &mut Vec<u8>,
    width: u32,
    height: u32,
    end_x: u32,
    end_y: u32,
    span_x: u32,
    span_y: u32,
    color: u8,
)
    requires
        old(candidate)@.len() == width * height,
        1 <= end_x,
        1 <= end_y,
        1 <= span_x,
        1 <= span_y,
        end_x + span_x < width,
        end_y + span_y < height,
    ensures
        final(candidate)@ == blend_rect_spec(
            old(candidate)@,
            width as int,
            end_x as int,
            end_y as int,
            span_x as int,
            span_y as int,
            color,
        ),
{
    let ghost orig: Seq<u8> = candidate@;
    let mut x: u32 = end_y;
    while x < end_y + span_y
        invariant
            orig.len() == width * height,
            1 <= end_x,
            1 <= end_y,
            1 <= span_x,
            1 <= span_y,
            end_x + span_x < width,
            end_y + span_y < height,
            end_y <= x <= end_y + span_y,
            candidate@.len() == orig.len(),
            forall|i: int|
                0 <= i < candidate@.len() ==> candidate@[i] == (
                if in_rect(i, width as int, end_x as int, end_y as int, span_x as int, x - end_y) {
                    blend(orig[i], color)
                } else {
                    orig[i]
                }),
        decreases end_y + span_y - x,
    {
        let mut y: u32 = end_x;
        while y < end_x + span_x
            invariant
                orig.len() == width * height,
                1 <= end_x,
                1 <= end_y,
                1 <= span_x,
                1 <= span_y,
                end_x + span_x < width,
                end_y + span_y < height,
                end_y <= x < end_y + span_y,
                end_x <= y <= end_x + span_x,
                candidate@.len() == orig.len(),
                forall|i: int|
                    0 <= i < candidate@.len() ==> candidate@[i] == (
                    if in_rect(i, width as int, end_x as int, end_y as int, span_x as int, x - end_y)
                        || (i / (width as int) == x && end_x <= i % (width as int) < y) {
                        blend(orig[i], color)
                    } else {
                        orig[i]
                    }),
            decreases end_x + span_x - y,
        {
            proof {
                assert((x as int) * (width as int) + (y as int) < (width as int) * (height as int))
                    by (nonlinear_arith)
                    requires
                        x < height,
                        y < width,
                        0 < width,
                        0 < height,
                ;
                lemma_fundamental_div_mod_converse(
                    (x as int) * (width as int) + (y as int),
                    width as int,
                    x as int,
                    y as int,
                );
            }
            let n: usize = candidate.len();
            proof {
                assert((x as int) * (width as int) + (y as int) < n as int);
                assert(0 <= (x as int) * (width as int)) by (nonlinear_arith)
                    requires
                        0 <= x,
                        0 <= width,
                ;
            }
            let idx: usize = (x as usize) * (width as usize) + (y as usize);
            let p: u8 = candidate[idx];
            candidate.set(idx, (p / 2) + (color / 2));
            proof {
                assert forall|i: int| 0 <= i < candidate@.len() implies candidate@[i] == (
                    if in_rect(i, width as int, end_x as int, end_y as int, span_x as int, x - end_y)
                        || (i / (width as int) == x && end_x <= i % (width as int) < y + 1) {
                        blend(orig[i], color)
                    } else {
                        orig[i]
                    }) by {
                    if i != idx && i / (width as int) == x && i % (width as int) == y {
                        lemma_fundamental_div_mod(i, width as int);
                        assert((width as int) * (x as int) == (x as int) * (width as int))
                            by (nonlinear_arith);
                        assert(false);
                    }
                }
            }
            y = y + 1;
        }
        x = x + 1;
    }
    proof {
        assert(candidate@ =~= blend_rect_spec(
            orig,
            width as int,
            end_x as int,
            end_y as int,
            span_x as int,
            span_y as int,
            color,
        ));
    }
}

/// The ranges the mutation operator draws from: an anchor strictly inside the
/// image with at least one row and one column to spare, spans that keep the
/// rectangle inside row height - 1 and column width - 1, and a gray level
/// below 255.
pub open spec fn valid_draw(
    width: u32,
    height: u32,
    end_x: u32,
    end_y: u32,
    span_x: u32,
    span_y: u32,
    color: u8,
) -> bool {
    &&& 1 <= end_x < width - 1
    &&& 1 <= end_y < height - 1
    &&& 1 <= span_x
    &&& end_x + span_x < width
    &&& 1 <= span_y
    &&& end_y + span_y < height
    &&& color < 255
}

/// A candidate is a mutation of another when some in-range draw turns the old
/// one into the new one by a single rectangle blend.
pub open spec fn mutated_from(new: Seq<u8>, prev: Seq<u8>, width: u32, height: u32) -> bool {
    exists|end_x: u32, end_y: u32, span_x: u32, span_y: u32, color: u8|
        valid_draw(width, height, end_x, end_y, span_x, span_y, color) && new == blend_rect_spec(
            prev,
            width as int,
            end_x as int,
            end_y as int,
            span_x as int,
            span_y as int,
            color,
        )
}

/// Perturbs every candidate in the population independently: draws a random
/// rectangle and a random gray level, then blends the rectangle toward that
/// gray level. Each candidate's new value is some in-range rectangle blend of
/// its old value.
pub fn mutate(population: &mut Vec<Vec<u8>>, height: u32, width: u32)
    requires
        2 < width,
        2 < height,
        forall|k: int|
            0 <= k < old(population)@.len() ==> (#[trigger] old(population)@[k])@.len() == width
                * height,
    ensures
        final(population)@.len() == old(population)@.len(),
        forall|k: int|
            0 <= k < final(population)@.len() ==> mutated_from(
                (#[trigger] final(population)@[k])@,
                old(population)@[k]@,
                width,
                height,
            ),
{
    let ghost orig: Seq<Vec<u8>> = population@;
    let n: usize = population.len();
    let mut k: usize = 0;
    while k < n
        invariant
            2 < width,
            2 < height,
            n == orig.len(),
            population@.len() == orig.len(),
            k <= n,
            forall|j: int|
                0 <= j < orig.len() ==> (#[trigger] orig[j])@.len() == width * height,
            forall|j: int| k <= j < orig.len() ==> population@[j] == orig[j],
            forall|j: int|
                0 <= j < k ==> mutated_from(
                    (#[trigger] population@[j])@,
                    orig[j]@,
                    width,
                    height,
                ),
        decreases n - k,
    {
        let end_x: u32 = rand_range(1, (width - 1) as u64) as u32;
        let end_y: u32 = rand_range(1, (height - 1) as u64) as u32;
        let span_x: u32 = rand_range(1, (width - end_x) as u64) as u32;
        let span_y: u32 = rand_range(1, (height - end_y) as u64) as u32;
        let color: u8 = rand_range(0, 255) as u8;

        let mut cand: Vec<u8> = Vec::new();
        proof {
            assert(population@[k as int] == orig[k as int]);
        }
        population.set_and_swap(k, &mut cand);
        proof {
            assert(cand@ == orig[k as int]@);
            assert(orig[k as int]@.len() == width * height);
        }
        blend_rect(&mut cand, width, height, end_x, end_y, span_x, span_y, color);
        population.set_and_swap(k, &mut cand);
        proof {
            assert(valid_draw(width, height, end_x, end_y, span_x, span_y, color));
            assert(population@[k as int]@ == blend_rect_spec(
                orig[k as int]@,
                width as int,
                end_x as int,
                end_y as int,
                span_x as int,
                span_y as int,
                color,
            ));
            assert(mutated_from(population@[k as int]@, orig[k as int]@, width, height));
        }
        k = k + 1;
    }
}

/// Copies the whole byte sequence of `src` over `dst`, covering every index
/// from 0 through length - 1 inclusive.
pub fn copy_from(dst: &mut Vec<u8>, src: &Vec<u8>)
    requires
        old(dst)@.len() == src@.len(),
    ensures
        final(dst)@ == src@,
{
    let n: usize = src.len();
    let mut k: usize = 0;
    while k < n
        invariant
            n == src@.len(),
            dst@.len() == src@.len(),
            k <= n,
            forall|m: int| 0 <= m < k ==> dst@[m] == src@[m],
        decreases n - k,
    {
        dst.set(k, src[k]);
        k = k + 1;
    }
    proof {
        assert(dst@ =~= src@);
    }
}

/// Clones a candidate buffer; the copy holds exactly the same bytes.
pub fn clone_candidate(c: &Vec<u8>) -> (r: Vec<u8>)
    ensures
        r@ == c@,
{
    let r = c.clone();
    proof {
        assert forall|i: int| 0 <= i < c@.len() implies r@[i] == c@[i] by {
            assert(cloned::<u8>(c@[i], r@[i]));
        }
        assert(r@ =~= c@);
    }
    r
}

/// A candidate is re-seeded from the elite buffer when its bytes equal some
/// elite's bytes.
pub open spec fn reseeded_from(cand: Seq<u8>, best: Seq<Vec<u8>>) -> bool {
    exists|j: int| 0 <= j < best.len() && cand == (#[trigger] best[j])@
}

/// Re-seeds the population: overwrites every candidate's entire byte sequence
/// with the bytes of one elite drawn uniformly at random from the elite
/// buffer (full replacement, not a partial splice).
pub fn cross(population: &mut Vec<Vec<u8>>, best: &Vec<Vec<u8>>)
    requires
        best@.len() > 0,
        forall|i: int, j: int|
            0 <= i < old(population)@.len() && 0 <= j < best@.len()
                ==> (#[trigger] old(population)@[i])@.len() == (#[trigger] best@[j])@.len(),
    ensures
        final(population)@.len() == old(population)@.len(),
        forall|i: int|
            0 <= i < final(population)@.len() ==> reseeded_from(
                (#[trigger] final(population)@[i])@,
                best@,
            ),
{
    let ghost orig: Seq<Vec<u8>> = population@;
    let n: usize = population.len();
    let mut i: usize = 0;
    while i < n
        invariant
            n == orig.len(),
            population@.len() == orig.len(),
            i <= n,
            best@.len() > 0,
            forall|a: int, j: int|
                0 <= a < orig.len() && 0 <= j < best@.len() ==> (#[trigger] orig[a])@.len() == (
                #[trigger] best@[j])@.len(),
            forall|a: int| i <= a < orig.len() ==> population@[a] == orig[a],
            forall|a: int| 0 <= a < i ==> reseeded_from((#[trigger] population@[a])@, best@),
        decreases n - i,
    {
        let j: usize = rand_range(0, best.len() as u64) as usize;
        let mut cand: Vec<u8> = Vec::new();
        proof {
            assert(population@[i as int] == orig[i as int]);
        }
        population.set_and_swap(i, &mut cand);
        proof {
            assert(cand@.len() == best@[j as int]@.len());
        }
        copy_from(&mut cand, &best[j]);
        population.set_and_swap(i, &mut cand);
        proof {
            assert(population@[i as int]@ == best@[j as int]@);
            assert(reseeded_from(population@[i as int]@, best@));
        }
        i = i + 1;
    }
}

/// Scores every candidate against the target: entry i of the score table
/// becomes (i, fitness of candidate i). Every candidate and every byte
/// position is visited; the table is overwritten in place.
pub fn score(population: &Vec<Vec<u8>>, original_bytes: &Vec<u8>, scores: &mut Vec<(usize, u64)>)
    requires
        old(scores)@.len() == population@.len(),
        forall|k: int|
            0 <= k < population@.len() ==> (#[trigger] population@[k])@.len()
                == original_bytes@.len(),
        255 * original_bytes@.len() <= u64::MAX,
    ensures
        final(scores)@.len() == population@.len(),
        forall|k: int|
            0 <= k < population@.len() ==> (#[trigger] final(scores)@[k]).0 == k
                && final(scores)@[k].1 == l1_dist(population@[k]@, original_bytes@),
{
    let n: usize = population.len();
    let mut j: usize = 0;
    while j < n
        invariant
            n == population@.len(),
            scores@.len() == population@.len(),
            j <= n,
            forall|k: int|
                0 <= k < population@.len() ==> (#[trigger] population@[k])@.len()
                    == original_bytes@.len(),
            255 * original_bytes@.len() <= u64::MAX,
            forall|k: int|
                0 <= k < j ==> (#[trigger] scores@[k]).0 == k && scores@[k].1 == l1_dist(
                    population@[k]@,
                    original_bytes@,
                ),
        decreases n - j,
    {
        let value: u64 = crate::fitness::fitness(&population[j], original_bytes);
        scores.set(j, (j, value));
        j = j + 1;
    }
}

/// Refreshes the elite buffer: sorts the score table ascending by fitness
/// (stable for equal values) and copies the candidates at the first K sorted
/// entries into the buffer, in ascending-fitness order, replacing its
/// previous contents entirely.
pub fn note_best_speciment(
    population: &Vec<Vec<u8>>,
    scores: &mut Vec<(usize, u64)>,
    best: &mut Vec<Vec<u8>>,
)
    requires
        old(scores)@.len() == population@.len(),
        old(best)@.len() <= population@.len(),
        forall|k: int|
            0 <= k < old(scores)@.len() ==> (#[trigger] old(scores)@[k]).0 < population@.len(),
    ensures
        final(scores)@.to_multiset() == old(scores)@.to_multiset(),
        final(scores)@.len() == old(scores)@.len(),
        sorted_by_fitness(final(scores)@),
        stable_reorder(old(scores)@, final(scores)@),
        forall|k: int|
            0 <= k < final(scores)@.len() ==> (#[trigger] final(scores)@[k]).0
                < population@.len(),
        final(best)@.len() == old(best)@.len(),
        forall|k: int|
            0 <= k < final(best)@.len() ==> (#[trigger] final(best)@[k])@
                == population@[final(scores)@[k].0 as int]@,
{
    sort_scores(scores);
    proof {
        lemma_permutation_keeps_entries(
            old(scores)@,
            scores@,
            |e: (usize, u64)| e.0 < population@.len(),
        );
    }
    let kk: usize = best.len();
    let mut k: usize = 0;
    while k < kk
        invariant
            kk == best@.len(),
            kk <= population@.len(),
            scores@.len() == population@.len(),
            k <= kk,
            forall|m: int| 0 <= m < scores@.len() ==> (#[trigger] scores@[m]).0
                < population@.len(),
            forall|m: int|
                0 <= m < k ==> (#[trigger] best@[m])@ == population@[scores@[m].0 as int]@,
        decreases kk - k,
    {
        let idx: usize = scores[k].0;
        let c: Vec<u8> = clone_candidate(&population[idx]);
        best.set(k, c);
        k = k + 1;
    }
}

/// After one cycle's scoring and extraction, each sorted score entry still
/// carries its candidate's exact fitness, the elite buffer ascends by
/// fitness, and the first elite's fitness is at most every population
/// member's fitness of that cycle.
pub proof fn lemma_elites_dominate(
    pop: Seq<Vec<u8>>,
    target: Seq<u8>,
    pre: Seq<(usize, u64)>,
    post: Seq<(usize, u64)>,
    best: Seq<Vec<u8>>,
)
    requires
        pre.len() == pop.len(),
        forall|k: int|
            0 <= k < pre.len() ==> (#[trigger] pre[k]).0 == k && pre[k].1 == l1_dist(
                pop[k]@,
                target,
            ),
        sorted_by_fitness(post),
        post.to_multiset() == pre.to_multiset(),
        post.len() == pre.len(),
        best.len() <= post.len(),
        forall|k: int| 0 <= k < best.len() ==> (#[trigger] best[k])@ == pop[post[k].0 as int]@,
        forall|k: int| 0 <= k < post.len() ==> (#[trigger] post[k]).0 < pop.len(),
    ensures
        forall|k: int|
            0 <= k < post.len() ==> (#[trigger] post[k]).1 == l1_dist(
                pop[post[k].0 as int]@,
                target,
            ),
        forall|a: int, b: int|
            0 <= a <= b < best.len() ==> l1_dist((#[trigger] best[a])@, target) <= l1_dist(
                (#[trigger] best[b])@,
                target,
            ),
        best.len() > 0 ==> forall|j: int|
            0 <= j < pop.len() ==> l1_dist(best[0]@, target) <= l1_dist(
                (#[trigger] pop[j])@,
                target,
            ),
{
    lemma_permutation_keeps_entries(
        pre,
        post,
        |e: (usize, u64)| e.0 < pop.len() && e.1 == l1_dist(pop[e.0 as int]@, target),
    );
    assert forall|a: int, b: int| 0 <= a <= b < best.len() implies l1_dist(best[a]@, target)
        <= l1_dist(best[b]@, target) by {
        assert(post[a].1 == l1_dist(pop[post[a].0 as int]@, target));
        assert(post[b].1 == l1_dist(pop[post[b].0 as int]@, target));
        assert(post[a].1 <= post[b].1);
    }
    if best.len() > 0 {
        lemma_sorted_first_is_min(pre, post);
        assert forall|j: int| 0 <= j < pop.len() implies l1_dist(best[0]@, target) <= l1_dist(
            pop[j]@,
            target,
        ) by {
            assert(post[0].1 <= pre[j].1);
            assert(post[0].1 == l1_dist(pop[post[0].0 as int]@, target));
        }
    }
}

/// Re-seeding followed immediately by evaluation reproduces exactly the
/// source elite's fitness: every re-seeded candidate scores the same as some
/// elite whose bytes it carries.
pub open spec fn scores_some_elite(v: u64, best: Seq<Vec<u8>>, target: Seq<u8>) -> bool {
    exists|j: int| 0 <= j < best.len() && v == l1_dist((#[trigger] best[j])@, target)
}

/// Re-seeding followed immediately by evaluation reproduces exactly the
/// source elite's fitness: every re-seeded candidate's score equals the score
/// of the elite whose bytes it carries.
pub proof fn lemma_reseed_roundtrip(
    pop: Seq<Vec<u8>>,
    best: Seq<Vec<u8>>,
    target: Seq<u8>,
    scores: Seq<(usize, u64)>,
)
    requires
        scores.len() == pop.len(),
        forall|i: int| 0 <= i < pop.len() ==> reseeded_from((#[trigger] pop[i])@, best),
        forall|i: int|
            0 <= i < pop.len() ==> (#[trigger] scores[i]).1 == l1_dist(pop[i]@, target),
    ensures
        forall|i: int|
            0 <= i < pop.len() ==> scores_some_elite((#[trigger] scores[i]).1, best, target),
{
    assert forall|i: int| 0 <= i < pop.len() implies scores_some_elite(
        scores[i].1,
        best,
        target,
    ) by {
        assert(reseeded_from(pop[i]@, best));
        let j = choose|j: int| 0 <= j < best.len() && pop[i]@ == (#[trigger] best[j])@;
        assert(scores[i].1 == l1_dist(best[j]@, target));
    }
}


/// The standing shape of one cycle's state: population and score table the
/// same size, a non-empty elite buffer no larger than the population, and
/// every candidate and elite exactly width * height samples long.
pub open spec fn cycle_state_ok(
    pop: Seq<Vec<u8>>,
    best: Seq<Vec<u8>>,
    scores: Seq<(usize, u64)>,
    width: u32,
    height: u32,
) -> bool {
    &&& scores.len() == pop.len()
    &&& 0 < best.len() <= pop.len()
    &&& forall|k: int| 0 <= k < pop.len() ==> (#[trigger] pop[k])@.len() == width * height
    &&& forall|k: int| 0 <= k < best.len() ==> (#[trigger] best[k])@.len() == width * height
}

/// What extraction guarantees at a cycle's end: the score table is sorted
/// ascending by fitness and carries each candidate's exact fitness, the elite
/// buffer holds the candidates at the first sorted entries in
/// ascending-fitness order, and the first elite's fitness is at most every
/// population member's fitness.
pub open spec fn cycle_result_ok(
    pop: Seq<Vec<u8>>,
    best: Seq<Vec<u8>>,
    scores: Seq<(usize, u64)>,
    target: Seq<u8>,
) -> bool {
    &&& sorted_by_fitness(scores)
    &&& forall|k: int|
        0 <= k < scores.len() ==> (#[trigger] scores[k]).0 < pop.len() && scores[k].1 == l1_dist(
            pop[scores[k].0 as int]@,
            target,
        )
    &&& forall|k: int| 0 <= k < best.len() ==> (#[trigger] best[k])@ == pop[scores[k].0 as int]@
    &&& forall|a: int, b: int|
        0 <= a <= b < best.len() ==> l1_dist((#[trigger] best[a])@, target) <= l1_dist(
            (#[trigger] best[b])@,
            target,
        )
    &&& best.len() > 0 ==> forall|j: int|
        0 <= j < pop.len() ==> l1_dist(best[0]@, target) <= l1_dist((#[trigger] pop[j])@, target)
}

/// Runs one full cycle: re-seed every candidate from a random elite, mutate
/// every candidate with a random rectangle blend, score every candidate
/// against the target, then refresh the elite buffer with the lowest-fitness
/// candidates in ascending order.
/// A candidate is an offspring of the elite buffer when it is a single
/// in-range rectangle blend of some elite's bytes.
pub open spec fn offspring_of(cand: Seq<u8>, best: Seq<Vec<u8>>, width: u32, height: u32) -> bool {
    exists|j: int| 0 <= j < best.len() && mutated_from(cand, (#[trigger] best[j])@, width, height)
}

pub fn run_cycle(
    population: &mut Vec<Vec<u8>>,
    best: &mut Vec<Vec<u8>>,
    scores: &mut Vec<(usize, u64)>,
    target: &Vec<u8>,
    width: u32,
    height: u32,
)
    requires
        2 < width,
        2 < height,
        target@.len() == width * height,
        255 * target@.len() <= u64::MAX,
        cycle_state_ok(old(population)@, old(best)@, old(scores)@, width, height),
    ensures
        final(population)@.len() == old(population)@.len(),
        final(best)@.len() == old(best)@.len(),
        cycle_state_ok(final(population)@, final(best)@, final(scores)@, width, height),
        cycle_result_ok(final(population)@, final(best)@, final(scores)@, target@),
        forall|i: int|
            0 <= i < final(population)@.len() ==> offspring_of(
                (#[trigger] final(population)@[i])@,
                old(best)@,
                width,
                height,
            ),
{
    cross(population, best);
    proof {
        assert forall|k: int| 0 <= k < population@.len() implies (#[trigger] population@[k])@.len()
            == width * height by {
            assert(reseeded_from(population@[k]@, old(best)@));
            let j = choose|j: int|
                0 <= j < old(best)@.len() && population@[k]@ == (#[trigger] old(best)@[j])@;
            assert(old(best)@[j]@.len() == width * height);
        }
    }
    let ghost mid: Seq<Vec<u8>> = population@;
    mutate(population, height, width);
    proof {
        assert forall|k: int| 0 <= k < population@.len() implies (#[trigger] population@[k])@.len()
            == width * height by {
            assert(mutated_from(population@[k]@, mid[k]@, width, height));
            let (ex, ey, sx, sy, c): (u32, u32, u32, u32, u8) = choose|
                ex: u32,
                ey: u32,
                sx: u32,
                sy: u32,
                c: u8,
            |
                valid_draw(width, height, ex, ey, sx, sy, c) && population@[k]@ == blend_rect_spec(
                    mid[k]@,
                    width as int,
                    ex as int,
                    ey as int,
                    sx as int,
                    sy as int,
                    c,
                );
            assert(population@[k]@.len() == mid[k]@.len());
        }
    }
    proof {
        assert forall|i: int| 0 <= i < population@.len() implies offspring_of(
            population@[i]@,
            old(best)@,
            width,
            height,
        ) by {
            assert(reseeded_from(mid[i]@, old(best)@));
            let j = choose|j: int| 0 <= j < old(best)@.len() && mid[i]@ == (#[trigger] old(best)@[j])@;
            assert(mutated_from(population@[i]@, old(best)@[j]@, width, height));
        }
    }
    score(population, target, scores);
    let ghost pre_scores: Seq<(usize, u64)> = scores@;
    note_best_speciment(population, scores, best);
    proof {
        lemma_elites_dominate(population@, target@, pre_scores, scores@, best@);
    }
}

/// Runs the evolutionary loop for `cycles` full passes of
/// reseed -> mutate -> evaluate -> extract-best. Running zero cycles leaves
/// the population, the elite buffer and the score table exactly as they were;
/// after at least one cycle the elite buffer is refreshed as run_cycle
/// guarantees.
pub fn run_cycles(
    population: &mut Vec<Vec<u8>>,
    best: &mut Vec<Vec<u8>>,
    scores: &mut Vec<(usize, u64)>,
    target: &Vec<u8>,
    width: u32,
    height: u32,
    cycles: u32,
)
    requires
        2 < width,
        2 < height,
        target@.len() == width * height,
        255 * target@.len() <= u64::MAX,
        cycle_state_ok(old(population)@, old(best)@, old(scores)@, width, height),
    ensures
        final(population)@.len() == old(population)@.len(),
        final(best)@.len() == old(best)@.len(),
        cycle_state_ok(final(population)@, final(best)@, final(scores)@, width, height),
        cycles == 0 ==> final(population)@ == old(population)@ && final(best)@ == old(best)@
            && final(scores)@ == old(scores)@,
        cycles > 0 ==> cycle_result_ok(
            final(population)@,
            final(best)@,
            final(scores)@,
            target@,
        ),
{
    let mut c: u32 = 0;
    while c < cycles
        invariant
            2 < width,
            2 < height,
            target@.len() == width * height,
            255 * target@.len() <= u64::MAX,
            c <= cycles,
            population@.len() == old(population)@.len(),
            best@.len() == old(best)@.len(),
            cycle_state_ok(population@, best@, scores@, width, height),
            c == 0 ==> population@ == old(population)@ && best@ == old(best)@ && scores@ == old(
                scores,
            )@,
            c > 0 ==> cycle_result_ok(population@, best@, scores@, target@),
        decreases cycles - c,
    {
        run_cycle(population, best, scores, target, width, height);
        c = c + 1;
    }
}

} // verus!
