use vstd::prelude::*;
use vstd::pervasive::{cloned, VecAdditionalExecFns};
use crate::fitness::{l1_dist, lemma_l1_dist_bound, fitness};
use crate::genetic::{Speciment, Crosser, Mutator};
use crate::image::{blend_rect, clone_candidate, mutated_from};
use crate::scores::{sorted_by_fitness, lemma_permutation_keeps_entries, lemma_sorted_first_is_min};
use crate::rng::rand_range;

verus! {

/// The image-reconstruction candidate: a byte buffer hypothesis paired with
/// the target it is measured against. Its score is the L1 distance between
/// the two, which always fits in 64 bits.
pub struct ImageSpeciment {
    bytes: Vec<u8>,
    target: Vec<u8>,
}

impl ImageSpeciment {
    #[verifier::type_invariant]
    spec fn wf(self) -> bool {
        &&& self.bytes@.len() == self.target@.len()
        &&& 255 * self.target@.len() <= u64::MAX
    }

    /// The candidate's current bytes.
    pub closed spec fn bytes_spec(&self) -> Seq<u8> {
        self.bytes@
    }

    /// The target the candidate is measured against.
    pub closed spec fn target_spec(&self) -> Seq<u8> {
        self.target@
    }

    /// A blank (all-zero) candidate for the given target.
    pub fn new(target: &Vec<u8>) -> (r: ImageSpeciment)
        requires
            255 * target@.len() <= u64::MAX,
        ensures
            r.bytes_spec().len() == target@.len(),
            forall|i: int| 0 <= i < r.bytes_spec().len() ==> r.bytes_spec()[i] == 0,
            r.target_spec() == target@,
    {
        let n: usize = target.len();
        let mut bytes: Vec<u8> = Vec::new();
        let mut i: usize = 0;
        while i < n
            invariant
                i <= n,
                bytes@.len() == i,
                forall|m: int| 0 <= m < i ==> bytes@[m] == 0,
            decreases n - i,
        {
            bytes.push(0);
            i = i + 1;
        }
        ImageSpeciment { bytes, target: clone_candidate(target) }
    }

    /// The candidate's bytes, for rendering or persisting.
    pub fn bytes(&self) -> (r: &Vec<u8>)
        ensures
            r@ == self.bytes_spec(),
    {
        &self.bytes
    }
}

impl Clone for ImageSpeciment {
    /// The copy carries exactly the same bytes and the same target.
    fn clone(&self) -> (r: Self)
        ensures
            r.bytes_spec() == self.bytes_spec(),
            r.target_spec() == self.target_spec(),
    {
        proof {
            use_type_invariant(self);
        }
        ImageSpeciment { bytes: clone_candidate(&self.bytes), target: clone_candidate(&self.target) }
    }
}

impl Speciment for ImageSpeciment {
    open spec fn score_spec(&self) -> u64 {
        l1_dist(self.bytes_spec(), self.target_spec()) as u64
    }

    fn score(&self) -> (r: u64) {
        proof {
            use_type_invariant(self);
            lemma_l1_dist_bound(self.bytes@, self.target@);
        }
        fitness(&self.bytes, &self.target)
    }
}

/// The image strategy's re-seed operator: replaces each candidate with a copy
/// of one elite drawn uniformly at random.
pub struct EliteCrosser {
}

/// A candidate is re-seeded from the elite buffer when it is a clone of some
/// elite.
pub open spec fn clone_of_some_elite(cand: ImageSpeciment, best: Seq<ImageSpeciment>) -> bool {
    exists|j: int| 0 <= j < best.len() && cloned::<ImageSpeciment>(#[trigger] best[j], cand)
}

impl Crosser<ImageSpeciment> for EliteCrosser {
    /// Full genome replacement: every candidate of the re-seeded population
    /// is a clone of some elite.
    open spec fn cross_ok(&self, post: Seq<ImageSpeciment>, best: Seq<ImageSpeciment>) -> bool {
        forall|i: int| 0 <= i < post.len() ==> clone_of_some_elite(#[trigger] post[i], best)
    }

    fn cross(&self, population: &mut Vec<ImageSpeciment>, best: &Vec<ImageSpeciment>) {
        let n: usize = population.len();
        let mut i: usize = 0;
        while i < n
            invariant
                population@.len() == n,
                best@.len() > 0,
                forall|a: int| 0 <= a < i ==> clone_of_some_elite(#[trigger] population@[a], best@),
            decreases n - i,
        {
            let j: usize = rand_range(0, best.len() as u64) as usize;
            let c: ImageSpeciment = best[j].clone();
            proof {
                assert(cloned::<ImageSpeciment>(best@[j as int], c));
                assert(clone_of_some_elite(c, best@));
            }
            population.set(i, c);
            i = i + 1;
        }
    }
}

/// The image strategy's mutation operator: blends one random rectangle of
/// each candidate toward one random gray level. Candidates whose size does
/// not match the configured image, or a degenerate image, are left unchanged.
pub struct RectMutator {
    pub width: u32,
    pub height: u32,
}

/// One mutation step of the image strategy: a candidate whose buffer matches
/// the configured image gets one in-range rectangle blend on its bytes and
/// keeps its target; any other candidate, or any degenerate image, is left
/// unchanged.
pub open spec fn rect_mutated(
    pre: ImageSpeciment,
    post: ImageSpeciment,
    width: u32,
    height: u32,
) -> bool {
    if 2 < width && 2 < height && pre.bytes_spec().len() == width * height {
        post.target_spec() == pre.target_spec() && mutated_from(
            post.bytes_spec(),
            pre.bytes_spec(),
            width,
            height,
        )
    } else {
        post == pre
    }
}

impl Mutator<ImageSpeciment> for RectMutator {
    /// Every candidate is one rectangle-blend mutation of its old self, or
    /// untouched where its size does not match the configured image.
    open spec fn mutate_ok(&self, pre: Seq<ImageSpeciment>, post: Seq<ImageSpeciment>) -> bool {
        &&& post.len() == pre.len()
        &&& forall|i: int|
            0 <= i < pre.len() ==> rect_mutated(pre[i], #[trigger] post[i], self.width, self.height)
    }

    fn mutate(&self, population: &mut Vec<ImageSpeciment>) {
        let ghost orig: Seq<ImageSpeciment> = population@;
        if self.width <= 2 || self.height <= 2 {
            return ;
        }
        let n: usize = population.len();
        let mut i: usize = 0;
        while i < n
            invariant
                population@.len() == n,
                n == orig.len(),
                i <= n,
                2 < self.width,
                2 < self.height,
                forall|a: int| i <= a < orig.len() ==> population@[a] == orig[a],
                forall|a: int|
                    0 <= a < i ==> rect_mutated(
                        orig[a],
                        #[trigger] population@[a],
                        self.width,
                        self.height,
                    ),
            decreases n - i,
        {
            let end_x: u32 = rand_range(1, (self.width - 1) as u64) as u32;
            let end_y: u32 = rand_range(1, (self.height - 1) as u64) as u32;
            let span_x: u32 = rand_range(1, (self.width - end_x) as u64) as u32;
            let span_y: u32 = rand_range(1, (self.height - end_y) as u64) as u32;
            let color: u8 = rand_range(0, 255) as u8;

            let mut c: ImageSpeciment = ImageSpeciment { bytes: Vec::new(), target: Vec::new() };
            proof {
                assert(population@[i as int] == orig[i as int]);
            }
            population.set_and_swap(i, &mut c);
            proof {
                use_type_invariant(&c);
                assert(c == orig[i as int]);
            }
            let ghost pre_c: ImageSpeciment = c;
            let ImageSpeciment { bytes: mut body, target } = c;
            proof {
                assert((self.width as int) * (self.height as int) < 0x1_0000_0000_0000_0000)
                    by (nonlinear_arith)
                    requires
                        self.width < 0x1_0000_0000,
                        self.height < 0x1_0000_0000,
                ;
            }
            let wh: u64 = (self.width as u64) * (self.height as u64);
            let matches_image: bool = body.len() as u64 == wh;
            if matches_image {
                proof {
                    assert(body@.len() == self.width * self.height);
                }
                blend_rect(
                    &mut body,
                    self.width,
                    self.height,
                    end_x,
                    end_y,
                    span_x,
                    span_y,
                    color,
                );
            }
            let mut back: ImageSpeciment = ImageSpeciment { bytes: body, target };
            proof {
                if matches_image {
                    assert(crate::image::valid_draw(
                        self.width,
                        self.height,
                        end_x,
                        end_y,
                        span_x,
                        span_y,
                        color,
                    ));
                    assert(mutated_from(back.bytes_spec(), pre_c.bytes_spec(), self.width, self.height));
                } else {
                    assert(back == pre_c);
                }
                assert(rect_mutated(orig[i as int], back, self.width, self.height));
            }
            population.set_and_swap(i, &mut back);
            i = i + 1;
        }
    }
}

/// A clone of an image candidate scores exactly what its source scores: the
/// copy carries the same bytes and the same target.
pub proof fn lemma_clone_keeps_score(a: ImageSpeciment, b: ImageSpeciment)
    requires
        cloned::<ImageSpeciment>(a, b),
    ensures
        b.score_spec() == a.score_spec(),
{
}

/// The extraction guarantee at the image instance: the elites, being clones,
/// keep their sources' scores, so the elite buffer ascends by score and its
/// first entry's score is at most every population member's score of that
/// cycle. The preconditions are exactly what evaluate and extract_best ensure.
pub proof fn lemma_image_elites_dominate(
    pre: Seq<(usize, u64)>,
    post: Seq<(usize, u64)>,
    pop: Seq<ImageSpeciment>,
    best: Seq<ImageSpeciment>,
)
    requires
        pre.len() == pop.len(),
        forall|k: int|
            0 <= k < pre.len() ==> (#[trigger] pre[k]).0 == k && pre[k].1 == pop[k].score_spec(),
        sorted_by_fitness(post),
        post.to_multiset() == pre.to_multiset(),
        post.len() == pre.len(),
        best.len() <= post.len(),
        forall|k: int| 0 <= k < post.len() ==> (#[trigger] post[k]).0 < pop.len(),
        forall|k: int|
            0 <= k < best.len() ==> cloned::<ImageSpeciment>(
                pop[post[k].0 as int],
                #[trigger] best[k],
            ),
    ensures
        forall|a: int, b: int|
            0 <= a <= b < best.len() ==> (#[trigger] best[a]).score_spec() <= (
            #[trigger] best[b]).score_spec(),
        best.len() > 0 ==> forall|j: int|
            0 <= j < pop.len() ==> best[0].score_spec() <= (#[trigger] pop[j]).score_spec(),
{
    lemma_permutation_keeps_entries(
        pre,
        post,
        |e: (usize, u64)| e.0 < pop.len() && e.1 == pop[e.0 as int].score_spec(),
    );
    assert forall|a: int, b: int| 0 <= a <= b < best.len() implies best[a].score_spec()
        <= best[b].score_spec() by {
        lemma_clone_keeps_score(pop[post[a].0 as int], best[a]);
        lemma_clone_keeps_score(pop[post[b].0 as int], best[b]);
        assert(post[a].1 <= post[b].1);
    }
    if best.len() > 0 {
        lemma_sorted_first_is_min(pre, post);
        assert forall|j: int| 0 <= j < pop.len() implies best[0].score_spec() <= pop[
            j
        ].score_spec() by {
            lemma_clone_keeps_score(pop[post[0].0 as int], best[0]);
            assert(post[0].1 <= pre[j].1);
        }
    }
}

} // verus!
