use vstd::prelude::*;
use vstd::pervasive::VecAdditionalExecFns;
use vstd::seq_lib::to_multiset_update;

verus! {

/// A score table is sorted when fitness values never decrease with the index.
pub open spec fn sorted_by_fitness(s: Seq<(usize, u64)>) -> bool {
    forall|a: int, b: int| 0 <= a <= b < s.len() ==> (#[trigger] s[a]).1 <= (#[trigger] s[b]).1
}

/// The entries of a score table that carry one given fitness value, in their
/// order of appearance.
pub open spec fn entries_with(s: Seq<(usize, u64)>, v: u64) -> Seq<(usize, u64)> {
    s.filter(|e: (usize, u64)| e.1 == v)
}

/// A reordering is stable when, for every fitness value, the subsequence of
/// entries carrying that value stands exactly as it did before: equal fitness
/// values keep their prior relative order.
pub open spec fn stable_reorder(pre: Seq<(usize, u64)>, post: Seq<(usize, u64)>) -> bool {
    forall|v: u64| #[trigger] entries_with(post, v) == entries_with(pre, v)
}

/// Swapping two adjacent entries of different fitness values touches no
/// fitness class: it is a stable reordering.
proof fn lemma_swap_keeps_classes(s: Seq<(usize, u64)>, j: int)
    requires
        1 <= j < s.len(),
        s[j - 1].1 != s[j].1,
    ensures
        stable_reorder(s, s.update(j - 1, s[j]).update(j, s[j - 1])),
{
    let t = s.update(j - 1, s[j]).update(j, s[j - 1]);
    assert forall|v: u64| entries_with(t, v) == entries_with(s, v) by {
        reveal_with_fuel(Seq::<(usize, u64)>::filter, 3);
        let pred = |e: (usize, u64)| e.1 == v;
        let a = s.subrange(0, j - 1);
        let x = seq![s[j - 1]];
        let y = seq![s[j]];
        let b = s.subrange(j + 1, s.len() as int);
        assert(s =~= a + x + y + b);
        assert(t =~= a + y + x + b);
        Seq::filter_distributes_over_add(a + x + y, b, pred);
        Seq::filter_distributes_over_add(a + x, y, pred);
        Seq::filter_distributes_over_add(a, x, pred);
        Seq::filter_distributes_over_add(a + y + x, b, pred);
        Seq::filter_distributes_over_add(a + y, x, pred);
        Seq::filter_distributes_over_add(a, y, pred);
        assert(x.filter(pred) + y.filter(pred) =~= y.filter(pred) + x.filter(pred));
        assert(entries_with(t, v) =~= entries_with(s, v));
    }
}

/// Sorts the score table ascending by fitness value. The result holds exactly
/// the entries of the input (as a multiset), so no score is lost or invented.
/// Equal fitness values keep their prior relative order: the sort only ever
/// moves an entry past a strictly greater one.
pub fn sort_scores(scores: &mut Vec<(usize, u64)>)
    ensures
        sorted_by_fitness(final(scores)@),
        final(scores)@.to_multiset() == old(scores)@.to_multiset(),
        final(scores)@.len() == old(scores)@.len(),
        stable_reorder(old(scores)@, final(scores)@),
{
    let ghost orig: Seq<(usize, u64)> = scores@;
    let n: usize = scores.len();
    if n <= 1 {
        return ;
    }
    let mut i: usize = 1;
    while i < n
        invariant
            n == scores@.len(),
            n == orig.len(),
            1 <= i <= n,
            scores@.to_multiset() == orig.to_multiset(),
            stable_reorder(orig, scores@),
            forall|a: int, b: int|
                0 <= a <= b < i ==> (#[trigger] scores@[a]).1 <= (#[trigger] scores@[b]).1,
        decreases n - i,
    {
        let mut j: usize = i;
        while j > 0 && scores[j - 1].1 > scores[j].1
            invariant
                n == scores@.len(),
                n == orig.len(),
                1 <= i < n,
                0 <= j <= i,
                scores@.to_multiset() == orig.to_multiset(),
                stable_reorder(orig, scores@),
                forall|a: int, b: int|
                    0 <= a < b <= i && b != j ==> (#[trigger] scores@[a]).1
                        <= (#[trigger] scores@[b]).1,
            decreases j,
        {
            let lo: (usize, u64) = scores[j - 1];
            let hi: (usize, u64) = scores[j];
            let ghost before: Seq<(usize, u64)> = scores@;
            scores.set(j - 1, hi);
            scores.set(j, lo);
            proof {
                broadcast use vstd::multiset::group_multiset_axioms;
                broadcast use vstd::multiset::group_multiset_properties;
                broadcast use vstd::seq_lib::group_to_multiset_ensures;

                let s1 = before.update(j - 1 as int, hi);
                to_multiset_update(before, j - 1, hi);
                to_multiset_update(s1, j as int, lo);
                assert(before.contains(lo));
                assert(s1[j as int] == hi);
                assert(scores@ == s1.update(j as int, lo));
                assert(scores@.to_multiset() =~= before.to_multiset());
                lemma_swap_keeps_classes(before, j as int);
            }
            j = j - 1;
        }
        i = i + 1;
    }
}

/// A permutation of a score table keeps every per-entry property: each entry
/// of the permuted table already stood somewhere in the original table.
pub proof fn lemma_permutation_keeps_entries(
    pre: Seq<(usize, u64)>,
    post: Seq<(usize, u64)>,
    p: spec_fn((usize, u64)) -> bool,
)
    requires
        post.to_multiset() == pre.to_multiset(),
        forall|k: int| 0 <= k < pre.len() ==> p(#[trigger] pre[k]),
    ensures
        forall|k: int| 0 <= k < post.len() ==> p(#[trigger] post[k]),
{
    broadcast use vstd::seq_lib::group_to_multiset_ensures;

    assert forall|k: int| 0 <= k < post.len() implies p(post[k]) by {
        assert(post.contains(post[k]));
        assert(post.to_multiset().count(post[k]) > 0);
        assert(pre.contains(post[k]));
        let m = choose|m: int| 0 <= m < pre.len() && pre[m] == post[k];
        assert(p(pre[m]));
    }
}

/// The first entry of a sorted permutation of a score table is a lower bound
/// on the fitness of every entry of the original table.
pub proof fn lemma_sorted_first_is_min(pre: Seq<(usize, u64)>, post: Seq<(usize, u64)>)
    requires
        post.to_multiset() == pre.to_multiset(),
        sorted_by_fitness(post),
        post.len() == pre.len(),
        post.len() > 0,
    ensures
        forall|j: int| 0 <= j < pre.len() ==> post[0].1 <= (#[trigger] pre[j]).1,
{
    broadcast use vstd::seq_lib::group_to_multiset_ensures;

    assert forall|j: int| 0 <= j < pre.len() implies post[0].1 <= pre[j].1 by {
        assert(pre.contains(pre[j]));
        assert(pre.to_multiset().count(pre[j]) > 0);
        assert(post.contains(pre[j]));
        let k = choose|k: int| 0 <= k < post.len() && post[k] == pre[j];
        assert(post[0].1 <= post[k].1);
    }
}

} // verus!
