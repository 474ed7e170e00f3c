use vstd::prelude::*;

use crate::particle::{colliding, lemma_self_collision, Particle};

verus! {

/// Every particle of `s` lies in the domain.
pub open spec fn all_wf(s: Seq<Particle>) -> bool {
    forall|i: int| 0 <= i < s.len() ==> (#[trigger] s[i]).wf()
}

/// How many particles of `s` collide with `p` (itself included, if present).
pub open spec fn hits(p: Particle, s: Seq<Particle>) -> nat
    decreases s.len(),
{
    if s.len() == 0 {
        0
    } else {
        hits(p, s.drop_last()) + if colliding(p, s.last()) {
            1nat
        } else {
            0nat
        }
    }
}

/// How many ordered pairs `(p1, p2)`, `p1` from `slice` and `p2` from
/// `whole`, collide.
pub open spec fn pair_hits(slice: Seq<Particle>, whole: Seq<Particle>) -> nat
    decreases slice.len(),
{
    if slice.len() == 0 {
        0
    } else {
        pair_hits(slice.drop_last(), whole) + hits(slice.last(), whole)
    }
}

/// The count a worker reports for its slice: colliding ordered pairs, less
/// one self-collision for each particle of the slice.
pub open spec fn slice_collisions(slice: Seq<Particle>, whole: Seq<Particle>) -> int {
    pair_hits(slice, whole) - slice.len()
}

proof fn lemma_hits_bound(p: Particle, s: Seq<Particle>)
    ensures
        hits(p, s) <= s.len(),
    decreases s.len(),
{
    if s.len() > 0 {
        lemma_hits_bound(p, s.drop_last());
    }
}

pub(crate) proof fn lemma_pair_hits_bound(slice: Seq<Particle>, whole: Seq<Particle>)
    ensures
        pair_hits(slice, whole) <= slice.len() * whole.len(),
    decreases slice.len(),
{
    if slice.len() > 0 {
        lemma_pair_hits_bound(slice.drop_last(), whole);
        lemma_hits_bound(slice.last(), whole);
        assert((slice.len() - 1) * whole.len() + whole.len() == slice.len() * whole.len())
            by (nonlinear_arith);
    }
}

/// Counting over two adjacent slices gives the sum of the two counts: the
/// total of a partitioned collision pass does not depend on where the store
/// was cut.
pub proof fn lemma_pair_hits_split(a: Seq<Particle>, b: Seq<Particle>, whole: Seq<Particle>)
    ensures
        pair_hits(a + b, whole) == pair_hits(a, whole) + pair_hits(b, whole),
        slice_collisions(a + b, whole) == slice_collisions(a, whole) + slice_collisions(
            b,
            whole,
        ),
    decreases b.len(),
{
    if b.len() > 0 {
        assert((a + b).drop_last() =~= a + b.drop_last());
        lemma_pair_hits_split(a, b.drop_last(), whole);
    } else {
        assert(a + b =~= a);
    }
}

/// How many `j < k` other than `i` have `s[j]` colliding with `s[i]`.
pub open spec fn distinct_hits(s: Seq<Particle>, i: int, k: int) -> nat
    decreases k,
{
    if k <= 0 {
        0
    } else {
        distinct_hits(s, i, k - 1) + if k - 1 != i && colliding(s[i], s[k - 1]) {
            1nat
        } else {
            0nat
        }
    }
}

/// How many ordered pairs of distinct indices `(i, j)`, with `a <= i < m`,
/// collide in `s`.
pub open spec fn distinct_pairs(s: Seq<Particle>, a: int, m: int) -> nat
    decreases m - a,
{
    if m <= a {
        0
    } else {
        distinct_pairs(s, a, m - 1) + distinct_hits(s, m - 1, s.len() as int)
    }
}

/// No two particles of `s` at distinct indices collide.
pub open spec fn isolated(s: Seq<Particle>) -> bool {
    forall|a: int, b: int|
        0 <= a < s.len() && 0 <= b < s.len() && a != b ==> !colliding(
            #[trigger] s[a],
            #[trigger] s[b],
        )
}

proof fn lemma_hits_distinct(s: Seq<Particle>, i: int, k: int)
    requires
        0 <= i < s.len(),
        0 <= k <= s.len(),
    ensures
        hits(s[i], s.subrange(0, k)) == distinct_hits(s, i, k) + if i < k {
            1nat
        } else {
            0nat
        },
    decreases k,
{
    if k > 0 {
        assert(s.subrange(0, k).drop_last() =~= s.subrange(0, k - 1));
        lemma_hits_distinct(s, i, k - 1);
        if k - 1 == i {
            lemma_self_collision(s[i]);
        }
    }
}

proof fn lemma_pair_hits_distinct(s: Seq<Particle>, a: int, m: int)
    requires
        0 <= a <= m <= s.len(),
    ensures
        pair_hits(s.subrange(a, m), s) == distinct_pairs(s, a, m) + (m - a),
    decreases m - a,
{
    if m > a {
        assert(s.subrange(a, m).drop_last() =~= s.subrange(a, m - 1));
        lemma_pair_hits_distinct(s, a, m - 1);
        lemma_hits_distinct(s, m - 1, s.len() as int);
        assert(s.subrange(0, s.len() as int) =~= s);
    }
}

proof fn lemma_distinct_hits_isolated(s: Seq<Particle>, i: int, k: int)
    requires
        0 <= i < s.len(),
        0 <= k <= s.len(),
        isolated(s),
    ensures
        distinct_hits(s, i, k) == 0,
    decreases k,
{
    if k > 0 {
        lemma_distinct_hits_isolated(s, i, k - 1);
    }
}

proof fn lemma_distinct_pairs_isolated(s: Seq<Particle>, a: int, m: int)
    requires
        0 <= a <= m <= s.len(),
        isolated(s),
    ensures
        distinct_pairs(s, a, m) == 0,
    decreases m - a,
{
    if m > a {
        lemma_distinct_pairs_isolated(s, a, m - 1);
        lemma_distinct_hits_isolated(s, m - 1, s.len() as int);
    }
}

/// The count a worker reports for the slice `s[a..b]` of a store `s` is the
/// number of ordered pairs of distinct indices `(i, j)`, `i` in the slice and
/// `j` anywhere in the store, whose particles collide. So it is never
/// negative, and at most `(b - a) * (s.len() - 1)`.
pub proof fn lemma_slice_count_is_distinct_pairs(s: Seq<Particle>, a: int, b: int)
    requires
        0 <= a <= b <= s.len(),
    ensures
        slice_collisions(s.subrange(a, b), s) == distinct_pairs(s, a, b),
        0 <= slice_collisions(s.subrange(a, b), s) <= (b - a) * (s.len() - 1),
{
    lemma_pair_hits_distinct(s, a, b);
    lemma_pair_hits_bound(s.subrange(a, b), s);
    assert((b - a) * s.len() - (b - a) == (b - a) * (s.len() - 1)) by (nonlinear_arith);
}

/// In a store where no two distinct particles collide, every slice of the
/// store reports no collisions once the self-collisions are taken away.
pub proof fn lemma_isolated_slice_no_collisions(s: Seq<Particle>, a: int, b: int)
    requires
        0 <= a <= b <= s.len(),
        isolated(s),
    ensures
        slice_collisions(s.subrange(a, b), s) == 0,
{
    lemma_slice_count_is_distinct_pairs(s, a, b);
    lemma_distinct_pairs_isolated(s, a, b);
}

/// A store in which no two distinct particles collide reports no
/// collisions once the self-collisions are taken away.
pub proof fn lemma_isolated_store_no_collisions(s: Seq<Particle>)
    requires
        isolated(s),
    ensures
        slice_collisions(s, s) == 0,
{
    lemma_isolated_slice_no_collisions(s, 0, s.len() as int);
    assert(s.subrange(0, s.len() as int) =~= s);
}

/// Adds a worker's count into a shared total.
pub fn accumulate(total: &mut i64, delta: i64)
    requires
        i64::MIN <= *old(total) + delta <= i64::MAX,
    ensures
        *final(total) == *old(total) + delta,
{
    *total = *total + delta;
}

/// Counts the colliding ordered pairs between `list` and `whole_list`, then
/// takes away the `list.len()` self-collisions.
pub fn check_collisions(list: &[Particle], whole_list: &[Particle]) -> (r: i64)
    requires
        all_wf(list@),
        all_wf(whole_list@),
        list@.len() <= i64::MAX,
        list@.len() * whole_list@.len() <= i64::MAX,
    ensures
        r == slice_collisions(list@, whole_list@),
{
    let mut collisions: i64 = 0;
    let mut i: usize = 0;
    while i < list.len()
        invariant
            0 <= i <= list@.len(),
            all_wf(list@),
            all_wf(whole_list@),
            list@.len() <= i64::MAX,
            list@.len() * whole_list@.len() <= i64::MAX,
            collisions == pair_hits(list@.subrange(0, i as int), whole_list@),
        decreases list@.len() - i,
    {
        let p1 = list[i];
        let mut j: usize = 0;
        proof {
            lemma_pair_hits_bound(list@.subrange(0, i as int), whole_list@);
        }
        while j < whole_list.len()
            invariant
                0 <= i < list@.len(),
                0 <= j <= whole_list@.len(),
                p1 == list@[i as int],
                all_wf(list@),
                all_wf(whole_list@),
                list@.len() * whole_list@.len() <= i64::MAX,
                pair_hits(list@.subrange(0, i as int), whole_list@) <= i * whole_list@.len(),
                collisions == pair_hits(list@.subrange(0, i as int), whole_list@) + hits(
                    p1,
                    whole_list@.subrange(0, j as int),
                ),
            decreases whole_list@.len() - j,
        {
            proof {
                lemma_hits_bound(p1, whole_list@.subrange(0, j as int));
                assert(i * whole_list@.len() + j < list@.len() * whole_list@.len())
                    by (nonlinear_arith)
                    requires
                        i < list@.len(),
                        j < whole_list@.len(),
                ;
                assert(whole_list@.subrange(0, j + 1).drop_last() =~= whole_list@.subrange(
                    0,
                    j as int,
                ));
            }
            if p1.is_colliding(&whole_list[j]) {
                collisions = collisions + 1;
            }
            j = j + 1;
        }
        proof {
            assert(list@.subrange(0, i + 1).drop_last() =~= list@.subrange(0, i as int));
            assert(whole_list@.subrange(0, whole_list@.len() as int) =~= whole_list@);
        }
        i = i + 1;
    }
    proof {
        assert(list@.subrange(0, list@.len() as int) =~= list@);
        lemma_pair_hits_bound(list@, whole_list@);
    }
    collisions - list.len() as i64
}

} // verus!
