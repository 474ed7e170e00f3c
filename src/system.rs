use vstd::prelude::*;

use crate::collide::{all_wf, distinct_pairs, lemma_pair_hits_bound, lemma_slice_count_is_distinct_pairs, check_collisions, lemma_pair_hits_split, slice_collisions};
use crate::particle::{clamp_coord, Particle, DOMAIN_SIZE};
use crate::partition::{lemma_start_last, lemma_start_monotone, lemma_start_step, slice_end, slice_start, split_ranges};
use crate::random::{random_coord, random_delta, HALF_STEP};

verus! {

/// Particles in a full-size store.
pub const NUM_OF_PARTICLES: usize = 10000;

/// Workers, and slices of the store, in a full-size run.
pub const NUM_OF_THREADS: usize = 5;

/// Move/collide cycles in one run.
pub const NUM_OF_CYCLES: u64 = 3;

/// `b` is `a` moved by `(dx, dy)`, each in `[-HALF_STEP, HALF_STEP)`, and
/// clamped into the domain.
pub open spec fn stepped(a: Particle, b: Particle, dx: int, dy: int) -> bool {
    &&& -HALF_STEP <= dx < HALF_STEP
    &&& -HALF_STEP <= dy < HALF_STEP
    &&& b.x == clamp_coord(a.x + dx)
    &&& b.y == clamp_coord(a.y + dy)
}

/// `b` is `a` after one random step.
pub open spec fn moved_one_step(a: Particle, b: Particle) -> bool {
    exists|dx: int, dy: int| #[trigger] stepped(a, b, dx, dy)
}

/// Moves `list[i]` by `(dx[i], dy[i])`, clamped into the domain.
pub fn move_slice_by(list: &mut [Particle], dx: &[i64], dy: &[i64])
    requires
        dx@.len() == old(list)@.len(),
        dy@.len() == old(list)@.len(),
    ensures
        final(list)@.len() == old(list)@.len(),
        forall|i: int|
            0 <= i < old(list)@.len() ==> (#[trigger] final(list)@[i]).x == clamp_coord(
                old(list)@[i].x + dx@[i],
            ) && final(list)@[i].y == clamp_coord(old(list)@[i].y + dy@[i]),
        all_wf(final(list)@),
{
    let ghost start = list@;
    let mut i: usize = 0;
    while i < list.len()
        invariant
            list@.len() == start.len(),
            dx@.len() == start.len(),
            dy@.len() == start.len(),
            0 <= i <= start.len(),
            forall|j: int|
                0 <= j < i ==> (#[trigger] list@[j]).x == clamp_coord(start[j].x + dx@[j])
                    && list@[j].y == clamp_coord(start[j].y + dy@[j]) && list@[j].wf(),
            forall|j: int| i <= j < start.len() ==> #[trigger] list@[j] == start[j],
        decreases start.len() - i,
    {
        let mut q = list[i];
        q.clamped_move(dx[i], dy[i]);
        list[i] = q;
        i = i + 1;
    }
}

/// Moves every particle of `list` by two random deltas, each in
/// `[-HALF_STEP, HALF_STEP)`, clamped into the domain: the work of one
/// worker in the move phase.
pub fn move_slice(list: &mut [Particle])
    requires
        all_wf(old(list)@),
    ensures
        final(list)@.len() == old(list)@.len(),
        all_wf(final(list)@),
        forall|i: int|
            0 <= i < old(list)@.len() ==> moved_one_step(old(list)@[i], #[trigger] final(list)@[i]),
{
    let ghost start = list@;
    let mut i: usize = 0;
    while i < list.len()
        invariant
            list@.len() == start.len(),
            all_wf(start),
            0 <= i <= start.len(),
            forall|j: int|
                0 <= j < i ==> (#[trigger] list@[j]).wf() && moved_one_step(start[j], list@[j]),
            forall|j: int| i <= j < start.len() ==> #[trigger] list@[j] == start[j],
        decreases start.len() - i,
    {
        let dx = random_delta();
        let dy = random_delta();
        let mut q = list[i];
        q.clamped_move(dx, dy);
        assert(stepped(start[i as int], q, dx as int, dy as int));
        list[i] = q;
        i = i + 1;
    }
}

/// Every particle of `b` is the particle of `a` at its index after one
/// random step.
pub open spec fn all_moved_one_step(a: Seq<Particle>, b: Seq<Particle>) -> bool {
    &&& a.len() == b.len()
    &&& forall|i: int| 0 <= i < a.len() ==> moved_one_step(a[i], #[trigger] b[i])
}

/// `b` is `a` after `k` random steps of every particle.
pub open spec fn reached_in_steps(a: Seq<Particle>, b: Seq<Particle>, k: nat) -> bool
    decreases k,
{
    if k == 0 {
        a == b
    } else {
        exists|m: Seq<Particle>|
            reached_in_steps(a, m, (k - 1) as nat) && #[trigger] all_moved_one_step(m, b)
    }
}

/// Every particle of `s` lies strictly below the far edges of the domain.
pub open spec fn all_below_edge(s: Seq<Particle>) -> bool {
    forall|i: int|
        0 <= i < s.len() ==> 0 <= (#[trigger] s[i]).x < DOMAIN_SIZE && 0 <= s[i].y < DOMAIN_SIZE
}

/// `s` with particle `i` moved by `(dx[i], dy[i])` and clamped.
pub open spec fn moved_by(s: Seq<Particle>, dx: Seq<i64>, dy: Seq<i64>) -> Seq<Particle> {
    Seq::new(
        s.len(),
        |i: int|
            Particle {
                x: clamp_coord(s[i].x + dx[i]) as i64,
                y: clamp_coord(s[i].y + dy[i]) as i64,
            },
    )
}

/// The particle store of a simulation and its collision accumulator.
pub struct ParticleSystem {
    pub particles: Vec<Particle>,
    pub collisions: i64,
}

impl ParticleSystem {
    /// Every particle lies in the domain.
    pub open spec fn wf(&self) -> bool {
        all_wf(self.particles@)
    }

    /// A full-size store of `NUM_OF_PARTICLES` random particles.
    pub fn new() -> (r: ParticleSystem)
        ensures
            r.wf(),
            r.particles@.len() == NUM_OF_PARTICLES,
            all_below_edge(r.particles@),
            r.collisions == 0,
    {
        Self::with_random(NUM_OF_PARTICLES)
    }

    /// A store of `n` particles at independent random positions in
    /// `[0, DOMAIN_SIZE)` on each axis.
    pub fn with_random(n: usize) -> (r: ParticleSystem)
        ensures
            r.wf(),
            r.particles@.len() == n,
            all_below_edge(r.particles@),
            r.collisions == 0,
    {
        let mut particles: Vec<Particle> = Vec::new();
        let mut i: usize = 0;
        while i < n
            invariant
                0 <= i <= n,
                particles@.len() == i,
                all_wf(particles@),
                all_below_edge(particles@),
            decreases n - i,
        {
            let x = random_coord();
            let y = random_coord();
            particles.push(Particle::new(x, y));
            i = i + 1;
        }
        ParticleSystem { particles, collisions: 0 }
    }

    /// A store holding the given particles, with no collisions counted yet.
    pub fn from_particles(particles: Vec<Particle>) -> (r: ParticleSystem)
        requires
            all_wf(particles@),
        ensures
            r.particles@ == particles@,
            r.collisions == 0,
            r.wf(),
    {
        ParticleSystem { particles, collisions: 0 }
    }

    /// One random step for every particle of the store.
    pub fn move_particles(&mut self)
        requires
            old(self).wf(),
        ensures
            final(self).wf(),
            final(self).collisions == old(self).collisions,
            final(self).particles@.len() == old(self).particles@.len(),
            forall|i: int|
                0 <= i < old(self).particles@.len() ==> moved_one_step(
                    old(self).particles@[i],
                    #[trigger] final(self).particles@[i],
                ),
    {
        move_slice(self.particles.as_mut_slice());
    }

    /// `steps` random steps for every particle of the store.
    pub fn move_steps(&mut self, steps: u64)
        requires
            old(self).wf(),
        ensures
            final(self).wf(),
            final(self).collisions == old(self).collisions,
            final(self).particles@.len() == old(self).particles@.len(),
            reached_in_steps(old(self).particles@, final(self).particles@, steps as nat),
    {
        let mut t: u64 = 0;
        while t < steps
            invariant
                self.wf(),
                self.collisions == old(self).collisions,
                self.particles@.len() == old(self).particles@.len(),
                t <= steps,
                reached_in_steps(old(self).particles@, self.particles@, t as nat),
            decreases steps - t,
        {
            let ghost before = self.particles@;
            self.move_particles();
            proof {
                assert(all_moved_one_step(before, self.particles@));
                assert(reached_in_steps(old(self).particles@, before, t as nat));
            }
            t = t + 1;
        }
    }

    /// An independent copy of every particle, in order.
    pub fn snapshot(&self) -> (r: Vec<Particle>)
        ensures
            r@ == self.particles@,
    {
        let mut r: Vec<Particle> = Vec::new();
        let mut i: usize = 0;
        while i < self.particles.len()
            invariant
                0 <= i <= self.particles@.len(),
                r@ == self.particles@.subrange(0, i as int),
            decreases self.particles@.len() - i,
        {
            r.push(self.particles[i]);
            proof {
                assert(r@ =~= self.particles@.subrange(0, i + 1));
            }
            i = i + 1;
        }
        proof {
            assert(r@ =~= self.particles@);
        }
        r
    }

    /// Adds a worker's count into the accumulator.
    pub fn add_collisions(&mut self, count: i64)
        requires
            i64::MIN <= old(self).collisions + count <= i64::MAX,
        ensures
            final(self).collisions == old(self).collisions + count,
            final(self).particles == old(self).particles,
    {
        self.collisions = self.collisions + count;
    }

    /// One collision phase: the store is cut into `p` slices, each slice is
    /// counted against a snapshot of the whole store, and the sum of the
    /// slice counts is added into the accumulator. The sum is the same for
    /// every `p`.
    pub fn collision_phase(&mut self, p: usize) -> (r: i64)
        requires
            old(self).wf(),
            p > 0,
            old(self).particles@.len() <= i64::MAX,
            old(self).particles@.len() * old(self).particles@.len() <= i64::MAX,
            i64::MIN <= old(self).collisions + slice_collisions(
                old(self).particles@,
                old(self).particles@,
            ) <= i64::MAX,
        ensures
            r == slice_collisions(old(self).particles@, old(self).particles@),
            r == distinct_pairs(old(self).particles@, 0, old(self).particles@.len() as int),
            r >= 0,
            final(self).collisions == old(self).collisions + r,
            final(self).collisions >= old(self).collisions,
            final(self).particles == old(self).particles,
    {
        let whole = self.snapshot();
        let n = self.particles.len();
        let ranges = split_ranges(n, p);
        let ghost s = self.particles@;
        let mut total: i64 = 0;
        let mut k: usize = 0;
        proof {
            lemma_start_last(n as nat, p as nat);
            assert(s.subrange(0, 0) =~= Seq::<Particle>::empty());
        }
        while k < p
            invariant
                0 <= k <= p,
                whole@ == s,
                s == self.particles@,
                self.wf(),
                n == s.len(),
                n <= i64::MAX,
                n * n <= i64::MAX,
                ranges@.len() == p,
                forall|j: int|
                    0 <= j < p ==> ranges@[j].0 == slice_start(n as nat, p as nat, j as nat)
                        && ranges@[j].1 == slice_end(n as nat, p as nat, j as nat),
                slice_start(n as nat, p as nat, 0) == 0,
                slice_start(n as nat, p as nat, p as nat) == n,
                slice_start(n as nat, p as nat, k as nat) <= n,
                total == slice_collisions(
                    s.subrange(0, slice_start(n as nat, p as nat, k as nat) as int),
                    s,
                ),
            decreases p - k,
        {
            let (start, end) = ranges[k];
            proof {
                lemma_start_bounds(n as nat, p as nat, k as nat);
            }
            let slice = vstd::slice::slice_subrange(self.particles.as_slice(), start, end);
            proof {
                assert forall|i: int| 0 <= i < slice@.len() implies (#[trigger] slice@[i]).wf() by {
                    assert(slice@[i] == s[start + i]);
                }
                assert(slice@.len() * n <= n * n) by (nonlinear_arith)
                    requires
                        slice@.len() <= n,
                ;
            }
            let c = check_collisions(slice, whole.as_slice());
            proof {
                let prefix = s.subrange(0, start as int);
                assert(s.subrange(0, end as int) =~= prefix + slice@);
                lemma_pair_hits_split(prefix, slice@, s);
                assert(end * n <= n * n) by (nonlinear_arith)
                    requires
                        end <= n,
                ;
                lemma_slice_collisions_bounds(s.subrange(0, end as int), s);
            }
            total = total + c;
            k = k + 1;
        }
        proof {
            assert(s.subrange(0, n as int) =~= s);
            lemma_slice_count_is_distinct_pairs(s, 0, n as int);
        }
        self.collisions = self.collisions + total;
        total
    }

    /// One full cycle with given deltas: every particle `i` moves by
    /// `(dx[i], dy[i])`, then the moved store is counted in `p` slices. The
    /// store and the count that come out are the same for every `p`.
    pub fn cycle_by(&mut self, p: usize, dx: &[i64], dy: &[i64]) -> (r: i64)
        requires
            old(self).wf(),
            p > 0,
            dx@.len() == old(self).particles@.len(),
            dy@.len() == old(self).particles@.len(),
            old(self).particles@.len() <= i64::MAX,
            old(self).particles@.len() * old(self).particles@.len() <= i64::MAX,
            old(self).collisions <= i64::MAX - old(self).particles@.len()
                * old(self).particles@.len(),
        ensures
            final(self).particles@ == moved_by(old(self).particles@, dx@, dy@),
            r == slice_collisions(final(self).particles@, final(self).particles@),
            r >= 0,
            final(self).collisions == old(self).collisions + r,
    {
        let ghost start = self.particles@;
        move_slice_by(self.particles.as_mut_slice(), dx, dy);
        proof {
            assert(self.particles@ =~= moved_by(start, dx@, dy@));
            let s = self.particles@;
            lemma_slice_count_is_distinct_pairs(s, 0, s.len() as int);
            assert(s.subrange(0, s.len() as int) =~= s);
            assert(s.len() * (s.len() - 1) <= s.len() * s.len()) by (nonlinear_arith);
        }
        self.collision_phase(p)
    }
}

proof fn lemma_start_bounds(n: nat, p: nat, k: nat)
    requires
        p > 0,
        k < p,
        slice_start(n, p, p) == n,
    ensures
        slice_start(n, p, k) <= slice_end(n, p, k) <= n,
{
    lemma_start_step(n, p, k);
    lemma_start_monotone(n, p, k + 1, p);
}

proof fn lemma_slice_collisions_bounds(slice: Seq<Particle>, whole: Seq<Particle>)
    requires
        slice.len() <= i64::MAX,
        slice.len() * whole.len() <= i64::MAX,
    ensures
        i64::MIN <= slice_collisions(slice, whole) <= i64::MAX,
{
    lemma_pair_hits_bound(slice, whole);
}

} // verus!
