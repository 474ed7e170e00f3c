use vstd::prelude::*;

verus! {

/// Integer steps in one unit of length.
pub const UNITS_PER_LENGTH: i64 = 1000;

/// Side of the square domain, in integer steps (10 units of length).
pub const DOMAIN_SIZE: i64 = 10000;

/// Two particles collide when they are closer than this (0.1 units of length).
pub const COLLISION_THRESHOLD: i64 = 100;

pub open spec fn in_domain(v: int) -> bool {
    0 <= v <= DOMAIN_SIZE
}

/// `v` pulled into `[0, DOMAIN_SIZE]`.
pub open spec fn clamp_coord(v: int) -> int {
    if v < 0 {
        0
    } else if v > DOMAIN_SIZE {
        DOMAIN_SIZE as int
    } else {
        v
    }
}

pub open spec fn sq(v: int) -> int {
    v * v
}

/// Euclidean distance below the threshold, compared on squares so that it
/// stays exact.
pub open spec fn colliding(a: Particle, b: Particle) -> bool {
    sq(a.x - b.x) + sq(a.y - b.y) < sq(COLLISION_THRESHOLD as int)
}

/// A point in the domain square.
#[derive(Debug, Clone, Copy, PartialEq, Eq, Structural)]
pub struct Particle {
    pub x: i64,
    pub y: i64,
}

impl Particle {
    /// Both coordinates lie in the closed domain square.
    pub open spec fn wf(&self) -> bool {
        in_domain(self.x as int) && in_domain(self.y as int)
    }

    pub fn new(x: i64, y: i64) -> (r: Particle)
        requires
            in_domain(x as int),
            in_domain(y as int),
        ensures
            r.x == x,
            r.y == y,
            r.wf(),
    {
        Particle { x, y }
    }

    /// Adds the deltas to the position, then clamps each axis into the
    /// domain, whatever the size of the deltas.
    pub fn clamped_move(&mut self, dx: i64, dy: i64)
        ensures
            final(self).x == clamp_coord(old(self).x + dx),
            final(self).y == clamp_coord(old(self).y + dy),
            final(self).wf(),
    {
        self.x = clamp_sum(self.x, dx);
        self.y = clamp_sum(self.y, dy);
    }

    /// Whether `other` is closer than `COLLISION_THRESHOLD`; a particle
    /// always collides with itself.
    pub fn is_colliding(&self, other: &Particle) -> (r: bool)
        requires
            self.wf(),
            other.wf(),
        ensures
            r == colliding(*self, *other),
    {
        let dx: i64 = self.x - other.x;
        let dy: i64 = self.y - other.y;
        proof {
            assert(dx * dx <= DOMAIN_SIZE * DOMAIN_SIZE) by (nonlinear_arith)
                requires
                    -DOMAIN_SIZE <= dx <= DOMAIN_SIZE,
            ;
            assert(dy * dy <= DOMAIN_SIZE * DOMAIN_SIZE) by (nonlinear_arith)
                requires
                    -DOMAIN_SIZE <= dy <= DOMAIN_SIZE,
            ;
            assert(0 <= dx * dx) by (nonlinear_arith);
            assert(0 <= dy * dy) by (nonlinear_arith);
        }
        dx * dx + dy * dy < COLLISION_THRESHOLD * COLLISION_THRESHOLD
    }
}

fn clamp_sum(v: i64, d: i64) -> (r: i64)
    ensures
        r == clamp_coord(v + d),
{
    let s: i128 = v as i128 + d as i128;
    if s < 0 {
        0
    } else if s > DOMAIN_SIZE as i128 {
        DOMAIN_SIZE
    } else {
        s as i64
    }
}

/// Collision is symmetric: `a` collides with `b` exactly when `b` collides
/// with `a`.
pub proof fn lemma_collision_symmetric(a: Particle, b: Particle)
    ensures
        colliding(a, b) == colliding(b, a),
{
    assert(sq(a.x - b.x) == sq(b.x - a.x)) by (nonlinear_arith);
    assert(sq(a.y - b.y) == sq(b.y - a.y)) by (nonlinear_arith);
}

/// Every particle collides with itself: its distance to itself is zero.
pub proof fn lemma_self_collision(p: Particle)
    ensures
        colliding(p, p),
{
}

} // verus!
