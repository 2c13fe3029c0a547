//! The flocking agent: neighbor tracking, the four steering rules, the
//! speed clamp and the per-tick integration step.

use vstd::prelude::*;
use crate::vec2::{Vec2, Vec2i, len2};
use crate::math::{
    div_toward_zero, div_trunc, isqrt_ceil, lemma_abs_le_of_sq_le, lemma_div_trunc_le,
    lemma_div_trunc_mul_bound, lemma_sqrt_ceil, sqrt_ceil,
};

verus! {

/// World bounds and rule constants, in integer world units.
pub const X_MIN: i64 = 0;

pub const X_MAX: i64 = 1000;

pub const Y_MIN: i64 = 0;

pub const Y_MAX: i64 = 600;

/// Fixed corrective push applied per axis outside the world bounds.
pub const BOUND_PUSH: i64 = 500;

/// Cohesion's pull is divided by this, keeping it gentle next to the
/// other rules.
pub const COHESION_DAMP: i64 = 100;

/// Default speed cap for a freshly created agent.
pub const DEFAULT_MAX_SPEED: i64 = 300;

/// Every coordinate, velocity component and speed cap the model admits
/// stays within this magnitude, so that neighbor sums fit in 64 bits.
pub const COORD_LIMIT: i64 = 1_000_000;

/// Cap on each neighbor set's size, forced by fixed-width sums.
pub const MAX_NEIGHBORS: usize = 65536;

/// Bound on one steering rule's output per component.
pub const STEER_LIMIT: i64 = 200_000_000_000;

/// Bound on a combined movement component accepted by the speed clamp.
pub const MOVE_LIMIT: i64 = 1_000_000_000_000;

/// Snapshot of one detected agent: its identity key and the position and
/// velocity it was last seen with. The host refreshes a snapshot by an
/// exit/enter pair when staleness matters.
#[derive(Clone, Copy, PartialEq, Eq, Structural, Debug)]
pub struct Neighbor {
    pub id: u64,
    pub pos: Vec2,
    pub vel: Vec2,
}

/// A vector lies within `COORD_LIMIT` per component.
pub open spec fn in_coord_range(v: Vec2) -> bool {
    &&& -(COORD_LIMIT as int) <= v.x <= COORD_LIMIT as int
    &&& -(COORD_LIMIT as int) <= v.y <= COORD_LIMIT as int
}

/// A neighbor snapshot the model admits.
pub open spec fn nb_ok(n: Neighbor) -> bool {
    in_coord_range(n.pos) && in_coord_range(n.vel)
}

/// Some entry of `s` carries identity `id`.
pub open spec fn has_id(s: Seq<Neighbor>, id: u64) -> bool {
    exists|i: int| 0 <= i < s.len() && s[i].id == id
}

/// The index of the entry carrying `id` (unique when ids are distinct).
pub open spec fn id_index(s: Seq<Neighbor>, id: u64) -> int {
    choose|i: int| 0 <= i < s.len() && s[i].id == id
}

/// A neighbor set as the agent keeps it: in-range snapshots, pairwise
/// distinct identities, never the agent's own identity, within the cap.
pub open spec fn nbset_ok(s: Seq<Neighbor>, me: u64) -> bool {
    &&& s.len() <= MAX_NEIGHBORS as int
    &&& forall|i: int| 0 <= i < s.len() ==> nb_ok(#[trigger] s[i]) && s[i].id != me
    &&& forall|i: int, j: int| 0 <= i < j < s.len() ==> s[i].id != s[j].id
}

/// Separation: for every vision neighbor, the vector from it to the agent
/// accumulated into one unnormalized sum, a push away from nearby
/// neighbors that grows with their count and closeness.
pub open spec fn sep_sum(p: Vec2, s: Seq<Neighbor>) -> Vec2i
    decreases s.len(),
{
    if s.len() == 0 {
        Vec2i::zero()
    } else {
        let rest = sep_sum(p, s.drop_last());
        let n = s.last();
        Vec2i { x: rest.x + (p.x - n.pos.x), y: rest.y + (p.y - n.pos.y) }
    }
}

/// Alignment: the plain sum of the vision set's velocities.
pub open spec fn align_sum(s: Seq<Neighbor>) -> Vec2i
    decreases s.len(),
{
    if s.len() == 0 {
        Vec2i::zero()
    } else {
        let rest = align_sum(s.drop_last());
        let n = s.last();
        Vec2i { x: rest.x + n.vel.x, y: rest.y + n.vel.y }
    }
}

/// Sum of the positions of every flock member other than `me`.
pub open spec fn coh_sum(me: u64, s: Seq<Neighbor>) -> Vec2i
    decreases s.len(),
{
    if s.len() == 0 {
        Vec2i::zero()
    } else {
        let rest = coh_sum(me, s.drop_last());
        let n = s.last();
        if n.id == me {
            rest
        } else {
            Vec2i { x: rest.x + n.pos.x, y: rest.y + n.pos.y }
        }
    }
}

/// Cohesion: the vector from the agent toward the average flock position
/// (sum of the others' positions divided by the raw set size less one),
/// damped by `COHESION_DAMP`. A set of size one or less gives the zero
/// vector, the defined degenerate case. The divisor deliberately stays
/// `len - 1` even though the agent is never a member of its own set.
pub open spec fn cohesion_of(b: Boid) -> Vec2i {
    if b.in_flock@.len() <= 1 {
        Vec2i::zero()
    } else {
        let sums = coh_sum(b.id, b.in_flock@);
        let d = b.in_flock@.len() - 1;
        Vec2i {
            x: div_toward_zero(div_toward_zero(sums.x, d) - b.pos.x, COHESION_DAMP as int),
            y: div_toward_zero(div_toward_zero(sums.y, d) - b.pos.y, COHESION_DAMP as int),
        }
    }
}

/// Containment push on one axis: a fixed `BOUND_PUSH` back toward the
/// world strictly outside `lo..hi`, nothing on the boundary itself.
pub open spec fn axis_push(v: int, lo: int, hi: int) -> int {
    if v > hi {
        -(BOUND_PUSH as int)
    } else if v < lo {
        BOUND_PUSH as int
    } else {
        0
    }
}

/// Boundary containment for a position: the two axis pushes, independent
/// and summed into one vector.
pub open spec fn bound_of(p: Vec2) -> Vec2i {
    Vec2i {
        x: axis_push(p.x as int, X_MIN as int, X_MAX as int),
        y: axis_push(p.y as int, Y_MIN as int, Y_MAX as int),
    }
}

/// Speed clamp: a vector whose squared length exceeds `max * max` is
/// rescaled onto the cap by the ceiling square root of its squared
/// length, each component rounded toward zero; anything at or below the
/// cap passes unchanged.
pub open spec fn clamp_spec(v: Vec2i, max: int) -> Vec2i
    recommends
        max >= 1,
{
    if len2(v) <= max * max {
        v
    } else {
        let m = sqrt_ceil(len2(v) as nat) as int;
        Vec2i { x: div_toward_zero(v.x * max, m), y: div_toward_zero(v.y * max, m) }
    }
}

/// One simulated flocking agent. `pos`, `vel` and `max_speed` mirror the
/// host's view of the body; `heading` is the direction the agent last
/// turned to face (the host derives its facing angle from it).
pub struct Boid {
    pub id: u64,
    pub pos: Vec2,
    pub vel: Vec2,
    pub heading: Vec2,
    pub max_speed: i64,
    pub in_vision: Vec<Neighbor>,
    pub in_flock: Vec<Neighbor>,
}

impl Boid {
    /// Well-formed agent state: everything in range, both neighbor sets
    /// proper sets of other agents.
    pub open spec fn wf(self) -> bool {
        &&& in_coord_range(self.pos)
        &&& in_coord_range(self.vel)
        &&& in_coord_range(self.heading)
        &&& 0 < self.max_speed <= COORD_LIMIT as int
        &&& nbset_ok(self.in_vision@, self.id)
        &&& nbset_ok(self.in_flock@, self.id)
    }

    pub fn new(id: u64, pos: Vec2, vel: Vec2, max_speed: i64) -> (b: Boid)
        requires
            in_coord_range(pos),
            in_coord_range(vel),
            0 < max_speed <= COORD_LIMIT,
        ensures
            b.wf(),
            b.id == id,
            b.pos == pos,
            b.vel == vel,
            b.heading == vel,
            b.max_speed == max_speed,
            b.in_vision@ == Seq::<Neighbor>::empty(),
            b.in_flock@ == Seq::<Neighbor>::empty(),
    {
        let b = Boid {
            id,
            pos,
            vel,
            heading: vel,
            max_speed,
            in_vision: Vec::new(),
            in_flock: Vec::new(),
        };
        proof {
            assert(b.in_vision@ =~= Seq::<Neighbor>::empty());
            assert(b.in_flock@ =~= Seq::<Neighbor>::empty());
        }
        b
    }

    /// Separation rule: reads the vision set only; empty set gives the
    /// zero vector.
    pub fn separate(&self) -> (r: Vec2)
        requires
            self.wf(),
        ensures
            r@ == sep_sum(self.pos, self.in_vision@),
            self.in_vision@.len() == 0 ==> r@ == Vec2i::zero(),
            -(STEER_LIMIT as int) <= r@.x <= STEER_LIMIT as int,
            -(STEER_LIMIT as int) <= r@.y <= STEER_LIMIT as int,
    {
        let n_len: usize = self.in_vision.len();
        let mut mx: i64 = 0;
        let mut my: i64 = 0;
        let mut i: usize = 0;
        while i < n_len
            invariant
                self.wf(),
                n_len == self.in_vision@.len(),
                0 <= i <= n_len,
                (Vec2i { x: mx as int, y: my as int }) == sep_sum(
                    self.pos,
                    self.in_vision@.take(i as int),
                ),
                -(i as int) * 2 * (COORD_LIMIT as int) <= mx as int
                    <= (i as int) * 2 * (COORD_LIMIT as int),
                -(i as int) * 2 * (COORD_LIMIT as int) <= my as int
                    <= (i as int) * 2 * (COORD_LIMIT as int),
            decreases n_len - i,
        {
            let n = self.in_vision[i];
            proof {
                lemma_take_step(self.in_vision@, i as int);
                assert(nb_ok(self.in_vision@[i as int]));
            }
            mx = mx + (self.pos.x - n.pos.x);
            my = my + (self.pos.y - n.pos.y);
            i = i + 1;
        }
        proof {
            assert(self.in_vision@.take(n_len as int) =~= self.in_vision@);
        }
        Vec2 { x: mx, y: my }
    }

    /// Alignment rule: reads the vision set only; empty set gives the
    /// zero vector.
    pub fn alignment(&self) -> (r: Vec2)
        requires
            self.wf(),
        ensures
            r@ == align_sum(self.in_vision@),
            self.in_vision@.len() == 0 ==> r@ == Vec2i::zero(),
            -(STEER_LIMIT as int) <= r@.x <= STEER_LIMIT as int,
            -(STEER_LIMIT as int) <= r@.y <= STEER_LIMIT as int,
    {
        let n_len: usize = self.in_vision.len();
        let mut mx: i64 = 0;
        let mut my: i64 = 0;
        let mut i: usize = 0;
        while i < n_len
            invariant
                self.wf(),
                n_len == self.in_vision@.len(),
                0 <= i <= n_len,
                (Vec2i { x: mx as int, y: my as int }) == align_sum(self.in_vision@.take(i as int)),
                -(i as int) * (COORD_LIMIT as int) <= mx as int <= (i as int) * (COORD_LIMIT as int),
                -(i as int) * (COORD_LIMIT as int) <= my as int <= (i as int) * (COORD_LIMIT as int),
            decreases n_len - i,
        {
            let n = self.in_vision[i];
            proof {
                lemma_take_step(self.in_vision@, i as int);
                assert(nb_ok(self.in_vision@[i as int]));
            }
            mx = mx + n.vel.x;
            my = my + n.vel.y;
            i = i + 1;
        }
        proof {
            assert(self.in_vision@.take(n_len as int) =~= self.in_vision@);
        }
        Vec2 { x: mx, y: my }
    }
    /// Cohesion rule: reads the flock set only; a set of size one or less
    /// gives the zero vector.
    pub fn cohesion(&self) -> (r: Vec2)
        requires
            self.wf(),
        ensures
            r@ == cohesion_of(*self),
            self.in_flock@.len() <= 1 ==> r@ == Vec2i::zero(),
            -(STEER_LIMIT as int) <= r@.x <= STEER_LIMIT as int,
            -(STEER_LIMIT as int) <= r@.y <= STEER_LIMIT as int,
    {
        let n_len: usize = self.in_flock.len();
        if n_len <= 1 {
            return Vec2::zero();
        }
        let mut sx: i64 = 0;
        let mut sy: i64 = 0;
        let mut i: usize = 0;
        while i < n_len
            invariant
                self.wf(),
                n_len == self.in_flock@.len(),
                0 <= i <= n_len,
                (Vec2i { x: sx as int, y: sy as int }) == coh_sum(
                    self.id,
                    self.in_flock@.take(i as int),
                ),
                -(i as int) * (COORD_LIMIT as int) <= sx as int <= (i as int) * (COORD_LIMIT as int),
                -(i as int) * (COORD_LIMIT as int) <= sy as int <= (i as int) * (COORD_LIMIT as int),
            decreases n_len - i,
        {
            let n = self.in_flock[i];
            proof {
                lemma_take_step(self.in_flock@, i as int);
                assert(nb_ok(self.in_flock@[i as int]));
            }
            if n.id != self.id {
                sx = sx + n.pos.x;
                sy = sy + n.pos.y;
            }
            i = i + 1;
        }
        proof {
            assert(self.in_flock@.take(n_len as int) =~= self.in_flock@);
        }
        let d: i64 = (n_len as i64) - 1;
        let qx: i64 = div_trunc(sx, d);
        let qy: i64 = div_trunc(sy, d);
        let tx: i64 = qx - self.pos.x;
        let ty: i64 = qy - self.pos.y;
        let rx: i64 = div_trunc(tx, COHESION_DAMP);
        let ry: i64 = div_trunc(ty, COHESION_DAMP);
        Vec2 { x: rx, y: ry }
    }

    /// Boundary containment: reads the agent's own position only. Strict
    /// comparisons: a position exactly on a boundary gets no correction.
    pub fn bound(&self) -> (r: Vec2)
        requires
            self.wf(),
        ensures
            r@ == bound_of(self.pos),
            X_MIN <= self.pos.x <= X_MAX ==> r.x == 0,
            Y_MIN <= self.pos.y <= Y_MAX ==> r.y == 0,
            -(STEER_LIMIT as int) <= r@.x <= STEER_LIMIT as int,
            -(STEER_LIMIT as int) <= r@.y <= STEER_LIMIT as int,
    {
        let mut mx: i64 = 0;
        let mut my: i64 = 0;
        if self.pos.x > X_MAX {
            mx = mx - BOUND_PUSH;
        } else if self.pos.x < X_MIN {
            mx = mx + BOUND_PUSH;
        }
        if self.pos.y > Y_MAX {
            my = my - BOUND_PUSH;
        } else if self.pos.y < Y_MIN {
            my = my + BOUND_PUSH;
        }
        Vec2 { x: mx, y: my }
    }

    /// Vision-zone enter event: record the detected agent in the vision
    /// set. A candidate already present, the agent itself, or one outside
    /// the model's ranges leaves the set unchanged.
    pub fn on_body_entered(&mut self, n: Neighbor)
        requires
            old(self).wf(),
        ensures
            final(self).wf(),
            admits(old(self).in_vision@, old(self).id, n) ==> final(self).in_vision@ == old(
                self,
            ).in_vision@.push(n),
            !admits(old(self).in_vision@, old(self).id, n) ==> final(self).in_vision@ == old(
                self,
            ).in_vision@,
            final(self).in_flock == old(self).in_flock,
            final(self).id == old(self).id,
            final(self).pos == old(self).pos,
            final(self).vel == old(self).vel,
            final(self).heading == old(self).heading,
            final(self).max_speed == old(self).max_speed,
    {
        let me: u64 = self.id;
        set_insert(&mut self.in_vision, me, n);
    }

    /// Vision-zone exit event: drop the agent carrying `id` from the
    /// vision set. Exiting an absent agent is a no-op.
    pub fn on_body_exited(&mut self, id: u64)
        requires
            old(self).wf(),
        ensures
            final(self).wf(),
            has_id(old(self).in_vision@, id) ==> final(self).in_vision@ == old(
                self,
            ).in_vision@.remove(id_index(old(self).in_vision@, id)),
            !has_id(old(self).in_vision@, id) ==> final(self).in_vision@ == old(self).in_vision@,
            !has_id(final(self).in_vision@, id),
            final(self).in_flock == old(self).in_flock,
            final(self).id == old(self).id,
            final(self).pos == old(self).pos,
            final(self).vel == old(self).vel,
            final(self).heading == old(self).heading,
            final(self).max_speed == old(self).max_speed,
    {
        let me: u64 = self.id;
        set_remove(&mut self.in_vision, me, id);
    }

    /// Flock-zone enter event: the counterpart of `on_body_entered` for
    /// the flock set.
    pub fn flock_entered(&mut self, n: Neighbor)
        requires
            old(self).wf(),
        ensures
            final(self).wf(),
            admits(old(self).in_flock@, old(self).id, n) ==> final(self).in_flock@ == old(
                self,
            ).in_flock@.push(n),
            !admits(old(self).in_flock@, old(self).id, n) ==> final(self).in_flock@ == old(
                self,
            ).in_flock@,
            final(self).in_vision == old(self).in_vision,
            final(self).id == old(self).id,
            final(self).pos == old(self).pos,
            final(self).vel == old(self).vel,
            final(self).heading == old(self).heading,
            final(self).max_speed == old(self).max_speed,
    {
        let me: u64 = self.id;
        set_insert(&mut self.in_flock, me, n);
    }

    /// Flock-zone exit event: the counterpart of `on_body_exited` for the
    /// flock set.
    pub fn flock_exited(&mut self, id: u64)
        requires
            old(self).wf(),
        ensures
            final(self).wf(),
            has_id(old(self).in_flock@, id) ==> final(self).in_flock@ == old(
                self,
            ).in_flock@.remove(id_index(old(self).in_flock@, id)),
            !has_id(old(self).in_flock@, id) ==> final(self).in_flock@ == old(self).in_flock@,
            !has_id(final(self).in_flock@, id),
            final(self).in_vision == old(self).in_vision,
            final(self).id == old(self).id,
            final(self).pos == old(self).pos,
            final(self).vel == old(self).vel,
            final(self).heading == old(self).heading,
            final(self).max_speed == old(self).max_speed,
    {
        let me: u64 = self.id;
        set_remove(&mut self.in_flock, me, id);
    }

    /// Turn to face the current velocity. The host derives the rendered
    /// facing angle from this direction, with its own fixed quarter-turn
    /// asset offset.
    pub fn rotate(&mut self)
        requires
            old(self).wf(),
        ensures
            final(self).wf(),
            final(self).heading == old(self).vel,
            final(self).id == old(self).id,
            final(self).pos == old(self).pos,
            final(self).vel == old(self).vel,
            final(self).max_speed == old(self).max_speed,
            final(self).in_vision == old(self).in_vision,
            final(self).in_flock == old(self).in_flock,
    {
        self.heading = self.vel;
    }

    /// One physics tick: combine cohesion, separation, alignment and
    /// boundary containment, clamp the sum to the speed cap, take it as
    /// the new velocity and face it. The host then applies the velocity
    /// with its own collision response.
    pub fn physics_process(&mut self)
        requires
            old(self).wf(),
        ensures
            final(self).wf(),
            final(self).vel@ == clamp_spec(movement_of(*old(self)), old(self).max_speed as int),
            len2(final(self).vel@) <= old(self).max_speed * old(self).max_speed,
            final(self).heading == final(self).vel,
            final(self).id == old(self).id,
            final(self).pos == old(self).pos,
            final(self).max_speed == old(self).max_speed,
            final(self).in_vision == old(self).in_vision,
            final(self).in_flock == old(self).in_flock,
    {
        let c = self.cohesion();
        let s = self.separate();
        let a = self.alignment();
        let b = self.bound();
        let mx: i64 = c.x + s.x + a.x + b.x;
        let my: i64 = c.y + s.y + a.y + b.y;
        let mv = Vec2 { x: mx, y: my };
        proof {
            assert(mv@ == movement_of(*old(self)));
        }
        let clamped = clamp_speed(mv, self.max_speed);
        self.vel = clamped;
        self.heading = clamped;
    }

    /// Size of the vision set.
    pub fn vision_len(&self) -> (n: usize)
        ensures
            n == self.in_vision@.len(),
    {
        self.in_vision.len()
    }

    /// Size of the flock set.
    pub fn flock_len(&self) -> (n: usize)
        ensures
            n == self.in_flock@.len(),
    {
        self.in_flock.len()
    }
}

/// The movement vector of one tick, before the speed clamp: cohesion,
/// separation, alignment and boundary containment summed.
pub open spec fn movement_of(b: Boid) -> Vec2i {
    cohesion_of(b).plus(sep_sum(b.pos, b.in_vision@)).plus(align_sum(b.in_vision@)).plus(
        bound_of(b.pos),
    )
}

/// Runtime check matching `nb_ok`.
fn nb_in_range(n: &Neighbor) -> (b: bool)
    ensures
        b == nb_ok(*n),
{
    n.pos.x >= -COORD_LIMIT && n.pos.x <= COORD_LIMIT && n.pos.y >= -COORD_LIMIT && n.pos.y
        <= COORD_LIMIT && n.vel.x >= -COORD_LIMIT && n.vel.x <= COORD_LIMIT && n.vel.y
        >= -COORD_LIMIT && n.vel.y <= COORD_LIMIT
}

/// The snapshot `n` is accepted into the set `s` kept by agent `me`: it is
/// in range, another agent's, not yet present, and there is room.
pub open spec fn admits(s: Seq<Neighbor>, me: u64, n: Neighbor) -> bool {
    nb_ok(n) && n.id != me && !has_id(s, n.id) && s.len() < MAX_NEIGHBORS as int
}

/// Insert a detected agent into a neighbor set. Idempotent: a candidate
/// already present, the agent itself, or one the model does not admit
/// leaves the set unchanged.
fn set_insert(v: &mut Vec<Neighbor>, me: u64, n: Neighbor)
    requires
        nbset_ok(old(v)@, me),
    ensures
        nbset_ok(final(v)@, me),
        admits(old(v)@, me, n) ==> final(v)@ == old(v)@.push(n),
        !admits(old(v)@, me, n) ==> final(v)@ == old(v)@,
        has_id(final(v)@, n.id) == (has_id(old(v)@, n.id) || admits(old(v)@, me, n)),
{
    if n.id == me || !nb_in_range(&n) || v.len() >= MAX_NEIGHBORS {
        return ;
    }
    let len: usize = v.len();
    let mut i: usize = 0;
    while i < len
        invariant
            len == v@.len(),
            0 <= i <= len,
            v@ == old(v)@,
            nbset_ok(v@, me),
            forall|j: int| 0 <= j < i ==> v@[j].id != n.id,
        decreases len - i,
    {
        if v[i].id == n.id {
            proof {
                assert(has_id(v@, n.id));
            }
            return ;
        }
        i = i + 1;
    }
    proof {
        assert(!has_id(v@, n.id));
    }
    v.push(n);
    proof {
        let s = old(v)@;
        assert(v@ == s.push(n));
        assert forall|a: int| 0 <= a < v@.len() implies nb_ok(#[trigger] v@[a]) && v@[a].id
            != me by {
            if a < s.len() {
                assert(v@[a] == s[a]);
            } else {
                assert(v@[a] == n);
            }
        }
        assert forall|a: int, b: int| 0 <= a < b < v@.len() implies v@[a].id != v@[b].id by {
            if b < s.len() {
                assert(v@[a] == s[a] && v@[b] == s[b]);
            } else {
                assert(v@[a] == s[a] && v@[b] == n);
            }
        }
        assert(has_id(v@, n.id)) by {
            assert(v@[s.len() as int].id == n.id);
        }
    }
}

/// Remove the agent carrying `id` from a neighbor set. Removing an absent
/// one is a no-op.
fn set_remove(v: &mut Vec<Neighbor>, me: u64, id: u64)
    requires
        nbset_ok(old(v)@, me),
    ensures
        nbset_ok(final(v)@, me),
        has_id(old(v)@, id) ==> final(v)@ == old(v)@.remove(id_index(old(v)@, id)),
        !has_id(old(v)@, id) ==> final(v)@ == old(v)@,
        !has_id(final(v)@, id),
{
    let len: usize = v.len();
    let mut i: usize = 0;
    while i < len
        invariant
            len == v@.len(),
            0 <= i <= len,
            v@ == old(v)@,
            nbset_ok(v@, me),
            forall|j: int| 0 <= j < i ==> v@[j].id != id,
        decreases len - i,
    {
        if v[i].id == id {
            proof {
                assert(has_id(v@, id));
                let k = id_index(v@, id);
                assert(0 <= k < v@.len() && v@[k].id == id);
                assert(k == i);
            }
            let ghost s = v@;
            v.remove(i);
            proof {
                s.remove_ensures(i as int);
                assert(v@ == s.remove(i as int));
                assert forall|a: int| 0 <= a < v@.len() implies nb_ok(#[trigger] v@[a]) && v@[a].id
                    != me && v@[a].id != id by {
                    if a < i {
                        assert(v@[a] == s[a]);
                    } else {
                        assert(v@[a] == s[a + 1]);
                    }
                }
                assert forall|a: int, b: int| 0 <= a < b < v@.len() implies v@[a].id
                    != v@[b].id by {
                    if b < i {
                        assert(v@[a] == s[a] && v@[b] == s[b]);
                    } else if a < i {
                        assert(v@[a] == s[a] && v@[b] == s[b + 1]);
                    } else {
                        assert(v@[a] == s[a + 1] && v@[b] == s[b + 1]);
                    }
                }
                assert(!has_id(v@, id));
            }
            return ;
        }
        i = i + 1;
    }
    proof {
        assert(!has_id(v@, id));
    }
}

/// Speed clamp on a combined movement vector.
pub fn clamp_speed(v: Vec2, max_speed: i64) -> (r: Vec2)
    requires
        0 < max_speed <= COORD_LIMIT,
        -MOVE_LIMIT <= v.x <= MOVE_LIMIT,
        -MOVE_LIMIT <= v.y <= MOVE_LIMIT,
    ensures
        r@ == clamp_spec(v@, max_speed as int),
        len2(v@) <= max_speed * max_speed ==> r == v,
        len2(r@) <= max_speed * max_speed,
        -(max_speed as int) <= r@.x <= max_speed as int,
        -(max_speed as int) <= r@.y <= max_speed as int,
        v.x >= 0 ==> r.x >= 0,
        v.x <= 0 ==> r.x <= 0,
        v.y >= 0 ==> r.y >= 0,
        v.y <= 0 ==> r.y <= 0,
{
    proof {
        lemma_clamp_caps_speed(v@, max_speed as int);
    }
    let xi: i128 = v.x as i128;
    let yi: i128 = v.y as i128;
    proof {
        assert(xi * xi <= 1_000_000_000_000_000_000_000_000int && yi * yi
            <= 1_000_000_000_000_000_000_000_000int) by (nonlinear_arith)
            requires
                -1_000_000_000_000int <= xi <= 1_000_000_000_000int,
                -1_000_000_000_000int <= yi <= 1_000_000_000_000int,
        ;
        assert(xi * xi >= 0 && yi * yi >= 0) by (nonlinear_arith);
    }
    let s2: i128 = xi * xi + yi * yi;
    proof {
        assert(0 < (max_speed as int) * (max_speed as int)
            <= 1_000_000_000_000int) by (nonlinear_arith)
            requires
                0 < max_speed as int <= 1_000_000int,
        ;
    }
    let ms: i128 = (max_speed as i128) * (max_speed as i128);
    if s2 <= ms {
        proof {
            lemma_abs_le_of_sq_le(v.x as int, max_speed as int);
            lemma_abs_le_of_sq_le(v.y as int, max_speed as int);
        }
        v
    } else {
        let m128: u128 = isqrt_ceil(s2 as u128);
        proof {
            if m128 == 0 {
                assert((m128 as int) * (m128 as int) == 0) by (nonlinear_arith)
                    requires
                        m128 as int == 0,
                ;
                assert(false);
            }
            assert(m128 as int - 1 < 1_500_000_000_000int) by (nonlinear_arith)
                requires
                    (m128 as int - 1) * (m128 as int - 1) < 2_000_000_000_000_000_000_000_000int,
                    m128 as int - 1 >= 0,
            ;
        }
        let m: i64 = m128 as i64;
        proof {
            lemma_abs_le_of_sq_le(v.x as int, m as int);
            lemma_abs_le_of_sq_le(v.y as int, m as int);
            assert(-((max_speed as int) * (m as int)) <= (v.x as int) * (max_speed as int)
                <= (max_speed as int) * (m as int) && -((max_speed as int) * (m as int))
                <= (v.y as int) * (max_speed as int) <= (max_speed as int) * (m as int))
                by (nonlinear_arith)
                requires
                    -(m as int) <= v.x as int <= m as int,
                    -(m as int) <= v.y as int <= m as int,
                    max_speed as int > 0,
            ;
            assert((v.x as int >= 0 ==> (v.x as int) * (max_speed as int) >= 0) && (v.x as int <= 0
                ==> (v.x as int) * (max_speed as int) <= 0) && (v.y as int >= 0 ==> (v.y as int)
                * (max_speed as int) >= 0) && (v.y as int <= 0 ==> (v.y as int) * (max_speed as int)
                <= 0)) by (nonlinear_arith)
                requires
                    max_speed as int > 0,
            ;
            assert((v.x as int) * (max_speed as int) <= 1_000_000_000_000_000_000int
                && (v.x as int) * (max_speed as int) >= -1_000_000_000_000_000_000int
                && (v.y as int) * (max_speed as int) <= 1_000_000_000_000_000_000int
                && (v.y as int) * (max_speed as int) >= -1_000_000_000_000_000_000int)
                by (nonlinear_arith)
                requires
                    -1_000_000_000_000int <= v.x as int <= 1_000_000_000_000int,
                    -1_000_000_000_000int <= v.y as int <= 1_000_000_000_000int,
                    0 < max_speed as int <= 1_000_000int,
            ;
        }
        let xm: i64 = v.x * max_speed;
        let ym: i64 = v.y * max_speed;
        proof {
            lemma_div_trunc_le(xm as int, m as int, max_speed as int);
            lemma_div_trunc_le(ym as int, m as int, max_speed as int);
        }
        let qx: i64 = div_trunc(xm, m);
        let qy: i64 = div_trunc(ym, m);
        Vec2 { x: qx, y: qy }
    }
}

/// Extending a prefix by one element: `take(i + 1)` is `take(i)` plus `s[i]`.
pub proof fn lemma_take_step(s: Seq<Neighbor>, i: int)
    requires
        0 <= i < s.len(),
    ensures
        s.take(i + 1).drop_last() == s.take(i),
        s.take(i + 1).last() == s[i],
{
    assert(s.take(i + 1).drop_last() =~= s.take(i));
}

/// Two neighbors placed symmetrically about the agent contribute opposite
/// pushes, so separation over exactly that pair is the zero vector.
pub proof fn lemma_separation_cancels(p: Vec2, a: Neighbor, b: Neighbor)
    requires
        a.pos.x + b.pos.x == 2 * p.x,
        a.pos.y + b.pos.y == 2 * p.y,
    ensures
        sep_sum(p, seq![a, b]) == Vec2i::zero(),
{
    let s = seq![a, b];
    assert(s.last() == b);
    assert(s.drop_last() =~= seq![a]);
    assert(seq![a].last() == a);
    assert(seq![a].drop_last() =~= Seq::<Neighbor>::empty());
    assert(sep_sum(p, Seq::<Neighbor>::empty()) == Vec2i::zero());
    assert(sep_sum(p, seq![a]) == (Vec2i {
        x: 0 + (p.x - a.pos.x),
        y: 0 + (p.y - a.pos.y),
    }));
    assert(sep_sum(p, s) == (Vec2i {
        x: sep_sum(p, seq![a]).x + (p.x - b.pos.x),
        y: sep_sum(p, seq![a]).y + (p.y - b.pos.y),
    }));
}

/// The clamped movement vector never exceeds the speed cap: its squared
/// length stays within `max * max`, whether or not the clamp rescaled it.
pub proof fn lemma_clamp_caps_speed(v: Vec2i, max: int)
    requires
        max >= 1,
    ensures
        len2(clamp_spec(v, max)) <= max * max,
{
    let s = len2(v);
    if s <= max * max {
        return ;
    }
    lemma_sqrt_ceil(s as nat);
    let m = sqrt_ceil(s as nat) as int;
    if m == 0 {
        assert(m * m == 0) by (nonlinear_arith)
            requires
                m == 0,
        ;
        assert(false);
    }
    let qx = div_toward_zero(v.x * max, m);
    let qy = div_toward_zero(v.y * max, m);
    lemma_div_trunc_mul_bound(v.x * max, m);
    lemma_div_trunc_mul_bound(v.y * max, m);
    assert((qx * m) * (qx * m) == (qx * qx) * (m * m) && (qy * m) * (qy * m) == (qy * qy) * (m
        * m) && (v.x * max) * (v.x * max) == (v.x * v.x) * (max * max) && (v.y * max) * (v.y * max)
        == (v.y * v.y) * (max * max)) by (nonlinear_arith);
    assert((v.x * v.x + v.y * v.y) * (max * max) <= (m * m) * (max * max)) by (nonlinear_arith)
        requires
            v.x * v.x + v.y * v.y <= m * m,
            max >= 1,
    ;
    let a2 = qx * qx + qy * qy;
    let b2 = max * max;
    let mm = m * m;
    assert(a2 * mm <= (v.x * v.x + v.y * v.y) * b2) by (nonlinear_arith)
        requires
            a2 == qx * qx + qy * qy,
            mm == m * m,
            b2 == max * max,
            (qx * qx) * (m * m) <= (v.x * v.x) * (max * max),
            (qy * qy) * (m * m) <= (v.y * v.y) * (max * max),
    ;
    assert(mm >= 1) by (nonlinear_arith)
        requires
            mm == m * m,
            m >= 1,
    ;
    assert(a2 <= b2) by (nonlinear_arith)
        requires
            a2 * mm <= mm * b2,
            mm >= 1,
    ;
}

} // verus!

