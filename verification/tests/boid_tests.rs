use boids::boid::{Boid, Neighbor, DEFAULT_MAX_SPEED};
use boids::boid::clamp_speed;
use boids::math::{div_trunc, isqrt_ceil};
use boids::vec2::Vec2;

fn nb(id: u64, px: i64, py: i64, vx: i64, vy: i64) -> Neighbor {
    Neighbor { id, pos: Vec2 { x: px, y: py }, vel: Vec2 { x: vx, y: vy } }
}

fn agent_at(id: u64, x: i64, y: i64) -> Boid {
    Boid::new(id, Vec2 { x, y }, Vec2 { x: 0, y: 0 }, DEFAULT_MAX_SPEED)
}

#[test]
fn separate_empty_is_zero() {
    let a = agent_at(1, 50, 50);
    let r = a.separate();
    assert_eq!((r.x, r.y), (0, 0));
}

#[test]
fn separate_single_neighbor_points_away() {
    let mut a = agent_at(1, 0, 0);
    a.on_body_entered(nb(2, 1, 0, 0, 0));
    let r = a.separate();
    assert_eq!((r.x, r.y), (-1, 0));
}

#[test]
fn separate_symmetric_neighbors_cancel() {
    let mut a = agent_at(1, 0, 0);
    a.on_body_entered(nb(2, 3, 4, 0, 0));
    a.on_body_entered(nb(3, -3, -4, 0, 0));
    let r = a.separate();
    assert_eq!((r.x, r.y), (0, 0));
}

#[test]
fn alignment_empty_is_zero() {
    let a = agent_at(1, 50, 50);
    let r = a.alignment();
    assert_eq!((r.x, r.y), (0, 0));
}

#[test]
fn alignment_sums_velocities() {
    let mut a = agent_at(1, 0, 0);
    a.on_body_entered(nb(2, 10, 10, 2, 0));
    a.on_body_entered(nb(3, 20, 20, -1, 1));
    let r = a.alignment();
    assert_eq!((r.x, r.y), (1, 1));
}

#[test]
fn cohesion_empty_flock_is_zero() {
    let a = agent_at(1, 50, 50);
    let r = a.cohesion();
    assert_eq!((r.x, r.y), (0, 0));
}

#[test]
fn cohesion_single_member_is_zero() {
    let mut a = agent_at(1, 50, 50);
    a.flock_entered(nb(2, 200, 200, 0, 0));
    let r = a.cohesion();
    assert_eq!((r.x, r.y), (0, 0));
}

#[test]
fn cohesion_two_members_damped_average() {
    // sums = (800, 400); divisor = 2 - 1; toward average from (100, 100)
    // gives (700, 300); damped by 100 gives (7, 3).
    let mut a = agent_at(1, 100, 100);
    a.flock_entered(nb(2, 300, 100, 0, 0));
    a.flock_entered(nb(3, 500, 300, 0, 0));
    let r = a.cohesion();
    assert_eq!((r.x, r.y), (7, 3));
}

#[test]
fn bound_on_boundary_gives_no_push() {
    let a = agent_at(1, 1000, 600);
    let r = a.bound();
    assert_eq!((r.x, r.y), (0, 0));
    let b = agent_at(2, 0, 0);
    let r = b.bound();
    assert_eq!((r.x, r.y), (0, 0));
}

#[test]
fn bound_pushes_back_per_axis() {
    let a = agent_at(1, 1001, 50);
    let r = a.bound();
    assert_eq!((r.x, r.y), (-500, 0));
    let b = agent_at(2, -1, 50);
    let r = b.bound();
    assert_eq!((r.x, r.y), (500, 0));
    let c = agent_at(3, 50, 601);
    let r = c.bound();
    assert_eq!((r.x, r.y), (0, -500));
    let d = agent_at(4, 1001, -1);
    let r = d.bound();
    assert_eq!((r.x, r.y), (-500, 500));
}

#[test]
fn clamp_rescales_onto_cap() {
    let r = clamp_speed(Vec2 { x: 30, y: 40 }, 5);
    assert_eq!((r.x, r.y), (3, 4));
    assert_eq!(r.x * r.x + r.y * r.y, 25);
}

#[test]
fn clamp_keeps_direction_sign() {
    let r = clamp_speed(Vec2 { x: -30, y: 40 }, 5);
    assert_eq!((r.x, r.y), (-3, 4));
}

#[test]
fn clamp_leaves_slow_vector_unchanged() {
    let r = clamp_speed(Vec2 { x: 3, y: 4 }, 5);
    assert_eq!((r.x, r.y), (3, 4));
    // squared length exactly on the cap also passes unchanged
    let r = clamp_speed(Vec2 { x: 30, y: 40 }, 50);
    assert_eq!((r.x, r.y), (30, 40));
}

#[test]
fn vision_exit_of_absent_entity_is_noop() {
    let mut a = agent_at(1, 0, 0);
    a.on_body_entered(nb(2, 1, 0, 0, 0));
    a.on_body_exited(9);
    assert_eq!(a.vision_len(), 1);
    let r = a.separate();
    assert_eq!((r.x, r.y), (-1, 0));
}

#[test]
fn vision_exit_removes_member() {
    let mut a = agent_at(1, 0, 0);
    a.on_body_entered(nb(2, 1, 0, 0, 0));
    a.on_body_exited(2);
    assert_eq!(a.vision_len(), 0);
}

#[test]
fn vision_enter_is_idempotent() {
    let mut a = agent_at(1, 0, 0);
    a.on_body_entered(nb(2, 1, 0, 0, 0));
    a.on_body_entered(nb(2, 1, 0, 0, 0));
    assert_eq!(a.vision_len(), 1);
}

#[test]
fn enter_ignores_the_agent_itself() {
    let mut a = agent_at(1, 0, 0);
    a.on_body_entered(nb(1, 5, 5, 0, 0));
    a.flock_entered(nb(1, 5, 5, 0, 0));
    assert_eq!(a.vision_len(), 0);
    assert_eq!(a.flock_len(), 0);
}

#[test]
fn flock_events_mirror_vision_events() {
    let mut a = agent_at(1, 0, 0);
    a.flock_entered(nb(2, 10, 0, 0, 0));
    a.flock_entered(nb(3, 20, 0, 0, 0));
    assert_eq!(a.flock_len(), 2);
    assert_eq!(a.vision_len(), 0);
    a.flock_exited(9);
    assert_eq!(a.flock_len(), 2);
    a.flock_exited(2);
    assert_eq!(a.flock_len(), 1);
}

#[test]
fn rotate_faces_current_velocity() {
    let mut a = Boid::new(1, Vec2 { x: 0, y: 0 }, Vec2 { x: 7, y: -2 }, 300);
    a.heading = Vec2 { x: 0, y: 0 };
    a.rotate();
    assert_eq!((a.heading.x, a.heading.y), (7, -2));
}

#[test]
fn tick_combines_four_rules_below_cap() {
    // cohesion (1, 1) + separation (0, -10) + alignment (10, 5) + bound (0, 0)
    let mut a = agent_at(1, 100, 100);
    let b = nb(2, 110, 100, 20, 0);
    let c = nb(3, 90, 110, -10, 5);
    a.on_body_entered(b);
    a.on_body_entered(c);
    a.flock_entered(b);
    a.flock_entered(c);
    a.physics_process();
    assert_eq!((a.vel.x, a.vel.y), (11, -4));
    assert_eq!((a.heading.x, a.heading.y), (11, -4));
    assert_eq!((a.pos.x, a.pos.y), (100, 100));
}

#[test]
fn tick_clamps_when_over_cap() {
    // same movement (11, -4): squared length 137 over 10^2, ceiling root 12
    let mut a = Boid::new(1, Vec2 { x: 100, y: 100 }, Vec2 { x: 0, y: 0 }, 10);
    let b = nb(2, 110, 100, 20, 0);
    let c = nb(3, 90, 110, -10, 5);
    a.on_body_entered(b);
    a.on_body_entered(c);
    a.flock_entered(b);
    a.flock_entered(c);
    a.physics_process();
    assert_eq!((a.vel.x, a.vel.y), (9, -3));
    assert!(a.vel.x * a.vel.x + a.vel.y * a.vel.y <= 100);
}

#[test]
fn div_trunc_rounds_toward_zero() {
    assert_eq!(div_trunc(7, 2), 3);
    assert_eq!(div_trunc(-7, 2), -3);
    assert_eq!(div_trunc(0, 5), 0);
}

#[test]
fn isqrt_ceil_small_values() {
    assert_eq!(isqrt_ceil(0), 0);
    assert_eq!(isqrt_ceil(1), 1);
    assert_eq!(isqrt_ceil(2), 2);
    assert_eq!(isqrt_ceil(4), 2);
    assert_eq!(isqrt_ceil(5), 3);
    assert_eq!(isqrt_ceil(2500), 50);
}
