//! Weapon fire scheduling.
//!
//! A weapon turns a fire-intent latch plus a variable frame step into the
//! exact sequence of owed spawn events. The signed `cooldown` encodes the
//! backlog: it may go negative inside one scheduling step, and the catch-up
//! loop then emits one event per owed interval, each projected back to the
//! moment it should have happened. Time is in integer time units; velocities
//! compose exactly.

use vstd::prelude::*;

use crate::math::LOCAL_BOUND;
use crate::math::TIME_BOUND;
use crate::math::VELOCITY_BOUND;
use crate::math::Vec3;
use crate::math::WORLD_BOUND;
use crate::math::bounded;
use crate::math::lemma_mul_bound;

verus! {

/// Per-entity weapon state: the fire-intent latch, the nominal interval
/// between shots, and the cooldown timer. The cooldown is never negative
/// between scheduling steps.
pub struct Weapon {
    pub is_firing: bool,
    /// Nominal interval between shots, in time units.
    pub shot_interval: i64,
    /// Remaining cooldown, in time units.
    pub cooldown: i64,
}

/// A well-formed weapon: a positive, bounded interval and a cooldown
/// settled inside `[0, interval]`.
pub open spec fn weapon_wf(w: Weapon) -> bool {
    0 < w.shot_interval <= TIME_BOUND && 0 <= w.cooldown <= w.shot_interval
}

impl Weapon {
    /// A fresh weapon with the given nominal interval, ready to fire at
    /// once. An interval outside `(0, TIME_BOUND]` is rejected: a zero or
    /// negative interval would make the catch-up loop run forever.
    pub fn new(shot_interval: i64) -> (r: Option<Weapon>)
        ensures
            r is Some <==> 0 < shot_interval <= TIME_BOUND,
            r matches Some(w) ==> w.is_firing == false && w.shot_interval == shot_interval
                && w.cooldown == 0 && weapon_wf(w),
    {
        if 0 < shot_interval && shot_interval <= TIME_BOUND {
            Some(Weapon { is_firing: false, shot_interval, cooldown: 0 })
        } else {
            None
        }
    }

    /// Latch fire intent. The external input or AI system calls this; the
    /// scheduler clears it again, so one latch yields one burst.
    pub fn fire(&mut self)
        ensures
            final(self).is_firing == true,
            final(self).shot_interval == old(self).shot_interval,
            final(self).cooldown == old(self).cooldown,
    {
        self.is_firing = true;
    }
}

/// One owed projectile spawn: where, which way, how fast, and how far in
/// the past (within the current frame) the shot should have happened.
#[derive(Clone, Copy, PartialEq, Eq, Structural, Debug)]
pub struct SpawnEvent {
    pub position: Vec3,
    pub direction: Vec3,
    pub velocity: Vec3,
    /// Time units before the current frame at which the shot was owed.
    pub offset_time: i64,
}

/// The cooldown after the frame's decrement: ticking only a positive
/// cooldown avoids double-penalizing the first firing frame.
pub open spec fn ticked_cooldown(w: Weapon, dt: int) -> int {
    if w.cooldown > 0 {
        w.cooldown - dt
    } else {
        w.cooldown as int
    }
}

/// The `i`-th event of a step: owed at `-(c0 + i * interval)` time units in
/// the past, fired along `forward` at the nominal speed plus the inherited
/// velocity, and spawned at the position the projectile would have reached
/// by now, so same-frame shots do not overlap.
pub open spec fn event_matches(
    e: SpawnEvent,
    position: Vec3,
    forward: Vec3,
    inherited: Vec3,
    speed: i64,
    c0: int,
    interval: int,
    i: int,
) -> bool {
    let off = -(c0 + i * interval);
    &&& e.offset_time == off
    &&& e.direction == forward
    &&& e.velocity.x == forward.x * speed + inherited.x
    &&& e.velocity.y == forward.y * speed + inherited.y
    &&& e.velocity.z == forward.z * speed + inherited.z
    &&& e.position.x == position.x + (forward.x * speed + inherited.x) * off
    &&& e.position.y == position.y + (forward.y * speed + inherited.y) * off
    &&& e.position.z == position.z + (forward.z * speed + inherited.z) * off
}

/// One scheduling step for one weapon, over one frame of `dt` time units.
///
/// A positive cooldown ticks down by the frame step on every frame. Not
/// firing: the ticked cooldown is clamped to be non-negative — backlog
/// never accumulates while not firing — and no event is ever emitted.
/// Firing: the latch is consumed and one event is emitted per owed interval
/// until the cooldown settles in `(0, interval]`. The number of emitted
/// events is thus exactly pinned by
/// `final cooldown == ticked cooldown + count * interval`, which is the
/// long-run rate guarantee: over latched frames, intervals consumed equal
/// events emitted.
pub fn weapon_step(
    w: &mut Weapon,
    dt: i64,
    position: Vec3,
    forward: Vec3,
    inherited_velocity: Vec3,
    speed: i64,
) -> (events: Vec<SpawnEvent>)
    requires
        weapon_wf(*old(w)),
        0 <= dt <= TIME_BOUND,
        bounded(position, WORLD_BOUND as int),
        bounded(forward, LOCAL_BOUND as int),
        bounded(inherited_velocity, VELOCITY_BOUND as int),
        -LOCAL_BOUND <= speed <= LOCAL_BOUND,
    ensures
        weapon_wf(*final(w)),
        final(w).shot_interval == old(w).shot_interval,
        final(w).is_firing == false,
        !old(w).is_firing ==> events@.len() == 0 && final(w).cooldown == (
        if ticked_cooldown(*old(w), dt as int) >= 0 {
            ticked_cooldown(*old(w), dt as int)
        } else {
            0int
        }),
        old(w).is_firing ==> {
            let c0 = ticked_cooldown(*old(w), dt as int);
            let iv = old(w).shot_interval as int;
            &&& final(w).cooldown == c0 + events@.len() * iv
            &&& 0 < final(w).cooldown <= iv
            &&& (events@.len() > 0 <==> c0 <= 0)
            &&& forall|i: int|
                0 <= i < events@.len() ==> event_matches(
                    #[trigger] events@[i],
                    position,
                    forward,
                    inherited_velocity,
                    speed,
                    c0,
                    iv,
                    i,
                )
        },
{
    // a positive cooldown ticks down every frame, firing or not; ticking
    // only a positive one avoids double-penalizing the first firing frame
    if w.cooldown > 0 {
        w.cooldown = w.cooldown - dt;
    }
    if !w.is_firing {
        // never let backlog accumulate while not firing
        if w.cooldown < 0 {
            w.cooldown = 0;
        }
        return Vec::new();
    }
    // consume the latch: one activation yields one burst
    w.is_firing = false;
    let ghost c0 = w.cooldown as int;
    let ghost iv = w.shot_interval as int;
    proof {
        lemma_mul_bound(forward.x as int, speed as int, LOCAL_BOUND as int, LOCAL_BOUND as int);
        lemma_mul_bound(forward.y as int, speed as int, LOCAL_BOUND as int, LOCAL_BOUND as int);
        lemma_mul_bound(forward.z as int, speed as int, LOCAL_BOUND as int, LOCAL_BOUND as int);
    }
    let velocity = Vec3 {
        x: forward.x * speed + inherited_velocity.x,
        y: forward.y * speed + inherited_velocity.y,
        z: forward.z * speed + inherited_velocity.z,
    };
    let mut events: Vec<SpawnEvent> = Vec::new();
    while w.cooldown <= 0
        invariant
            weapon_wf(*old(w)),
            iv == old(w).shot_interval as int,
            c0 == ticked_cooldown(*old(w), dt as int),
            0 <= dt <= TIME_BOUND,
            w.shot_interval == old(w).shot_interval,
            w.is_firing == false,
            -TIME_BOUND <= c0,
            c0 <= w.cooldown <= iv,
            w.cooldown == c0 + events@.len() * iv,
            events@.len() > 0 ==> c0 <= 0,
            bounded(position, WORLD_BOUND as int),
            bounded(forward, LOCAL_BOUND as int),
            bounded(inherited_velocity, VELOCITY_BOUND as int),
            -LOCAL_BOUND <= speed <= LOCAL_BOUND,
            velocity.x == forward.x * speed + inherited_velocity.x,
            velocity.y == forward.y * speed + inherited_velocity.y,
            velocity.z == forward.z * speed + inherited_velocity.z,
            forall|i: int|
                0 <= i < events@.len() ==> event_matches(
                    #[trigger] events@[i],
                    position,
                    forward,
                    inherited_velocity,
                    speed,
                    c0,
                    iv,
                    i,
                ),
        decreases iv - w.cooldown,
    {
        // how far in the past, within this frame, this shot was owed
        let offset_time = -w.cooldown;
        proof {
            lemma_mul_bound(forward.x as int, speed as int, LOCAL_BOUND as int, LOCAL_BOUND as int);
            lemma_mul_bound(forward.y as int, speed as int, LOCAL_BOUND as int, LOCAL_BOUND as int);
            lemma_mul_bound(forward.z as int, speed as int, LOCAL_BOUND as int, LOCAL_BOUND as int);
            lemma_mul_bound(velocity.x as int, offset_time as int, 206158430208, TIME_BOUND as int);
            lemma_mul_bound(velocity.y as int, offset_time as int, 206158430208, TIME_BOUND as int);
            lemma_mul_bound(velocity.z as int, offset_time as int, 206158430208, TIME_BOUND as int);
            vstd::arithmetic::mul::lemma_mul_is_distributive_add_other_way(
                iv,
                events@.len() as int,
                1,
            );
        }
        w.cooldown = w.cooldown + w.shot_interval;
        // project the spawn point forward so same-frame shots do not overlap
        let spawn_position = Vec3 {
            x: position.x + velocity.x * offset_time,
            y: position.y + velocity.y * offset_time,
            z: position.z + velocity.z * offset_time,
        };
        events.push(
            SpawnEvent { position: spawn_position, direction: forward, velocity, offset_time },
        );
    }
    events
}

/// One live entity of the simulated world, as velocity resolution sees it:
/// its parent, and its own velocity if it is a moving rigid body. Entities
/// are indexed so that a parent always precedes its children.
#[derive(Clone, Copy, PartialEq, Eq, Structural, Debug)]
pub struct BodyNode {
    pub parent: Option<usize>,
    pub velocity: Option<Vec3>,
}

/// A well-formed world: parents precede their children, and every stored
/// velocity is bounded.
pub open spec fn bodies_wf(w: Seq<BodyNode>) -> bool {
    &&& forall|i: int| 0 <= i < w.len() ==> (#[trigger] w[i].parent matches Some(p) ==> p < i)
    &&& forall|i: int|
        0 <= i < w.len() ==> (#[trigger] w[i].velocity matches Some(v) ==> bounded(
            v,
            VELOCITY_BOUND as int,
        ))
}

/// The velocity an entity inherits: that of its nearest ancestor carrying
/// one, or zero when no ancestor does.
pub open spec fn inherited_velocity_of(w: Seq<BodyNode>, i: int) -> Vec3
    decreases i,
{
    match w[i].parent {
        Option::None => Vec3 { x: 0, y: 0, z: 0 },
        Option::Some(p) => if 0 <= p < i {
            match w[p as int].velocity {
                Option::Some(v) => v,
                Option::None => inherited_velocity_of(w, p as int),
            }
        } else {
            Vec3 { x: 0, y: 0, z: 0 }
        },
    }
}

/// Walk up the parent chain to the nearest ancestor carrying a velocity;
/// entities without a moving ancestor inherit zero velocity.
pub fn inherited_velocity(bodies: &Vec<BodyNode>, entity: usize) -> (r: Vec3)
    requires
        bodies_wf(bodies@),
        entity < bodies@.len(),
    ensures
        r == inherited_velocity_of(bodies@, entity as int),
        bounded(r, VELOCITY_BOUND as int),
    decreases entity,
{
    proof {
        assert(bodies@[entity as int].parent matches Some(p) ==> p < entity);
    }
    match bodies[entity].parent {
        Option::None => Vec3 { x: 0, y: 0, z: 0 },
        Option::Some(p) => {
            proof {
                assert(bodies@[p as int].velocity matches Some(v) ==> bounded(
                    v,
                    VELOCITY_BOUND as int,
                ));
            }
            match &bodies[p].velocity {
                Option::Some(v) => *v,
                Option::None => inherited_velocity(bodies, p),
            }
        },
    }
}

/// Remaining life of a spawned entity, in time units.
pub struct Lifetime {
    pub remaining: i64,
}

/// Tick a lifetime down by one frame step; the entity expires, and the
/// caller despawns it, when no life remains.
pub fn lifetime_tick(l: &mut Lifetime, dt: i64) -> (expired: bool)
    requires
        -TIME_BOUND <= old(l).remaining <= TIME_BOUND,
        0 <= dt <= TIME_BOUND,
    ensures
        final(l).remaining == old(l).remaining - dt,
        expired == (final(l).remaining <= 0),
{
    l.remaining = l.remaining - dt;
    l.remaining <= 0
}

} // verus!
