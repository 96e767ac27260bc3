use hullfire::math::Vec3;
use hullfire::weapon::{
    inherited_velocity, lifetime_tick, weapon_step, BodyNode, Lifetime, Weapon,
};

fn v(x: i64, y: i64, z: i64) -> Vec3 {
    Vec3 { x, y, z }
}

fn origin() -> Vec3 {
    v(0, 0, 0)
}

fn forward_z() -> Vec3 {
    v(0, 0, 1)
}

#[test]
fn interval_must_be_positive() {
    assert!(Weapon::new(0).is_none());
    assert!(Weapon::new(-100).is_none());
    let w = Weapon::new(100_000).unwrap();
    assert!(!w.is_firing);
    assert_eq!(w.shot_interval, 100_000);
    assert_eq!(w.cooldown, 0);
}

#[test]
fn fresh_weapon_fires_once_immediately() {
    let mut w = Weapon::new(100_000).unwrap();
    w.fire();
    let events = weapon_step(&mut w, 16_000, origin(), forward_z(), origin(), 300);
    assert_eq!(events.len(), 1);
    assert_eq!(events[0].offset_time, 0);
    assert_eq!(events[0].position, origin());
    assert_eq!(events[0].velocity, v(0, 0, 300));
    assert_eq!(w.cooldown, 100_000);
    assert!(!w.is_firing);
}

#[test]
fn coarse_frame_emits_the_whole_backlog() {
    // nominal interval 0.1s, frame step 0.35s, cooldown 0.05s from an
    // earlier shot: exactly four shots are owed
    let mut w = Weapon { is_firing: false, shot_interval: 100_000, cooldown: 50_000 };
    w.fire();
    let events = weapon_step(&mut w, 350_000, origin(), forward_z(), origin(), 300);
    assert_eq!(events.len(), 4);
    // emission order runs from the oldest owed shot to the newest, so the
    // offsets into the past shrink by one interval per event
    assert_eq!(events[0].offset_time, 300_000);
    assert_eq!(events[1].offset_time, 200_000);
    assert_eq!(events[2].offset_time, 100_000);
    assert_eq!(events[3].offset_time, 0);
    assert!(w.cooldown > 0 && w.cooldown <= 100_000);
    assert_eq!(w.cooldown, 100_000);
}

#[test]
fn backlogged_shots_spread_out_in_space() {
    let mut w = Weapon { is_firing: false, shot_interval: 100_000, cooldown: 50_000 };
    w.fire();
    let events = weapon_step(&mut w, 250_000, origin(), forward_z(), origin(), 3);
    assert_eq!(events.len(), 3);
    // spawn position = position + velocity * offset_time
    assert_eq!(events[0].position, v(0, 0, 3 * 200_000));
    assert_eq!(events[1].position, v(0, 0, 3 * 100_000));
    assert_eq!(events[2].position, v(0, 0, 0));
}

#[test]
fn not_firing_emits_nothing_and_cooldown_stays_nonnegative() {
    let mut w = Weapon::new(100_000).unwrap();
    for _ in 0..10 {
        let events = weapon_step(&mut w, 16_000, origin(), forward_z(), origin(), 300);
        assert!(events.is_empty());
        assert!(w.cooldown >= 0);
    }
    assert_eq!(w.cooldown, 0);
}

#[test]
fn idle_frames_cool_the_weapon_down() {
    // a cooldown left over from a shot ticks down by the frame step on
    // idle frames and clamps at zero, so backlog never accumulates
    let mut w = Weapon { is_firing: false, shot_interval: 100_000, cooldown: 100_000 };
    assert!(weapon_step(&mut w, 30_000, origin(), forward_z(), origin(), 300).is_empty());
    assert_eq!(w.cooldown, 70_000);
    assert!(weapon_step(&mut w, 30_000, origin(), forward_z(), origin(), 300).is_empty());
    assert_eq!(w.cooldown, 40_000);
    assert!(weapon_step(&mut w, 30_000, origin(), forward_z(), origin(), 300).is_empty());
    assert_eq!(w.cooldown, 10_000);
    assert!(weapon_step(&mut w, 30_000, origin(), forward_z(), origin(), 300).is_empty());
    assert_eq!(w.cooldown, 0);
    // the weapon is fully cooled: the next latch fires at once
    w.fire();
    let events = weapon_step(&mut w, 16_000, origin(), forward_z(), origin(), 300);
    assert_eq!(events.len(), 1);
    assert_eq!(events[0].offset_time, 0);
}

#[test]
fn one_latch_yields_one_burst() {
    let mut w = Weapon::new(100_000).unwrap();
    w.fire();
    assert_eq!(weapon_step(&mut w, 16_000, origin(), forward_z(), origin(), 300).len(), 1);
    // the latch was consumed: without a new fire() nothing more comes
    assert_eq!(weapon_step(&mut w, 16_000, origin(), forward_z(), origin(), 300).len(), 0);
    assert!(w.cooldown > 0);
}

#[test]
fn latched_frames_keep_the_nominal_rate() {
    // 60 frames of 1/60s at interval 0.1s: exactly 10 shots in the second
    let mut w = Weapon::new(100_000).unwrap();
    let mut total = 0;
    for _ in 0..60 {
        w.fire();
        total += weapon_step(&mut w, 16_667, origin(), forward_z(), origin(), 300).len();
    }
    assert_eq!(total, 10);
}

#[test]
fn spawn_velocity_includes_inherited_velocity() {
    // a weapon on a platform moving at 70 along x, firing along z at
    // nominal speed 300, spawns at velocity (70, 0, 300)
    let mut w = Weapon::new(100_000).unwrap();
    w.fire();
    let events = weapon_step(&mut w, 16_000, v(10, 20, 30), forward_z(), v(70, 0, 0), 300);
    assert_eq!(events.len(), 1);
    assert_eq!(events[0].velocity, v(70, 0, 300));
    assert_eq!(events[0].direction, forward_z());
    assert_eq!(events[0].position, v(10, 20, 30));
}

#[test]
fn inherited_velocity_comes_from_nearest_moving_ancestor() {
    let bodies = vec![
        BodyNode { parent: None, velocity: Some(v(5, 6, 7)) },
        BodyNode { parent: Some(0), velocity: None },
        BodyNode { parent: Some(1), velocity: None },
        BodyNode { parent: Some(2), velocity: Some(v(1, 1, 1)) },
        BodyNode { parent: Some(3), velocity: None },
    ];
    // walks past velocity-less ancestors to the first one carrying one
    assert_eq!(inherited_velocity(&bodies, 2), v(5, 6, 7));
    // the nearest moving ancestor wins, not the root
    assert_eq!(inherited_velocity(&bodies, 4), v(1, 1, 1));
    // an entity's own velocity is not consulted, only its ancestors'
    assert_eq!(inherited_velocity(&bodies, 3), v(5, 6, 7));
    // no ancestor at all: zero
    assert_eq!(inherited_velocity(&bodies, 0), v(0, 0, 0));
}

#[test]
fn lifetime_expires_at_zero() {
    let mut l = Lifetime { remaining: 40_000 };
    assert!(!lifetime_tick(&mut l, 16_000));
    assert!(!lifetime_tick(&mut l, 16_000));
    assert!(lifetime_tick(&mut l, 16_000));
    assert_eq!(l.remaining, -8_000);
}
