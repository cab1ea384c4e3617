use shooter_core::projectile::GunTimer;
use shooter_core::projectile::Lifespan;
use shooter_core::projectile::traveled_beyond;
use shooter_core::spatial::RebuildTimer;

#[test]
fn lifespan_expires_after_its_duration() {
    let mut l = Lifespan::new(500);
    assert!(!l.expired());
    l.tick(499);
    assert!(!l.expired());
    l.tick(1);
    assert!(l.expired());
    l.tick(1000);
    assert!(l.expired());
}

#[test]
fn travel_limit_is_inclusive() {
    // Distance 5 against a maximum of 5: not beyond yet.
    assert!(!traveled_beyond(0, 0, 3, 4, 5));
    assert!(traveled_beyond(0, 0, 3, 5, 5));
    assert!(!traveled_beyond(10, 10, 10, 10, 0));
    assert!(traveled_beyond(10, 10, 11, 10, 0));
}

#[test]
fn gun_waits_one_interval_then_fires_while_held() {
    let mut g = GunTimer::new(100);
    assert!(!g.try_fire(true, 50));
    assert!(g.try_fire(true, 50));
    // Firing rearms: the next shot needs another full interval.
    assert!(!g.try_fire(true, 99));
    assert!(g.try_fire(true, 1));
}

#[test]
fn gun_does_not_fire_unheld() {
    let mut g = GunTimer::new(100);
    assert!(!g.try_fire(false, 1000));
    // Time kept passing while unheld, so the next held tick fires.
    assert!(g.try_fire(true, 0));
}

#[test]
fn rebuild_cadence_fires_every_interval() {
    let mut t = RebuildTimer::new(100);
    assert!(!t.advance(60));
    assert!(t.advance(40));
    assert!(!t.advance(99));
    assert!(t.advance(1));
    // A zero interval means a rebuild every tick.
    let mut every = RebuildTimer::new(0);
    assert!(every.advance(0));
    assert!(every.advance(16));
}
