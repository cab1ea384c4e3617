use shooter_core::population::SpawnRequest;
use shooter_core::simulation::ContactProbe;
use shooter_core::simulation::Shot;
use shooter_core::simulation::Simulation;

fn no_shots() -> Vec<Shot> {
    Vec::new()
}

fn no_contacts() -> Vec<ContactProbe> {
    Vec::new()
}

fn no_spawns() -> Vec<SpawnRequest> {
    Vec::new()
}

#[test]
fn projectile_hit_through_a_full_tick() {
    // Rebuild interval 0: the snapshot is rebuilt every tick.
    let mut sim = Simulation::new(100, 100, 0);
    let spawns = vec![SpawnRequest { x: 10, y: 10, max_health: 50, cooldown_ms: None }];
    let report = sim.tick(16, &spawns, &no_shots(), &no_contacts());
    assert_eq!(report.admitted, 1);
    assert_eq!(sim.live_count(), 1);

    // A shot lands next to the enemy spawned last tick.
    let shots = vec![Shot { x: 12, y: 10, radius: 5, damage: 20, attacker: None }];
    let report = sim.tick(16, &no_spawns(), &shots, &no_contacts());
    assert_eq!(report.outcomes.len(), 1);
    assert!(report.outcomes[0].applied);
    assert_eq!(report.outcomes[0].target, 1);
    assert_eq!(sim.health_of(1), Some((30, 50)));
}

#[test]
fn lethal_hit_is_swept_in_the_same_tick() {
    let mut sim = Simulation::new(100, 100, 0);
    let spawns = vec![SpawnRequest { x: 0, y: 0, max_health: 20, cooldown_ms: None }];
    sim.tick(16, &spawns, &no_shots(), &no_contacts());

    let shots = vec![Shot { x: 0, y: 0, radius: 1, damage: 20, attacker: None }];
    let report = sim.tick(16, &no_spawns(), &shots, &no_contacts());
    assert!(report.outcomes[0].applied);
    // The sweep ran after the Apply and After phases of the same tick.
    assert_eq!(report.removed, 1);
    assert_eq!(sim.live_count(), 0);
    assert!(sim.health_of(1).is_none());
}

#[test]
fn contact_damage_respects_cooldown_per_tick() {
    // A player with a 150 ms cooldown stands next to two enemies; contact
    // damage lands once per cooldown window, not once per enemy.
    let mut sim = Simulation::new(100, 100, 0);
    let spawns = vec![
        // The player: id 1.
        SpawnRequest { x: 0, y: 0, max_health: 100, cooldown_ms: Some(150) },
        // Two enemies in contact range: ids 2 and 3.
        SpawnRequest { x: 1, y: 0, max_health: 50, cooldown_ms: None },
        SpawnRequest { x: 0, y: 1, max_health: 50, cooldown_ms: None },
    ];
    sim.tick(16, &spawns, &no_shots(), &no_contacts());

    let contacts = vec![ContactProbe { target: 1, x: 0, y: 0, radius: 5, damage: 20 }];
    let report = sim.tick(16, &no_spawns(), &no_shots(), &contacts);
    let applied: usize = report.outcomes.iter().filter(|o| o.applied).count();
    assert_eq!(report.outcomes.len(), 2);
    assert_eq!(applied, 1);
    assert_eq!(sim.health_of(1), Some((80, 100)));

    // 16 ms later the channel is still counting down: nothing lands.
    let report = sim.tick(16, &no_spawns(), &no_shots(), &contacts);
    assert_eq!(report.outcomes.iter().filter(|o| o.applied).count(), 0);
    assert_eq!(sim.health_of(1), Some((80, 100)));
}

#[test]
fn stale_snapshot_until_rebuild_falls_due() {
    // Rebuild interval 100 ms: the first tick (dt 100) rebuilds, the next
    // (dt 50) does not, so a shot still sees the old position set.
    let mut sim = Simulation::new(100, 100, 100);
    let spawns = vec![SpawnRequest { x: 0, y: 0, max_health: 50, cooldown_ms: None }];
    sim.tick(100, &spawns, &no_shots(), &no_contacts());

    // The actor moved away, but the snapshot from last rebuild still holds
    // the old position; the shot at the old spot finds it.
    assert!(sim.set_position(1, 500, 500));
    let shots = vec![Shot { x: 0, y: 0, radius: 1, damage: 5, attacker: None }];
    let report = sim.tick(50, &no_spawns(), &shots, &no_contacts());
    assert_eq!(report.outcomes.len(), 1);
    assert!(report.outcomes[0].applied);
    assert_eq!(sim.health_of(1), Some((45, 50)));

    // After the cadence fires again the snapshot catches up.
    sim.tick(50, &no_spawns(), &no_shots(), &no_contacts());
    let report = sim.tick(100, &no_spawns(), &shots, &no_contacts());
    assert_eq!(report.outcomes.len(), 0);
}

#[test]
fn spawn_cap_holds_at_end_of_every_tick() {
    let mut sim = Simulation::new(5, 3, 0);
    let spawns: Vec<SpawnRequest> =
        vec![SpawnRequest { x: 0, y: 0, max_health: 10, cooldown_ms: None }; 10];
    let r1 = sim.tick(16, &spawns, &no_shots(), &no_contacts());
    assert_eq!(r1.admitted, 3);
    let r2 = sim.tick(16, &spawns, &no_shots(), &no_contacts());
    assert_eq!(r2.admitted, 2);
    let r3 = sim.tick(16, &spawns, &no_shots(), &no_contacts());
    assert_eq!(r3.admitted, 0);
    assert_eq!(sim.live_count(), 5);
}

#[test]
fn positions_read_back_for_movement() {
    let mut sim = Simulation::new(10, 10, 0);
    let spawns = vec![
        SpawnRequest { x: 10, y: 10, max_health: 50, cooldown_ms: None },
        SpawnRequest { x: -5, y: 3, max_health: 50, cooldown_ms: None },
    ];
    sim.tick(16, &spawns, &no_shots(), &no_contacts());
    let pts = sim.collidable_points();
    assert_eq!(pts.len(), 2);
    assert_eq!((pts[0].x, pts[0].y, pts[0].id), (10, 10, 1));
    assert_eq!((pts[1].x, pts[1].y, pts[1].id), (-5, 3, 2));
    assert!(sim.set_position(2, -6, 4));
    let pts = sim.collidable_points();
    assert_eq!((pts[1].x, pts[1].y), (-6, 4));
}

#[test]
fn attacker_id_rides_along_into_outcomes() {
    let mut sim = Simulation::new(100, 100, 0);
    let spawns = vec![SpawnRequest { x: 3, y: 4, max_health: 50, cooldown_ms: None }];
    sim.tick(16, &spawns, &no_shots(), &no_contacts());

    let shots = vec![Shot { x: 0, y: 0, radius: 5, damage: 10, attacker: Some(99) }];
    let report = sim.tick(16, &no_spawns(), &shots, &no_contacts());
    assert_eq!(report.outcomes.len(), 1);
    assert_eq!(report.outcomes[0].context.attacker, Some(99));
    assert_eq!(report.outcomes[0].context.damage, 10);
}
