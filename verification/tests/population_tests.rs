use shooter_core::population::Population;
use shooter_core::population::SpawnRequest;

fn request() -> SpawnRequest {
    SpawnRequest { x: 0, y: 0, max_health: 100, cooldown_ms: Some(150) }
}

fn requests(n: usize) -> Vec<SpawnRequest> {
    vec![request(); n]
}

#[test]
fn admission_near_the_cap_truncates() {
    // max_live = 20000, live = 19990, rate cap = 500, requested = 500:
    // exactly 10 admitted.
    let mut pop = Population::new(20_000, 500);
    while pop.live_count() < 19_990 {
        let want = 19_990 - pop.live_count();
        let batch = if want < 500 { want } else { 500 };
        let admitted = pop.spawn_batch(&requests(batch));
        assert_eq!(admitted, batch);
    }
    assert_eq!(pop.live_count(), 19_990);
    let admitted = pop.spawn_batch(&requests(500));
    assert_eq!(admitted, 10);
    assert_eq!(pop.live_count(), 20_000);
}

#[test]
fn full_population_admits_nothing() {
    let mut pop = Population::new(3, 10);
    assert_eq!(pop.spawn_batch(&requests(3)), 3);
    assert_eq!(pop.spawn_batch(&requests(1)), 0);
    assert_eq!(pop.live_count(), 3);
}

#[test]
fn rate_cap_limits_one_batch() {
    let mut pop = Population::new(100, 5);
    assert_eq!(pop.spawn_batch(&requests(50)), 5);
    assert_eq!(pop.live_count(), 5);
    assert_eq!(pop.spawn_batch(&requests(50)), 5);
    assert_eq!(pop.live_count(), 10);
}

#[test]
fn admission_is_front_biased_with_fresh_ids() {
    let mut pop = Population::new(10, 10);
    let reqs = vec![
        SpawnRequest { x: 1, y: 2, max_health: 10, cooldown_ms: None },
        SpawnRequest { x: 3, y: 4, max_health: 20, cooldown_ms: Some(5) },
    ];
    assert_eq!(pop.spawn_batch(&reqs), 2);
    // Ids start at 1 and are assigned in request order.
    assert_eq!(pop.health_of(1), Some((10, 10)));
    assert_eq!(pop.health_of(2), Some((20, 20)));
}

#[test]
fn sweep_removes_exactly_the_dead() {
    let mut pop = Population::new(10, 10);
    assert_eq!(pop.spawn_batch(&requests(3)), 3);
    // Kill actor 2 only.
    let mut pipeline = shooter_core::damage::DamagePipeline::new();
    pipeline.send(
        2,
        shooter_core::damage::DamageContext::without_attacker(
            100,
            shooter_core::damage::DamageType::Bullet.code(),
        ),
    );
    pipeline.before();
    pipeline.apply(&mut pop);
    pipeline.outcomes();

    assert_eq!(pop.live_count(), 3);
    let removed = pop.sweep_dead();
    assert_eq!(removed, 1);
    assert_eq!(pop.live_count(), 2);
    assert!(pop.health_of(2).is_none());
    assert_eq!(pop.health_of(1), Some((100, 100)));
    assert_eq!(pop.health_of(3), Some((100, 100)));
}

#[test]
fn sweep_on_all_alive_removes_nothing() {
    let mut pop = Population::new(10, 10);
    assert_eq!(pop.spawn_batch(&requests(4)), 4);
    assert_eq!(pop.sweep_dead(), 0);
    assert_eq!(pop.live_count(), 4);
}

#[test]
fn ids_are_never_reused_after_a_sweep() {
    let mut pop = Population::new(10, 10);
    assert_eq!(pop.spawn_batch(&requests(2)), 2);
    let mut pipeline = shooter_core::damage::DamagePipeline::new();
    pipeline.send(
        1,
        shooter_core::damage::DamageContext::without_attacker(
            100,
            shooter_core::damage::DamageType::Enemy.code(),
        ),
    );
    pipeline.before();
    pipeline.apply(&mut pop);
    pipeline.outcomes();
    pop.sweep_dead();

    // The freed slot does not resurrect id 1.
    assert_eq!(pop.spawn_batch(&requests(1)), 1);
    assert!(pop.health_of(1).is_none());
    assert_eq!(pop.health_of(3), Some((100, 100)));
}

#[test]
fn heal_and_position_on_missing_id_are_no_ops() {
    let mut pop = Population::new(10, 10);
    assert!(!pop.heal(7, 10));
    assert!(!pop.set_position(7, 1, 1));
    assert_eq!(pop.live_count(), 0);
}

#[test]
fn collidable_points_mirror_positions() {
    let mut pop = Population::new(10, 10);
    let reqs = vec![
        SpawnRequest { x: 5, y: 6, max_health: 10, cooldown_ms: None },
        SpawnRequest { x: -7, y: 8, max_health: 10, cooldown_ms: None },
    ];
    pop.spawn_batch(&reqs);
    assert!(pop.set_position(2, -9, 10));
    let pts = pop.collidable_points();
    assert_eq!(pts.len(), 2);
    assert_eq!((pts[0].x, pts[0].y, pts[0].id), (5, 6, 1));
    assert_eq!((pts[1].x, pts[1].y, pts[1].id), (-9, 10, 2));
}
