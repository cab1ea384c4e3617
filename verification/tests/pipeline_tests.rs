use shooter_core::damage::DamageContext;
use shooter_core::damage::DamagePipeline;
use shooter_core::damage::DamageType;
use shooter_core::population::Population;
use shooter_core::population::SpawnRequest;

fn spawn_one(pop: &mut Population, max_health: u32, cooldown_ms: Option<u64>) -> u64 {
    let before = pop.live_count();
    let requests = vec![SpawnRequest { x: 0, y: 0, max_health, cooldown_ms }];
    let admitted = pop.spawn_batch(&requests);
    assert_eq!(admitted, 1);
    assert_eq!(pop.live_count(), before + 1);
    // Ids are assigned in admission order starting at 1.
    pop.live_count() as u64
}

fn ctx(damage: u32) -> DamageContext {
    DamageContext::new(damage, DamageType::Bullet.code(), None)
}

#[test]
fn two_hits_same_pass_apply_once() {
    // Target 100/100 with a 150 ms cooldown; two 20-damage events in one
    // Apply pass: health ends at 80, not 60.
    let mut pop = Population::new(10, 10);
    let id = spawn_one(&mut pop, 100, Some(150));

    let mut pipeline = DamagePipeline::new();
    pipeline.send(id, ctx(20));
    pipeline.send(id, ctx(20));
    pipeline.before();
    pipeline.apply(&mut pop);
    let outcomes = pipeline.outcomes();

    assert_eq!(outcomes.len(), 2);
    assert!(outcomes[0].applied);
    assert!(!outcomes[1].applied);
    assert_eq!(pop.health_of(id), Some((80, 100)));
}

#[test]
fn two_hits_within_cooldown_window_apply_once() {
    // Two 20-damage events 50 ms apart against a 150 ms cooldown: the
    // second pass still finds the channel counting down.
    let mut pop = Population::new(10, 10);
    let id = spawn_one(&mut pop, 100, Some(150));

    let mut pipeline = DamagePipeline::new();
    pipeline.send(id, ctx(20));
    pipeline.before();
    pipeline.apply(&mut pop);
    let first = pipeline.outcomes();
    assert!(first[0].applied);
    pipeline.reset();

    pop.tick_cooldowns(50);

    pipeline.send(id, ctx(20));
    pipeline.before();
    pipeline.apply(&mut pop);
    let second = pipeline.outcomes();
    assert!(!second[0].applied);
    assert_eq!(pop.health_of(id), Some((80, 100)));
}

#[test]
fn hit_lands_again_after_cooldown_expires() {
    let mut pop = Population::new(10, 10);
    let id = spawn_one(&mut pop, 100, Some(150));

    let mut pipeline = DamagePipeline::new();
    pipeline.send(id, ctx(20));
    pipeline.before();
    pipeline.apply(&mut pop);
    pipeline.outcomes();
    pipeline.reset();

    pop.tick_cooldowns(150);

    pipeline.send(id, ctx(20));
    pipeline.before();
    pipeline.apply(&mut pop);
    let outcomes = pipeline.outcomes();
    assert!(outcomes[0].applied);
    assert_eq!(pop.health_of(id), Some((60, 100)));
}

#[test]
fn dead_target_rejects_further_events() {
    // Once health reaches zero, further events are rejected before sweep.
    let mut pop = Population::new(10, 10);
    let id = spawn_one(&mut pop, 30, None);

    let mut pipeline = DamagePipeline::new();
    pipeline.send(id, ctx(30));
    pipeline.send(id, ctx(5));
    pipeline.send(id, ctx(5));
    pipeline.before();
    pipeline.apply(&mut pop);
    let outcomes = pipeline.outcomes();

    assert!(outcomes[0].applied);
    assert!(!outcomes[1].applied);
    assert!(!outcomes[2].applied);
    assert_eq!(pop.health_of(id), Some((0, 30)));
}

#[test]
fn stale_id_after_sweep_is_a_silent_no_op() {
    // An event aimed at an id removed by a prior sweep: applied == false,
    // no panic.
    let mut pop = Population::new(10, 10);
    let id = spawn_one(&mut pop, 30, None);

    let mut pipeline = DamagePipeline::new();
    pipeline.send(id, ctx(30));
    pipeline.before();
    pipeline.apply(&mut pop);
    pipeline.outcomes();
    pipeline.reset();

    let removed = pop.sweep_dead();
    assert_eq!(removed, 1);
    assert_eq!(pop.live_count(), 0);
    assert_eq!(pop.health_of(id), None);

    pipeline.send(id, ctx(10));
    pipeline.before();
    pipeline.apply(&mut pop);
    let outcomes = pipeline.outcomes();
    assert!(!outcomes[0].applied);
}

#[test]
fn never_spawned_id_is_rejected() {
    let mut pop = Population::new(10, 10);
    let mut pipeline = DamagePipeline::new();
    pipeline.send(4242, ctx(10));
    pipeline.before();
    pipeline.apply(&mut pop);
    let outcomes = pipeline.outcomes();
    assert!(!outcomes[0].applied);
}

#[test]
fn cancelled_event_stays_cancelled_and_skips_target() {
    let mut pop = Population::new(10, 10);
    let id = spawn_one(&mut pop, 100, None);

    let mut pipeline = DamagePipeline::new();
    pipeline.send(id, ctx(20));
    pipeline.before();
    pipeline.apply(&mut pop);
    let outcomes = pipeline.outcomes();
    assert!(outcomes[0].applied);
    assert_eq!(pop.health_of(id), Some((80, 100)));
}

#[test]
fn no_cooldown_channel_takes_both_hits() {
    // Without a cooldown channel, two events in one pass both apply.
    let mut pop = Population::new(10, 10);
    let id = spawn_one(&mut pop, 100, None);

    let mut pipeline = DamagePipeline::new();
    pipeline.send(id, ctx(20));
    pipeline.send(id, ctx(20));
    pipeline.before();
    pipeline.apply(&mut pop);
    let outcomes = pipeline.outcomes();
    assert!(outcomes[0].applied);
    assert!(outcomes[1].applied);
    assert_eq!(pop.health_of(id), Some((60, 100)));
}

#[test]
fn queue_is_observable_between_phases() {
    let mut pop = Population::new(10, 10);
    let id = spawn_one(&mut pop, 100, Some(150));
    let mut pipeline = DamagePipeline::new();
    pipeline.send(id, ctx(20));
    pipeline.send(id, ctx(30));
    assert_eq!(pipeline.len(), 2);
    let first = pipeline.event_at(0);
    assert_eq!(first.target, id);
    assert_eq!(first.context.damage, 20);
    assert!(first.apply);
    pipeline.before();
    pipeline.apply(&mut pop);
    // After Apply, the second event shows as cancelled in place.
    assert!(pipeline.event_at(0).apply);
    let second = pipeline.event_at(1);
    assert!(!second.apply);
    assert_eq!(second.context.damage, 30);
    pipeline.outcomes();
    pipeline.reset();
    assert_eq!(pipeline.len(), 0);
}

#[test]
fn queue_order_is_preserved_into_outcomes() {
    let mut pop = Population::new(10, 10);
    let a = spawn_one(&mut pop, 100, None);
    let b = spawn_one(&mut pop, 100, None);

    let mut pipeline = DamagePipeline::new();
    pipeline.send(a, ctx(1));
    pipeline.send(b, ctx(2));
    pipeline.send(a, ctx(3));
    pipeline.before();
    pipeline.apply(&mut pop);
    let outcomes = pipeline.outcomes();
    assert_eq!(outcomes.len(), 3);
    assert_eq!(outcomes[0].target, a);
    assert_eq!(outcomes[0].context.damage, 1);
    assert_eq!(outcomes[1].target, b);
    assert_eq!(outcomes[1].context.damage, 2);
    assert_eq!(outcomes[2].target, a);
    assert_eq!(outcomes[2].context.damage, 3);
    assert_eq!(pop.health_of(a), Some((96, 100)));
    assert_eq!(pop.health_of(b), Some((98, 100)));
}
