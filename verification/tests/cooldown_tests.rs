use shooter_core::cooldown::DamageCooldown;

#[test]
fn fresh_channel_is_ready() {
    let c = DamageCooldown::new(150);
    assert!(c.is_ready());
}

#[test]
fn applying_rearms_and_time_releases() {
    let mut c = DamageCooldown::new(150);
    c.mark_applied();
    assert!(!c.is_ready());
    c.tick(50);
    assert!(!c.is_ready());
    c.tick(99);
    assert!(!c.is_ready());
    c.tick(1);
    assert!(c.is_ready());
}

#[test]
fn tick_saturates_at_zero() {
    let mut c = DamageCooldown::new(100);
    c.mark_applied();
    c.tick(1_000_000);
    assert!(c.is_ready());
    c.tick(1_000_000);
    assert!(c.is_ready());
}

#[test]
fn readiness_check_has_no_side_effect() {
    let mut c = DamageCooldown::new(100);
    c.mark_applied();
    for _ in 0..10 {
        assert!(!c.is_ready());
    }
    c.tick(100);
    assert!(c.is_ready());
}

#[test]
fn zero_duration_channel_never_blocks() {
    let mut c = DamageCooldown::new(0);
    assert!(c.is_ready());
    c.mark_applied();
    assert!(c.is_ready());
}
