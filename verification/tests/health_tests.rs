use shooter_core::health::Health;

#[test]
fn new_health_is_full() {
    let h = Health::new(100);
    assert_eq!(h.current(), 100);
    assert_eq!(h.max(), 100);
    assert!(h.is_alive());
}

#[test]
fn damage_clamps_at_zero() {
    // Health 5/100 takes a 20-damage hit: clamps to 0, not negative.
    let mut h = Health::new(100);
    h.damage(95);
    assert_eq!(h.current(), 5);
    h.damage(20);
    assert_eq!(h.current(), 0);
    assert!(!h.is_alive());
}

#[test]
fn heal_after_death_restores() {
    let mut h = Health::new(100);
    h.damage(100);
    assert_eq!(h.current(), 0);
    h.heal(20);
    assert_eq!(h.current(), 20);
    assert!(h.is_alive());
}

#[test]
fn heal_clamps_at_max() {
    // Heal of 200 on 90/100 clamps to 100.
    let mut h = Health::new(100);
    h.damage(10);
    assert_eq!(h.current(), 90);
    h.heal(200);
    assert_eq!(h.current(), 100);
}

#[test]
fn exact_damage_kills() {
    let mut h = Health::new(40);
    h.damage(40);
    assert_eq!(h.current(), 0);
    assert!(!h.is_alive());
}

#[test]
fn long_mixed_sequence_stays_clamped() {
    let mut h = Health::new(30);
    let ops: [(bool, u32); 9] = [
        (true, 7),
        (false, 3),
        (true, 50),
        (false, 100),
        (true, 1),
        (true, 29),
        (false, 29),
        (true, 0),
        (false, 0),
    ];
    for (is_damage, amount) in ops {
        if is_damage {
            h.damage(amount);
        } else {
            h.heal(amount);
        }
        assert!(h.current() <= h.max());
        assert_eq!(h.max(), 30);
    }
    assert_eq!(h.current(), 29);
}
