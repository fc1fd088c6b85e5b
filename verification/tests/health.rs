use core_game::Health;

#[test]
fn damage_clamps_to_zero() {
    let mut hp = Health::new(10);
    hp.damage(15);
    assert_eq!(0, hp.current());
}

#[test]
fn damage_subtracts_when_enough_health() {
    let mut hp = Health::new(100);
    hp.damage(30);
    assert_eq!(70, hp.current());
    hp.damage(70);
    assert_eq!(0, hp.current());
}
