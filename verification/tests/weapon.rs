use level_progression::component::Weapon;
use level_progression::weapon::{insert_fire, reload, set_ammo, Ammo, MaxAmmo};

#[test]
fn a_weapon_starts_with_a_full_magazine() {
    assert_eq!(MaxAmmo::of(Weapon::Shotgun), MaxAmmo(1));
    assert_eq!(MaxAmmo::of(Weapon::AssaultRifle), MaxAmmo(3));
    assert_eq!(MaxAmmo::of(Weapon::GravityGun), MaxAmmo(2));
    assert_eq!(MaxAmmo(3).insert(), Ammo(3));
}

#[test]
fn shots_are_spent_in_the_air_only() {
    let mut ammo = Ammo(2);
    assert!(insert_fire(&mut ammo, true));
    assert_eq!(ammo, Ammo(2));
    assert!(insert_fire(&mut ammo, false));
    assert_eq!(ammo, Ammo(1));
    assert!(insert_fire(&mut ammo, false));
    assert_eq!(ammo, Ammo(0));
    assert!(!insert_fire(&mut ammo, false));
    assert_eq!(ammo, Ammo(0));
    assert!(insert_fire(&mut ammo, true));
    assert_eq!(ammo, Ammo(0));
}

#[test]
fn landing_fills_the_magazine() {
    let mut ammo = Ammo(0);
    reload(&mut ammo, &MaxAmmo(3));
    assert_eq!(ammo, Ammo(3));
}

#[test]
fn set_ammo_sets_size_and_shots() {
    let mut max = MaxAmmo(1);
    let mut ammo = Ammo(0);
    set_ammo(&mut max, &mut ammo, 12);
    assert_eq!((max, ammo), (MaxAmmo(12), Ammo(12)));
}
