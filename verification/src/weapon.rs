//! The magazine of a weapon: how many shots it holds, and when a shot is
//! spent.

use crate::component::Weapon;
use vstd::prelude::*;

verus! {

/// How many shots the magazine of a weapon holds.
#[derive(Clone, Copy, Debug, PartialEq, Eq, Structural)]
pub struct MaxAmmo(pub usize);

/// How many shots are left in the magazine of a weapon.
#[derive(Clone, Copy, Debug, PartialEq, Eq, Structural)]
pub struct Ammo(pub usize);

impl MaxAmmo {
    /// The magazine that a weapon is spawned with.
    pub fn of(weapon: Weapon) -> (max: MaxAmmo)
        ensures
            max.0 == match weapon {
                Weapon::Shotgun => 1usize,
                Weapon::AssaultRifle => 3usize,
                Weapon::GravityGun => 2usize,
            },
    {
        match weapon {
            Weapon::Shotgun => MaxAmmo(1),
            Weapon::AssaultRifle => MaxAmmo(3),
            Weapon::GravityGun => MaxAmmo(2),
        }
    }

    /// The shots of a weapon that has just got this magazine: it is full.
    pub fn insert(&self) -> (ammo: Ammo)
        ensures
            ammo.0 == self.0,
    {
        Ammo(self.0)
    }
}

/// Fills the magazine. It is filled whenever the player lands.
pub fn reload(ammo: &mut Ammo, max: &MaxAmmo)
    ensures
        final(ammo).0 == max.0,
{
    ammo.0 = max.0;
}

/// Decides an attack. On the ground the weapon fires and spends nothing; in
/// the air it fires only while a shot is left, and spends it. Returns
/// whether the weapon fires.
pub fn insert_fire(ammo: &mut Ammo, grounded: bool) -> (fires: bool)
    ensures
        fires == (grounded || old(ammo).0 > 0),
        final(ammo).0 == if !grounded && old(ammo).0 > 0 {
            (old(ammo).0 - 1) as usize
        } else {
            old(ammo).0
        },
{
    if !grounded && ammo.0 == 0 {
        return false;
    }
    if !grounded {
        ammo.0 = ammo.0 - 1;
    }
    true
}

/// Sets the size of the magazine to `amount` and fills it.
pub fn set_ammo(max: &mut MaxAmmo, ammo: &mut Ammo, amount: usize)
    ensures
        final(max).0 == amount,
        final(ammo).0 == amount,
{
    max.0 = amount;
    ammo.0 = amount;
}

} // verus!
