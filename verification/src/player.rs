//! The player's movement modes.

use vstd::prelude::*;

verus! {

/// How fast the player moves; the speeds themselves, in blocks per second,
/// are floating-point and live with the renderer.
#[derive(Clone, Copy, PartialEq, Eq, Structural, Debug)]
pub enum MoveSpeed {
    Walk,
    Sprint,
    CreativeFly,
    FtMinecraftFly,
}

/// Flip between sprinting and walking.
pub fn toggle_sprint(is_sprinting: &mut bool, move_speed: &mut MoveSpeed)
    ensures
        *final(is_sprinting) == !*old(is_sprinting),
        *final(move_speed) == if *final(is_sprinting) {
            MoveSpeed::Sprint
        } else {
            MoveSpeed::Walk
        },
{
    *is_sprinting = !*is_sprinting;
    *move_speed = if *is_sprinting {
        MoveSpeed::Sprint
    } else {
        MoveSpeed::Walk
    };
}

/// The movement mode while flying is toggled on or off.
pub fn flight_speed(fly_toggle: bool) -> (r: MoveSpeed)
    ensures
        r == if fly_toggle {
            MoveSpeed::FtMinecraftFly
        } else {
            MoveSpeed::Walk
        },
{
    if fly_toggle {
        MoveSpeed::FtMinecraftFly
    } else {
        MoveSpeed::Walk
    }
}

/// What a player did, as told to the others.
#[derive(Clone, Copy, PartialEq, Eq, Structural, Debug)]
pub enum PlayerAction {
    DestroyBlock,
}

} // verus!
