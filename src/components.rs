use vstd::prelude::*;

verus! {

/// The animations that the player sprite plays.
#[derive(Clone, Copy, Debug, Hash, PartialEq, Eq, Structural)]
pub enum Animation {
    Run,
    Idle,
    Jump,
    Fall,
}

/// Marks a solid block of the level.
#[derive(Clone, Copy, Default, Debug)]
pub struct Wall;

/// Marks a cell that the player can climb.
#[derive(Clone, Copy, Default, Debug)]
pub struct Climbable;

/// What a ladder cell of the level is made of.
#[derive(Clone, Copy, Default, Debug)]
pub struct LadderBundle {
    pub climbable: Climbable,
}

/// Whether the player stands on the ground.
#[derive(Clone, Copy, Debug)]
pub struct Grounded(pub bool);

/// Marks the player entity.
#[derive(Clone, Copy, Default, Debug)]
pub struct Player;

/// Marks the camera that follows the player.
#[derive(Clone, Copy, Default, Debug)]
pub struct CameraTest;

/// The actions that the player's input maps to.
#[derive(Clone, Copy, Debug, PartialEq, Eq, Structural)]
pub enum PlayerInput {
    Left,
    Right,
    Jump,
    Fall,
    Crouch,
    CrouchWalkRight,
    CrouchWalkLeft,
    LookUp,
}

} // verus!
