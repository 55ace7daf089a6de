use vstd::prelude::*;
use crate::games::tetris::solver::Rotation;

verus! {

/// What the player can be told to do.
#[derive(Clone, Copy, Debug, PartialEq, Eq, Structural)]
pub enum Command {
    Left,
    Right,
    Down,
    RotateLeft,
    RotateRight,
    Flip,
    Clear,
}

impl vstd::std_specs::convert::FromSpecImpl<Rotation> for Command {
    open spec fn obeys_from_spec() -> bool {
        true
    }

    /// The command that turns the falling figure; for no turn at all, `Down`.
    open spec fn from_spec(rotation: Rotation) -> Command {
        match rotation {
            Rotation::Identity => Command::Down,
            Rotation::Left => Command::RotateLeft,
            Rotation::Right => Command::RotateRight,
            Rotation::Flip => Command::Flip,
        }
    }
}

impl From<Rotation> for Command {
    fn from(rotation: Rotation) -> (command: Command) {
        match rotation {
            Rotation::Identity => Command::Down,
            Rotation::Left => Command::RotateLeft,
            Rotation::Right => Command::RotateRight,
            Rotation::Flip => Command::Flip,
        }
    }
}

} // verus!
