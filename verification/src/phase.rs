//! Whose move it is.

use vstd::prelude::*;
use crate::ident::UserId;

verus! {

/// The phase of a game: who has to do what, or how the game ended.
#[derive(Clone, Copy, Debug, Eq, PartialEq)]
pub enum Phase {
    /// The user has to play a combo.
    Play(UserId),
    /// The user has played the joker and names who plays next.
    Jester(UserId),
    /// The user has to discard against the enemy's attack.
    Defend(UserId),
    /// The last enemy is beaten.
    Victory,
    /// A player could not withstand an attack.
    Defeat,
}

} // verus!
