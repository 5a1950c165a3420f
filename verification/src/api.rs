//! What every snake offers to the server that runs it.

use vstd::prelude::*;
use crate::types::{GameError, GameState};

verus! {

/// How a snake presents itself.
#[derive(Clone, Debug)]
pub struct AboutMe {
    pub apiversion: String,
    pub author: Option<String>,
    pub color: Option<String>,
    pub head: Option<String>,
    pub tail: Option<String>,
    pub version: Option<String>,
}

impl Default for AboutMe {
    /// API version `"1"` and nothing else.
    fn default() -> (about: Self)
        ensures
            about.apiversion@ == "1"@,
            about.author.is_none(),
            about.color.is_none(),
            about.head.is_none(),
            about.tail.is_none(),
            about.version.is_none(),
    {
        AboutMe {
            apiversion: "1".to_owned(),
            author: None,
            color: None,
            head: None,
            tail: None,
            version: None,
        }
    }
}

/// The answer to a move request: the name of the direction, and a shout.
#[derive(Clone, Debug)]
pub struct MoveOutput {
    pub chosen_move: String,
    pub shout: Option<String>,
}

/// A snake that can be asked for its next move.
pub trait BattlesnakeAI {
    /// The name under which the snake is reached.
    fn name(&self) -> String;

    /// How the snake presents itself.
    fn about(&self) -> (about: AboutMe)
        default_ensures
            is_plain_about(about),
    {
        AboutMe::default()
    }

    /// The snake's move in `state`.
    fn make_move(&self, state: GameState) -> Result<MoveOutput, GameError>;
}

/// A maker of snakes of one kind.
pub trait BattlesnakeFactory {
    /// The kind of snake made.
    type Snake: BattlesnakeAI;

    /// The name under which the snakes are reached.
    fn name(&self) -> String;

    /// How the snakes present themselves.
    fn about(&self) -> (about: AboutMe)
        default_ensures
            is_plain_about(about),
    {
        AboutMe::default()
    }

    /// A snake for the game that starts with `game`.
    fn from_wire_game(&self, game: GameState) -> Self::Snake;
}

/// True when `about` is what a snake or a maker presents that says nothing
/// of its own: API version `"1"` and nothing else, as [`AboutMe::default`]
/// gives it.
pub open spec fn is_plain_about(about: AboutMe) -> bool {
    &&& about.apiversion@ == "1"@
    &&& about.author.is_none()
    &&& about.color.is_none()
    &&& about.head.is_none()
    &&& about.tail.is_none()
    &&& about.version.is_none()
}

} // verus!
