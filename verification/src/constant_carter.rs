//! The snake that always turns right.

use vstd::prelude::*;
use crate::api::{AboutMe, BattlesnakeAI, BattlesnakeFactory, MoveOutput};
use crate::outside::move_name;
use crate::types::{direction_name, Direction, GameError, GameState};

verus! {

/// A snake whose every move is to the right.
pub struct ConstantCarter {}

/// The maker of [`ConstantCarter`] snakes.
pub struct ConstantCarterFactory;

impl BattlesnakeAI for ConstantCarter {
    fn name(&self) -> (name: String)
        ensures
            name@ == "constant-carter"@,
    {
        "constant-carter".to_owned()
    }

    fn about(&self) -> (about: AboutMe)
        ensures
            about.apiversion@ == "1"@,
            about.author.is_none(),
            about.color.is_none(),
            about.head.is_none(),
            about.tail.is_none(),
            about.version.is_none(),
    {
        AboutMe::default()
    }

    /// Right, whatever the state, and no shout.
    fn make_move(&self, state: GameState) -> (r: Result<MoveOutput, GameError>)
        ensures
            r matches Ok(out) && out.chosen_move@ == direction_name(Direction::RIGHT)
                && out.shout.is_none(),
    {
        Ok(MoveOutput { chosen_move: move_name(Direction::RIGHT), shout: None })
    }
}

impl BattlesnakeFactory for ConstantCarterFactory {
    type Snake = ConstantCarter;

    fn name(&self) -> (name: String)
        ensures
            name@ == "constant-carter"@,
    {
        "constant-carter".to_owned()
    }

    fn from_wire_game(&self, game: GameState) -> ConstantCarter {
        ConstantCarter {  }
    }

    /// The default, with the author and the colour filled in.
    fn about(&self) -> (about: AboutMe)
        ensures
            about.apiversion@ == "1"@,
            about.author matches Some(a) && a@ == "coreyja"@,
            about.color matches Some(c) && c@ == "#AA66CC"@,
            about.head.is_none(),
            about.tail.is_none(),
            about.version.is_none(),
    {
        let base: AboutMe = AboutMe::default();
        AboutMe {
            apiversion: base.apiversion,
            author: Some("coreyja".to_owned()),
            color: Some("#AA66CC".to_owned()),
            head: base.head,
            tail: base.tail,
            version: base.version,
        }
    }
}

} // verus!
