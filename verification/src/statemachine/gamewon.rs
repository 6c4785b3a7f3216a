//! The screen of a won game.

use vstd::prelude::*;
use crate::draw::DrawCommand;
use crate::draw::Message;
use crate::mouse::Mouse;
use crate::statemachine::MainMenuState;
use crate::statemachine::State;
use crate::statemachine::StateView;
use crate::statemachine::Transition;
use crate::statemachine::STATUS_AT;

verus! {

/// The screen of a won game. It holds nothing.
#[derive(Clone, Copy, Debug, PartialEq, Eq, Structural)]
pub struct GameWonState {}

impl GameWonState {
    pub fn new() -> (state: GameWonState) {
        GameWonState {  }
    }

    /// The line that names the end of the game, and then the command that
    /// sets `colors`, the draw colors in force, again.
    pub fn draw(&self, colors: u16) -> (commands: Vec<DrawCommand>)
        ensures
            commands@ == StateView::GameWon.drawn(colors),
    {
        let mut commands: Vec<DrawCommand> = Vec::new();
        commands.push(
            DrawCommand::Banner { message: Message::GameWon, x: STATUS_AT.0, y: STATUS_AT.1 },
        );
        commands.push(DrawCommand::Colors(colors));
        assert(commands@ =~= StateView::GameWon.drawn(colors));
        commands
    }

    /// A left click leads back to the main menu; without one the screen
    /// stays.
    pub fn update(self, mouse: &Mouse) -> (transition: Transition)
        ensures
            transition@ == StateView::GameWon.next(*mouse),
    {
        if mouse.left_clicked() {
            Transition::Replace(State::MainMenu(MainMenuState::new()))
        } else {
            Transition::Replace(State::GameWon(self))
        }
    }
}

} // verus!
