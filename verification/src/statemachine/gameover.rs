//! The screen of a lost game.

use vstd::prelude::*;
use crate::draw::DrawCommand;
use crate::draw::Message;
use crate::mouse::Mouse;
use crate::statemachine::MainMenuState;
use crate::statemachine::State;
use crate::statemachine::StateView;
use crate::statemachine::Transition;
use crate::statemachine::STATUS_AT;

verus! {

/// The screen of a lost game. It holds nothing.
#[derive(Clone, Copy, Debug, PartialEq, Eq, Structural)]
pub struct GameOverState {}

impl GameOverState {
    pub fn new() -> (state: GameOverState) {
        GameOverState {  }
    }

    /// The line that names the end of the game, and then the command that
    /// sets `colors`, the draw colors in force, again.
    pub fn draw(&self, colors: u16) -> (commands: Vec<DrawCommand>)
        ensures
            commands@ == StateView::GameOver.drawn(colors),
    {
        let mut commands: Vec<DrawCommand> = Vec::new();
        commands.push(
            DrawCommand::Banner { message: Message::GameOver, x: STATUS_AT.0, y: STATUS_AT.1 },
        );
        commands.push(DrawCommand::Colors(colors));
        assert(commands@ =~= StateView::GameOver.drawn(colors));
        commands
    }

    /// A left click leads back to the main menu; without one the screen
    /// stays.
    pub fn update(self, mouse: &Mouse) -> (transition: Transition)
        ensures
            transition@ == StateView::GameOver.next(*mouse),
    {
        if mouse.left_clicked() {
            Transition::Replace(State::MainMenu(MainMenuState::new()))
        } else {
            Transition::Replace(State::GameOver(self))
        }
    }
}

} // verus!
