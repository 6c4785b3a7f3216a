//! The main menu, which waits for a click to set up a game.

use vstd::prelude::*;
use crate::draw::DrawCommand;
use crate::draw::Message;
use crate::mouse::Mouse;
use crate::statemachine::PreGameState;
use crate::statemachine::State;
use crate::statemachine::StateView;
use crate::statemachine::Transition;
use crate::statemachine::TITLE_AT;
use crate::statemachine::HINT_AT;

verus! {

/// The main menu. It counts the frames that it has been shown for; the count
/// seeds the field of the game that a click sets up.
#[derive(Clone, Copy, Debug, PartialEq, Eq, Structural)]
pub struct MainMenuState {
    pub frames: u64,
}

impl MainMenuState {
    pub fn new() -> (state: MainMenuState)
        ensures
            state.frames == 0,
    {
        MainMenuState { frames: 0 }
    }

    /// The title and the hint to click, and then the command that sets
    /// `colors`, the draw colors in force, again.
    pub fn draw(&self, colors: u16) -> (commands: Vec<DrawCommand>)
        ensures
            commands@ == StateView::MainMenu(self.frames).drawn(colors),
    {
        let mut commands: Vec<DrawCommand> = Vec::new();
        commands.push(DrawCommand::Banner { message: Message::Title, x: TITLE_AT.0, y: TITLE_AT.1 });
        commands.push(
            DrawCommand::Banner { message: Message::ClickToStart, x: HINT_AT.0, y: HINT_AT.1 },
        );
        commands.push(DrawCommand::Colors(colors));
        assert(commands@ =~= StateView::MainMenu(self.frames).drawn(colors));
        commands
    }

    /// A left click sets up a covered field, seeded with the frame count;
    /// without one the menu stays and counts the frame.
    pub fn update(self, mouse: &Mouse) -> (transition: Transition)
        ensures
            transition@ == StateView::MainMenu(self.frames).next(*mouse),
            transition@.wf(),
    {
        if mouse.left_clicked() {
            Transition::Replace(State::PreGame(PreGameState::new(self.frames)))
        } else {
            Transition::Replace(
                State::MainMenu(MainMenuState { frames: self.frames.wrapping_add(1) }),
            )
        }
    }
}

} // verus!
