//! The screen that the machine starts with.

use vstd::prelude::*;
use crate::draw::DrawCommand;
use crate::mouse::Mouse;
use crate::statemachine::MainMenuState;
use crate::statemachine::State;
use crate::statemachine::StateView;
use crate::statemachine::Transition;

verus! {

/// The first screen. It holds nothing and gives way to the main menu.
#[derive(Clone, Copy, Debug, PartialEq, Eq, Structural)]
pub struct InitialState {}

impl InitialState {
    pub fn new() -> (state: InitialState) {
        InitialState {  }
    }

    /// The screen draws nothing; its one command sets `colors`, the draw
    /// colors in force, again.
    pub fn draw(&self, colors: u16) -> (commands: Vec<DrawCommand>)
        ensures
            commands@ == StateView::Initial.drawn(colors),
    {
        let mut commands: Vec<DrawCommand> = Vec::new();
        commands.push(DrawCommand::Colors(colors));
        assert(commands@ =~= StateView::Initial.drawn(colors));
        commands
    }

    /// The first frame: the main menu takes the screen's place.
    pub fn update(self, mouse: &Mouse) -> (transition: Transition)
        ensures
            transition@ == StateView::Initial.next(*mouse),
    {
        Transition::Replace(State::MainMenu(MainMenuState::new()))
    }
}

} // verus!
