//! The pause overlay, which lies on top of the screen that it pauses.

use vstd::prelude::*;
use crate::draw::DrawCommand;
use crate::draw::Message;
use crate::mouse::Mouse;
use crate::statemachine::State;
use crate::statemachine::StateView;
use crate::statemachine::Transition;
use crate::statemachine::STATUS_AT;

verus! {

/// The pause overlay. It holds nothing: the paused screen lies beneath it
/// on the stack, untouched.
#[derive(Clone, Copy, Debug, PartialEq, Eq, Structural)]
pub struct PauseState {}

impl PauseState {
    pub fn new() -> (state: PauseState) {
        PauseState {  }
    }

    /// The line that says that the game is paused, and then the command
    /// that sets `colors`, the draw colors in force, again.
    pub fn draw(&self, colors: u16) -> (commands: Vec<DrawCommand>)
        ensures
            commands@ == StateView::Pause.drawn(colors),
    {
        let mut commands: Vec<DrawCommand> = Vec::new();
        commands.push(
            DrawCommand::Banner { message: Message::Paused, x: STATUS_AT.0, y: STATUS_AT.1 },
        );
        commands.push(DrawCommand::Colors(colors));
        assert(commands@ =~= StateView::Pause.drawn(colors));
        commands
    }

    /// A left click dismisses the overlay; without one it stays.
    pub fn update(self, mouse: &Mouse) -> (transition: Transition)
        ensures
            transition@ == StateView::Pause.next(*mouse),
    {
        if mouse.left_clicked() {
            Transition::Pop
        } else {
            Transition::Replace(State::Pause(self))
        }
    }
}

} // verus!
