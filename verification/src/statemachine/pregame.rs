//! The screen before the first reveal: a covered field without mines.

use vstd::prelude::*;
use crate::board::Board;
use crate::draw::DrawCommand;
use crate::grid::Grid;
use crate::mines::MINES_COUNT;
use crate::mouse::Mouse;
use crate::statemachine::InGameState;
use crate::statemachine::State;
use crate::statemachine::StateView;
use crate::statemachine::Transition;
use crate::statemachine::FIELD_HEIGHT;
use crate::statemachine::FIELD_ORIGIN;
use crate::statemachine::FIELD_WIDTH;

verus! {

/// A field that waits for its first reveal. The mines are laid when the tile
/// of that reveal is known, so that it holds none.
#[derive(Clone, Debug)]
pub struct PreGameState {
    map: Grid,
}

impl View for PreGameState {
    type V = Board;

    closed spec fn view(&self) -> Board {
        self.map@
    }
}

impl PreGameState {
    /// A covered field of the standard size.
    pub fn new(seed: u64) -> (state: PreGameState)
        ensures
            state@ == Board::fresh(
                seed,
                FIELD_WIDTH as int,
                FIELD_HEIGHT as int,
                (FIELD_ORIGIN.0 as int, FIELD_ORIGIN.1 as int),
            ),
            StateView::PreGame(state@).wf(),
    {
        PreGameState { map: Grid::from_random_seed(seed, FIELD_WIDTH, FIELD_HEIGHT, FIELD_ORIGIN) }
    }

    /// A screen for a field that was made elsewhere.
    pub fn with_map(map: Grid) -> (state: PreGameState)
        requires
            map.wf(),
        ensures
            state@ == map@,
    {
        PreGameState { map }
    }

    pub fn map(&self) -> (map: &Grid)
        ensures
            map@ == self@,
    {
        &self.map
    }

    /// The field, drawn as one without mines. The last command sets
    /// `colors`, the draw colors in force, again.
    pub fn draw(&self, colors: u16) -> (commands: Vec<DrawCommand>)
        requires
            StateView::PreGame(self@).wf(),
        ensures
            commands@ == StateView::PreGame(self@).drawn(colors),
    {
        let none: Vec<(usize, usize)> = Vec::new();
        let mut commands = self.map.draw(&none);
        commands.push(DrawCommand::Colors(colors));
        commands
    }

    /// A left click on a tile starts the game: the mines are laid away from
    /// that tile, and the click is the game's first. Anything else leaves
    /// the screen as it is.
    pub fn update(self, mouse: &Mouse) -> (transition: Transition)
        requires
            StateView::PreGame(self@).wf(),
        ensures
            transition@ == StateView::PreGame(self@).next(*mouse),
            transition@.wf(),
    {
        if mouse.left_clicked() {
            let (px, py) = mouse.coordinates();
            match self.map.tile_under(px, py) {
                Some(first) => {
                    let mines = self.map.place_mines(MINES_COUNT, first);
                    let game = InGameState::new(self.map, mines);
                    return game.update(mouse);
                },
                None => {},
            }
        }
        Transition::Replace(State::PreGame(self))
    }
}

} // verus!
