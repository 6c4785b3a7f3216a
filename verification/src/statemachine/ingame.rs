//! The screen of a running game: the field, its mines and the play clock.

use vstd::prelude::*;
use crate::board::Board;
use crate::board::count_flagged;
use crate::board::count_uncovered;
use crate::board::is_mine;
use crate::board::lemma_count_uncovered_bound;
use crate::draw::DrawCommand;
use crate::draw::Message;
use crate::grid::Grid;
use crate::mouse::Mouse;
use crate::statemachine::State;
use crate::statemachine::StateView;
use crate::statemachine::Transition;
use crate::statemachine::TransitionView;
use crate::timer::Timer;
use crate::timer::TimerView;

verus! {

/// The draw colors of the counters and of the lines of text.
pub const TEXT_COLORS: u16 = 0x03;

/// Where the count of the mines that are left is written.
pub const MINES_LEFT_AT: (i32, i32) = (96, 2);

/// Where the elapsed time is written.
pub const ELAPSED_AT: (i32, i32) = (2, 2);

/// Where the line for the end of the game is written.
pub const STATUS_AT: (i32, i32) = (2, 10);

/// A running game.
#[derive(Clone, Debug)]
pub struct InGameState {
    map: Grid,
    timer: Timer,
    mines: Vec<(usize, usize)>,
}

/// What an `InGameState` stands for in contracts.
pub struct InGameView {
    pub board: Board,
    pub timer: TimerView,
    pub mines: Seq<(usize, usize)>,
}

impl InGameView {
    /// The field is well formed, and the mine set fits it.
    pub open spec fn wf(self) -> bool {
        &&& self.board.wf()
        &&& self.board.fits()
        &&& self.board.accepts(self.mines)
    }

    /// The game is won when every tile but as many as there are mines is
    /// uncovered. Flags have no part in this.
    pub open spec fn won(self) -> bool {
        count_uncovered(self.board.tiles) + self.mines.len() == self.board.tiles.len()
    }

    /// The game is lost when a mine lies uncovered.
    pub open spec fn lost(self) -> bool {
        self.board.stepped_on_mine(self.mines)
    }

    /// Neither won nor lost.
    pub open spec fn active(self) -> bool {
        !self.lost() && !self.won()
    }

    /// The field after this frame's clicks: while the game is active, a left
    /// click reveals and then a right click flags; afterwards clicks do
    /// nothing.
    pub open spec fn clicked(self, mouse: Mouse) -> Board {
        let revealed = if self.active() && mouse.left {
            self.board.left_clicked(self.mines, mouse.x as int, mouse.y as int)
        } else {
            self.board
        };
        if self.active() && mouse.right {
            revealed.right_clicked(mouse.x as int, mouse.y as int)
        } else {
            revealed
        }
    }

    /// The game one frame later. What the clock does goes by the field as it
    /// is after this frame's clicks: if a tile is uncovered and the game is
    /// neither lost nor won, the clock runs and counts the frame; once the
    /// game is lost or won, the clock is frozen.
    pub open spec fn updated(self, mouse: Mouse) -> InGameView {
        let after = InGameView { board: self.clicked(mouse), ..self };
        let timer = if count_uncovered(after.board.tiles) > 0 && after.active() {
            self.timer.started().ticked()
        } else if !after.active() {
            self.timer.stopped()
        } else {
            self.timer
        };
        InGameView { timer, ..after }
    }

    /// The mines that carry no flag yet, if every flag sits on a mine: the
    /// number of mines less the number of flags, and zero if there are more
    /// flags than mines.
    pub open spec fn mines_left(self) -> int {
        if count_flagged(self.board.tiles) <= self.mines.len() {
            self.mines.len() - count_flagged(self.board.tiles)
        } else {
            0
        }
    }

    /// The line for the end of the game.
    pub open spec fn status(self) -> Seq<DrawCommand> {
        let over = if self.lost() {
            seq![DrawCommand::Banner { message: Message::GameOver, x: STATUS_AT.0, y: STATUS_AT.1 }]
        } else {
            Seq::empty()
        };
        if self.won() {
            over.push(DrawCommand::Banner { message: Message::GameWon, x: STATUS_AT.0, y: STATUS_AT.1 })
        } else {
            over
        }
    }

    /// What the screen shows: the field, then the two counters in the text
    /// colors, then the line for the end of the game.
    pub open spec fn picture(self) -> Seq<DrawCommand> {
        self.board.drawn(self.mines) + seq![
            DrawCommand::Colors(TEXT_COLORS),
            DrawCommand::MinesLeft {
                count: self.mines_left() as usize,
                x: MINES_LEFT_AT.0,
                y: MINES_LEFT_AT.1,
            },
            DrawCommand::Elapsed { ticks: self.timer.ticks as u64, x: ELAPSED_AT.0, y: ELAPSED_AT.1 },
        ] + self.status()
    }

    /// What the screen draws when `colors` are the draw colors in force: what
    /// it shows, and then the command that sets `colors` again, in place of
    /// the text colors.
    pub open spec fn drawn(self, colors: u16) -> Seq<DrawCommand> {
        self.picture().push(DrawCommand::Colors(colors))
    }

    /// While the game is not lost, it is won exactly when every tile without
    /// a mine is uncovered.
    pub proof fn lemma_won_means_cleared(self)
        requires
            self.wf(),
            !self.lost(),
        ensures
            self.won() == forall|x: int, y: int|
                self.board.in_bounds(x, y) && !is_mine(self.mines, x, y) ==> !(
                #[trigger] self.board.tile(x, y)).covered,
    {
        self.board.lemma_count_tells_the_win(self.mines);
    }

    /// A mine comes to lie uncovered only by a left click on it: after a
    /// frame the game is lost exactly when it was lost before, or it was
    /// active and the left click met a covered, unflagged tile with a mine.
    /// A right click never loses a game, and neither does a flood, if the
    /// digits are not capped at zero.
    pub proof fn lemma_loss_needs_a_click_on_a_mine(self, mouse: Mouse)
        requires
            self.wf(),
            self.board.digit_radius >= 1,
        ensures
            self.updated(mouse).lost() == (self.lost() || (self.active() && mouse.left && (
            self.board.tile_under(mouse.x as int, mouse.y as int) matches Some(t)
                && self.board.revealable(t.0, t.1) && is_mine(self.mines, t.0, t.1)))),
    {
        let hit = self.board.tile_under(mouse.x as int, mouse.y as int);
        let shown = InGameView {
            board: if self.active() && mouse.left {
                self.board.left_clicked(self.mines, mouse.x as int, mouse.y as int)
            } else {
                self.board
            },
            ..self
        };
        if self.active() && mouse.left && hit.is_some() {
            let t = hit.unwrap();
            self.board.lemma_reveal_steps_on_mine(self.mines, t.0, t.1);
            self.board.lemma_revealed_wf(self.mines, t.0, t.1);
        }
        assert(shown.wf());
        assert(shown.board.tile_under(mouse.x as int, mouse.y as int) == hit);
        if self.active() && mouse.right && hit.is_some() {
            shown.lemma_win_ignores_flags(hit.unwrap().0, hit.unwrap().1);
        }
    }

    /// A frame without a click counts one tick on a game that has begun and
    /// is neither lost nor won, and leaves the field and the mines alone. The
    /// count stands only where it has reached the largest number that the
    /// clock can hold.
    pub proof fn lemma_idle_frame_counts_a_tick(self, mouse: Mouse)
        requires
            !mouse.left,
            !mouse.right,
            self.active(),
            count_uncovered(self.board.tiles) > 0,
            self.timer.ticks < u64::MAX,
        ensures
            self.updated(mouse) == (InGameView {
                timer: TimerView { ticks: self.timer.ticks + 1, running: true },
                ..self
            }),
    {
    }

    /// Flags have no part in winning: a game is won with a flag toggled
    /// exactly when it is won without.
    pub proof fn lemma_win_ignores_flags(self, x: int, y: int)
        requires
            self.wf(),
            self.board.in_bounds(x, y),
        ensures
            (InGameView { board: self.board.toggled(x, y), ..self }).won() == self.won(),
            (InGameView { board: self.board.toggled(x, y), ..self }).lost() == self.lost(),
    {
        self.board.lemma_toggled(x, y);
        let after = self.board.toggled(x, y);
        if self.lost() {
            let i = choose|i: int|
                0 <= i < self.mines.len() && self.board.in_bounds(
                    (#[trigger] self.mines[i]).0 as int,
                    self.mines[i].1 as int,
                ) && !self.board.tile(self.mines[i].0 as int, self.mines[i].1 as int).covered;
            self.board.lemma_index_in_range(self.mines[i].0 as int, self.mines[i].1 as int);
            assert(after.in_bounds(self.mines[i].0 as int, self.mines[i].1 as int) && !after.tile(
                self.mines[i].0 as int,
                self.mines[i].1 as int,
            ).covered);
        }
        if after.stepped_on_mine(self.mines) {
            let i = choose|i: int|
                0 <= i < self.mines.len() && after.in_bounds(
                    (#[trigger] self.mines[i]).0 as int,
                    self.mines[i].1 as int,
                ) && !after.tile(self.mines[i].0 as int, self.mines[i].1 as int).covered;
            self.board.lemma_index_in_range(self.mines[i].0 as int, self.mines[i].1 as int);
            assert(self.board.in_bounds(self.mines[i].0 as int, self.mines[i].1 as int)
                && !self.board.tile(self.mines[i].0 as int, self.mines[i].1 as int).covered);
        }
    }
}

impl View for InGameState {
    type V = InGameView;

    closed spec fn view(&self) -> InGameView {
        InGameView { board: self.map@, timer: self.timer@, mines: self.mines@ }
    }
}

impl InGameState {
    /// A game on `map` with the given mines, its clock at rest.
    pub fn new(map: Grid, mines: Vec<(usize, usize)>) -> (game: InGameState)
        requires
            map.wf(),
            map@.accepts(mines@),
        ensures
            game@ == (InGameView { board: map@, timer: TimerView::zero(), mines: mines@ }),
            game@.wf(),
    {
        InGameState { map, mines, timer: Timer::new() }
    }

    pub fn map(&self) -> (map: &Grid)
        ensures
            map@ == self@.board,
    {
        &self.map
    }

    pub fn timer(&self) -> (timer: &Timer)
        ensures
            timer@ == self@.timer,
    {
        &self.timer
    }

    pub fn mines(&self) -> (mines: &Vec<(usize, usize)>)
        ensures
            mines@ == self@.mines,
    {
        &self.mines
    }

    /// Whether every tile without a mine is uncovered, by the count.
    pub fn has_found_all_mines(&self) -> (won: bool)
        requires
            self@.wf(),
        ensures
            won == self@.won(),
            won == (count_uncovered(self@.board.tiles) == self@.board.tiles.len() - self@.mines.len()),
    {
        proof {
            lemma_count_uncovered_bound(self@.board.tiles);
        }
        let total: usize = self.map.width() * self.map.height();
        total - self.map.count_uncovered_tiles() == self.mines.len()
    }

    /// The number of mines less the number of flags, and zero if there are
    /// more flags than mines.
    pub fn count_remaining_mines(&self) -> (left: usize)
        ensures
            left == self@.mines_left(),
    {
        let flagged = self.map.count_flagged_tiles();
        if flagged <= self.mines.len() {
            self.mines.len() - flagged
        } else {
            0
        }
    }

    /// Whether a mine lies uncovered.
    pub fn has_lost(&self) -> (lost: bool)
        requires
            self@.wf(),
        ensures
            lost == self@.lost(),
    {
        self.map.has_stepped_on_mine(&self.mines)
    }

    /// What the screen draws when `colors` are the draw colors in force. The
    /// screen sets the text colors for its counters, and `colors` again when
    /// it is done.
    pub fn draw(&self, colors: u16) -> (commands: Vec<DrawCommand>)
        requires
            self@.wf(),
        ensures
            commands@ == self@.drawn(colors),
    {
        let mut commands = self.map.draw(&self.mines);
        let left = self.count_remaining_mines();
        commands.push(DrawCommand::Colors(TEXT_COLORS));
        commands.push(DrawCommand::MinesLeft { count: left, x: MINES_LEFT_AT.0, y: MINES_LEFT_AT.1 });
        commands.push(
            DrawCommand::Elapsed { ticks: self.timer.get(), x: ELAPSED_AT.0, y: ELAPSED_AT.1 },
        );
        if self.map.has_stepped_on_mine(&self.mines) {
            commands.push(
                DrawCommand::Banner { message: Message::GameOver, x: STATUS_AT.0, y: STATUS_AT.1 },
            );
        }
        if self.has_found_all_mines() {
            commands.push(
                DrawCommand::Banner { message: Message::GameWon, x: STATUS_AT.0, y: STATUS_AT.1 },
            );
        }
        commands.push(DrawCommand::Colors(colors));
        assert(commands@ =~= self@.drawn(colors));
        commands
    }

    /// One frame of the game. The screen stays: the transition puts the
    /// game back on the stack as it is after the frame.
    pub fn update(self, mouse: &Mouse) -> (transition: Transition)
        requires
            self@.wf(),
        ensures
            transition@ == TransitionView::Replace(StateView::InGame(self@.updated(*mouse))),
            self@.updated(*mouse).wf(),
    {
        let mut game = self;
        let won = game.has_found_all_mines();
        if !game.map.has_stepped_on_mine(&game.mines) && !won {
            if mouse.left_clicked() {
                let (x, y) = mouse.coordinates();
                game.map.handle_left_click(x, y, &game.mines);
            }
            if mouse.right_clicked() {
                let (x, y) = mouse.coordinates();
                game.map.handle_right_click(x, y);
            }
        }
        let over = game.map.has_stepped_on_mine(&game.mines) || game.has_found_all_mines();
        if game.map.has_started() && !over {
            game.timer.start();
            game.timer.update();
        } else if over {
            game.timer.stop();
        }
        Transition::Replace(State::InGame(game))
    }
}

} // verus!
